//! The walk through the children of the node `reserved-memory` of a device
//! tree: the regions that are reserved at a fixed place, and those that are
//! to be placed while the regions of memory are gathered.
use vstd::prelude::*;
use crate::dtb::be32;
use crate::dtb::nop_end;
use crate::dtb::read_be32;
use crate::dtb::word_of;
use crate::dtb::DtbError;
use crate::dtb::DtbParser;
use crate::dtb::FDT_BEGIN_NODE;
use crate::dtb::FDT_END;
use crate::dtb::FDT_END_NODE;
use crate::dtb::FDT_NOP;
use crate::dtb::FDT_PROP;
use crate::dtb_walk::area_of;
use crate::dtb_walk::area_wf;
use crate::dtb_walk::bytes_are;
use crate::dtb_walk::cells_at;
use crate::dtb_walk::kind_of;
use crate::dtb_walk::name_reserved_memory;
use crate::dtb_walk::prop_kind;
use crate::dtb_walk::read_regs;
use crate::dtb_walk::read_string_in;
use crate::dtb_walk::read_token;
use crate::dtb_walk::skip_nops;
use crate::dtb_walk::string_in;
use crate::dtb_walk::token_at;
use crate::dtb_walk::Area;
use crate::dtb_walk::PropKind;
use crate::dtb_walk::PropertyData;
use crate::layout::round_up;

verus! {

/// What a child of `reserved-memory` says of its region: where it lies, or
/// how it is to be placed.
#[derive(Clone, Copy, PartialEq, Eq, Debug, Structural)]
pub enum ReservedMemoryData {
    Static { reg: PropertyData },
    Dynamic {
        size: Option<PropertyData>,
        alignment: Option<PropertyData>,
        alloc_ranges: Option<PropertyData>,
    },
}

/// What the walk knows of a node: nothing, that it is `reserved-memory`
/// with the numbers of cells of its children, or that it is a child of
/// `reserved-memory`.
#[derive(Clone, Copy, PartialEq, Eq, Debug, Structural)]
pub enum ReservedMemoryNode {
    Unused,
    Parent { address_cells: u32, size_cells: u32 },
    Child { data: Option<ReservedMemoryData> },
}

/// A region of reserved memory, as the tree gives it.
#[derive(Clone, PartialEq, Eq, Debug)]
pub enum ReservedMemory {
    /// The region of `size` bytes at `address`.
    Static { address: usize, size: usize },
    /// A region of `size` bytes that is to be placed, aligned to
    /// `alignment` if that is given, within the first of `alloc_ranges` that
    /// has room for it, or anywhere where there is no range.
    Dynamic { size: usize, alignment: Option<usize>, alloc_ranges: Vec<(usize, usize)> },
}

/// A region of reserved memory, as a value of specifications.
pub enum ReservedMemoryView {
    Static { address: usize, size: usize },
    Dynamic { size: usize, alignment: Option<usize>, alloc_ranges: Seq<(usize, usize)> },
}

impl View for ReservedMemory {
    type V = ReservedMemoryView;

    open spec fn view(&self) -> ReservedMemoryView {
        match self {
            ReservedMemory::Static { address, size } => ReservedMemoryView::Static {
                address: *address,
                size: *size,
            },
            ReservedMemory::Dynamic { size, alignment, alloc_ranges } => ReservedMemoryView::Dynamic {
                size: *size,
                alignment: *alignment,
                alloc_ranges: alloc_ranges@,
            },
        }
    }
}

/// The regions of a list, as values of specifications.
pub open spec fn views(s: Seq<ReservedMemory>) -> Seq<ReservedMemoryView> {
    s.map_values(|r: ReservedMemory| r@)
}

/// What a walk carries from property to property of a node.
pub struct PropsState {
    pub pos: int,
    pub node: ReservedMemoryNode,
    pub found: bool,
    pub depth: Option<u32>,
}

/// The node after its first property has told what it is: a child of
/// `reserved-memory` where its parent is that node, and `reserved-memory`
/// itself where it has that name.
pub open spec fn settle(
    node: ReservedMemoryNode,
    parent: Option<ReservedMemoryNode>,
    reserved_name: bool,
) -> ReservedMemoryNode {
    if node is Unused {
        if parent is Some && parent->0 is Parent {
            ReservedMemoryNode::Child { data: None }
        } else if reserved_name {
            ReservedMemoryNode::Parent { address_cells: 2, size_cells: 1 }
        } else {
            node
        }
    } else {
        node
    }
}

/// The node after the property of the kind `kind` whose value of `len`
/// bytes lies at `value`, and whether the property gives a region. Fails
/// where a child gives `reg` twice or beside the properties of a region that
/// is placed at will, or one of those twice.
pub open spec fn apply_prop(
    b: Seq<u8>,
    a: Area,
    node: ReservedMemoryNode,
    kind: PropKind,
    value: int,
    len: u32,
) -> Result<(ReservedMemoryNode, bool), DtbError> {
    let here = Some(PropertyData { head: value as usize, len });
    match node {
        ReservedMemoryNode::Unused => Ok((node, false)),
        ReservedMemoryNode::Parent { address_cells, size_cells } => if kind == PropKind::AddressCells {
            if value + 4 > a.struct_end {
                Err(DtbError::Truncated)
            } else {
                Ok((ReservedMemoryNode::Parent { address_cells: be32(b, value), size_cells }, false))
            }
        } else if kind == PropKind::SizeCells {
            if value + 4 > a.struct_end {
                Err(DtbError::Truncated)
            } else {
                Ok((ReservedMemoryNode::Parent { address_cells, size_cells: be32(b, value) }, false))
            }
        } else {
            Ok((node, false))
        },
        ReservedMemoryNode::Child { data } => if kind == PropKind::Reg {
            if data is Some {
                Err(DtbError::DuplicateProperty)
            } else if len != 0 {
                Ok(
                    (
                        ReservedMemoryNode::Child {
                            data: Some(
                                ReservedMemoryData::Static {
                                    reg: PropertyData { head: value as usize, len },
                                },
                            ),
                        },
                        true,
                    ),
                )
            } else {
                Ok((node, false))
            }
        } else if kind == PropKind::Size || kind == PropKind::Alignment || kind
            == PropKind::AllocRanges {
            match data {
                Some(ReservedMemoryData::Static { reg }) => Err(DtbError::DuplicateProperty),
                Some(ReservedMemoryData::Dynamic { size, alignment, alloc_ranges }) => fill(
                    kind,
                    size,
                    alignment,
                    alloc_ranges,
                    here,
                ),
                None => fill(kind, None, None, None, here),
            }
        } else {
            Ok((node, false))
        },
    }
}

/// The child after one of `size`, `alignment` and `alloc-ranges` has been given.
pub open spec fn fill(
    kind: PropKind,
    size: Option<PropertyData>,
    alignment: Option<PropertyData>,
    alloc_ranges: Option<PropertyData>,
    here: Option<PropertyData>,
) -> Result<(ReservedMemoryNode, bool), DtbError> {
    if kind == PropKind::Size {
        if size is Some {
            Err(DtbError::DuplicateProperty)
        } else {
            Ok(
                (
                    ReservedMemoryNode::Child {
                        data: Some(
                            ReservedMemoryData::Dynamic { size: here, alignment, alloc_ranges },
                        ),
                    },
                    true,
                ),
            )
        }
    } else if kind == PropKind::Alignment {
        if alignment is Some {
            Err(DtbError::DuplicateProperty)
        } else {
            Ok(
                (
                    ReservedMemoryNode::Child {
                        data: Some(
                            ReservedMemoryData::Dynamic { size, alignment: here, alloc_ranges },
                        ),
                    },
                    true,
                ),
            )
        }
    } else {
        if alloc_ranges is Some {
            Err(DtbError::DuplicateProperty)
        } else {
            Ok(
                (
                    ReservedMemoryNode::Child {
                        data: Some(
                            ReservedMemoryData::Dynamic { size, alignment, alloc_ranges: here },
                        ),
                    },
                    true,
                ),
            )
        }
    }
}

/// Applies a property to a node.
pub fn apply_property(
    bytes: &Vec<u8>,
    area: &Area,
    node: ReservedMemoryNode,
    kind: PropKind,
    value: usize,
    len: u32,
) -> (r: Result<(ReservedMemoryNode, bool), DtbError>)
    requires
        area_wf(bytes@, *area),
        value <= area.struct_end,
    ensures
        r == apply_prop(bytes@, *area, node, kind, value as int, len),
{
    let here = Some(PropertyData { head: value, len });
    match node {
        ReservedMemoryNode::Unused => Ok((node, false)),
        ReservedMemoryNode::Parent { address_cells, size_cells } => {
            if kind == PropKind::AddressCells {
                if area.struct_end - value < 4 {
                    Err(DtbError::Truncated)
                } else {
                    Ok(
                        (
                            ReservedMemoryNode::Parent {
                                address_cells: read_be32(bytes, value),
                                size_cells,
                            },
                            false,
                        ),
                    )
                }
            } else if kind == PropKind::SizeCells {
                if area.struct_end - value < 4 {
                    Err(DtbError::Truncated)
                } else {
                    Ok(
                        (
                            ReservedMemoryNode::Parent {
                                address_cells,
                                size_cells: read_be32(bytes, value),
                            },
                            false,
                        ),
                    )
                }
            } else {
                Ok((node, false))
            }
        },
        ReservedMemoryNode::Child { data } => {
            if kind == PropKind::Reg {
                if data.is_some() {
                    Err(DtbError::DuplicateProperty)
                } else if len != 0 {
                    Ok(
                        (
                            ReservedMemoryNode::Child {
                                data: Some(
                                    ReservedMemoryData::Static {
                                        reg: PropertyData { head: value, len },
                                    },
                                ),
                            },
                            true,
                        ),
                    )
                } else {
                    Ok((node, false))
                }
            } else if kind == PropKind::Size || kind == PropKind::Alignment || kind
                == PropKind::AllocRanges {
                match data {
                    Some(ReservedMemoryData::Static { reg }) => Err(DtbError::DuplicateProperty),
                    Some(ReservedMemoryData::Dynamic { size, alignment, alloc_ranges }) => fill_slot(
                        kind,
                        size,
                        alignment,
                        alloc_ranges,
                        here,
                    ),
                    None => fill_slot(kind, None, None, None, here),
                }
            } else {
                Ok((node, false))
            }
        },
    }
}

/// Gives a child one of `size`, `alignment` and `alloc-ranges`.
pub fn fill_slot(
    kind: PropKind,
    size: Option<PropertyData>,
    alignment: Option<PropertyData>,
    alloc_ranges: Option<PropertyData>,
    here: Option<PropertyData>,
) -> (r: Result<(ReservedMemoryNode, bool), DtbError>)
    ensures
        r == fill(kind, size, alignment, alloc_ranges, here),
{
    if kind == PropKind::Size {
        if size.is_some() {
            Err(DtbError::DuplicateProperty)
        } else {
            Ok(
                (
                    ReservedMemoryNode::Child {
                        data: Some(
                            ReservedMemoryData::Dynamic { size: here, alignment, alloc_ranges },
                        ),
                    },
                    true,
                ),
            )
        }
    } else if kind == PropKind::Alignment {
        if alignment.is_some() {
            Err(DtbError::DuplicateProperty)
        } else {
            Ok(
                (
                    ReservedMemoryNode::Child {
                        data: Some(
                            ReservedMemoryData::Dynamic { size, alignment: here, alloc_ranges },
                        ),
                    },
                    true,
                ),
            )
        }
    } else {
        if alloc_ranges.is_some() {
            Err(DtbError::DuplicateProperty)
        } else {
            Ok(
                (
                    ReservedMemoryNode::Child {
                        data: Some(
                            ReservedMemoryData::Dynamic { size, alignment, alloc_ranges: here },
                        ),
                    },
                    true,
                ),
            )
        }
    }
}

/// What the walk carries behind the property whose token lies at `pos`.
/// Every property of `reserved-memory` marks the node as found and sets the
/// depth to 1; a property of another node takes the limit of the depth away.
#[verifier::opaque]
pub open spec fn reserved_prop(
    b: Seq<u8>,
    a: Area,
    s: PropsState,
    parent: Option<ReservedMemoryNode>,
    reserved_name: bool,
) -> Result<PropsState, DtbError> {
    let pos = s.pos;
    let len = be32(b, pos + 4);
    let value = pos + 12;
    let next = value + round_up(len as int, 4);
    if pos + 12 > a.struct_end || next > a.struct_end {
        Err(DtbError::Truncated)
    } else {
        match string_in(b, a.strings_start + be32(b, pos + 8), a.strings_end as int) {
            None => Err(DtbError::BadName),
            Some(name) => match apply_prop(
                b,
                a,
                settle(s.node, parent, reserved_name),
                kind_of(name),
                value,
                len,
            ) {
                Err(e) => Err(e),
                Ok(applied) => Ok(
                    PropsState {
                        pos: next,
                        node: applied.0,
                        found: s.found || reserved_name || applied.1,
                        depth: if reserved_name {
                            Some(1u32)
                        } else {
                            None
                        },
                    },
                ),
            },
        }
    }
}

/// What the walk carries, as the walk holds it.
#[derive(Clone, Copy)]
pub struct Props {
    pub pos: usize,
    pub node: ReservedMemoryNode,
    pub found: bool,
    pub depth: Option<u32>,
}

impl View for Props {
    type V = PropsState;

    open spec fn view(&self) -> PropsState {
        PropsState { pos: self.pos as int, node: self.node, found: self.found, depth: self.depth }
    }
}

/// Reads the property whose token lies at `s.pos`.
pub fn parse_reserved_prop(
    bytes: &Vec<u8>,
    area: &Area,
    s: Props,
    parent: Option<ReservedMemoryNode>,
    reserved_name: bool,
) -> (r: Result<Props, DtbError>)
    requires
        area_wf(bytes@, *area),
        s.pos <= area.struct_end,
    ensures
        match r {
            Ok(t) => reserved_prop(bytes@, *area, s@, parent, reserved_name) == Ok::<
                PropsState,
                DtbError,
            >(t@) && s.pos + 12 <= t.pos <= area.struct_end,
            Err(e) => reserved_prop(bytes@, *area, s@, parent, reserved_name) == Err::<
                PropsState,
                DtbError,
            >(e),
        },
{
    reveal(reserved_prop);
    let total = bytes.len();
    let pos = s.pos;
    if area.struct_end - pos < 12 {
        return Err(DtbError::Truncated);
    }
    let len = read_be32(bytes, pos + 4);
    let name_offset = read_be32(bytes, pos + 8);
    let value = pos + 12;
    let padded: usize = match crate::layout::next_multiple_of(len as usize, 4) {
        Some(p) => p,
        None => {
            return Err(DtbError::Truncated);
        },
    };
    if padded > area.struct_end - value {
        return Err(DtbError::Truncated);
    }
    let next = value + padded;
    if name_offset as usize > total - area.strings_start {
        return Err(DtbError::BadName);
    }
    let name_start = area.strings_start + name_offset as usize;
    let name_len = match read_string_in(bytes, name_start, area.strings_end) {
        Some(n) => n,
        None => {
            return Err(DtbError::BadName);
        },
    };
    let kind = prop_kind(bytes, name_start, name_len);
    let parent_is_reserved = match parent {
        Some(ReservedMemoryNode::Parent { address_cells, size_cells }) => true,
        _ => false,
    };
    let settled = match s.node {
        ReservedMemoryNode::Unused => {
            if parent_is_reserved {
                ReservedMemoryNode::Child { data: None }
            } else if reserved_name {
                ReservedMemoryNode::Parent { address_cells: 2, size_cells: 1 }
            } else {
                s.node
            }
        },
        _ => s.node,
    };
    match apply_property(bytes, area, settled, kind, value, len) {
        Err(e) => Err(e),
        Ok(applied) => Ok(
            Props {
                pos: next,
                node: applied.0,
                found: s.found || reserved_name || applied.1,
                depth: if reserved_name {
                    Some(1u32)
                } else {
                    None
                },
            },
        ),
    }
}

/// What the walk carries behind the properties of a node.
#[verifier::opaque]
pub open spec fn reserved_props(
    b: Seq<u8>,
    a: Area,
    s: PropsState,
    parent: Option<ReservedMemoryNode>,
    reserved_name: bool,
) -> Result<PropsState, DtbError>
    decreases a.struct_end - s.pos,
{
    match token_at(b, a, s.pos) {
        None => Err(DtbError::Truncated),
        Some(t) => if t == FDT_NOP {
            reserved_props(b, a, PropsState { pos: s.pos + 4, ..s }, parent, reserved_name)
        } else if t == FDT_PROP {
            match reserved_prop(b, a, s, parent, reserved_name) {
                Err(e) => Err(e),
                Ok(step) => if s.pos < step.pos <= a.struct_end {
                    reserved_props(b, a, step, parent, reserved_name)
                } else {
                    Err(DtbError::Truncated)
                },
            }
        } else if t == FDT_BEGIN_NODE || t == FDT_END_NODE {
            Ok(s)
        } else {
            Err(DtbError::UnexpectedToken)
        },
    }
}

/// Reads the properties of a node.
pub fn parse_reserved_props(
    bytes: &Vec<u8>,
    area: &Area,
    start: Props,
    parent: Option<ReservedMemoryNode>,
    reserved_name: bool,
) -> (r: Result<Props, DtbError>)
    requires
        area_wf(bytes@, *area),
    ensures
        match r {
            Ok(t) => reserved_props(bytes@, *area, start@, parent, reserved_name) == Ok::<
                PropsState,
                DtbError,
            >(t@) && start.pos <= t.pos <= area.struct_end,
            Err(e) => reserved_props(bytes@, *area, start@, parent, reserved_name) == Err::<
                PropsState,
                DtbError,
            >(e),
        },
{
    reveal(reserved_props);
    let mut s = start;
    loop
        invariant
            area_wf(bytes@, *area),
            start.pos <= s.pos,
            reserved_props(bytes@, *area, s@, parent, reserved_name) == reserved_props(
                bytes@,
                *area,
                start@,
                parent,
                reserved_name,
            ),
        decreases area.struct_end - s.pos,
    {
        reveal(reserved_props);
        let token = match read_token(bytes, area, s.pos) {
            Some(t) => t,
            None => {
                return Err(DtbError::Truncated);
            },
        };
        if token == FDT_NOP {
            s = Props { pos: s.pos + 4, node: s.node, found: s.found, depth: s.depth };
        } else if token == FDT_PROP {
            match parse_reserved_prop(bytes, area, s, parent, reserved_name) {
                Err(e) => {
                    return Err(e);
                },
                Ok(step) => {
                    s = step;
                },
            }
        } else if token == FDT_BEGIN_NODE || token == FDT_END_NODE {
            return Ok(s);
        } else {
            return Err(DtbError::UnexpectedToken);
        }
    }
}

/// The pairs of an address and a size that the `len - consumed` last bytes
/// of the property at `head` hold, behind the pairs `acc`.
#[verifier::opaque]
pub open spec fn pairs(
    b: Seq<u8>,
    a: Area,
    head: int,
    len: int,
    address_cells: u32,
    size_cells: u32,
    consumed: int,
    acc: Seq<(usize, usize)>,
) -> Result<Seq<(usize, usize)>, DtbError>
    decreases
        (if consumed < len {
            len - consumed
        } else {
            0
        }),
{
    let stride = 4 * (address_cells + size_cells);
    let addr = cells_at(b, head + consumed, address_cells, a.struct_end as int);
    let size = cells_at(b, head + consumed + 4 * address_cells, size_cells, a.struct_end as int);
    if consumed >= len {
        Ok(acc)
    } else if address_cells > 2 || size_cells > 2 || stride == 0 {
        Err(DtbError::BadCells)
    } else if addr is None || size is None {
        Err(DtbError::Truncated)
    } else {
        pairs(
            b,
            a,
            head,
            len,
            address_cells,
            size_cells,
            consumed + stride,
            acc.push((word_of(addr->0), word_of(size->0))),
        )
    }
}

/// Reads the pairs of an address and a size of a property.
pub fn read_pairs(
    bytes: &Vec<u8>,
    area: &Area,
    head: usize,
    len: u32,
    address_cells: u32,
    size_cells: u32,
) -> (r: Result<Vec<(usize, usize)>, DtbError>)
    requires
        area_wf(bytes@, *area),
    ensures
        match r {
            Ok(list) => pairs(
                bytes@,
                *area,
                head as int,
                len as int,
                address_cells,
                size_cells,
                0,
                Seq::empty(),
            ) == Ok::<Seq<(usize, usize)>, DtbError>(list@),
            Err(e) => pairs(
                bytes@,
                *area,
                head as int,
                len as int,
                address_cells,
                size_cells,
                0,
                Seq::empty(),
            ) == Err::<Seq<(usize, usize)>, DtbError>(e),
        },
{
    reveal(pairs);
    let total = bytes.len();
    let mut out: Vec<(usize, usize)> = Vec::new();
    let mut consumed: usize = 0;
    while consumed < len as usize
        invariant
            area_wf(bytes@, *area),
            total == bytes@.len(),
            pairs(
                bytes@,
                *area,
                head as int,
                len as int,
                address_cells,
                size_cells,
                consumed as int,
                out@,
            ) == pairs(
                bytes@,
                *area,
                head as int,
                len as int,
                address_cells,
                size_cells,
                0,
                Seq::empty(),
            ),
        decreases
            (if consumed < len {
                len - consumed
            } else {
                0
            }),
    {
        reveal(pairs);
        if address_cells > 2 || size_cells > 2 || (address_cells == 0 && size_cells == 0) {
            return Err(DtbError::BadCells);
        }
        let stride: usize = 4 * (address_cells as usize + size_cells as usize);
        if head > total || consumed > total - head {
            return Err(DtbError::Truncated);
        }
        let at = head + consumed;
        let addr = match read_regs(bytes, at, address_cells, area.struct_end) {
            Some(x) => x,
            None => {
                return Err(DtbError::Truncated);
            },
        };
        let size = match read_regs(
            bytes,
            at + 4 * (address_cells as usize),
            size_cells,
            area.struct_end,
        ) {
            Some(x) => x,
            None => {
                return Err(DtbError::Truncated);
            },
        };
        out.push((#[verifier::truncate] (addr as usize), #[verifier::truncate] (size as usize)));
        consumed = consumed + stride;
    }
    Ok(out)
}

/// The regions `acc`, and behind them the regions that lie at the places `list`.
pub open spec fn with_statics(acc: Seq<ReservedMemoryView>, list: Seq<(usize, usize)>) -> Seq<
    ReservedMemoryView,
> {
    acc + list.map_values(
        |p: (usize, usize)| ReservedMemoryView::Static { address: p.0, size: p.1 },
    )
}

/// What a node that was found adds to the regions `acc`. A child of
/// `reserved-memory` with a `reg` property adds the regions of that
/// property; one with a `size` property adds a region that is to be placed.
/// Every other node adds nothing. Fails where an address or a size has more
/// than two cells, and where the length of a property does not fit the
/// numbers of cells.
#[verifier::opaque]
pub open spec fn emitted(
    b: Seq<u8>,
    a: Area,
    node: ReservedMemoryNode,
    parent: Option<ReservedMemoryNode>,
    acc: Seq<ReservedMemoryView>,
) -> Result<Seq<ReservedMemoryView>, DtbError> {
    match node {
        ReservedMemoryNode::Child { data: Some(d) } => match parent {
            Some(ReservedMemoryNode::Parent { address_cells, size_cells }) => if address_cells > 2
                || size_cells > 2 {
                Err(DtbError::BadCells)
            } else {
                match d {
                    ReservedMemoryData::Static { reg } => if address_cells + size_cells == 0 {
                        Err(DtbError::BadCells)
                    } else if reg.len == 0 || reg.len as int % (4 * (address_cells + size_cells))
                        != 0 {
                        Err(DtbError::BadLength)
                    } else {
                        match pairs(
                            b,
                            a,
                            reg.head as int,
                            reg.len as int,
                            address_cells,
                            size_cells,
                            0,
                            Seq::empty(),
                        ) {
                            Err(e) => Err(e),
                            Ok(list) => Ok(with_statics(acc, list)),
                        }
                    },
                    ReservedMemoryData::Dynamic { size, alignment, alloc_ranges } => placed(
                        b,
                        a,
                        address_cells,
                        size_cells,
                        size,
                        alignment,
                        alloc_ranges,
                        acc,
                    ),
                }
            },
            _ => Err(DtbError::BadCells),
        },
        _ => Ok(acc),
    }
}

/// What a child that is to be placed adds to the regions `acc`.
pub open spec fn placed(
    b: Seq<u8>,
    a: Area,
    address_cells: u32,
    size_cells: u32,
    size: Option<PropertyData>,
    alignment: Option<PropertyData>,
    alloc_ranges: Option<PropertyData>,
    acc: Seq<ReservedMemoryView>,
) -> Result<Seq<ReservedMemoryView>, DtbError> {
    let bytes = cells_at(b, size->0.head as int, size_cells, a.struct_end as int);
    let align = cells_at(b, alignment->0.head as int, size_cells, a.struct_end as int);
    let ranges = pairs(
        b,
        a,
        alloc_ranges->0.head as int,
        alloc_ranges->0.len as int,
        address_cells,
        size_cells,
        0,
        Seq::empty(),
    );
    if size is None {
        Err(DtbError::MissingSize)
    } else if size->0.len != 4 * size_cells {
        Err(DtbError::BadLength)
    } else if alignment is Some && alignment->0.len != 4 * size_cells {
        Err(DtbError::BadLength)
    } else if alloc_ranges is Some && address_cells + size_cells == 0 {
        Err(DtbError::BadCells)
    } else if alloc_ranges is Some && (alloc_ranges->0.len == 0 || alloc_ranges->0.len as int % (4
        * (address_cells + size_cells)) != 0) {
        Err(DtbError::BadLength)
    } else if bytes is None || (alignment is Some && align is None) {
        Err(DtbError::Truncated)
    } else if alloc_ranges is Some && ranges is Err {
        Err(ranges->Err_0)
    } else {
        Ok(
            acc.push(
                ReservedMemoryView::Dynamic {
                    size: word_of(bytes->0),
                    alignment: if alignment is Some {
                        Some(word_of(align->0))
                    } else {
                        None
                    },
                    alloc_ranges: if alloc_ranges is Some {
                        ranges->Ok_0
                    } else {
                        Seq::empty()
                    },
                },
            ),
        )
    }
}

/// Adds the region that a child that is to be placed gives.
pub fn emit_dynamic(
    bytes: &Vec<u8>,
    area: &Area,
    address_cells: u32,
    size_cells: u32,
    size: Option<PropertyData>,
    alignment: Option<PropertyData>,
    alloc_ranges: Option<PropertyData>,
    acc: Vec<ReservedMemory>,
) -> (r: Result<Vec<ReservedMemory>, DtbError>)
    requires
        area_wf(bytes@, *area),
        address_cells <= 2,
        size_cells <= 2,
    ensures
        match r {
            Ok(out) => placed(
                bytes@,
                *area,
                address_cells,
                size_cells,
                size,
                alignment,
                alloc_ranges,
                views(acc@),
            ) == Ok::<Seq<ReservedMemoryView>, DtbError>(views(out@)),
            Err(e) => placed(
                bytes@,
                *area,
                address_cells,
                size_cells,
                size,
                alignment,
                alloc_ranges,
                views(acc@),
            ) == Err::<Seq<ReservedMemoryView>, DtbError>(e),
        },
{
    let size = match size {
        Some(s) => s,
        None => {
            return Err(DtbError::MissingSize);
        },
    };
    if size.len != 4 * size_cells {
        return Err(DtbError::BadLength);
    }
    match alignment {
        Some(al) => {
            if al.len != 4 * size_cells {
                return Err(DtbError::BadLength);
            }
        },
        None => {},
    }
    match alloc_ranges {
        Some(ranges) => {
            if address_cells + size_cells == 0 {
                return Err(DtbError::BadCells);
            }
            if ranges.len == 0 || ranges.len % (4 * (address_cells + size_cells)) != 0 {
                return Err(DtbError::BadLength);
            }
        },
        None => {},
    }
    let alloc_size = match read_regs(bytes, size.head, size_cells, area.struct_end) {
        Some(x) => x,
        None => {
            return Err(DtbError::Truncated);
        },
    };
    let align = match alignment {
        Some(al) => match read_regs(bytes, al.head, size_cells, area.struct_end) {
            Some(x) => Some(#[verifier::truncate] (x as usize)),
            None => {
                return Err(DtbError::Truncated);
            },
        },
        None => None,
    };
    let ranges = match alloc_ranges {
        Some(ranges) => match read_pairs(
            bytes,
            area,
            ranges.head,
            ranges.len,
            address_cells,
            size_cells,
        ) {
            Ok(list) => list,
            Err(e) => {
                return Err(e);
            },
        },
        None => Vec::new(),
    };
    let mut out = acc;
    let entry = ReservedMemory::Dynamic {
        size: #[verifier::truncate] (alloc_size as usize),
        alignment: align,
        alloc_ranges: ranges,
    };
    proof {
        assert(views(out@.push(entry)) =~= views(out@).push(entry@));
    }
    out.push(entry);
    Ok(out)
}

/// Adds the regions that a node that was found gives.
pub fn emit(
    bytes: &Vec<u8>,
    area: &Area,
    node: ReservedMemoryNode,
    parent: Option<ReservedMemoryNode>,
    acc: Vec<ReservedMemory>,
) -> (r: Result<Vec<ReservedMemory>, DtbError>)
    requires
        area_wf(bytes@, *area),
    ensures
        match r {
            Ok(out) => emitted(bytes@, *area, node, parent, views(acc@)) == Ok::<
                Seq<ReservedMemoryView>,
                DtbError,
            >(views(out@)),
            Err(e) => emitted(bytes@, *area, node, parent, views(acc@)) == Err::<
                Seq<ReservedMemoryView>,
                DtbError,
            >(e),
        },
{
    reveal(emitted);
    let data = match node {
        ReservedMemoryNode::Child { data: Some(d) } => d,
        _ => {
            return Ok(acc);
        },
    };
    let cells = match parent {
        Some(ReservedMemoryNode::Parent { address_cells, size_cells }) => (address_cells, size_cells),
        _ => {
            return Err(DtbError::BadCells);
        },
    };
    let address_cells = cells.0;
    let size_cells = cells.1;
    if address_cells > 2 || size_cells > 2 {
        return Err(DtbError::BadCells);
    }
    match data {
        ReservedMemoryData::Static { reg } => {
            if address_cells + size_cells == 0 {
                return Err(DtbError::BadCells);
            }
            if reg.len == 0 || reg.len % (4 * (address_cells + size_cells)) != 0 {
                return Err(DtbError::BadLength);
            }
            let list = match read_pairs(bytes, area, reg.head, reg.len, address_cells, size_cells) {
                Ok(l) => l,
                Err(e) => {
                    return Err(e);
                },
            };
            let mut out = acc;
            let mut i: usize = 0;
            proof {
                assert(views(out@) =~= with_statics(views(acc@), list@.take(0)));
            }
            while i < list.len()
                invariant
                    i <= list.len(),
                    views(out@) == with_statics(views(acc@), list@.take(i as int)),
                decreases list.len() - i,
            {
                let entry = ReservedMemory::Static { address: list[i].0, size: list[i].1 };
                proof {
                    assert(views(out@.push(entry)) =~= views(out@).push(entry@));
                    assert(with_statics(views(acc@), list@.take(i + 1)) =~= with_statics(
                        views(acc@),
                        list@.take(i as int),
                    ).push(entry@));
                }
                out.push(entry);
                i += 1;
            }
            proof {
                assert(list@.take(list@.len() as int) =~= list@);
            }
            Ok(out)
        },
        ReservedMemoryData::Dynamic { size, alignment, alloc_ranges } => emit_dynamic(
            bytes,
            area,
            address_cells,
            size_cells,
            size,
            alignment,
            alloc_ranges,
            acc,
        ),
    }
}

/// The place behind the token that closes the node in which `pos` lies
/// `nest` nodes deep.
#[verifier::opaque]
pub open spec fn skipped(b: Seq<u8>, a: Area, pos: int, nest: int) -> Result<int, DtbError>
    decreases a.struct_end - pos,
{
    match token_at(b, a, pos) {
        None => Err(DtbError::Truncated),
        Some(t) => if t == FDT_NOP {
            skipped(b, a, pos + 4, nest)
        } else if t == FDT_BEGIN_NODE {
            match string_in(b, pos + 4, a.struct_end as int) {
                None => Err(DtbError::Truncated),
                Some(name) => if pos + 4 + round_up(name.len() as int + 1, 4) <= a.struct_end {
                    skipped(b, a, pos + 4 + round_up(name.len() as int + 1, 4), nest + 1)
                } else {
                    Err(DtbError::Truncated)
                },
            }
        } else if t == FDT_PROP {
            if pos + 12 > a.struct_end || pos + 12 + round_up(be32(b, pos + 4) as int, 4)
                > a.struct_end {
                Err(DtbError::Truncated)
            } else {
                skipped(b, a, pos + 12 + round_up(be32(b, pos + 4) as int, 4), nest)
            }
        } else if t == FDT_END_NODE {
            if nest <= 1 {
                Ok(pos + 4)
            } else {
                skipped(b, a, pos + 4, nest - 1)
            }
        } else {
            Err(DtbError::UnexpectedToken)
        },
    }
}

/// The place behind the node that starts at `pos`.
pub open spec fn skip(b: Seq<u8>, a: Area, pos: int) -> Result<int, DtbError> {
    if token_at(b, a, pos) != Some(FDT_BEGIN_NODE) {
        Err(DtbError::ExpectedBeginNode)
    } else {
        skipped(b, a, pos, 0)
    }
}

/// Passes over the node that starts at `pos`, with all that lies in it.
pub fn skip_node(bytes: &Vec<u8>, area: &Area, pos: usize) -> (r: Result<usize, DtbError>)
    requires
        area_wf(bytes@, *area),
    ensures
        match r {
            Ok(p) => skip(bytes@, *area, pos as int) == Ok::<int, DtbError>(p as int) && pos < p
                <= area.struct_end,
            Err(e) => skip(bytes@, *area, pos as int) == Err::<int, DtbError>(e),
        },
{
    reveal(skipped);
    match read_token(bytes, area, pos) {
        Some(t) => {
            if t != FDT_BEGIN_NODE {
                return Err(DtbError::ExpectedBeginNode);
            }
        },
        None => {
            return Err(DtbError::ExpectedBeginNode);
        },
    }
    let mut at = pos;
    let mut nest: usize = 0;
    loop
        invariant
            area_wf(bytes@, *area),
            pos <= at <= area.struct_end,
            token_at(bytes@, *area, pos as int) == Some(FDT_BEGIN_NODE),
            at == pos ==> nest == 0,
            at > pos ==> nest >= 1,
            nest <= at,
            skipped(bytes@, *area, at as int, nest as int) == skipped(bytes@, *area, pos as int, 0),
        decreases area.struct_end - at,
    {
        reveal(skipped);
        let token = match read_token(bytes, area, at) {
            Some(t) => t,
            None => {
                return Err(DtbError::Truncated);
            },
        };
        if token == FDT_NOP {
            at = at + 4;
        } else if token == FDT_BEGIN_NODE {
            let name_len = match read_string_in(bytes, at + 4, area.struct_end) {
                Some(n) => n,
                None => {
                    return Err(DtbError::Truncated);
                },
            };
            proof {
                crate::layout::lemma_round_up(name_len + 1, 4);
            }
            let padded = match crate::layout::next_multiple_of(name_len + 1, 4) {
                Some(p) => p,
                None => {
                    return Err(DtbError::Truncated);
                },
            };
            if padded > area.struct_end - (at + 4) {
                return Err(DtbError::Truncated);
            }
            at = at + 4 + padded;
            nest = nest + 1;
        } else if token == FDT_PROP {
            if area.struct_end - at < 12 {
                return Err(DtbError::Truncated);
            }
            let len = read_be32(bytes, at + 4);
            let padded = match crate::layout::next_multiple_of(len as usize, 4) {
                Some(p) => p,
                None => {
                    return Err(DtbError::Truncated);
                },
            };
            if padded > area.struct_end - (at + 12) {
                return Err(DtbError::Truncated);
            }
            at = at + 12 + padded;
        } else if token == FDT_END_NODE {
            if nest <= 1 {
                return Ok(at + 4);
            }
            at = at + 4;
            nest = nest - 1;
        } else {
            return Err(DtbError::UnexpectedToken);
        }
    }
}

/// The depth that is left for the children of a node.
pub open spec fn below(depth: Option<u32>) -> Option<u32> {
    match depth {
        Some(d) => if d == 0 {
            Some(0u32)
        } else {
            Some((d - 1) as u32)
        },
        None => None,
    }
}

/// The place behind the node that starts at `pos`, and the regions that the
/// nodes of its tree give, in the order of the blob, behind the regions
/// `acc`. `parent` is what the walk knows of the node above it, and `depth`
/// the number of levels that the walk may still go down, where that has a
/// limit.
pub open spec fn walk_reserved(
    b: Seq<u8>,
    a: Area,
    pos: int,
    parent: Option<ReservedMemoryNode>,
    depth: Option<u32>,
    acc: Seq<ReservedMemoryView>,
) -> Result<(int, Seq<ReservedMemoryView>), DtbError>
    decreases a.struct_end - pos, 0int,
{
    if token_at(b, a, pos) != Some(FDT_BEGIN_NODE) {
        Err(DtbError::ExpectedBeginNode)
    } else {
        match string_in(b, pos + 4, a.struct_end as int) {
            None => Err(DtbError::Truncated),
            Some(name) => match reserved_props(
                b,
                a,
                PropsState {
                    pos: pos + 4 + round_up(name.len() as int + 1, 4),
                    node: ReservedMemoryNode::Unused,
                    found: false,
                    depth,
                },
                parent,
                name == name_reserved_memory(),
            ) {
                Err(e) => Err(e),
                Ok(props) => {
                    let mine = if props.found {
                        emitted(b, a, props.node, parent, acc)
                    } else {
                        Ok(acc)
                    };
                    match mine {
                        Err(e) => Err(e),
                        Ok(so_far) => if pos < props.pos <= a.struct_end {
                            children_reserved(b, a, props.pos, props.node, props.depth, so_far)
                        } else {
                            Err(DtbError::Truncated)
                        },
                    }
                },
            },
        }
    }
}

/// The place behind the token that closes the node whose children start at
/// `pos`, and the regions that its children give. Where no level is left to
/// go down, the children are passed over.
pub open spec fn children_reserved(
    b: Seq<u8>,
    a: Area,
    pos: int,
    node: ReservedMemoryNode,
    depth: Option<u32>,
    acc: Seq<ReservedMemoryView>,
) -> Result<(int, Seq<ReservedMemoryView>), DtbError>
    decreases a.struct_end - pos, 1int,
{
    match token_at(b, a, pos) {
        None => Err(DtbError::Truncated),
        Some(t) => if t == FDT_NOP {
            children_reserved(b, a, pos + 4, node, depth, acc)
        } else if t == FDT_BEGIN_NODE {
            if depth == Some(0u32) {
                match skip(b, a, pos) {
                    Err(e) => Err(e),
                    Ok(next) => if pos < next <= a.struct_end {
                        children_reserved(b, a, next, node, depth, acc)
                    } else {
                        Err(DtbError::Truncated)
                    },
                }
            } else {
                match walk_reserved(b, a, pos, Some(node), below(depth), acc) {
                    Err(e) => Err(e),
                    Ok(child) => if pos < child.0 <= a.struct_end {
                        children_reserved(b, a, child.0, node, depth, child.1)
                    } else {
                        Err(DtbError::Truncated)
                    },
                }
            }
        } else if t == FDT_END_NODE {
            Ok((pos + 4, acc))
        } else {
            Err(DtbError::UnexpectedToken)
        },
    }
}

/// Walks through the node that starts at `pos`.
pub fn walk_reserved_node(
    bytes: &Vec<u8>,
    area: &Area,
    pos: usize,
    parent: Option<ReservedMemoryNode>,
    depth: Option<u32>,
    acc: Vec<ReservedMemory>,
) -> (r: Result<(usize, Vec<ReservedMemory>), DtbError>)
    requires
        area_wf(bytes@, *area),
    ensures
        match r {
            Ok(t) => walk_reserved(bytes@, *area, pos as int, parent, depth, views(acc@)) == Ok::<
                (int, Seq<ReservedMemoryView>),
                DtbError,
            >((t.0 as int, views(t.1@))) && t.0 <= area.struct_end,
            Err(e) => walk_reserved(bytes@, *area, pos as int, parent, depth, views(acc@)) == Err::<
                (int, Seq<ReservedMemoryView>),
                DtbError,
            >(e),
        },
    decreases area.struct_end - pos, 0int,
{
    reveal(reserved_props);
    match read_token(bytes, area, pos) {
        Some(t) => {
            if t != FDT_BEGIN_NODE {
                return Err(DtbError::ExpectedBeginNode);
            }
        },
        None => {
            return Err(DtbError::ExpectedBeginNode);
        },
    }
    let name_len = match read_string_in(bytes, pos + 4, area.struct_end) {
        Some(n) => n,
        None => {
            return Err(DtbError::Truncated);
        },
    };
    let wanted: Vec<u8> = vec![114u8, 101, 115, 101, 114, 118, 101, 100, 45, 109, 101, 109, 111, 114, 121];
    proof {
        assert(wanted@ =~= name_reserved_memory());
        crate::layout::lemma_round_up(name_len + 1, 4);
    }
    let reserved_name = bytes_are(bytes, pos + 4, name_len, &wanted);
    let padded = match crate::layout::next_multiple_of(name_len + 1, 4) {
        Some(p) => p,
        None => {
            return Err(DtbError::Truncated);
        },
    };
    if padded > usize::MAX - (pos + 4) {
        return Err(DtbError::Truncated);
    }
    let start = Props {
        pos: pos + 4 + padded,
        node: ReservedMemoryNode::Unused,
        found: false,
        depth,
    };
    let props = match parse_reserved_props(bytes, area, start, parent, reserved_name) {
        Ok(p) => p,
        Err(e) => {
            return Err(e);
        },
    };
    let so_far = if props.found {
        match emit(bytes, area, props.node, parent, acc) {
            Ok(v) => v,
            Err(e) => {
                return Err(e);
            },
        }
    } else {
        acc
    };
    if props.pos <= pos {
        return Err(DtbError::Truncated);
    }
    walk_reserved_children(bytes, area, props.pos, props.node, props.depth, so_far)
}

/// Walks through the children of a node, which start at `pos`.
pub fn walk_reserved_children(
    bytes: &Vec<u8>,
    area: &Area,
    pos: usize,
    node: ReservedMemoryNode,
    depth: Option<u32>,
    acc: Vec<ReservedMemory>,
) -> (r: Result<(usize, Vec<ReservedMemory>), DtbError>)
    requires
        area_wf(bytes@, *area),
    ensures
        match r {
            Ok(t) => children_reserved(bytes@, *area, pos as int, node, depth, views(acc@)) == Ok::<
                (int, Seq<ReservedMemoryView>),
                DtbError,
            >((t.0 as int, views(t.1@))) && t.0 <= area.struct_end,
            Err(e) => children_reserved(bytes@, *area, pos as int, node, depth, views(acc@))
                == Err::<(int, Seq<ReservedMemoryView>), DtbError>(e),
        },
    decreases area.struct_end - pos, 1int,
{
    let token = match read_token(bytes, area, pos) {
        Some(t) => t,
        None => {
            return Err(DtbError::Truncated);
        },
    };
    if token == FDT_NOP {
        walk_reserved_children(bytes, area, pos + 4, node, depth, acc)
    } else if token == FDT_BEGIN_NODE {
        let stop = match depth {
            Some(d) => d == 0,
            None => false,
        };
        if stop {
            match skip_node(bytes, area, pos) {
                Err(e) => Err(e),
                Ok(next) => walk_reserved_children(bytes, area, next, node, depth, acc),
            }
        } else {
            let deeper = match depth {
                Some(d) => Some(d - 1),
                None => None,
            };
            match walk_reserved_node(bytes, area, pos, Some(node), deeper, acc) {
                Err(e) => Err(e),
                Ok(child) => {
                    if child.0 <= pos {
                        return Err(DtbError::Truncated);
                    }
                    walk_reserved_children(bytes, area, child.0, node, depth, child.1)
                },
            }
        }
    } else if token == FDT_END_NODE {
        Ok((pos + 4, acc))
    } else {
        Err(DtbError::UnexpectedToken)
    }
}

/// The walk through the whole tree, from the root at `pos` on.
#[verifier::opaque]
pub open spec fn walk_reserved_root(b: Seq<u8>, a: Area, pos: int) -> Result<
    (int, Seq<ReservedMemoryView>),
    DtbError,
> {
    walk_reserved(b, a, pos, None, Some(1u32), Seq::empty())
}

/// Walks through the whole tree, from the root at `pos` on.
pub fn walk_reserved_tree(bytes: &Vec<u8>, area: &Area, pos: usize) -> (r: Result<
    (usize, Vec<ReservedMemory>),
    DtbError,
>)
    requires
        area_wf(bytes@, *area),
    ensures
        match r {
            Ok(t) => walk_reserved_root(bytes@, *area, pos as int) == Ok::<
                (int, Seq<ReservedMemoryView>),
                DtbError,
            >((t.0 as int, views(t.1@))) && t.0 <= area.struct_end,
            Err(e) => walk_reserved_root(bytes@, *area, pos as int) == Err::<
                (int, Seq<ReservedMemoryView>),
                DtbError,
            >(e),
        },
{
    reveal(walk_reserved_root);
    let acc: Vec<ReservedMemory> = Vec::new();
    proof {
        assert(views(acc@) =~= Seq::<ReservedMemoryView>::empty());
    }
    walk_reserved_node(bytes, area, pos, None, Some(1u32), acc)
}

/// The regions of reserved memory that a blob whose blocks lie at `a`
/// declares in its tree: those of the children of `reserved-memory`, in the
/// order of the blob. The structure block has to end behind the root with
/// the token that closes it.
pub open spec fn reserved_in(b: Seq<u8>, a: Area) -> Result<Seq<ReservedMemoryView>, DtbError> {
    match walk_reserved_root(b, a, nop_end(b, a.struct_start as int, a.struct_end as int)) {
        Err(e) => Err(e),
        Ok(done) => if token_at(b, a, nop_end(b, done.0, a.struct_end as int)) == Some(FDT_END) {
            Ok(done.1)
        } else {
            Err(DtbError::MissingEnd)
        },
    }
}

/// Lists the regions of reserved memory of a blob whose blocks lie at `area`.
pub fn find_reserved_in(bytes: &Vec<u8>, area: &Area) -> (r: Result<Vec<ReservedMemory>, DtbError>)
    requires
        area_wf(bytes@, *area),
    ensures
        match r {
            Ok(list) => reserved_in(bytes@, *area) == Ok::<Seq<ReservedMemoryView>, DtbError>(
                views(list@),
            ),
            Err(e) => reserved_in(bytes@, *area) == Err::<Seq<ReservedMemoryView>, DtbError>(e),
        },
{
    let start = skip_nops(bytes, area, area.struct_start);
    let done = match walk_reserved_tree(bytes, area, start) {
        Ok(d) => d,
        Err(e) => {
            return Err(e);
        },
    };
    let end = skip_nops(bytes, area, done.0);
    match read_token(bytes, area, end) {
        Some(t) => if t == FDT_END {
            Ok(done.1)
        } else {
            Err(DtbError::MissingEnd)
        },
        None => Err(DtbError::MissingEnd),
    }
}

impl DtbParser {
    /// The regions of reserved memory that the tree declares: the children
    /// of the node `reserved-memory`, in the order of the blob.
    pub fn find_reserved_memory_node(&self) -> (r: Result<Vec<ReservedMemory>, DtbError>)
        requires
            self.wf(),
        ensures
            match r {
                Ok(list) => reserved_in(self.dtb().blob(), area_of(self.dtb().blob())) == Ok::<
                    Seq<ReservedMemoryView>,
                    DtbError,
                >(views(list@)),
                Err(e) => reserved_in(self.dtb().blob(), area_of(self.dtb().blob())) == Err::<
                    Seq<ReservedMemoryView>,
                    DtbError,
                >(e),
            },
    {
        let area = self.area();
        find_reserved_in(self.header().bytes(), &area)
    }
}

} // verus!
