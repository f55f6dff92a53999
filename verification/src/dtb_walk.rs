//! The walk through the structure block of a device tree: the nodes that a
//! search asks for, with the addresses that their `reg` properties give.
use vstd::prelude::*;
use crate::dtb::be32;
use crate::dtb::read_be32;
use crate::dtb::word_of;
use crate::dtb::header_of;
use crate::dtb::nop_end;
use crate::dtb::DtbError;
use crate::dtb::DtbParser;
use crate::dtb::FDT_END;
use crate::dtb::FDT_BEGIN_NODE;
use crate::dtb::FDT_END_NODE;
use crate::dtb::FDT_NOP;
use crate::dtb::FDT_PROP;
use crate::layout::round_up;
use crate::search::first_where;
use crate::search::lemma_first_where;

verus! {

/// Where the two blocks that a walk reads lie in the blob.
#[derive(Clone, Copy, PartialEq, Eq, Debug, Structural)]
pub struct Area {
    pub struct_start: usize,
    pub struct_end: usize,
    pub strings_start: usize,
    pub strings_end: usize,
}

/// The place and the length of the value of a property.
#[derive(Clone, Copy, PartialEq, Eq, Debug, Structural)]
pub struct PropertyData {
    pub head: usize,
    pub len: u32,
}

/// What a walk knows of a node: the numbers of cells of the addresses and
/// of the sizes of its children, and its properties `reg` and `ranges`.
#[derive(Clone, Copy, PartialEq, Eq, Debug, Structural)]
pub struct SimpleDeviceNode {
    pub address_cells: u32,
    pub size_cells: u32,
    pub reg: Option<PropertyData>,
    pub ranges: Option<PropertyData>,
}

/// The properties that a walk knows by name.
#[derive(Clone, Copy, PartialEq, Eq, Debug, Structural)]
pub enum PropKind {
    AddressCells,
    SizeCells,
    Compatible,
    DeviceType,
    Reg,
    Ranges,
    Size,
    Alignment,
    AllocRanges,
    Other,
}

/// The blocks lie within the blob.
pub open spec fn area_wf(b: Seq<u8>, a: Area) -> bool {
    a.struct_start <= a.struct_end <= b.len() && a.strings_start <= a.strings_end <= b.len()
}

/// The test that a byte is the end of a string.
pub open spec fn nul() -> spec_fn(u8) -> bool {
    |x: u8| x == 0
}

/// The bytes of the string that starts at `start` and ends before `end`,
/// or `None` where no zero byte ends it there.
pub open spec fn string_in(b: Seq<u8>, start: int, end: int) -> Option<Seq<u8>> {
    if start < 0 || start >= end || end > b.len() {
        None
    } else {
        let n = first_where(b.subrange(start, end), nul());
        if n < end - start {
            Some(b.subrange(start, start + n))
        } else {
            None
        }
    }
}

/// `#address-cells`
pub open spec fn name_address_cells() -> Seq<u8> {
    seq![35u8, 97, 100, 100, 114, 101, 115, 115, 45, 99, 101, 108, 108, 115]
}

/// `#size-cells`
pub open spec fn name_size_cells() -> Seq<u8> {
    seq![35u8, 115, 105, 122, 101, 45, 99, 101, 108, 108, 115]
}

/// `compatible`
pub open spec fn name_compatible() -> Seq<u8> {
    seq![99u8, 111, 109, 112, 97, 116, 105, 98, 108, 101]
}

/// `device_type`
pub open spec fn name_device_type() -> Seq<u8> {
    seq![100u8, 101, 118, 105, 99, 101, 95, 116, 121, 112, 101]
}

/// `reg`
pub open spec fn name_reg() -> Seq<u8> {
    seq![114u8, 101, 103]
}

/// `ranges`
pub open spec fn name_ranges() -> Seq<u8> {
    seq![114u8, 97, 110, 103, 101, 115]
}

/// `size`
pub open spec fn name_size() -> Seq<u8> {
    seq![115u8, 105, 122, 101]
}

/// `alignment`
pub open spec fn name_alignment() -> Seq<u8> {
    seq![97u8, 108, 105, 103, 110, 109, 101, 110, 116]
}

/// `alloc-ranges`
pub open spec fn name_alloc_ranges() -> Seq<u8> {
    seq![97u8, 108, 108, 111, 99, 45, 114, 97, 110, 103, 101, 115]
}

/// `reserved-memory`
pub open spec fn name_reserved_memory() -> Seq<u8> {
    seq![114u8, 101, 115, 101, 114, 118, 101, 100, 45, 109, 101, 109, 111, 114, 121]
}

/// The property that a name stands for.
pub open spec fn kind_of(name: Seq<u8>) -> PropKind {
    if name == name_address_cells() {
        PropKind::AddressCells
    } else if name == name_size_cells() {
        PropKind::SizeCells
    } else if name == name_compatible() {
        PropKind::Compatible
    } else if name == name_device_type() {
        PropKind::DeviceType
    } else if name == name_reg() {
        PropKind::Reg
    } else if name == name_ranges() {
        PropKind::Ranges
    } else if name == name_size() {
        PropKind::Size
    } else if name == name_alignment() {
        PropKind::Alignment
    } else if name == name_alloc_ranges() {
        PropKind::AllocRanges
    } else {
        PropKind::Other
    }
}

/// The length of the string that starts at `start` and ends before `end`.
pub fn read_string_in(bytes: &Vec<u8>, start: usize, end: usize) -> (r: Option<usize>)
    ensures
        match r {
            Some(n) => string_in(bytes@, start as int, end as int) == Some(
                bytes@.subrange(start as int, start + n),
            ) && start + n < end && end <= bytes@.len(),
            None => string_in(bytes@, start as int, end as int) is None,
        },
{
    if start >= end || end > bytes.len() {
        return None;
    }
    let ghost part = bytes@.subrange(start as int, end as int);
    let mut i: usize = start;
    while i < end
        invariant
            start <= i <= end <= bytes@.len(),
            part == bytes@.subrange(start as int, end as int),
            forall|j: int| 0 <= j < i - start ==> !nul()(#[trigger] part[j]),
        decreases end - i,
    {
        if bytes[i] == 0 {
            proof {
                assert(part[i - start] == bytes@[i as int]);
                lemma_first_where(part, nul(), i - start);
            }
            return Some(i - start);
        }
        proof {
            assert(part[i - start] == bytes@[i as int]);
        }
        i += 1;
    }
    proof {
        lemma_first_where(part, nul(), i - start);
    }
    None
}

/// Whether the `len` bytes at `start` are the bytes of `expected`.
pub fn bytes_are(bytes: &Vec<u8>, start: usize, len: usize, expected: &Vec<u8>) -> (r: bool)
    requires
        start + len <= bytes@.len(),
    ensures
        r == (bytes@.subrange(start as int, start + len) == expected@),
{
    let ghost part = bytes@.subrange(start as int, start + len);
    let total = bytes.len();
    if expected.len() != len {
        return false;
    }
    let mut i: usize = 0;
    while i < len
        invariant
            i <= len,
            len == expected@.len(),
            start + len <= bytes@.len(),
            total == bytes@.len(),
            part == bytes@.subrange(start as int, start + len),
            forall|j: int| 0 <= j < i ==> part[j] == expected@[j],
        decreases len - i,
    {
        if bytes[start + i] != expected[i] {
            proof {
                assert(part[i as int] == bytes@[start + i]);
            }
            return false;
        }
        proof {
            assert(part[i as int] == bytes@[start + i]);
        }
        i += 1;
    }
    proof {
        assert(part =~= expected@);
    }
    true
}

/// The property that the name of `len` bytes at `start` stands for.
pub fn prop_kind(bytes: &Vec<u8>, start: usize, len: usize) -> (r: PropKind)
    requires
        start + len <= bytes@.len(),
    ensures
        r == kind_of(bytes@.subrange(start as int, start + len)),
{
    let address_cells: Vec<u8> = vec![35u8, 97, 100, 100, 114, 101, 115, 115, 45, 99, 101, 108, 108, 115];
    let size_cells: Vec<u8> = vec![35u8, 115, 105, 122, 101, 45, 99, 101, 108, 108, 115];
    let compatible: Vec<u8> = vec![99u8, 111, 109, 112, 97, 116, 105, 98, 108, 101];
    let device_type: Vec<u8> = vec![100u8, 101, 118, 105, 99, 101, 95, 116, 121, 112, 101];
    let reg: Vec<u8> = vec![114u8, 101, 103];
    let ranges: Vec<u8> = vec![114u8, 97, 110, 103, 101, 115];
    let size: Vec<u8> = vec![115u8, 105, 122, 101];
    let alignment: Vec<u8> = vec![97u8, 108, 105, 103, 110, 109, 101, 110, 116];
    let alloc_ranges: Vec<u8> = vec![97u8, 108, 108, 111, 99, 45, 114, 97, 110, 103, 101, 115];
    proof {
        assert(address_cells@ =~= name_address_cells());
        assert(size_cells@ =~= name_size_cells());
        assert(compatible@ =~= name_compatible());
        assert(device_type@ =~= name_device_type());
        assert(reg@ =~= name_reg());
        assert(ranges@ =~= name_ranges());
        assert(size@ =~= name_size());
        assert(alignment@ =~= name_alignment());
        assert(alloc_ranges@ =~= name_alloc_ranges());
    }
    if bytes_are(bytes, start, len, &address_cells) {
        PropKind::AddressCells
    } else if bytes_are(bytes, start, len, &size_cells) {
        PropKind::SizeCells
    } else if bytes_are(bytes, start, len, &compatible) {
        PropKind::Compatible
    } else if bytes_are(bytes, start, len, &device_type) {
        PropKind::DeviceType
    } else if bytes_are(bytes, start, len, &reg) {
        PropKind::Reg
    } else if bytes_are(bytes, start, len, &ranges) {
        PropKind::Ranges
    } else if bytes_are(bytes, start, len, &size) {
        PropKind::Size
    } else if bytes_are(bytes, start, len, &alignment) {
        PropKind::Alignment
    } else if bytes_are(bytes, start, len, &alloc_ranges) {
        PropKind::AllocRanges
    } else {
        PropKind::Other
    }
}

/// The number that `cells` cells at `pos` spell, most significant cell
/// first; `None` for more than two cells, and where the cells do not lie
/// before `end`.
pub open spec fn cells_at(b: Seq<u8>, pos: int, cells: u32, end: int) -> Option<u64> {
    if cells > 2 || pos < 0 || pos + 4 * cells > end || end > b.len() {
        None
    } else if cells == 0 {
        Some(0)
    } else if cells == 1 {
        Some(be32(b, pos) as u64)
    } else {
        Some((be32(b, pos) as u64 * 0x1_0000_0000 + be32(b, pos + 4) as u64) as u64)
    }
}

/// Reads the number that `cells` cells at `pos` spell.
pub fn read_regs(bytes: &Vec<u8>, pos: usize, cells: u32, end: usize) -> (r: Option<u64>)
    ensures
        r == cells_at(bytes@, pos as int, cells, end as int),
{
    let len = bytes.len();
    if cells > 2 || end > len || pos > end || 4 * (cells as usize) > end - pos {
        return None;
    }
    if cells == 0 {
        Some(0)
    } else if cells == 1 {
        Some(read_be32(bytes, pos) as u64)
    } else {
        let high: u64 = read_be32(bytes, pos) as u64;
        let low: u64 = read_be32(bytes, pos + 4) as u64;
        Some(high * 0x1_0000_0000 + low)
    }
}

/// Whether one of the strings of the `remain` bytes at `pos` is `target`.
/// Fails where no zero byte ends a string within the blob, and where a
/// string is longer than what is left of the bytes.
pub open spec fn any_string(b: Seq<u8>, pos: int, remain: int, target: Seq<u8>, found: bool) -> Result<
    bool,
    DtbError,
>
    decreases remain,
{
    if remain <= 0 {
        Ok(found)
    } else {
        match string_in(b, pos, b.len() as int) {
            None => Err(DtbError::Truncated),
            Some(s) => if s.len() + 1 > remain {
                Err(DtbError::TooSmall)
            } else {
                any_string(b, pos + s.len() + 1, remain - s.len() - 1, target, found || s == target)
            },
        }
    }
}

/// Looks for `target` among the strings of the `remain` bytes at `pos`.
pub fn find_string(bytes: &Vec<u8>, pos: usize, remain: u32, target: &Vec<u8>) -> (r: Result<
    bool,
    DtbError,
>)
    ensures
        r == any_string(bytes@, pos as int, remain as int, target@, false),
{
    let total = bytes.len();
    let mut at = pos;
    let mut left: usize = remain as usize;
    let mut found = false;
    while left > 0
        invariant
            total == bytes@.len(),
            any_string(bytes@, at as int, left as int, target@, found) == any_string(
                bytes@,
                pos as int,
                remain as int,
                target@,
                false,
            ),
        decreases left,
    {
        match read_string_in(bytes, at, total) {
            None => {
                return Err(DtbError::Truncated);
            },
            Some(n) => {
                if n >= left {
                    return Err(DtbError::TooSmall);
                }
                if bytes_are(bytes, at, n, target) {
                    found = true;
                }
                at = at + n + 1;
                left = left - n - 1;
            },
        }
    }
    Ok(found)
}

/// A node of which nothing is known yet: two cells for an address and one for a size.
pub open spec fn new_node() -> SimpleDeviceNode {
    SimpleDeviceNode { address_cells: 2, size_cells: 1, reg: None, ranges: None }
}

/// What a search asks for: the value of `device_type`, or one of the
/// strings of `compatible`.
pub struct Query {
    pub device: Option<Seq<u8>>,
    pub compatible: Option<Seq<u8>>,
}

/// The place behind the property whose token lies at `pos`, the node with
/// what the property says of it, and whether the property is what the search
/// asks for. Fails where the property or its name does not lie within its
/// block, and for a `reg` property of the root.
#[verifier::opaque]
pub open spec fn device_prop(
    b: Seq<u8>,
    a: Area,
    pos: int,
    node: SimpleDeviceNode,
    has_parent: bool,
    q: Query,
) -> Result<(int, SimpleDeviceNode, bool), DtbError> {
    let len = be32(b, pos + 4);
    let value = pos + 12;
    let next = value + round_up(len as int, 4);
    if pos + 12 > a.struct_end || next > a.struct_end {
        Err(DtbError::Truncated)
    } else {
        match string_in(b, a.strings_start + be32(b, pos + 8), a.strings_end as int) {
            None => Err(DtbError::BadName),
            Some(name) => match kind_of(name) {
                PropKind::AddressCells => if value + 4 > a.struct_end {
                    Err(DtbError::Truncated)
                } else {
                    Ok((next, SimpleDeviceNode { address_cells: be32(b, value), ..node }, false))
                },
                PropKind::SizeCells => if value + 4 > a.struct_end {
                    Err(DtbError::Truncated)
                } else {
                    Ok((next, SimpleDeviceNode { size_cells: be32(b, value), ..node }, false))
                },
                PropKind::Compatible => match q.compatible {
                    Some(target) => match any_string(b, value, len as int, target, false) {
                        Ok(found) => Ok((next, node, found)),
                        Err(e) => Err(e),
                    },
                    None => Ok((next, node, false)),
                },
                PropKind::DeviceType => match q.device {
                    Some(target) => match string_in(b, value, b.len() as int) {
                        Some(s) => Ok((next, node, s == target)),
                        None => Err(DtbError::Truncated),
                    },
                    None => Ok((next, node, false)),
                },
                PropKind::Reg => if len == 0 {
                    Ok((next, node, false))
                } else if !has_parent {
                    Err(DtbError::RegAtRoot)
                } else {
                    Ok(
                        (
                            next,
                            SimpleDeviceNode {
                                reg: Some(PropertyData { head: value as usize, len }),
                                ..node
                            },
                            false,
                        ),
                    )
                },
                PropKind::Ranges => Ok(
                    (
                        next,
                        SimpleDeviceNode {
                            ranges: Some(PropertyData { head: value as usize, len }),
                            ..node
                        },
                        false,
                    ),
                ),
                _ => Ok((next, node, false)),
            },
        }
    }
}

/// Reads the property whose token lies at `pos`.
pub fn parse_prop(
    bytes: &Vec<u8>,
    area: &Area,
    pos: usize,
    node: SimpleDeviceNode,
    has_parent: bool,
    device_name: &Option<Vec<u8>>,
    compatible_name: &Option<Vec<u8>>,
) -> (r: Result<(usize, SimpleDeviceNode, bool), DtbError>)
    requires
        area_wf(bytes@, *area),
        pos <= area.struct_end,
    ensures
        match r {
            Ok(t) => device_prop(bytes@, *area, pos as int, node, has_parent, query(
                device_name,
                compatible_name,
            )) == Ok::<(int, SimpleDeviceNode, bool), DtbError>((t.0 as int, t.1, t.2)) && t.0
                >= pos + 12 && t.0 <= area.struct_end,
            Err(e) => device_prop(bytes@, *area, pos as int, node, has_parent, query(
                device_name,
                compatible_name,
            )) == Err::<(int, SimpleDeviceNode, bool), DtbError>(e),
        },
{
    reveal(device_prop);
    let total = bytes.len();
    if area.struct_end - pos < 12 {
        return Err(DtbError::Truncated);
    }
    let len = read_be32(bytes, pos + 4);
    let name_offset = read_be32(bytes, pos + 8);
    let value = pos + 12;
    let padded: usize = match crate::layout::next_multiple_of(len as usize, 4) {
        Some(p) => p,
        None => {
            return Err(DtbError::Truncated);
        },
    };
    if padded > area.struct_end - value {
        return Err(DtbError::Truncated);
    }
    let next = value + padded;
    if name_offset as usize > total - area.strings_start {
        return Err(DtbError::BadName);
    }
    let name_start = area.strings_start + name_offset as usize;
    let name_len = match read_string_in(bytes, name_start, area.strings_end) {
        Some(n) => n,
        None => {
            return Err(DtbError::BadName);
        },
    };
    let kind = prop_kind(bytes, name_start, name_len);
    match kind {
        PropKind::AddressCells => {
            if area.struct_end - value < 4 {
                return Err(DtbError::Truncated);
            }
            Ok(
                (
                    next,
                    SimpleDeviceNode {
                        address_cells: read_be32(bytes, value),
                        size_cells: node.size_cells,
                        reg: node.reg,
                        ranges: node.ranges,
                    },
                    false,
                ),
            )
        },
        PropKind::SizeCells => {
            if area.struct_end - value < 4 {
                return Err(DtbError::Truncated);
            }
            Ok(
                (
                    next,
                    SimpleDeviceNode {
                        address_cells: node.address_cells,
                        size_cells: read_be32(bytes, value),
                        reg: node.reg,
                        ranges: node.ranges,
                    },
                    false,
                ),
            )
        },
        PropKind::Compatible => {
            match compatible_name {
                Some(target) => match find_string(bytes, value, len, target) {
                    Ok(found) => Ok((next, node, found)),
                    Err(e) => Err(e),
                },
                None => Ok((next, node, false)),
            }
        },
        PropKind::DeviceType => {
            match device_name {
                Some(target) => match read_string_in(bytes, value, total) {
                    Some(n) => Ok((next, node, bytes_are(bytes, value, n, target))),
                    None => Err(DtbError::Truncated),
                },
                None => Ok((next, node, false)),
            }
        },
        PropKind::Reg => {
            if len == 0 {
                Ok((next, node, false))
            } else if !has_parent {
                Err(DtbError::RegAtRoot)
            } else {
                Ok(
                    (
                        next,
                        SimpleDeviceNode {
                            address_cells: node.address_cells,
                            size_cells: node.size_cells,
                            reg: Some(PropertyData { head: value, len }),
                            ranges: node.ranges,
                        },
                        false,
                    ),
                )
            }
        },
        PropKind::Ranges => {
            Ok(
                (
                    next,
                    SimpleDeviceNode {
                        address_cells: node.address_cells,
                        size_cells: node.size_cells,
                        reg: node.reg,
                        ranges: Some(PropertyData { head: value, len }),
                    },
                    false,
                ),
            )
        },
        _ => Ok((next, node, false)),
    }
}

/// What a search asks for, from the two names that it was given.
pub open spec fn query(device: &Option<Vec<u8>>, compatible: &Option<Vec<u8>>) -> Query {
    Query {
        device: match device {
            Some(d) => Some(d@),
            None => None,
        },
        compatible: match compatible {
            Some(c) => Some(c@),
            None => None,
        },
    }
}

/// The token at `pos`, or `None` where no whole token lies there before the
/// end of the structure block.
pub open spec fn token_at(b: Seq<u8>, a: Area, pos: int) -> Option<u32> {
    if pos < 0 || pos + 4 > a.struct_end {
        None
    } else {
        Some(be32(b, pos))
    }
}

/// Reads the token at `pos`.
pub fn read_token(bytes: &Vec<u8>, area: &Area, pos: usize) -> (r: Option<u32>)
    requires
        area_wf(bytes@, *area),
    ensures
        r == token_at(bytes@, *area, pos as int),
{
    if pos > area.struct_end || area.struct_end - pos < 4 {
        None
    } else {
        Some(read_be32(bytes, pos))
    }
}

/// The place behind the properties of a node that start at `pos`, the node
/// with what they say of it, and whether one of them is what the search asks
/// for. The properties end at the token that opens a child or closes the
/// node.
#[verifier::opaque]
pub open spec fn device_props(
    b: Seq<u8>,
    a: Area,
    pos: int,
    node: SimpleDeviceNode,
    matched: bool,
    has_parent: bool,
    q: Query,
) -> Result<(int, SimpleDeviceNode, bool), DtbError>
    decreases a.struct_end - pos,
{
    match token_at(b, a, pos) {
        None => Err(DtbError::Truncated),
        Some(t) => if t == FDT_NOP {
            device_props(b, a, pos + 4, node, matched, has_parent, q)
        } else if t == FDT_PROP {
            match device_prop(b, a, pos, node, has_parent, q) {
                Err(e) => Err(e),
                Ok(step) => if pos < step.0 <= a.struct_end {
                    device_props(b, a, step.0, step.1, matched || step.2, has_parent, q)
                } else {
                    Err(DtbError::Truncated)
                },
            }
        } else if t == FDT_BEGIN_NODE || t == FDT_END_NODE {
            Ok((pos, node, matched))
        } else {
            Err(DtbError::UnexpectedToken)
        },
    }
}

/// Reads the properties of a node that start at `pos`.
pub fn parse_props(
    bytes: &Vec<u8>,
    area: &Area,
    pos: usize,
    has_parent: bool,
    device_name: &Option<Vec<u8>>,
    compatible_name: &Option<Vec<u8>>,
) -> (r: Result<(usize, SimpleDeviceNode, bool), DtbError>)
    requires
        area_wf(bytes@, *area),
    ensures
        match r {
            Ok(t) => device_props(bytes@, *area, pos as int, new_node(), false, has_parent, query(
                device_name,
                compatible_name,
            )) == Ok::<(int, SimpleDeviceNode, bool), DtbError>((t.0 as int, t.1, t.2)) && pos
                <= t.0 <= area.struct_end,
            Err(e) => device_props(bytes@, *area, pos as int, new_node(), false, has_parent, query(
                device_name,
                compatible_name,
            )) == Err::<(int, SimpleDeviceNode, bool), DtbError>(e),
        },
{
    reveal(device_props);
    let mut at = pos;
    let mut node = SimpleDeviceNode { address_cells: 2, size_cells: 1, reg: None, ranges: None };
    let mut matched = false;
    let ghost q = query(device_name, compatible_name);
    loop
        invariant
            area_wf(bytes@, *area),
            pos <= at,
            q == query(device_name, compatible_name),
            device_props(bytes@, *area, at as int, node, matched, has_parent, q) == device_props(
                bytes@,
                *area,
                pos as int,
                new_node(),
                false,
                has_parent,
                q,
            ),
        decreases area.struct_end - at,
    {
        reveal(device_props);
        let token = match read_token(bytes, area, at) {
            Some(t) => t,
            None => {
                return Err(DtbError::Truncated);
            },
        };
        if token == FDT_NOP {
            at = at + 4;
        } else if token == FDT_PROP {
            match parse_prop(bytes, area, at, node, has_parent, device_name, compatible_name) {
                Err(e) => {
                    return Err(e);
                },
                Ok(step) => {
                    at = step.0;
                    node = step.1;
                    if step.2 {
                        matched = true;
                    }
                },
            }
        } else if token == FDT_BEGIN_NODE || token == FDT_END_NODE {
            return Ok((at, node, matched));
        } else {
            return Err(DtbError::UnexpectedToken);
        }
    }
}

/// The address `addr` of `size` bytes, as the node at `i` of `chain` gives
/// it, in the addresses of the root: each node from `i` up to the root that
/// has a `ranges` property with an entry moves the address from the range of
/// its children to the range of its parent. Fails where the address does not
/// lie in the range of the children, and where the entry cannot be read.
pub open spec fn translate(
    b: Seq<u8>,
    a: Area,
    chain: Seq<SimpleDeviceNode>,
    i: int,
    addr: int,
    size: int,
) -> Result<int, DtbError>
    decreases i,
{
    if i < 0 || i >= chain.len() {
        Err(DtbError::BadCells)
    } else {
        let moved = step_up(b, a, chain, i, addr, size);
        match moved {
            Err(e) => Err(e),
            Ok(next) => if i == 0 {
                Ok(next)
            } else {
                translate(b, a, chain, i - 1, next, size)
            },
        }
    }
}

/// The address `addr` of `size` bytes after the `ranges` property of the
/// node at `i` has moved it, if the node has one with an entry.
pub open spec fn step_up(
    b: Seq<u8>,
    a: Area,
    chain: Seq<SimpleDeviceNode>,
    i: int,
    addr: int,
    size: int,
) -> Result<int, DtbError> {
    let n = chain[i];
    match n.ranges {
        None => Ok(addr),
        Some(r) => if r.len == 0 {
            Ok(addr)
        } else if i == 0 {
            Err(DtbError::RangesOverflow)
        } else {
            let child = cells_at(b, r.head as int, n.address_cells, a.struct_end as int);
            let parent = cells_at(
                b,
                r.head + 4 * n.address_cells,
                chain[i - 1].address_cells,
                a.struct_end as int,
            );
            let len = cells_at(
                b,
                r.head + 4 * n.address_cells + 4 * chain[i - 1].address_cells,
                n.size_cells,
                a.struct_end as int,
            );
            if child is None || parent is None || len is None {
                Err(DtbError::BadCells)
            } else if addr < child->0 || child->0 + len->0 < addr + size || addr - child->0
                + parent->0 > u64::MAX {
                Err(DtbError::RangesOverflow)
            } else {
                Ok(addr - child->0 + parent->0)
            }
        },
    }
}

/// Moves an address through the `ranges` property of the node at `i`.
pub fn move_address(
    bytes: &Vec<u8>,
    area: &Area,
    chain: &Vec<SimpleDeviceNode>,
    i: usize,
    addr: u64,
    size: u64,
) -> (r: Result<u64, DtbError>)
    requires
        area_wf(bytes@, *area),
        i < chain@.len(),
    ensures
        match r {
            Ok(x) => step_up(bytes@, *area, chain@, i as int, addr as int, size as int) == Ok::<
                int,
                DtbError,
            >(x as int),
            Err(e) => step_up(bytes@, *area, chain@, i as int, addr as int, size as int) == Err::<
                int,
                DtbError,
            >(e),
        },
{
    let n = chain[i];
    let r = match n.ranges {
        None => {
            return Ok(addr);
        },
        Some(r) => r,
    };
    if r.len == 0 {
        return Ok(addr);
    }
    if i == 0 {
        return Err(DtbError::RangesOverflow);
    }
    let above = chain[i - 1];
    let end = area.struct_end;
    let child = match read_regs(bytes, r.head, n.address_cells, end) {
        Some(c) => c,
        None => {
            return Err(DtbError::BadCells);
        },
    };
    let second = r.head + 4 * (n.address_cells as usize);
    let parent = match read_regs(bytes, second, above.address_cells, end) {
        Some(c) => c,
        None => {
            return Err(DtbError::BadCells);
        },
    };
    let third = second + 4 * (above.address_cells as usize);
    let len = match read_regs(bytes, third, n.size_cells, end) {
        Some(c) => c,
        None => {
            return Err(DtbError::BadCells);
        },
    };
    if addr < child {
        return Err(DtbError::RangesOverflow);
    }
    let range_end: u128 = child as u128 + len as u128;
    let block_end: u128 = addr as u128 + size as u128;
    if range_end < block_end {
        return Err(DtbError::RangesOverflow);
    }
    let offset = addr - child;
    if parent > u64::MAX - offset {
        return Err(DtbError::RangesOverflow);
    }
    Ok(offset + parent)
}

/// Brings an address of the node at `i` into the addresses of the root.
pub fn calculate_address(
    bytes: &Vec<u8>,
    area: &Area,
    chain: &Vec<SimpleDeviceNode>,
    i: usize,
    addr: u64,
    size: u64,
) -> (r: Result<u64, DtbError>)
    requires
        area_wf(bytes@, *area),
        i < chain@.len(),
    ensures
        match r {
            Ok(x) => translate(bytes@, *area, chain@, i as int, addr as int, size as int) == Ok::<
                int,
                DtbError,
            >(x as int),
            Err(e) => translate(bytes@, *area, chain@, i as int, addr as int, size as int) == Err::<
                int,
                DtbError,
            >(e),
        },
{
    let mut at = i;
    let mut current = addr;
    loop
        invariant
            area_wf(bytes@, *area),
            at <= i < chain@.len(),
            translate(bytes@, *area, chain@, at as int, current as int, size as int) == translate(
                bytes@,
                *area,
                chain@,
                i as int,
                addr as int,
                size as int,
            ),
        decreases at,
    {
        match move_address(bytes, area, chain, at, current, size) {
            Err(e) => {
                return Err(e);
            },
            Ok(next) => {
                if at == 0 {
                    return Ok(next);
                }
                current = next;
                at = at - 1;
            },
        }
    }
}

/// The entries of the `reg` property of the last node of `chain` of which
/// `remain` bytes are left, each as an address in the addresses of the root
/// and a size, behind the entries `acc`.
#[verifier::opaque]
pub open spec fn reg_entries(
    b: Seq<u8>,
    a: Area,
    chain: Seq<SimpleDeviceNode>,
    remain: int,
    acc: Seq<(usize, usize)>,
) -> Result<Seq<(usize, usize)>, DtbError>
    decreases remain,
{
    if chain.len() < 2 || chain.last().reg is None {
        Err(DtbError::NoReg)
    } else if remain <= 0 {
        Ok(acc)
    } else {
        let reg = chain.last().reg->0;
        let p = chain[chain.len() - 2];
        let stride = 4 * (p.address_cells + p.size_cells);
        let at = reg.head + (reg.len - remain);
        let addr = cells_at(b, at, p.address_cells, a.struct_end as int);
        let size = cells_at(b, at + 4 * p.address_cells, p.size_cells, a.struct_end as int);
        if p.address_cells > 2 || p.size_cells > 2 || stride == 0 {
            Err(DtbError::BadCells)
        } else if remain < stride {
            Err(DtbError::BadLength)
        } else if addr is None || size is None {
            Err(DtbError::Truncated)
        } else {
            match translate(b, a, chain, chain.len() - 1, addr->0 as int, size->0 as int) {
                Err(e) => Err(e),
                Ok(t) => reg_entries(
                    b,
                    a,
                    chain,
                    remain - stride,
                    acc.push((word_of(t as u64), word_of(size->0))),
                ),
            }
        }
    }
}

/// Reads the entries of the `reg` property of the last node of `chain`.
pub fn read_reg_entries(
    bytes: &Vec<u8>,
    area: &Area,
    chain: &Vec<SimpleDeviceNode>,
    acc: Vec<(usize, usize)>,
) -> (r: Result<Vec<(usize, usize)>, DtbError>)
    requires
        area_wf(bytes@, *area),
        chain@.len() >= 1,
    ensures
        match r {
            Ok(out) => found_entries(bytes@, *area, chain@, acc@) == Ok::<
                Seq<(usize, usize)>,
                DtbError,
            >(out@),
            Err(e) => found_entries(bytes@, *area, chain@, acc@) == Err::<
                Seq<(usize, usize)>,
                DtbError,
            >(e),
        },
{
    reveal(reg_entries);
    let last = chain.len() - 1;
    let reg = match chain[last].reg {
        Some(r) => r,
        None => {
            return Err(DtbError::NoReg);
        },
    };
    if chain.len() < 2 {
        return Err(DtbError::NoReg);
    }
    let p = chain[last - 1];
    let mut out = acc;
    let mut remain: usize = reg.len as usize;
    while remain > 0
        invariant
            area_wf(bytes@, *area),
            chain@.len() >= 2,
            last == chain@.len() - 1,
            chain@[last as int].reg == Some(reg),
            p == chain@[last - 1],
            remain <= reg.len,
            reg_entries(bytes@, *area, chain@, remain as int, out@) == reg_entries(
                bytes@,
                *area,
                chain@,
                reg.len as int,
                acc@,
            ),
        decreases remain,
    {
        reveal(reg_entries);
        if p.address_cells > 2 || p.size_cells > 2 || (p.address_cells == 0 && p.size_cells == 0) {
            return Err(DtbError::BadCells);
        }
        let stride: usize = 4 * (p.address_cells as usize + p.size_cells as usize);
        if remain < stride {
            return Err(DtbError::BadLength);
        }
        let total = bytes.len();
        let offset = reg.len as usize - remain;
        if reg.head > total || offset > total - reg.head {
            return Err(DtbError::Truncated);
        }
        let at = reg.head + offset;
        let addr = match read_regs(bytes, at, p.address_cells, area.struct_end) {
            Some(x) => x,
            None => {
                return Err(DtbError::Truncated);
            },
        };
        let size = match read_regs(
            bytes,
            at + 4 * (p.address_cells as usize),
            p.size_cells,
            area.struct_end,
        ) {
            Some(x) => x,
            None => {
                return Err(DtbError::Truncated);
            },
        };
        match calculate_address(bytes, area, chain, last, addr, size) {
            Err(e) => {
                return Err(e);
            },
            Ok(t) => {
                out.push((#[verifier::truncate] (t as usize), #[verifier::truncate] (size as usize)));
            },
        }
        remain = remain - stride;
    }
    Ok(out)
}

/// The entries of the `reg` property of the last node of `chain`, behind
/// the entries `acc`. A node without that property has none to give.
pub open spec fn found_entries(
    b: Seq<u8>,
    a: Area,
    chain: Seq<SimpleDeviceNode>,
    acc: Seq<(usize, usize)>,
) -> Result<Seq<(usize, usize)>, DtbError> {
    match chain.last().reg {
        Some(reg) => reg_entries(b, a, chain, reg.len as int, acc),
        None => Err(DtbError::NoReg),
    }
}

/// The place behind the node that starts at `pos`, and the entries of the
/// nodes of its tree that the search asks for, in the order of the blob,
/// behind the entries `acc`. `chain` holds the nodes above it, root first.
pub open spec fn walk(
    b: Seq<u8>,
    a: Area,
    pos: int,
    chain: Seq<SimpleDeviceNode>,
    q: Query,
    acc: Seq<(usize, usize)>,
) -> Result<(int, Seq<(usize, usize)>), DtbError>
    decreases a.struct_end - pos, 0int,
{
    if token_at(b, a, pos) != Some(FDT_BEGIN_NODE) {
        Err(DtbError::ExpectedBeginNode)
    } else {
        match string_in(b, pos + 4, a.struct_end as int) {
            None => Err(DtbError::Truncated),
            Some(name) => match device_props(
                b,
                a,
                pos + 4 + round_up(name.len() as int + 1, 4),
                new_node(),
                false,
                chain.len() > 0,
                q,
            ) {
                Err(e) => Err(e),
                Ok(props) => {
                    let below = chain.push(props.1);
                    let mine = if props.2 {
                        found_entries(b, a, below, acc)
                    } else {
                        Ok(acc)
                    };
                    match mine {
                        Err(e) => Err(e),
                        Ok(so_far) => if pos < props.0 <= a.struct_end {
                            children(b, a, props.0, below, q, so_far)
                        } else {
                            Err(DtbError::Truncated)
                        },
                    }
                },
            },
        }
    }
}

/// The place behind the token that closes the node whose children start at
/// `pos`, and the entries that its children give.
pub open spec fn children(
    b: Seq<u8>,
    a: Area,
    pos: int,
    chain: Seq<SimpleDeviceNode>,
    q: Query,
    acc: Seq<(usize, usize)>,
) -> Result<(int, Seq<(usize, usize)>), DtbError>
    decreases a.struct_end - pos, 1int,
{
    match token_at(b, a, pos) {
        None => Err(DtbError::Truncated),
        Some(t) => if t == FDT_NOP {
            children(b, a, pos + 4, chain, q, acc)
        } else if t == FDT_BEGIN_NODE {
            match walk(b, a, pos, chain, q, acc) {
                Err(e) => Err(e),
                Ok(child) => if pos < child.0 <= a.struct_end {
                    children(b, a, child.0, chain, q, child.1)
                } else {
                    Err(DtbError::Truncated)
                },
            }
        } else if t == FDT_END_NODE {
            Ok((pos + 4, acc))
        } else {
            Err(DtbError::UnexpectedToken)
        },
    }
}

/// A copy of `chain` with `node` behind it.
pub fn extend_chain(chain: &Vec<SimpleDeviceNode>, node: SimpleDeviceNode) -> (r: Vec<
    SimpleDeviceNode,
>)
    ensures
        r@ == chain@.push(node),
{
    let mut out: Vec<SimpleDeviceNode> = Vec::new();
    let mut i: usize = 0;
    while i < chain.len()
        invariant
            i <= chain.len(),
            out@ == chain@.take(i as int),
        decreases chain.len() - i,
    {
        out.push(chain[i]);
        proof {
            assert(chain@.take(i as int).push(chain@[i as int]) =~= chain@.take(i + 1));
        }
        i += 1;
    }
    proof {
        assert(chain@.take(chain@.len() as int) =~= chain@);
    }
    out.push(node);
    out
}

/// Walks through the node that starts at `pos`.
pub fn walk_struct(
    bytes: &Vec<u8>,
    area: &Area,
    pos: usize,
    chain: &Vec<SimpleDeviceNode>,
    device_name: &Option<Vec<u8>>,
    compatible_name: &Option<Vec<u8>>,
    acc: Vec<(usize, usize)>,
) -> (r: Result<(usize, Vec<(usize, usize)>), DtbError>)
    requires
        area_wf(bytes@, *area),
    ensures
        match r {
            Ok(t) => walk(bytes@, *area, pos as int, chain@, query(device_name, compatible_name), acc@)
                == Ok::<(int, Seq<(usize, usize)>), DtbError>((t.0 as int, t.1@)) && t.0
                <= area.struct_end,
            Err(e) => walk(bytes@, *area, pos as int, chain@, query(device_name, compatible_name), acc@)
                == Err::<(int, Seq<(usize, usize)>), DtbError>(e),
        },
    decreases area.struct_end - pos, 0int,
{
    reveal(device_props);
    match read_token(bytes, area, pos) {
        Some(t) => {
            if t != FDT_BEGIN_NODE {
                return Err(DtbError::ExpectedBeginNode);
            }
        },
        None => {
            return Err(DtbError::ExpectedBeginNode);
        },
    }
    let name_len = match read_string_in(bytes, pos + 4, area.struct_end) {
        Some(n) => n,
        None => {
            return Err(DtbError::Truncated);
        },
    };
    proof {
        crate::layout::lemma_round_up(name_len + 1, 4);
    }
    let padded = match crate::layout::next_multiple_of(name_len + 1, 4) {
        Some(p) => p,
        None => {
            return Err(DtbError::Truncated);
        },
    };
    if padded > usize::MAX - (pos + 4) {
        return Err(DtbError::Truncated);
    }
    let after = pos + 4 + padded;
    let props = match parse_props(bytes, area, after, chain.len() > 0, device_name, compatible_name) {
        Ok(p) => p,
        Err(e) => {
            return Err(e);
        },
    };
    let below = extend_chain(chain, props.1);
    let so_far = if props.2 {
        match read_reg_entries(bytes, area, &below, acc) {
            Ok(v) => v,
            Err(e) => {
                return Err(e);
            },
        }
    } else {
        acc
    };
    if props.0 <= pos {
        return Err(DtbError::Truncated);
    }
    walk_children(bytes, area, props.0, &below, device_name, compatible_name, so_far)
}

/// Walks through the children of a node, which start at `pos`.
pub fn walk_children(
    bytes: &Vec<u8>,
    area: &Area,
    pos: usize,
    chain: &Vec<SimpleDeviceNode>,
    device_name: &Option<Vec<u8>>,
    compatible_name: &Option<Vec<u8>>,
    acc: Vec<(usize, usize)>,
) -> (r: Result<(usize, Vec<(usize, usize)>), DtbError>)
    requires
        area_wf(bytes@, *area),
    ensures
        match r {
            Ok(t) => children(
                bytes@,
                *area,
                pos as int,
                chain@,
                query(device_name, compatible_name),
                acc@,
            ) == Ok::<(int, Seq<(usize, usize)>), DtbError>((t.0 as int, t.1@)) && t.0
                <= area.struct_end,
            Err(e) => children(
                bytes@,
                *area,
                pos as int,
                chain@,
                query(device_name, compatible_name),
                acc@,
            ) == Err::<(int, Seq<(usize, usize)>), DtbError>(e),
        },
    decreases area.struct_end - pos, 1int,
{
    let token = match read_token(bytes, area, pos) {
        Some(t) => t,
        None => {
            return Err(DtbError::Truncated);
        },
    };
    if token == FDT_NOP {
        walk_children(bytes, area, pos + 4, chain, device_name, compatible_name, acc)
    } else if token == FDT_BEGIN_NODE {
        match walk_struct(bytes, area, pos, chain, device_name, compatible_name, acc) {
            Err(e) => Err(e),
            Ok(child) => {
                if child.0 <= pos {
                    return Err(DtbError::Truncated);
                }
                walk_children(bytes, area, child.0, chain, device_name, compatible_name, child.1)
            },
        }
    } else if token == FDT_END_NODE {
        Ok((pos + 4, acc))
    } else {
        Err(DtbError::UnexpectedToken)
    }
}

/// The place behind the root, which starts at `pos`, and the entries of the
/// nodes that the search asks for.
#[verifier::opaque]
pub open spec fn walk_root(b: Seq<u8>, a: Area, pos: int, q: Query) -> Result<
    (int, Seq<(usize, usize)>),
    DtbError,
> {
    walk(b, a, pos, Seq::empty(), q, Seq::empty())
}

/// Walks through the root, which starts at `pos`.
pub fn walk_tree(
    bytes: &Vec<u8>,
    area: &Area,
    pos: usize,
    device_name: &Option<Vec<u8>>,
    compatible_name: &Option<Vec<u8>>,
) -> (r: Result<(usize, Vec<(usize, usize)>), DtbError>)
    requires
        area_wf(bytes@, *area),
    ensures
        match r {
            Ok(t) => walk_root(bytes@, *area, pos as int, query(device_name, compatible_name))
                == Ok::<(int, Seq<(usize, usize)>), DtbError>((t.0 as int, t.1@)) && t.0
                <= area.struct_end,
            Err(e) => walk_root(bytes@, *area, pos as int, query(device_name, compatible_name))
                == Err::<(int, Seq<(usize, usize)>), DtbError>(e),
        },
{
    reveal(walk_root);
    let chain: Vec<SimpleDeviceNode> = Vec::new();
    walk_struct(bytes, area, pos, &chain, device_name, compatible_name, Vec::new())
}

/// Where the structure block and the strings block lie, as the header says.
pub open spec fn area_of(b: Seq<u8>) -> Area {
    Area {
        struct_start: header_of(b).off_dt_struct as usize,
        struct_end: (header_of(b).off_dt_struct + header_of(b).size_dt_struct) as usize,
        strings_start: header_of(b).off_dt_strings as usize,
        strings_end: (header_of(b).off_dt_strings + header_of(b).size_dt_strings) as usize,
    }
}

/// What a search through the blob gives: for each node whose `device_type`
/// is the one asked for, or one of whose `compatible` strings is, its
/// addresses and sizes in the order of the blob. The search has to name
/// exactly one of the two, and the structure block has to end behind the
/// root with the token that closes it.
pub open spec fn search(b: Seq<u8>, q: Query) -> Result<Seq<(usize, usize)>, DtbError> {
    search_in(b, area_of(b), q)
}

/// What a search gives in a blob whose blocks lie at `a`.
pub open spec fn search_in(b: Seq<u8>, a: Area, q: Query) -> Result<Seq<(usize, usize)>, DtbError> {
    if (q.device is Some) == (q.compatible is Some) {
        Err(DtbError::BadQuery)
    } else {
        match walk_root(b, a, nop_end(b, a.struct_start as int, a.struct_end as int), q) {
            Err(e) => Err(e),
            Ok(done) => if token_at(b, a, nop_end(b, done.0, a.struct_end as int)) == Some(
                FDT_END,
            ) {
                Ok(done.1)
            } else {
                Err(DtbError::MissingEnd)
            },
        }
    }
}

/// The place of the first token from `pos` on that is no `FDT_NOP`.
pub fn skip_nops(bytes: &Vec<u8>, area: &Area, pos: usize) -> (r: usize)
    requires
        area_wf(bytes@, *area),
    ensures
        pos <= r,
        r == nop_end(bytes@, pos as int, area.struct_end as int),
{
    let end = area.struct_end;
    let mut p = pos;
    while p < end && end - p >= 4 && read_be32(bytes, p) == FDT_NOP
        invariant
            pos <= p,
            end == area.struct_end,
            end <= bytes@.len(),
            nop_end(bytes@, p as int, end as int) == nop_end(bytes@, pos as int, end as int),
        decreases end - p,
    {
        p += 4;
    }
    proof {
        assert(nop_end(bytes@, p as int, end as int) == p);
    }
    p
}

/// Searches a blob whose blocks lie at `area`.
pub fn find_in(
    bytes: &Vec<u8>,
    area: &Area,
    device_name: &Option<Vec<u8>>,
    compatible_name: &Option<Vec<u8>>,
) -> (r: Result<Vec<(usize, usize)>, DtbError>)
    requires
        area_wf(bytes@, *area),
    ensures
        match r {
            Ok(list) => search_in(bytes@, *area, query(device_name, compatible_name)) == Ok::<
                Seq<(usize, usize)>,
                DtbError,
            >(list@),
            Err(e) => search_in(bytes@, *area, query(device_name, compatible_name)) == Err::<
                Seq<(usize, usize)>,
                DtbError,
            >(e),
        },
{
    if device_name.is_some() == compatible_name.is_some() {
        return Err(DtbError::BadQuery);
    }
    let start = skip_nops(bytes, area, area.struct_start);
    let done = match walk_tree(bytes, area, start, device_name, compatible_name) {
        Ok(d) => d,
        Err(e) => {
            return Err(e);
        },
    };
    let end = skip_nops(bytes, area, done.0);
    match read_token(bytes, area, end) {
        Some(t) => if t == FDT_END {
            Ok(done.1)
        } else {
            Err(DtbError::MissingEnd)
        },
        None => Err(DtbError::MissingEnd),
    }
}

impl DtbParser {
    /// Where the two blocks lie that a walk reads.
    pub fn area(&self) -> (r: Area)
        requires
            self.wf(),
        ensures
            r == area_of(self.dtb().blob()),
            area_wf(self.dtb().blob(), r),
    {
        let bytes = self.header().bytes();
        let total = bytes.len();
        let struct_start = read_be32(bytes, 8) as usize;
        let strings_start = read_be32(bytes, 12) as usize;
        Area {
            struct_start,
            struct_end: struct_start + read_be32(bytes, 36) as usize,
            strings_start,
            strings_end: strings_start + read_be32(bytes, 32) as usize,
        }
    }

    /// The addresses and sizes of the nodes whose `device_type` is
    /// `device_name`, or one of whose `compatible` strings is
    /// `compatible_name`, in the order of the blob.
    pub fn find_node(&self, device_name: Option<Vec<u8>>, compatible_name: Option<Vec<u8>>) -> (r:
        Result<Vec<(usize, usize)>, DtbError>)
        requires
            self.wf(),
        ensures
            match r {
                Ok(list) => search(self.dtb().blob(), query(&device_name, &compatible_name)) == Ok::<
                    Seq<(usize, usize)>,
                    DtbError,
                >(list@),
                Err(e) => search(self.dtb().blob(), query(&device_name, &compatible_name)) == Err::<
                    Seq<(usize, usize)>,
                    DtbError,
                >(e),
            },
    {
        let area = self.area();
        find_in(self.header().bytes(), &area, &device_name, &compatible_name)
    }
}

} // verus!
