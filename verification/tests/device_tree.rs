use bootcore::dtb::DtbError;
use bootcore::dtb::DtbParser;
use bootcore::dtb_reserved::ReservedMemory;

struct Tree {
    structure: Vec<u8>,
    strings: Vec<u8>,
}

impl Tree {
    fn new() -> Tree {
        Tree {
            structure: Vec::new(),
            strings: Vec::new(),
        }
    }

    fn token(&mut self, t: u32) -> &mut Tree {
        self.structure.extend_from_slice(&t.to_be_bytes());
        self
    }

    fn pad(&mut self) {
        while self.structure.len() % 4 != 0 {
            self.structure.push(0);
        }
    }

    fn begin(&mut self, name: &str) -> &mut Tree {
        self.token(1);
        self.structure.extend_from_slice(name.as_bytes());
        self.structure.push(0);
        self.pad();
        self
    }

    fn end(&mut self) -> &mut Tree {
        self.token(2)
    }

    fn nop(&mut self) -> &mut Tree {
        self.token(4)
    }

    fn name(&mut self, name: &str) -> u32 {
        let mut wanted = name.as_bytes().to_vec();
        wanted.push(0);
        for at in 0..self.strings.len() {
            if self.strings[at..].starts_with(&wanted) && (at == 0 || self.strings[at - 1] == 0) {
                return at as u32;
            }
        }
        let at = self.strings.len() as u32;
        self.strings.extend_from_slice(&wanted);
        at
    }

    fn prop(&mut self, name: &str, value: &[u8]) -> &mut Tree {
        let offset = self.name(name);
        self.token(3);
        self.token(value.len() as u32);
        self.token(offset);
        self.structure.extend_from_slice(value);
        self.pad();
        self
    }

    fn cells(&mut self, name: &str, cells: &[u32]) -> &mut Tree {
        let mut value = Vec::new();
        for c in cells {
            value.extend_from_slice(&c.to_be_bytes());
        }
        self.prop(name, &value)
    }

    fn text(&mut self, name: &str, text: &str) -> &mut Tree {
        let mut value = text.as_bytes().to_vec();
        value.push(0);
        self.prop(name, &value)
    }

    fn blob(&self, last: u32) -> Vec<u8> {
        let mut structure = self.structure.clone();
        structure.extend_from_slice(&last.to_be_bytes());
        let mut b = vec![0u8; 40 + 16];
        let struct_at = b.len();
        b.extend_from_slice(&structure);
        let strings_at = b.len();
        b.extend_from_slice(&self.strings);
        let total = b.len();
        let header = [
            0xd00d_feedu32,
            total as u32,
            struct_at as u32,
            strings_at as u32,
            40,
            17,
            16,
            0,
            self.strings.len() as u32,
            structure.len() as u32,
        ];
        for (i, word) in header.iter().enumerate() {
            b[4 * i..4 * i + 4].copy_from_slice(&word.to_be_bytes());
        }
        b
    }

    fn parser(&self) -> DtbParser {
        DtbParser::init(0x4000_0000, self.blob(9)).unwrap_or_else(|_| panic!("valid header"))
    }
}

fn name(s: &str) -> Option<Vec<u8>> {
    Some(s.as_bytes().to_vec())
}

fn board() -> Tree {
    let mut t = Tree::new();
    t.nop().begin("");
    t.cells("#address-cells", &[2]).cells("#size-cells", &[2]);
    t.text("compatible", "linux,dummy-virt");
    t.begin("memory@0");
    t.text("device_type", "memory");
    t.cells("reg", &[0, 0, 0, 0x2800_0000, 1, 0, 0, 0x1000]);
    t.end();
    t.nop();
    t.begin("pl011@9000000");
    t.prop("compatible", b"arm,pl011\0arm,primecell\0");
    t.cells("reg", &[0x10, 0x7D00_1000, 0, 0x200]);
    t.end();
    t.begin("soc");
    t.cells("#address-cells", &[1]).cells("#size-cells", &[1]);
    t.cells("ranges", &[0, 0, 0x1000_0000, 0x100_0000]);
    t.begin("serial@1000");
    t.text("compatible", "arm,primecell");
    t.cells("reg", &[0x1000, 0x100]);
    t.end();
    t.begin("bus");
    t.cells("#address-cells", &[1]).cells("#size-cells", &[1]);
    t.prop("ranges", &[]);
    t.begin("gpio@2000");
    t.text("compatible", "arm,gpio");
    t.cells("reg", &[0x2000, 0x40, 0x3000, 0x40]);
    t.end();
    t.end();
    t.end();
    t.end();
    t
}

#[test]
fn find_node_by_device_type() {
    let parser = board().parser();
    assert_eq!(
        parser.find_node(name("memory"), None),
        Ok(vec![(0, 0x2800_0000), (0x1_0000_0000, 0x1000)])
    );
    assert_eq!(parser.find_node(name("cpu"), None), Ok(vec![]));
}

#[test]
fn find_node_by_compatible() {
    let parser = board().parser();
    assert_eq!(
        parser.find_node(None, name("arm,pl011")),
        Ok(vec![(0x10_7D00_1000, 0x200)])
    );
    // the second string of one node, the only string of another, whose
    // address the ranges of its parent move
    assert_eq!(
        parser.find_node(None, name("arm,primecell")),
        Ok(vec![(0x10_7D00_1000, 0x200), (0x1000_1000, 0x100)])
    );
    // two entries, below a bus with empty ranges
    assert_eq!(
        parser.find_node(None, name("arm,gpio")),
        Ok(vec![(0x1000_2000, 0x40), (0x1000_3000, 0x40)])
    );
    // part of a string is no match
    assert_eq!(parser.find_node(None, name("arm")), Ok(vec![]));
}

#[test]
fn find_node_checks_the_query_and_the_tree() {
    let parser = board().parser();
    assert_eq!(parser.find_node(None, None), Err(DtbError::BadQuery));
    assert_eq!(
        parser.find_node(name("memory"), name("arm,pl011")),
        Err(DtbError::BadQuery)
    );

    // the root is found and has no reg property
    assert_eq!(
        parser.find_node(None, name("linux,dummy-virt")),
        Err(DtbError::NoReg)
    );

    // no token closes the structure block
    let open = DtbParser::init(0, board().blob(4)).unwrap_or_else(|_| panic!("valid header"));
    assert_eq!(open.find_node(name("memory"), None), Err(DtbError::MissingEnd));

    // a reg property of the root
    let mut t = Tree::new();
    t.begin("").cells("reg", &[0, 0]).end();
    assert_eq!(t.parser().find_node(name("x"), None), Err(DtbError::RegAtRoot));

    // a token that is none
    let mut t = Tree::new();
    t.begin("").token(7).end();
    assert_eq!(
        t.parser().find_node(name("x"), None),
        Err(DtbError::UnexpectedToken)
    );

    // the structure block does not start with a node
    let mut t = Tree::new();
    t.end();
    assert_eq!(
        t.parser().find_node(name("x"), None),
        Err(DtbError::ExpectedBeginNode)
    );

    // the root is not closed
    let mut t = Tree::new();
    t.begin("").begin("a").end();
    assert_eq!(t.parser().find_node(name("x"), None), Err(DtbError::UnexpectedToken));

    // a reg property that is no multiple of an entry
    let mut t = Tree::new();
    t.begin("").begin("m");
    t.text("device_type", "memory").cells("reg", &[0, 0, 0, 0x1000]).end().end();
    assert_eq!(t.parser().find_node(name("memory"), None), Err(DtbError::BadLength));

    // more than two cells
    let mut t = Tree::new();
    t.begin("").cells("#address-cells", &[3]).begin("m");
    t.text("device_type", "memory").cells("reg", &[0, 0, 0, 0x1000]).end().end();
    assert_eq!(t.parser().find_node(name("memory"), None), Err(DtbError::BadCells));

    // an address below the range of the children
    let mut t = Tree::new();
    t.begin("").cells("#address-cells", &[1]).cells("#size-cells", &[1]);
    t.begin("soc").cells("#address-cells", &[1]).cells("#size-cells", &[1]);
    t.cells("ranges", &[0x8000, 0x10_0000, 0x1000]);
    t.begin("a").text("compatible", "low").cells("reg", &[0x7000, 0x10]).end();
    t.begin("b").text("compatible", "high").cells("reg", &[0x8FF8, 0x10]).end();
    t.begin("c").text("compatible", "fits").cells("reg", &[0x8FF0, 0x10]).end();
    t.end().end();
    assert_eq!(t.parser().find_node(None, name("low")), Err(DtbError::RangesOverflow));
    assert_eq!(t.parser().find_node(None, name("high")), Err(DtbError::RangesOverflow));
    assert_eq!(
        t.parser().find_node(None, name("fits")),
        Ok(vec![(0x10_0FF0, 0x10)])
    );

    // a name that does not lie in the strings block
    let mut t = Tree::new();
    t.begin("").token(3).token(0).token(0x100).end();
    assert_eq!(t.parser().find_node(name("x"), None), Err(DtbError::BadName));

    // the strings of compatible are longer than the property
    let mut t = Tree::new();
    t.begin("").prop("compatible", b"ab").end();
    assert_eq!(t.parser().find_node(None, name("ab")), Err(DtbError::TooSmall));
}

fn reserved(children: &dyn Fn(&mut Tree)) -> Tree {
    let mut t = Tree::new();
    t.begin("");
    t.cells("#address-cells", &[2]).cells("#size-cells", &[2]);
    t.begin("reserved-memory");
    t.cells("#address-cells", &[1]).cells("#size-cells", &[1]);
    t.prop("ranges", &[]);
    children(&mut t);
    t.end();
    t.begin("memory@0").text("device_type", "memory").end();
    t.end();
    t
}

#[test]
fn reserved_memory_static_regions() {
    let t = reserved(&|t| {
        t.begin("fixed@20").cells("reg", &[0x20, 0x10]).end();
        t.begin("two").cells("reg", &[0x100, 0x80, 0x400, 0x40]).end();
        t.begin("empty").prop("reg", &[]).end();
    });
    assert_eq!(
        t.parser().find_reserved_memory_node(),
        Ok(vec![
            ReservedMemory::Static {
                address: 0x20,
                size: 0x10
            },
            ReservedMemory::Static {
                address: 0x100,
                size: 0x80
            },
            ReservedMemory::Static {
                address: 0x400,
                size: 0x40
            },
        ])
    );
    // the tree of the board has no reserved memory
    assert_eq!(board().parser().find_reserved_memory_node(), Ok(vec![]));
}

#[test]
fn reserved_memory_dynamic_regions() {
    let t = reserved(&|t| {
        t.begin("pool");
        t.cells("size", &[0x0001_0000]);
        t.cells("alignment", &[0x0001_0000]);
        t.cells("alloc-ranges", &[0x4000_0000, 0x1000_0000, 0x8000_0000, 0x100_0000]);
        t.end();
        t.begin("anywhere").cells("size", &[0x2000]).end();
        t.begin("fixed").cells("reg", &[0x20, 0x10]).end();
    });
    assert_eq!(
        t.parser().find_reserved_memory_node(),
        Ok(vec![
            ReservedMemory::Dynamic {
                size: 0x0001_0000,
                alignment: Some(0x0001_0000),
                alloc_ranges: vec![(0x4000_0000, 0x1000_0000), (0x8000_0000, 0x100_0000)],
            },
            ReservedMemory::Dynamic {
                size: 0x2000,
                alignment: None,
                alloc_ranges: vec![],
            },
            ReservedMemory::Static {
                address: 0x20,
                size: 0x10
            },
        ])
    );
}

#[test]
fn reserved_memory_is_checked() {
    let check = |children: &dyn Fn(&mut Tree)| reserved(children).parser().find_reserved_memory_node();
    assert_eq!(
        check(&|t| {
            t.begin("a").cells("reg", &[1, 2]).cells("reg", &[3, 4]).end();
        }),
        Err(DtbError::DuplicateProperty)
    );
    assert_eq!(
        check(&|t| {
            t.begin("a").cells("reg", &[1, 2]).cells("size", &[3]).end();
        }),
        Err(DtbError::DuplicateProperty)
    );
    assert_eq!(
        check(&|t| {
            t.begin("a").cells("size", &[1]).cells("size", &[3]).end();
        }),
        Err(DtbError::DuplicateProperty)
    );
    assert_eq!(
        check(&|t| {
            t.begin("a").cells("alignment", &[0x1000]).end();
        }),
        Err(DtbError::MissingSize)
    );
    assert_eq!(
        check(&|t| {
            t.begin("a").cells("size", &[0, 0x1000]).end();
        }),
        Err(DtbError::BadLength)
    );
    assert_eq!(
        check(&|t| {
            t.begin("a").cells("size", &[1]).cells("alloc-ranges", &[1, 2, 3]).end();
        }),
        Err(DtbError::BadLength)
    );
    assert_eq!(
        check(&|t| {
            t.begin("a").cells("reg", &[1, 2, 3]).end();
        }),
        Err(DtbError::BadLength)
    );
    // more than two cells for the addresses of the children
    let mut t = Tree::new();
    t.begin("").begin("reserved-memory").cells("#address-cells", &[3]);
    t.begin("a").cells("reg", &[1, 2, 3, 4]).end().end().end();
    assert_eq!(t.parser().find_reserved_memory_node(), Err(DtbError::BadCells));
}

#[test]
fn reserved_memory_depth() {
    // a child without properties is not looked into: the property of its
    // child, whose name lies nowhere, is passed over
    let t = reserved(&|t| {
        t.begin("quiet");
        t.begin("inner").token(3).token(0).token(0x1000).end();
        t.end();
        t.begin("loud").cells("reg", &[0x1000, 0x100]);
        t.begin("inner").cells("reg", &[0x5000, 0x100]).end();
        t.end();
    });
    assert_eq!(
        t.parser().find_reserved_memory_node(),
        Ok(vec![ReservedMemory::Static {
            address: 0x1000,
            size: 0x100
        }])
    );
    // a child with properties is looked into
    let t = reserved(&|t| {
        t.begin("loud").cells("reg", &[0x1000, 0x100]);
        t.begin("inner").token(3).token(0).token(0x1000).end();
        t.end();
    });
    assert_eq!(t.parser().find_reserved_memory_node(), Err(DtbError::BadName));
    // what is passed over still has to be made of tokens
    let t = reserved(&|t| {
        t.begin("quiet");
        t.begin("inner").token(7).end();
        t.end();
    });
    assert_eq!(
        t.parser().find_reserved_memory_node(),
        Err(DtbError::UnexpectedToken)
    );
}
