//! Registers that are made of fields of bits.
use vstd::prelude::*;

verus! {

/// A field of a register: `SZ` bits from bit `OFF` upwards.
pub trait FieldSpec {
    /// The position of the lowest bit of the field.
    spec fn spec_off() -> u32;

    /// The number of bits of the field.
    spec fn spec_sz() -> u32;

    /// The position of the lowest bit of the field.
    fn off(&self) -> (r: u32)
        ensures
            r == Self::spec_off(),
    ;

    /// The number of bits of the field.
    fn sz(&self) -> (r: u32)
        ensures
            r == Self::spec_sz(),
    ;
}

/// A field that can be read.
pub trait FieldReadable: FieldSpec {

}

/// A field that can be written.
pub trait FieldWritable: FieldSpec {

}

/// The field of `SZ` bits from bit `OFF` upwards.
pub struct Field<const OFF: u32, const SZ: u32> {}

impl<const OFF: u32, const SZ: u32> FieldSpec for Field<OFF, SZ> {
    open spec fn spec_off() -> u32 {
        OFF
    }

    open spec fn spec_sz() -> u32 {
        SZ
    }

    fn off(&self) -> u32 {
        OFF
    }

    fn sz(&self) -> u32 {
        SZ
    }
}

impl<const OFF: u32, const SZ: u32> FieldReadable for Field<OFF, SZ> {

}

impl<const OFF: u32, const SZ: u32> FieldWritable for Field<OFF, SZ> {

}

impl<const OFF: u32, const SZ: u32> Field<OFF, SZ> {
    /// The field.
    pub fn new() -> (r: Self) {
        Self {  }
    }
}

/// The number whose `sz` lowest bits are set, and no others.
pub open spec fn low_mask(sz: u32) -> u64 {
    if sz >= 64 {
        0xffff_ffff_ffff_ffff
    } else {
        ((1u64 << sz) - 1) as u64
    }
}

/// What is reserved of a register of `width` bits: the bits that always
/// read as 0, and the bits that always read as 1.
#[derive(Clone, Copy, PartialEq, Eq, Debug, Structural)]
pub struct Reserved {
    pub width: u32,
    pub res0: u64,
    pub res1: u64,
}

/// A register made of fields, with its reserved bits.
#[derive(Clone, Copy, PartialEq, Eq, Debug, Structural)]
pub struct BitRegs {
    raw: u64,
    reserved: Reserved,
}

impl BitRegs {
    /// The bits as they were set, before the reserved bits are forced.
    pub closed spec fn raw(self) -> u64 {
        self.raw
    }

    /// What is reserved of the register.
    pub closed spec fn reserved(self) -> Reserved {
        self.reserved
    }

    /// The bits of the register with the reserved bits forced.
    pub open spec fn spec_bits(self) -> u64 {
        ((self.raw() & !self.reserved().res0) | self.reserved().res1) & low_mask(
            self.reserved().width,
        )
    }

    /// The value of the field of `sz` bits from bit `off`.
    pub open spec fn spec_get(self, off: u32, sz: u32) -> u64 {
        (self.raw() >> off) & low_mask(sz)
    }

    /// The register with the bits that always read as 1 set, and no others.
    pub fn new(reserved: Reserved) -> (r: Self)
        ensures
            r.raw() == reserved.res1,
            r.reserved() == reserved,
    {
        Self { raw: reserved.res1, reserved }
    }

    /// The register with the bits `bits`.
    pub fn from_bits(reserved: Reserved, bits: u64) -> (r: Self)
        ensures
            r.raw() == bits,
            r.reserved() == reserved,
    {
        Self { raw: bits, reserved }
    }

    /// The bits of the register, with the reserved bits forced to 0 or to 1.
    pub fn bits(self) -> (r: u64)
        ensures
            r == self.spec_bits(),
    {
        ((self.raw & !self.reserved.res0) | self.reserved.res1) & mask_of(self.reserved.width)
    }

    /// The register with its bits replaced.
    pub fn with_bits(self, bits: u64) -> (r: Self)
        ensures
            r.raw() == bits,
            r.reserved() == self.reserved(),
    {
        Self { raw: bits, reserved: self.reserved }
    }

    /// The value of a field.
    pub fn get<F: FieldSpec>(&self, f: F) -> (r: u64)
        requires
            F::spec_off() < 64,
        ensures
            r == self.spec_get(F::spec_off(), F::spec_sz()),
    {
        (self.raw >> f.off()) & mask_of(f.sz())
    }

    /// The register with the field set to the lowest bits of `v`.
    pub fn set<F: FieldSpec>(self, f: F, v: u64) -> (r: Self)
        requires
            F::spec_off() < 64,
        ensures
            r.reserved() == self.reserved(),
            r.raw() == (self.raw() & !(low_mask(F::spec_sz()) << F::spec_off())) | ((v & low_mask(
                F::spec_sz(),
            )) << F::spec_off()),
    {
        let val = mask_of(f.sz());
        let mask = val << f.off();
        Self { raw: (self.raw & !mask) | ((v & val) << f.off()), reserved: self.reserved }
    }

    /// The value of a field if it is one of `patterns`, and `None` otherwise.
    pub fn get_enum<F: FieldSpec>(&self, f: F, patterns: &Vec<u64>) -> (r: Option<u64>)
        requires
            F::spec_off() < 64,
        ensures
            patterns@.contains(self.spec_get(F::spec_off(), F::spec_sz())) ==> r == Some(
                self.spec_get(F::spec_off(), F::spec_sz()),
            ),
            !patterns@.contains(self.spec_get(F::spec_off(), F::spec_sz())) ==> r is None,
    {
        let v = self.get(f);
        let mut i: usize = 0;
        while i < patterns.len()
            invariant
                i <= patterns.len(),
                v == self.spec_get(F::spec_off(), F::spec_sz()),
                forall|j: int| 0 <= j < i ==> patterns@[j] != v,
            decreases patterns.len() - i,
        {
            if patterns[i] == v {
                proof {
                    assert(patterns@[i as int] == v);
                }
                return Some(v);
            }
            i += 1;
        }
        proof {
            if patterns@.contains(v) {
                let j = choose|j: int| 0 <= j < patterns@.len() && patterns@[j] == v;
                assert(patterns@[j] != v);
            }
        }
        None
    }

    /// The register with the field set to the pattern `e`.
    pub fn set_enum<F: FieldSpec>(self, f: F, e: u64) -> (r: Self)
        requires
            F::spec_off() < 64,
        ensures
            r.reserved() == self.reserved(),
            r.raw() == (self.raw() & !(low_mask(F::spec_sz()) << F::spec_off())) | ((e & low_mask(
                F::spec_sz(),
            )) << F::spec_off()),
    {
        self.set(f, e)
    }
}

/// The number whose `sz` lowest bits are set, and no others.
pub fn mask_of(sz: u32) -> (r: u64)
    ensures
        r == low_mask(sz),
{
    if sz >= 64 {
        0xffff_ffff_ffff_ffff
    } else {
        proof {
            assert(sz < 64 ==> (1u64 << sz) >= 1) by (bit_vector);
        }
        (1u64 << sz) - 1
    }
}

/// A field that has been set reads as the lowest bits of what it was set to,
/// as long as it lies within the 64 bits of the register.
pub proof fn lemma_get_after_set(raw: u64, off: u32, sz: u32, v: u64)
    requires
        off < 64,
        sz <= 64,
        off + sz <= 64,
    ensures
        ((((raw & !(low_mask(sz) << off)) | ((v & low_mask(sz)) << off)) >> off) & low_mask(sz))
            == v & low_mask(sz),
{
    let m = low_mask(sz);
    assert(off + sz <= 64 && off < 64 && (m == 0xffff_ffff_ffff_ffffu64 && sz == 64 || sz < 64 && m
        == ((1u64 << sz) - 1) as u64) ==> ((((raw & !(m << off)) | ((v & m) << off)) >> off) & m)
        == v & m) by (bit_vector);
}

} // verus!
