use bootcore::typestate::bitflags::BitRegs;
use bootcore::typestate::bitflags::Field;
use bootcore::typestate::bitflags::FieldSpec;
use bootcore::typestate::bitflags::Reserved;
use bootcore::typestate::endianness::Be;
use bootcore::typestate::endianness::Le;
use bootcore::typestate::read_write::ReadOnly;
use bootcore::typestate::read_write::ReadPure;
use bootcore::typestate::read_write::ReadWrite;
use bootcore::typestate::read_write::Readable;
use bootcore::typestate::read_write::Writable;
use bootcore::typestate::read_write::WriteOnly;
use bootcore::typestate::unaligned::Unaligned;
use bootcore::typestate::RawReg;

// Timer: u32 { period@[7:0], reserved@[15:8] [res0], enable(16, 1),
//              reserved@[23:17] [ignore], reserved@[31:24] [res1] }
fn timer() -> Reserved {
    Reserved {
        width: 32,
        res0: 0x0000_FF00,
        res1: 0xFF00_0000,
    }
}

fn timer_period() -> Field<0, 8> {
    Field::new()
}

fn timer_enable() -> Field<16, 1> {
    Field::new()
}

// Status: u16 { state@[2:0] as State, reserved@[7:3] [res0], error(8, 1),
//               reserved@[13:9] [ignore], reserved@[15:14] [res1] }
fn status() -> Reserved {
    Reserved {
        width: 16,
        res0: 0x00F8,
        res1: 0xC000,
    }
}

fn status_state() -> Field<0, 3> {
    Field::new()
}

fn status_error() -> Field<8, 1> {
    Field::new()
}

#[derive(Clone, Copy, Debug, PartialEq, Eq)]
enum State {
    Idle,
    Busy,
    Done,
    Fault,
}

fn state_bits(s: State) -> u64 {
    match s {
        State::Idle => 0b000,
        State::Busy => 0b001,
        State::Done => 0b010,
        State::Fault => 0b011,
    }
}

fn state_of(bits: u64) -> State {
    match bits {
        0b000 => State::Idle,
        0b001 => State::Busy,
        0b010 => State::Done,
        _ => State::Fault,
    }
}

fn state_patterns() -> Vec<u64> {
    vec![0b000, 0b001, 0b010, 0b011]
}

#[test]
fn bitregs_applies_reserved_policies() {
    let reg = BitRegs::new(timer())
        .set(timer_period(), 0xAA)
        .set(timer_enable(), 1);

    assert_eq!(reg.bits(), 0xFF01_00AA);
    assert_eq!(reg.get(timer_period()), 0xAA);
    assert_eq!(reg.get(timer_enable()), 1);
}

#[test]
fn bitregs_enum_roundtrip() {
    let mut reg = BitRegs::new(status()).set_enum(status_state(), state_bits(State::Done));

    assert_eq!(
        reg.get_enum(status_state(), &state_patterns()).map(state_of),
        Some(State::Done)
    );
    assert_eq!(reg.bits() & 0xC000, 0xC000);
    assert_eq!(reg.bits() & 0x00F8, 0);

    reg = reg.with_bits(0x01FF);
    assert_eq!(reg.get(status_error()), 1);
    assert_eq!(reg.bits() & 0x00F8, 0);
}

#[test]
fn bitregs_enum_invalid_pattern_returns_none() {
    let reg = BitRegs::new(status()).set(status_state(), 0b111);

    assert_eq!(
        reg.get_enum(status_state(), &state_patterns()).map(state_of),
        None::<State>
    );
}

#[test]
fn bitregs_keeps_other_fields_and_width() {
    let reg = BitRegs::from_bits(status(), 0xFFFF_FFFF);
    // the register has 16 bits, and the bits that read as 0 are forced
    assert_eq!(reg.bits(), 0xFF07);
    let cleared = reg.set(status_error(), 0);
    assert_eq!(cleared.get(status_error()), 0);
    assert_eq!(cleared.get(status_state()), 0b111);
    assert_eq!(cleared.bits(), 0xFE07);
    // only the lowest bits of the value are taken
    let one = cleared.set(status_error(), 0b11);
    assert_eq!(one.get(status_error()), 1);
    assert_eq!(one.bits(), 0xFF07);
    let whole: Field<0, 64> = Field::new();
    assert_eq!(reg.get(whole), 0xFFFF_FFFF);
    assert_eq!((timer_enable().off(), timer_enable().sz()), (16, 1));
    assert_eq!(bootcore::typestate::bitflags::mask_of(0), 0);
    assert_eq!(bootcore::typestate::bitflags::mask_of(3), 7);
    assert_eq!(bootcore::typestate::bitflags::mask_of(64), u64::MAX);
}

#[test]
fn endianness_of_registers() {
    let mut le = Le::new(0x1122_3344u32);
    assert_eq!(le.0, 0x1122_3344);
    assert_eq!(le.read(), 0x1122_3344);
    le.write(0xAABB_CCDD);
    assert_eq!(le.read(), 0xAABB_CCDD);

    let mut be = Be::new(0x1122_3344u32);
    assert_eq!(be.0, 0x4433_2211);
    assert_eq!(be.read(), 0x1122_3344);
    be.write(0xAABB_CCDD);
    assert_eq!(be.0, 0xDDCC_BBAA);
    assert_eq!(be.read(), 0xAABB_CCDD);

    assert_eq!(Be::new(0x1122u16).0, 0x2211);
    assert_eq!(Be::new(0x11u8).0, 0x11);
    assert_eq!(Be::new(0x1122_3344_5566_7788u64).0, 0x8877_6655_4433_2211);
    assert_eq!(Be::new(0x1122_3344_5566_7788u64).read(), 0x1122_3344_5566_7788);
}

#[test]
fn byte_order_matches_the_processor() {
    assert_eq!(0x1234u16.swap_bytes(), bootcore::typestate::swap16(0x1234));
    assert_eq!(0x1234_5678u32.swap_bytes(), bootcore::typestate::swap32(0x1234_5678));
    assert_eq!(
        0x1234_5678_9ABC_DEF0u64.swap_bytes(),
        bootcore::typestate::swap64(0x1234_5678_9ABC_DEF0)
    );
    assert_eq!(RawReg::to_be(0x1234_5678u32), 0x7856_3412);
    assert_eq!(RawReg::from_be(0x7856_3412u32), 0x1234_5678);
    assert_eq!(RawReg::to_le(0x1234_5678u32), 0x1234_5678);
    assert_eq!(RawReg::from_le(0x1234u16), 0x1234);
    assert_eq!(RawReg::bit_or(0x0Fu8, 0xF0), 0xFF);
    assert_eq!(RawReg::bit_and(0x0FF0u16, 0x00FF), 0x00F0);
    assert_eq!(RawReg::bit_xor(0xFFu64, 0x0F), 0xF0);
    assert_eq!(RawReg::bit_not(0u32), u32::MAX);
}

#[test]
fn registers_read_and_write() {
    let ro = ReadOnly(7u32);
    assert_eq!(ro.read(), 7);
    let pure = ReadPure(9u16);
    assert_eq!(pure.read(), 9);
    let mut wo = WriteOnly(0u8);
    wo.write(3);
    assert_eq!(wo.0, 3);
    let mut rw = ReadWrite(0b1010u32);
    rw.set_bits(0b0101);
    assert_eq!(rw.read(), 0b1111);
    rw.clear_bits(0b0110);
    assert_eq!(rw.read(), 0b1001);
    rw.toggle_bits(0b0011);
    assert_eq!(rw.read(), 0b1010);
    rw.write(1);
    assert_eq!(rw.read(), 1);
    let mut un = Unaligned(5u64);
    assert_eq!(un.get(), 5);
    un.set(6);
    assert_eq!(un.get(), 6);
}
