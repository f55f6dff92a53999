use bootcore::pl011::Pl011Peripherals;
use bootcore::pl011::Pl011Uart;
use bootcore::typestate::read_write::ReadOnly;
use bootcore::typestate::read_write::ReadWrite;
use bootcore::typestate::read_write::WriteOnly;

fn port(data: u32) -> Pl011Uart {
    Pl011Uart::new(Pl011Peripherals {
        data: ReadWrite(data),
        error_status: ReadWrite(0xF),
        flags: ReadOnly(0x40),
        integer_baud_rate: ReadWrite(0),
        fractional_baud_rate: ReadWrite(0),
        line_control: ReadWrite(0xFF),
        control: ReadWrite(0xFFFF),
        interrupt_fifo_level_select: ReadWrite(0x12),
        interrupt_mask_set_clear: ReadWrite(0x7FF),
        interrupt_clear: WriteOnly(0),
    })
}

#[test]
fn pl011_is_set_up() {
    let mut uart = port(0);
    assert!(uart.is_flushed());
    uart.disabled();
    assert_eq!(uart.registers.control.0, 0xFCFE);
    assert_eq!(uart.registers.line_control.0, 0xEF);
    assert_eq!(uart.registers.interrupt_clear.0, 0x7FF);
    assert_eq!(uart.registers.interrupt_fifo_level_select.0, 0);
    assert_eq!(uart.registers.interrupt_mask_set_clear.0, 0);

    // 44 MHz and 115200 bits a second: 23.8715..., that is 23 and 56/64
    uart.init(4400_0000, 115200);
    assert_eq!(uart.registers.integer_baud_rate.0, 23);
    assert_eq!(uart.registers.fractional_baud_rate.0, 56);
    assert_eq!(uart.registers.line_control.0, 0x70);
    assert_eq!(uart.registers.control.0, 0xFFFF);

    let mut slow = port(0);
    slow.init(2400_0000, 9600);
    assert_eq!(slow.registers.integer_baud_rate.0, 156);
    assert_eq!(slow.registers.fractional_baud_rate.0, 16);
}

#[test]
fn pl011_sends_and_receives() {
    let mut uart = port(0);
    uart.write(&b"ok\n\n!".to_vec());
    assert_eq!(
        uart.sent,
        vec![b'o' as u32, b'k' as u32, 13, 10, 13, 10, b'!' as u32]
    );
    assert_eq!(uart.registers.data.0, b'!' as u32);
    uart.write(&vec![]);
    assert_eq!(uart.sent.len(), 7);

    let mut clean = port(0x41);
    assert_eq!(clean.read_char(), 0x41);
    assert_eq!(clean.registers.error_status.0, 0xF);
    let mut framing = port(0x142);
    assert_eq!(framing.read_char(), 0x42);
    assert_eq!(framing.registers.error_status.0, 0);
    let mut overrun = port(0x8FF);
    assert_eq!(overrun.read_char(), 0xFF);
    assert_eq!(overrun.registers.error_status.0, 0);
}
