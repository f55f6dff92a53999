//! The driver of the PL011 serial port, on the registers of the port as
//! values: what the driver writes into them, and what it makes of what it
//! reads. The waiting for the port is left to the caller, who hands the
//! registers over when the port is ready.
use vstd::prelude::*;
use crate::typestate::read_write::ReadOnly;
use crate::typestate::read_write::ReadWrite;
use crate::typestate::read_write::Readable;
use crate::typestate::read_write::Writable;
use crate::typestate::read_write::WriteOnly;

verus! {

/// The data register: a byte, and the errors of its reception.
#[derive(Clone, Copy, PartialEq, Eq, Debug, Structural)]
pub struct UARTDR(pub u32);

/// The flag register.
#[derive(Clone, Copy, PartialEq, Eq, Debug, Structural)]
pub struct UARTFR(pub u32);

/// The line control register.
#[derive(Clone, Copy, PartialEq, Eq, Debug, Structural)]
pub struct UARTLCR(pub u32);

/// The control register.
#[derive(Clone, Copy, PartialEq, Eq, Debug, Structural)]
pub struct UARTCR(pub u32);

/// The interrupt clear register.
#[derive(Clone, Copy, PartialEq, Eq, Debug, Structural)]
pub struct UARTICR(pub u32);

/// The byte of the data register.
pub const DR_DATA_MASK: u32 = 0xFF;

/// The errors of the data register: framing, parity, break and overrun.
pub const DR_ERROR_MASK: u32 = 0xF00;

/// The port is busy sending.
pub const FR_BUSY_MASK: u32 = 0x8;

/// Nothing has been received.
pub const FR_RXFE_MASK: u32 = 0x10;

/// No more can be sent for now.
pub const FR_TXFF_MASK: u32 = 0x20;

/// All that was to be sent has been sent.
pub const FR_TXFE_MASK: u32 = 0x80;

/// The buffers of the port are in use.
pub const LCR_FEN_MASK: u32 = 0x10;

/// A word has eight bits.
pub const LCR_WLEN_BIT8_MASK: u32 = 0x60;

/// The port is on, with its sender and its receiver.
pub const CR_ENABLE_MASK: u32 = 0x301;

/// Every interrupt of the port.
pub const ICR_ALL_MASK: u32 = 0x7FF;

/// The least clock with which the port works, in Hertz.
pub const MINIMUM_CLOCK: u32 = 368_6400;

/// The registers of the port.
#[derive(Debug)]
pub struct Pl011Peripherals {
    pub data: ReadWrite<u32>,
    pub error_status: ReadWrite<u32>,
    pub flags: ReadOnly<u32>,
    pub integer_baud_rate: ReadWrite<u32>,
    pub fractional_baud_rate: ReadWrite<u32>,
    pub line_control: ReadWrite<u32>,
    pub control: ReadWrite<u32>,
    pub interrupt_fifo_level_select: ReadWrite<u32>,
    pub interrupt_mask_set_clear: ReadWrite<u32>,
    pub interrupt_clear: WriteOnly<u32>,
}

/// The port: its registers, and what it has been given to send.
#[derive(Debug)]
pub struct Pl011Uart {
    pub registers: Pl011Peripherals,
    pub sent: Vec<u32>,
}

/// The divisor of the clock for a rate, in units of one 64th: the clock
/// divided by sixteen times the rate, rounded to the nearest 64th.
pub open spec fn divisor_x64(uart_clk: u32, baudrate: u32) -> int {
    (4 * uart_clk + baudrate / 2) / (baudrate as int)
}

/// What is sent for the bytes `text`: each byte, and a carriage return
/// before each line feed.
pub open spec fn on_the_wire(text: Seq<u8>) -> Seq<u32>
    decreases text.len(),
{
    if text.len() == 0 {
        Seq::empty()
    } else if text.last() == 10 {
        on_the_wire(text.drop_last()).push(13u32).push(10u32)
    } else {
        on_the_wire(text.drop_last()).push(text.last() as u32)
    }
}

impl Pl011Uart {
    /// The port with the registers `registers`, which has sent nothing.
    pub fn new(registers: Pl011Peripherals) -> (r: Self)
        ensures
            r.registers == registers,
            r.sent@ == Seq::<u32>::empty(),
    {
        Self { registers, sent: Vec::new() }
    }

    /// Whether the port has sent all that it was given: it is not busy, and
    /// its buffer does not say that it is empty.
    pub fn is_flushed(&self) -> (r: bool)
        ensures
            r == (self.registers.flags.0 & FR_BUSY_MASK == 0 && self.registers.flags.0
                & FR_TXFE_MASK == 0),
    {
        let flags = self.registers.flags.read();
        flags & FR_BUSY_MASK == 0 && flags & FR_TXFE_MASK == 0
    }

    /// Waits until the port has sent all that it was given. The port has
    /// done so already.
    pub fn flush(&self)
        requires
            self.registers.flags.0 & FR_BUSY_MASK == 0,
            self.registers.flags.0 & FR_TXFE_MASK == 0,
    {
        while !self.is_flushed()
            invariant
                self.registers.flags.0 & FR_BUSY_MASK == 0,
                self.registers.flags.0 & FR_TXFE_MASK == 0,
            decreases 0int,
        {
        }
    }

    /// Turns the port off: the port, its sender and its receiver are
    /// disabled, every interrupt is cleared and masked, and the buffers are
    /// taken out of use.
    pub fn disabled(&mut self)
        requires
            old(self).registers.flags.0 & FR_BUSY_MASK == 0,
            old(self).registers.flags.0 & FR_TXFE_MASK == 0,
        ensures
            final(self).registers.control.0 == old(self).registers.control.0 & !CR_ENABLE_MASK,
            final(self).registers.interrupt_clear.0 == ICR_ALL_MASK,
            final(self).registers.line_control.0 == old(self).registers.line_control.0
                & !LCR_FEN_MASK,
            final(self).registers.interrupt_fifo_level_select.0 == 0,
            final(self).registers.interrupt_mask_set_clear.0 == 0,
            final(self).registers.flags == old(self).registers.flags,
            final(self).registers.data == old(self).registers.data,
            final(self).registers.error_status == old(self).registers.error_status,
            final(self).registers.integer_baud_rate == old(self).registers.integer_baud_rate,
            final(self).registers.fractional_baud_rate == old(self).registers.fractional_baud_rate,
            final(self).sent == old(self).sent,
    {
        self.flush();
        self.registers.control.clear_bits(CR_ENABLE_MASK);
        self.registers.interrupt_clear.write(ICR_ALL_MASK);
        self.registers.line_control.clear_bits(LCR_FEN_MASK);
        self.registers.interrupt_fifo_level_select.write(0);
        self.registers.interrupt_mask_set_clear.write(0);
    }

    /// Sets the port up for `baudrate` bits a second with a clock of
    /// `uart_clk` Hertz: the two parts of the divisor of the clock are
    /// written, words of eight bits and the buffers are chosen, and the port
    /// is turned on with its sender and its receiver.
    pub fn init(&mut self, uart_clk: u32, baudrate: u32)
        requires
            old(self).registers.flags.0 & FR_BUSY_MASK == 0,
            old(self).registers.flags.0 & FR_TXFE_MASK == 0,
            uart_clk > MINIMUM_CLOCK,
            baudrate > 0,
        ensures
            final(self).registers.integer_baud_rate.0 == ((divisor_x64(uart_clk, baudrate) / 64)
                as u64) as u32,
            final(self).registers.fractional_baud_rate.0 == divisor_x64(uart_clk, baudrate) % 64,
            final(self).registers.line_control.0 == LCR_WLEN_BIT8_MASK | LCR_FEN_MASK,
            final(self).registers.control.0 == (old(self).registers.control.0 & !CR_ENABLE_MASK)
                | CR_ENABLE_MASK,
            final(self).registers.interrupt_clear.0 == ICR_ALL_MASK,
            final(self).registers.interrupt_fifo_level_select.0 == 0,
            final(self).registers.interrupt_mask_set_clear.0 == 0,
            final(self).registers.flags == old(self).registers.flags,
            final(self).sent == old(self).sent,
    {
        self.disabled();
        let div_x64: u64 = ((4u64 * uart_clk as u64) + (baudrate as u64 / 2)) / baudrate as u64;
        let divisor_i = #[verifier::truncate]
        ((div_x64 / 64) as u32);
        let divisor_f = (div_x64 % 64) as u32;
        self.registers.integer_baud_rate.write(divisor_i);
        self.registers.fractional_baud_rate.write(divisor_f);
        self.registers.line_control.write(LCR_WLEN_BIT8_MASK | LCR_FEN_MASK);
        self.registers.control.set_bits(CR_ENABLE_MASK);
    }

    /// Gives the port one word to send. The port has room for it.
    fn pushb(&mut self, ch: u32)
        requires
            old(self).registers.flags.0 & FR_TXFF_MASK == 0,
        ensures
            final(self).sent@ == old(self).sent@.push(ch),
            final(self).registers.data.0 == ch,
            final(self).registers.flags == old(self).registers.flags,
    {
        self.registers.data.write(ch);
        self.sent.push(ch);
    }

    /// Gives the port the bytes `text` to send, with a carriage return
    /// before each line feed. The port has room for them.
    pub fn write(&mut self, text: &Vec<u8>)
        requires
            old(self).registers.flags.0 & FR_TXFF_MASK == 0,
        ensures
            final(self).sent@ == old(self).sent@ + on_the_wire(text@),
            final(self).registers.flags == old(self).registers.flags,
    {
        let mut i: usize = 0;
        proof {
            assert(text@.take(0) =~= Seq::<u8>::empty());
            assert(self.sent@ + on_the_wire(text@.take(0)) =~= self.sent@);
        }
        while i < text.len()
            invariant
                i <= text.len(),
                self.registers.flags == old(self).registers.flags,
                self.registers.flags.0 & FR_TXFF_MASK == 0,
                self.sent@ == old(self).sent@ + on_the_wire(text@.take(i as int)),
            decreases text.len() - i,
        {
            let byte = text[i];
            proof {
                let now = text@.take(i + 1);
                assert(now.drop_last() =~= text@.take(i as int));
                assert(now.last() == byte);
                if byte == 10 {
                    assert(old(self).sent@ + on_the_wire(now) =~= (old(self).sent@ + on_the_wire(
                        text@.take(i as int),
                    )).push(13u32).push(10u32));
                } else {
                    assert(old(self).sent@ + on_the_wire(now) =~= (old(self).sent@ + on_the_wire(
                        text@.take(i as int),
                    )).push(byte as u32));
                }
            }
            if byte == 10 {
                self.pushb(13);
            }
            self.pushb(byte as u32);
            i += 1;
        }
        proof {
            assert(text@.take(text@.len() as int) =~= text@);
        }
    }

    /// Takes the byte that the port has received; where it came with an
    /// error, the errors of the port are cleared. The port has received one.
    pub fn read_char(&mut self) -> (r: u8)
        requires
            old(self).registers.flags.0 & FR_RXFE_MASK == 0,
        ensures
            r == old(self).registers.data.0 & DR_DATA_MASK,
            final(self).registers.error_status.0 == (if old(self).registers.data.0 & DR_ERROR_MASK
                != 0 {
                0
            } else {
                old(self).registers.error_status.0
            }),
            final(self).registers.data == old(self).registers.data,
            final(self).registers.flags == old(self).registers.flags,
            final(self).sent == old(self).sent,
    {
        let read = self.registers.data.read();
        if read & DR_ERROR_MASK != 0 {
            self.registers.error_status.write(0);
        }
        proof {
            assert(read & 0xFF <= 0xFF) by (bit_vector);
        }
        (read & DR_DATA_MASK) as u8
    }
}

} // verus!
