//! The boot console: a PL011 UART driven directly by the kernel.
use vstd::prelude::*;
use crate::volatile::{Volatile, WriteLog};
use vstd::string::StrSliceExecFns;

verus! {

/// Flag register bit: the transmit FIFO is full.
pub const FR_TXFF: u32 = 0x20;

/// Flag register bit: the receive FIFO is empty.
pub const FR_RXFE: u32 = 0x10;

/// Integer baud rate divisor programmed at start-up.
pub const IBRD_VALUE: u32 = 26;

/// Fractional baud rate divisor programmed at start-up.
pub const FBRD_VALUE: u32 = 3;

/// Line control at start-up: 8-bit words, FIFOs enabled.
pub const LCRH_VALUE: u32 = 0x70;

/// Control at start-up: UART, transmit and receive enabled.
pub const CR_ENABLE: u32 = 0x301;

/// The register block of a PL011 UART.
pub struct UARTRegisters {
    pub dr: Volatile<u32>,
    pub rsrecr: Volatile<u32>,
    pub fr: Volatile<u32>,
    pub ilpr: Volatile<u32>,
    pub ibrd: Volatile<u32>,
    pub fbrd: Volatile<u32>,
    pub lcrh: Volatile<u32>,
    pub cr: Volatile<u32>,
    pub ifls: Volatile<u32>,
    pub imsc: Volatile<u32>,
    pub ris: Volatile<u32>,
    pub mis: Volatile<u32>,
    pub icr: Volatile<u32>,
    pub dmacr: Volatile<u32>,
    pub log: WriteLog<UartReg>,
}

/// A register of a PL011 UART that a driver writes.
pub enum UartReg {
    Data,
    IntegerBaud,
    FractionalBaud,
    LineControl,
    Control,
    InterruptMask,
    InterruptClear,
}

/// `b` is the register `a` after a write of `v` if `hit`, else `a` itself.
pub open spec fn stepped(a: Volatile<u32>, b: Volatile<u32>, hit: bool, v: u32) -> bool {
    if hit {
        b.writes() == a.writes().push(v) && b@ == v
    } else {
        b == a
    }
}

/// `b` is `a` with `v` written to `reg`, and that write logged.
pub open spec fn uart_written(a: UARTRegisters, b: UARTRegisters, reg: UartReg, v: u32) -> bool {
    &&& b.log.writes() == a.log.writes().push((reg, v))
    &&& stepped(a.dr, b.dr, reg == UartReg::Data, v)
    &&& stepped(a.ibrd, b.ibrd, reg == UartReg::IntegerBaud, v)
    &&& stepped(a.fbrd, b.fbrd, reg == UartReg::FractionalBaud, v)
    &&& stepped(a.lcrh, b.lcrh, reg == UartReg::LineControl, v)
    &&& stepped(a.cr, b.cr, reg == UartReg::Control, v)
    &&& stepped(a.imsc, b.imsc, reg == UartReg::InterruptMask, v)
    &&& stepped(a.icr, b.icr, reg == UartReg::InterruptClear, v)
    &&& b.rsrecr == a.rsrecr
    &&& b.fr == a.fr
    &&& b.ilpr == a.ilpr
    &&& b.ifls == a.ifls
    &&& b.ris == a.ris
    &&& b.mis == a.mis
    &&& b.dmacr == a.dmacr
}

impl UARTRegisters {
    /// Writes `v` to `reg`, and logs the write.
    pub fn write(&mut self, reg: UartReg, v: u32)
        ensures
            uart_written(*old(self), *final(self), reg, v),
    {
        match reg {
            UartReg::Data => self.dr.set(v),
            UartReg::IntegerBaud => self.ibrd.set(v),
            UartReg::FractionalBaud => self.fbrd.set(v),
            UartReg::LineControl => self.lcrh.set(v),
            UartReg::Control => self.cr.set(v),
            UartReg::InterruptMask => self.imsc.set(v),
            UartReg::InterruptClear => self.icr.set(v),
        }
        self.log.record(Ghost(reg), v);
    }
}

/// The writes that putting the words `ws` in the data register makes.
pub open spec fn data_writes(ws: Seq<u32>) -> Seq<(UartReg, u32)> {
    ws.map_values(|w: u32| (UartReg::Data, w))
}

/// Putting `a` then `b` in the data register writes what putting `a`
/// writes, then what putting `b` writes.
pub proof fn lemma_data_writes_add(a: Seq<u32>, b: Seq<u32>)
    ensures
        data_writes(a + b) == data_writes(a) + data_writes(b),
{
    assert(data_writes(a + b) =~= data_writes(a) + data_writes(b));
}

/// Every write that programming the console UART makes, in order.
pub open spec fn init_writes() -> Seq<(UartReg, u32)> {
    seq![
        (UartReg::Control, 0u32),
        (UartReg::InterruptClear, 0u32),
        (UartReg::IntegerBaud, IBRD_VALUE),
        (UartReg::FractionalBaud, FBRD_VALUE),
        (UartReg::LineControl, LCRH_VALUE),
        (UartReg::Control, CR_ENABLE),
    ]
}

/// Whether a flag register value says the transmit FIFO is full.
pub open spec fn tx_full(fr: u32) -> bool {
    fr & FR_TXFF != 0
}

/// Whether a flag register value says the receive FIFO is empty.
pub open spec fn rx_empty(fr: u32) -> bool {
    fr & FR_RXFE != 0
}

/// The value a character puts in the data register.
pub open spec fn char_word(c: char) -> u32 {
    c as u32
}

/// The words that writing the characters `s` puts in the data register.
pub open spec fn chars_words(s: Seq<char>) -> Seq<u32> {
    s.map_values(|c: char| char_word(c))
}

/// `b` is `a` with at most its data register changed.
pub open spec fn same_but_dr(a: UARTRegisters, b: UARTRegisters) -> bool {
    &&& b.rsrecr == a.rsrecr
    &&& b.fr == a.fr
    &&& b.ilpr == a.ilpr
    &&& b.ibrd == a.ibrd
    &&& b.fbrd == a.fbrd
    &&& b.lcrh == a.lcrh
    &&& b.cr == a.cr
    &&& b.ifls == a.ifls
    &&& b.imsc == a.imsc
    &&& b.ris == a.ris
    &&& b.mis == a.mis
    &&& b.icr == a.icr
    &&& b.dmacr == a.dmacr
}

/// The kernel's console UART; it has no registers until the device is found.
pub struct UART0 {
    pub uart: Option<UARTRegisters>,
}

impl UART0 {
    /// A console with no device behind it yet.
    pub fn new() -> (r: Self)
        ensures
            r.uart is None,
    {
        UART0 { uart: None }
    }

    /// Attaches the console to its register block.
    pub fn attach(&mut self, regs: UARTRegisters)
        ensures
            final(self).uart == Some(regs),
    {
        self.uart = Some(regs);
    }

    pub fn transmit_fifo_full(&self) -> (r: bool)
        requires
            self.uart is Some,
        ensures
            r == tx_full(self.uart.unwrap().fr@),
    {
        let fr = self.uart.as_ref().unwrap().fr.get();
        fr & FR_TXFF > 0
    }

    pub fn receive_fifo_empty(&self) -> (r: bool)
        requires
            self.uart is Some,
        ensures
            r == rx_empty(self.uart.unwrap().fr@),
    {
        let fr = self.uart.as_ref().unwrap().fr.get();
        fr & FR_RXFE > 0
    }

    /// Sends one character. The caller has seen room in the transmit FIFO.
    pub fn putchar(&mut self, c: char)
        requires
            old(self).uart is Some,
            !tx_full(old(self).uart.unwrap().fr@),
        ensures
            final(self).uart is Some,
            final(self).uart.unwrap().dr.writes() == old(self).uart.unwrap().dr.writes().push(
                char_word(c),
            ),
            final(self).uart.unwrap().dr@ == char_word(c),
            final(self).uart.unwrap().fr == old(self).uart.unwrap().fr,
            same_but_dr(old(self).uart.unwrap(), final(self).uart.unwrap()),
            final(self).uart.unwrap().log.writes() == old(self).uart.unwrap().log.writes().push(
                (UartReg::Data, char_word(c)),
            ),
    {
        let mut regs = self.uart.take().unwrap();
        regs.write(UartReg::Data, c as u32);
        self.uart = Some(regs);
    }

    /// Programs the UART: disabled, interrupts cleared, 115200 baud from
    /// a 48 MHz clock, 8-bit words with FIFOs, then enabled.
    pub fn init_uart(&mut self)
        requires
            old(self).uart is Some,
        ensures
            final(self).uart is Some,
            final(self).uart.unwrap().cr.writes() == old(self).uart.unwrap().cr.writes() + seq![
                0u32,
                CR_ENABLE,
            ],
            final(self).uart.unwrap().icr.writes() == old(self).uart.unwrap().icr.writes().push(
                0,
            ),
            final(self).uart.unwrap().ibrd.writes() == old(self).uart.unwrap().ibrd.writes().push(
                IBRD_VALUE,
            ),
            final(self).uart.unwrap().fbrd.writes() == old(self).uart.unwrap().fbrd.writes().push(
                FBRD_VALUE,
            ),
            final(self).uart.unwrap().lcrh.writes() == old(self).uart.unwrap().lcrh.writes().push(
                LCRH_VALUE,
            ),
            final(self).uart.unwrap().dr == old(self).uart.unwrap().dr,
            final(self).uart.unwrap().fr == old(self).uart.unwrap().fr,
            final(self).uart.unwrap().log.writes() == old(self).uart.unwrap().log.writes()
                + init_writes(),
    {
        let mut regs = self.uart.take().unwrap();
        let ghost log0 = regs.log.writes();
        regs.write(UartReg::Control, 0);
        regs.write(UartReg::InterruptClear, 0);
        regs.write(UartReg::IntegerBaud, IBRD_VALUE);
        regs.write(UartReg::FractionalBaud, FBRD_VALUE);
        regs.write(UartReg::LineControl, LCRH_VALUE);
        regs.write(UartReg::Control, CR_ENABLE);
        proof {
            assert(regs.log.writes() =~= log0 + init_writes());
            assert(regs.cr.writes() =~= old(self).uart.unwrap().cr.writes() + seq![0u32, CR_ENABLE]);
        }
        self.uart = Some(regs);
    }
}

/// The kernel log sink that writes to the console.
pub struct Log;

impl Log {
    /// Writes every character of `s` to the console, in order.
    pub fn write_str(&self, uart: &mut UART0, s: &str)
        requires
            old(uart).uart is Some,
            !tx_full(old(uart).uart.unwrap().fr@),
        ensures
            final(uart).uart is Some,
            final(uart).uart.unwrap().dr.writes() == old(uart).uart.unwrap().dr.writes()
                + chars_words(s@),
            same_but_dr(old(uart).uart.unwrap(), final(uart).uart.unwrap()),
            final(uart).uart.unwrap().log.writes() == old(uart).uart.unwrap().log.writes()
                + data_writes(chars_words(s@)),
    {
        let ghost start = uart.uart.unwrap().dr.writes();
        let ghost log0 = uart.uart.unwrap().log.writes();
        let ghost fr0 = uart.uart.unwrap().fr;
        let n = s.unicode_len();
        let mut i: usize = 0;
        while i < n
            invariant
                n == s@.len(),
                i <= n,
                uart.uart is Some,
                uart.uart.unwrap().fr == fr0,
                !tx_full(fr0@),
                same_but_dr(old(uart).uart.unwrap(), uart.uart.unwrap()),
                uart.uart.unwrap().dr.writes() == start + chars_words(s@.take(i as int)),
                uart.uart.unwrap().log.writes() == log0 + data_writes(chars_words(s@.take(i as int))),
            decreases n - i,
        {
            let c = s.get_char(i);
            uart.putchar(c);
            proof {
                assert(chars_words(s@.take(i + 1)) =~= chars_words(s@.take(i as int)).push(
                    char_word(c),
                ));
                assert(data_writes(chars_words(s@.take(i + 1))) =~= data_writes(
                    chars_words(s@.take(i as int)),
                ).push((UartReg::Data, char_word(c))));
            }
            i = i + 1;
        }
        proof {
            assert(s@.take(i as int) =~= s@);
        }
    }
}

/// The big-endian 32-bit word at `at`.
pub open spec fn be32(d: Seq<u8>, at: int) -> nat {
    (d[at] * 0x100_0000 + d[at + 1] * 0x1_0000 + d[at + 2] * 0x100 + d[at + 3]) as nat
}

/// The address a device-tree `reg` property gives: its first two cells,
/// big-endian, as the high and low words of the address.
pub fn reg_address(reg: &[u8]) -> (r: u64)
    requires
        reg@.len() >= 8,
    ensures
        r == be32(reg@, 0) * 0x1_0000_0000 + be32(reg@, 4),
{
    let hi = (reg[0] as u64) * 0x100_0000 + (reg[1] as u64) * 0x1_0000 + (reg[2] as u64) * 0x100 + (reg[3] as u64);
    let lo = (reg[4] as u64) * 0x100_0000 + (reg[5] as u64) * 0x1_0000 + (reg[6] as u64) * 0x100 + (reg[7] as u64);
    proof {
        assert(hi * 0x1_0000_0000 <= 0xffff_ffff * 0x1_0000_0000) by (nonlinear_arith)
            requires
                hi <= 0xffff_ffff,
        ;
    }
    hi * 0x1_0000_0000 + lo
}

} // verus!
