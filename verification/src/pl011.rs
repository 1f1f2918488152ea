//! The PL011 serial driver module: a terminal device with an input buffer
//! filled by the receive interrupt.
use vstd::prelude::*;
use crate::volatile::{Volatile, WriteLog};
use crate::uart::{UartReg, stepped, data_writes, lemma_data_writes_add};
use vstd::string::StrSliceExecFns;

verus! {

/// Flag register bit: the transmit FIFO is full.
pub const FR_TXFF: u32 = 0x20;

/// Flag register bit: the receive FIFO is empty.
pub const FR_RXFE: u32 = 0x10;

/// Line control at start-up: 8-bit words, FIFOs off.
pub const LCRH_VALUE: u32 = 0x60;

/// Interrupt mask at start-up: the receive interrupt.
pub const IMSC_VALUE: u32 = 0x10;

/// Control at start-up: UART, transmit and receive enabled.
pub const CR_ENABLE: u32 = 0x301;

/// The register block of the UART.
pub struct UART0 {
    pub dr: Volatile<u32>,
    pub rsrecr: Volatile<u32>,
    pub fr: Volatile<u32>,
    pub ilpr: Volatile<u32>,
    pub ibrd: Volatile<u32>,
    pub fbrd: Volatile<u32>,
    pub lcrh: Volatile<u32>,
    pub cr: Volatile<u32>,
    pub ifls: Volatile<u32>,
    pub imsc: Volatile<u32>,
    pub ris: Volatile<u32>,
    pub mis: Volatile<u32>,
    pub icr: Volatile<u32>,
    pub dmacr: Volatile<u32>,
    pub log: WriteLog<UartReg>,
}

/// `b` is `a` with `v` written to `reg`, and that write logged.
pub open spec fn written(a: UART0, b: UART0, reg: UartReg, v: u32) -> bool {
    &&& b.log.writes() == a.log.writes().push((reg, v))
    &&& stepped(a.dr, b.dr, reg == UartReg::Data, v)
    &&& stepped(a.ibrd, b.ibrd, reg == UartReg::IntegerBaud, v)
    &&& stepped(a.fbrd, b.fbrd, reg == UartReg::FractionalBaud, v)
    &&& stepped(a.lcrh, b.lcrh, reg == UartReg::LineControl, v)
    &&& stepped(a.cr, b.cr, reg == UartReg::Control, v)
    &&& stepped(a.imsc, b.imsc, reg == UartReg::InterruptMask, v)
    &&& stepped(a.icr, b.icr, reg == UartReg::InterruptClear, v)
    &&& b.rsrecr == a.rsrecr
    &&& b.fr == a.fr
    &&& b.ilpr == a.ilpr
    &&& b.ifls == a.ifls
    &&& b.ris == a.ris
    &&& b.mis == a.mis
    &&& b.dmacr == a.dmacr
}

/// Every write that programming the UART makes, in order.
pub open spec fn init_writes() -> Seq<(UartReg, u32)> {
    seq![
        (UartReg::Control, 0u32),
        (UartReg::InterruptClear, 0u32),
        (UartReg::IntegerBaud, 26u32),
        (UartReg::FractionalBaud, 3u32),
        (UartReg::LineControl, LCRH_VALUE),
        (UartReg::InterruptMask, IMSC_VALUE),
        (UartReg::Control, CR_ENABLE),
    ]
}

/// Whether a flag register value says the transmit FIFO is full.
pub open spec fn tx_full(fr: u32) -> bool {
    fr & FR_TXFF != 0
}

/// Whether a flag register value says the receive FIFO is empty.
pub open spec fn rx_empty(fr: u32) -> bool {
    fr & FR_RXFE != 0
}

/// The data register words that sending `c` produces: a line feed is
/// preceded by a carriage return.
pub open spec fn putchar_words(c: char) -> Seq<u32> {
    if c == '\n' {
        seq![13u32, 10u32]
    } else {
        seq![(c as u8) as u32]
    }
}

/// The data register words that sending the bytes `s` produces.
pub open spec fn bytes_words(s: Seq<u8>) -> Seq<u32>
    decreases s.len(),
{
    if s.len() == 0 {
        Seq::empty()
    } else {
        bytes_words(s.drop_last()) + putchar_words(s.last() as char)
    }
}

/// The data register words that logging the characters `s` produces: every
/// line feed gets one more carriage return in front.
pub open spec fn log_words(s: Seq<char>) -> Seq<u32>
    decreases s.len(),
{
    if s.len() == 0 {
        Seq::empty()
    } else {
        let c = s.last();
        log_words(s.drop_last()) + (if c == '\n' {
            seq![13u32]
        } else {
            Seq::empty()
        }) + putchar_words(c)
    }
}

/// A received byte as a character: carriage returns read as line feeds.
pub open spec fn input_char(b: u8) -> char {
    if b == 13 {
        '\n'
    } else {
        b as char
    }
}

impl UART0 {
    /// Writes `v` to `reg`, and logs the write.
    pub fn write(&mut self, reg: UartReg, v: u32)
        ensures
            written(*old(self), *final(self), reg, v),
    {
        match reg {
            UartReg::Data => self.dr.set(v),
            UartReg::IntegerBaud => self.ibrd.set(v),
            UartReg::FractionalBaud => self.fbrd.set(v),
            UartReg::LineControl => self.lcrh.set(v),
            UartReg::Control => self.cr.set(v),
            UartReg::InterruptMask => self.imsc.set(v),
            UartReg::InterruptClear => self.icr.set(v),
        }
        self.log.record(Ghost(reg), v);
    }

    /// Whether the transmit FIFO is full.
    pub fn transmit_fifo_full(&self) -> (r: bool)
        ensures
            r == tx_full(self.fr@),
    {
        self.fr.get() & FR_TXFF != 0
    }

    /// Whether the receive FIFO is empty.
    pub fn receive_fifo_empty(&self) -> (r: bool)
        ensures
            r == rx_empty(self.fr@),
    {
        self.fr.get() & FR_RXFE != 0
    }

    /// Takes the oldest received byte from `buffer`. A blocking read waits
    /// until a byte has arrived, so it is only made with one buffered; a
    /// non-blocking read of an empty buffer gives `None`.
    pub fn getchar(&mut self, buffer: &mut Vec<u8>, block: bool) -> (r: Option<char>)
        requires
            block ==> old(buffer).len() > 0,
        ensures
            old(buffer).len() == 0 ==> r is None && final(buffer)@ == old(buffer)@,
            old(buffer).len() > 0 ==> r == Some(input_char(old(buffer)@[0])) && final(buffer)@
                == old(buffer)@.drop_first(),
            *final(self) == *old(self),
    {
        if buffer.len() == 0 {
            return None;
        }
        let b = buffer.remove(0);
        if b == 13 {
            Some('\n')
        } else {
            Some(b as char)
        }
    }

    /// Sends one character, a line feed as carriage return and line feed.
    /// The caller has seen room in the transmit FIFO.
    pub fn putchar(&mut self, c: char)
        requires
            !tx_full(old(self).fr@),
        ensures
            final(self).dr.writes() == old(self).dr.writes() + putchar_words(c),
            final(self).log.writes() == old(self).log.writes() + data_writes(putchar_words(c)),
            final(self).fr == old(self).fr,
    {
        if c == '\n' {
            self.write(UartReg::Data, 13);
        }
        self.write(UartReg::Data, c as u8 as u32);
        proof {
            assert(self.dr.writes() =~= old(self).dr.writes() + putchar_words(c));
            assert(self.log.writes() =~= old(self).log.writes() + data_writes(putchar_words(c)));
        }
    }

    /// Programs the UART: disabled, interrupts cleared, 115200 baud from a
    /// 48 MHz clock, 8-bit words, receive interrupt unmasked, then enabled.
    pub fn init(&mut self)
        ensures
            final(self).cr.writes() == old(self).cr.writes() + seq![0u32, CR_ENABLE],
            final(self).icr.writes() == old(self).icr.writes().push(0),
            final(self).ibrd.writes() == old(self).ibrd.writes().push(26),
            final(self).fbrd.writes() == old(self).fbrd.writes().push(3),
            final(self).lcrh.writes() == old(self).lcrh.writes().push(LCRH_VALUE),
            final(self).imsc.writes() == old(self).imsc.writes().push(IMSC_VALUE),
            final(self).dr == old(self).dr,
            final(self).fr == old(self).fr,
            final(self).log.writes() == old(self).log.writes() + init_writes(),
    {
        self.write(UartReg::Control, 0);
        self.write(UartReg::InterruptClear, 0);
        self.write(UartReg::IntegerBaud, 26);
        self.write(UartReg::FractionalBaud, 3);
        self.write(UartReg::LineControl, LCRH_VALUE);
        self.write(UartReg::InterruptMask, IMSC_VALUE);
        self.write(UartReg::Control, CR_ENABLE);
        proof {
            assert(self.log.writes() =~= old(self).log.writes() + init_writes());
            assert(self.cr.writes() =~= old(self).cr.writes() + seq![0u32, CR_ENABLE]);
        }
    }
}

/// The serial terminal: the UART and the bytes received but not yet read.
pub struct PL011 {
    pub uart: UART0,
    pub buffer: Vec<u8>,
}

impl PL011 {
    /// The name the terminal is registered under.
    pub fn name(&self) -> (r: &'static str)
        ensures
            r@ == "tty.serial"@,
    {
        "tty.serial"
    }

    /// The receive interrupt handed over one byte read from the UART.
    pub fn receive(&mut self, b: u8)
        ensures
            final(self).buffer@ == old(self).buffer@.push(b),
            final(self).uart == old(self).uart,
    {
        self.buffer.push(b);
    }

    /// Fills `buf` with the oldest buffered characters. A read waits until
    /// enough have arrived, so it is made with at least `buf.len()` buffered.
    pub fn read(&mut self, offset: usize, buf: &mut [u8]) -> (r: Option<usize>)
        requires
            old(self).buffer.len() >= old(buf).len(),
        ensures
            r == Some(old(buf).len() as usize),
            final(buf)@.len() == old(buf)@.len(),
            forall|i: int|
                0 <= i < old(buf)@.len() ==> #[trigger] final(buf)@[i] == input_char(
                    old(self).buffer@[i],
                ) as u8,
            final(self).buffer@ == old(self).buffer@.skip(old(buf)@.len() as int),
    {
        let n = buf.len();
        let mut i: usize = 0;
        while i < n
            invariant
                n == buf@.len(),
                n == old(buf)@.len(),
                i <= n,
                old(self).buffer@.len() >= n,
                self.buffer@ == old(self).buffer@.skip(i as int),
                forall|k: int|
                    0 <= k < i ==> #[trigger] buf@[k] == input_char(old(self).buffer@[k]) as u8,
            decreases n - i,
        {
            let c = self.uart.getchar(&mut self.buffer, true);
            proof {
                assert(old(self).buffer@.skip(i as int)[0] == old(self).buffer@[i as int]);
                assert(old(self).buffer@.skip(i as int).drop_first() =~= old(self).buffer@.skip(
                    i + 1,
                ));
            }
            buf[i] = c.unwrap() as u8;
            i = i + 1;
        }
        Some(n)
    }

    /// Sends every byte of `buf` as a character. The caller has seen room in
    /// the transmit FIFO.
    pub fn write(&mut self, offset: usize, buf: &[u8]) -> (r: Option<usize>)
        requires
            !tx_full(old(self).uart.fr@),
        ensures
            r == Some(buf@.len() as usize),
            final(self).uart.dr.writes() == old(self).uart.dr.writes() + bytes_words(buf@),
            final(self).uart.log.writes() == old(self).uart.log.writes() + data_writes(bytes_words(buf@)),
            final(self).buffer == old(self).buffer,
    {
        let n = buf.len();
        let mut i: usize = 0;
        while i < n
            invariant
                n == buf@.len(),
                i <= n,
                self.uart.fr == old(self).uart.fr,
                !tx_full(self.uart.fr@),
                self.buffer == old(self).buffer,
                self.uart.dr.writes() == old(self).uart.dr.writes() + bytes_words(
                    buf@.take(i as int),
                ),
                self.uart.log.writes() == old(self).uart.log.writes() + data_writes(bytes_words(
                    buf@.take(i as int),
                )),
            decreases n - i,
        {
            self.uart.putchar(buf[i] as char);
            proof {
                let t = buf@.take(i + 1);
                assert(t.drop_last() =~= buf@.take(i as int));
                assert(t.last() == buf@[i as int]);
                lemma_data_writes_add(bytes_words(buf@.take(i as int)), putchar_words(buf[i as int] as char));
                assert(bytes_words(t) == bytes_words(buf@.take(i as int)) + putchar_words(buf[i as int] as char));
            }
            i = i + 1;
        }
        proof {
            assert(buf@.take(i as int) =~= buf@);
        }
        Some(n)
    }
}

/// The system logger that writes to the serial terminal.
pub struct UARTLogger;

impl UARTLogger {
    /// Writes `s` to the terminal; each line feed is written as a carriage
    /// return followed by the terminal's own line ending.
    pub fn log(&self, uart: &mut UART0, s: &str) -> (r: Result<(), ()>)
        requires
            !tx_full(old(uart).fr@),
        ensures
            r is Ok,
            final(uart).dr.writes() == old(uart).dr.writes() + log_words(s@),
            final(uart).log.writes() == old(uart).log.writes() + data_writes(log_words(s@)),
    {
        let n = s.unicode_len();
        let mut i: usize = 0;
        while i < n
            invariant
                n == s@.len(),
                i <= n,
                uart.fr == old(uart).fr,
                !tx_full(uart.fr@),
                uart.dr.writes() == old(uart).dr.writes() + log_words(s@.take(i as int)),
                uart.log.writes() == old(uart).log.writes() + data_writes(log_words(s@.take(i as int))),
            decreases n - i,
        {
            let c = s.get_char(i);
            if c == '\n' {
                uart.putchar('\r');
            }
            uart.putchar(c);
            proof {
                let t = s@.take(i + 1);
                assert(t.drop_last() =~= s@.take(i as int));
                assert(t.last() == c);
                assert(putchar_words('\r') =~= seq![13u32]);
                let cr: Seq<u32> = if c == '\n' { seq![13u32] } else { Seq::empty() };
                assert(log_words(t) == log_words(s@.take(i as int)) + cr + putchar_words(c));
                lemma_data_writes_add(log_words(s@.take(i as int)), cr);
                lemma_data_writes_add(log_words(s@.take(i as int)) + cr, putchar_words(c));
                if c == '\n' {
                    assert(data_writes(putchar_words('\r')) == data_writes(cr));
                } else {
                    assert(data_writes(cr) =~= Seq::<(UartReg, u32)>::empty());
                    assert(log_words(s@.take(i as int)) + cr =~= log_words(s@.take(i as int)));
                }
            }
            i = i + 1;
        }
        proof {
            assert(s@.take(i as int) =~= s@);
        }
        Ok(())
    }
}

} // verus!
