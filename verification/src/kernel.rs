//! Kernel-level pieces: boot information, the early boot console,
//! interrupts, the kernel's own tasks, and the modules that only announce
//! themselves.
use vstd::prelude::*;
use vstd::string::StrSliceExecFns;
use core::ops::Range;
use crate::page::{Frame, PageSize};
use crate::task::Message;
use crate::uart::{char_word, chars_words, data_writes, init_writes as uart_init_writes, tx_full, Log, UARTRegisters, UART0, UartReg, CR_ENABLE, FBRD_VALUE, IBRD_VALUE, LCRH_VALUE};
use crate::gpio::{uart_pin_setup, BCM2177_GPIO, GPFSEL1_UART, GPPUDCLK0_UART};
use crate::devfs::{has_device, DevFS, Device};
use crate::page_table::{apply_actions, CpuAction, CpuState};

verus! {

/// What the boot loader hands the kernel: the physical memory it may use,
/// and the device tree.
pub struct BootInfo {
    pub available_physical_memory: Vec<Range<Frame>>,
    pub device_tree: Vec<u8>,
}

/// The data register words that the boot console produces for `s`: the
/// low byte of each character, with a carriage return before each line
/// feed.
pub open spec fn boot_words(s: Seq<char>) -> Seq<u32>
    decreases s.len(),
{
    if s.len() == 0 {
        Seq::empty()
    } else {
        let c = s.last();
        boot_words(s.drop_last()) + (if c == '\n' {
            seq![13u32]
        } else {
            Seq::empty()
        }) + seq![(c as u8) as u32]
    }
}

/// The console used before the kernel has set up its own: the UART at the
/// address the boot loader left it at.
pub struct BootLog;

impl BootLog {
    /// Writes `s` to the UART, each line feed preceded by a carriage
    /// return. The caller has seen room in the transmit FIFO.
    pub fn write_str(&mut self, uart: &mut UARTRegisters, s: &str) -> (r: Result<(), ()>)
        requires
            !tx_full(old(uart).fr@),
        ensures
            r is Ok,
            final(uart).dr.writes() == old(uart).dr.writes() + boot_words(s@),
            final(uart).fr == old(uart).fr,
    {
        let n = s.unicode_len();
        let mut i: usize = 0;
        while i < n
            invariant
                n == s@.len(),
                i <= n,
                uart.fr == old(uart).fr,
                !tx_full(uart.fr@),
                uart.dr.writes() == old(uart).dr.writes() + boot_words(s@.take(i as int)),
            decreases n - i,
        {
            let c = s.get_char(i);
            if c == '\n' {
                uart.dr.set('\r' as u8 as u32);
            }
            uart.dr.set(c as u8 as u32);
            proof {
                let t = s@.take(i + 1);
                assert(t.drop_last() =~= s@.take(i as int));
                assert(t.last() == c);
                assert(uart.dr.writes() =~= old(uart).dr.writes() + boot_words(t));
            }
            i = i + 1;
        }
        proof {
            assert(s@.take(i as int) =~= s@);
        }
        Ok(())
    }
}

/// The interrupts the kernel handles.
#[derive(Debug, Clone, Copy, PartialEq, Eq, Structural)]
pub enum InterruptId {
    Timer,
    Soft,
    PageFault,
}

impl InterruptId {
    /// The slot of the interrupt in the handler table.
    pub fn index(&self) -> (r: usize)
        ensures
            r < 3,
            *self == InterruptId::Timer ==> r == 0,
            *self == InterruptId::Soft ==> r == 1,
            *self == InterruptId::PageFault ==> r == 2,
    {
        match self {
            InterruptId::Timer => 0,
            InterruptId::Soft => 1,
            InterruptId::PageFault => 2,
        }
    }
}

/// The six argument words a handler receives: the first of `args`, then
/// zeros. At most six arguments are passed.
pub fn handler_args(args: &[usize]) -> (r: [usize; 6])
    requires
        args@.len() <= 6,
    ensures
        forall|i: int| 0 <= i < 6 ==> #[trigger] r@[i] == if i < args@.len() {
            args@[i]
        } else {
            0
        },
{
    let mut x = [0usize; 6];
    let mut i: usize = 0;
    while i < args.len()
        invariant
            i <= args@.len() <= 6,
            x@.len() == 6,
            forall|k: int| 0 <= k < 6 ==> #[trigger] x@[k] == if k < i {
                args@[k]
            } else {
                0
            },
        decreases args@.len() - i,
    {
        x[i] = args[i];
        i = i + 1;
    }
    x
}

/// The kernel's interrupt handler table: for each interrupt, the key of
/// the handler registered for it, if any.
pub struct InterruptHandlers {
    pub slots: Vec<Option<usize>>,
}

/// The slot of interrupt `id`.
pub open spec fn slot_of(id: InterruptId) -> int {
    match id {
        InterruptId::Timer => 0,
        InterruptId::Soft => 1,
        InterruptId::PageFault => 2,
    }
}

impl InterruptHandlers {
    /// A table with no handler.
    pub fn new() -> (r: Self)
        ensures
            r.slots@ == seq![None::<usize>, None, None],
    {
        let mut slots: Vec<Option<usize>> = Vec::new();
        slots.push(None);
        slots.push(None);
        slots.push(None);
        proof {
            assert(slots@ =~= seq![None::<usize>, None, None]);
        }
        InterruptHandlers { slots }
    }

    /// Registers `handler` (or none) for interrupt `id`.
    pub fn set_handler(&mut self, id: InterruptId, handler: Option<usize>)
        requires
            old(self).slots@.len() == 3,
        ensures
            final(self).slots@ == old(self).slots@.update(slot_of(id), handler),
    {
        let i = id.index();
        self.slots.set(i, handler);
    }

    /// What interrupt `id` with arguments `args` does: the handler
    /// registered for it is called with the six argument words, and the
    /// interrupt returns 0; with no handler it only returns 0. The handler
    /// to call and its arguments, if there is one.
    pub fn handle(&self, id: InterruptId, args: &[usize]) -> (r: Option<(usize, [usize; 6])>)
        requires
            self.slots@.len() == 3,
            args@.len() <= 6,
        ensures
            match self.slots@[slot_of(id)] {
                Some(h) => r matches Some((k, x)) && k == h && forall|i: int| 0 <= i < 6 ==> #[trigger] x@[i] == if i < args@.len() {
                    args@[i]
                } else {
                    0
                },
                None => r is None,
            },
    {
        let x = handler_args(args);
        match self.slots[id.index()] {
            Some(h) => Some((h, x)),
            None => None,
        }
    }
}

/// The interrupt controller of an architecture.
pub trait ArchInterrupt {
    fn is_enabled(&self) -> bool;

    fn enable(&self);

    fn disable(&self);

    fn start_timer(&self);
}

/// The saved context of a task on an architecture.
pub trait ArchContext: Sized {
    fn empty() -> Self;

    fn set_response_message(&mut self, m: Message);

    fn set_response_status(&mut self, s: isize);
}

/// A user-level driver: made once, then handed each message it receives.
pub trait Driver: Sized {
    fn new() -> Self;

    fn handle_message(&mut self, m: &Message);
}

/// A task of the kernel itself.
pub trait KernelTask {
    /// Runs the task; kernel tasks run until the machine stops.
    fn run(&mut self);
}

/// Hands out physical frames.
pub trait FrameAllocator: Sized {
    fn identity_alloc<S: PageSize>(&mut self, frame: Frame<S>);

    fn allocate<S: PageSize>(&mut self) -> Frame<S>;

    fn free<S: PageSize>(&mut self, frame: Frame<S>);
}

/// The kernel's system task, which receives the requests of user tasks.
pub struct System {}

impl System {
    pub fn new() -> (r: Self) {
        System {}
    }
}

/// The task that runs when nothing else can.
pub struct Idle;

/// The greeting of a module that only announces itself.
pub open spec fn module_greeting() -> Seq<char> {
    "Hello, Kernel Module!"@
}

/// The example module.
pub struct Hello;

impl Hello {
    /// What the module logs when it starts.
    pub fn init(&self) -> (r: &'static str)
        ensures
            r@ == module_greeting(),
    {
        "Hello, Kernel Module!"
    }
}

/// The module that will hold the initial file system.
pub struct InitFS;

impl InitFS {
    /// What the module logs when it starts.
    pub fn init(&self) -> (r: &'static str)
        ensures
            r@ == module_greeting(),
    {
        "Hello, Kernel Module!"
    }
}

/// The device manager, which serves the devices as files under `/dev`.
pub struct DeviceManager {}

impl DeviceManager {
    /// What the module logs when it starts.
    pub fn init(&self) -> (r: &'static str)
        ensures
            r@ == "Hello, Device Manager!"@,
    {
        "Hello, Device Manager!"
    }

    /// Registers a device with the device file system. Only the kernel
    /// registers devices.
    pub fn handle_module_call<D: Device>(&self, devfs: &mut DevFS<D>, privileged: bool, name: Vec<u8>, dev: D) -> (r: isize)
        requires
            privileged,
        ensures
            r == 0,
            has_device(final(devfs).devices@, name@),
            forall|n: Seq<u8>| n != name@ ==> (has_device(final(devfs).devices@, n) <==> has_device(old(devfs).devices@, n)),
    {
        devfs.register(name, dev);
        0
    }

    /// Where the device file system is mounted.
    pub fn mount_point(&self) -> (r: &'static str)
        ensures
            r@ == "/dev"@,
    {
        "/dev"
    }
}

/// Brings up the serial port by hand: pins 14 and 15 to the UART, the UART
/// programmed, then a banner written.
pub fn test_uart(gpio: &mut BCM2177_GPIO, uart: &mut UART0)
    requires
        old(gpio).gpio is Some,
        old(uart).uart is Some,
        !tx_full(old(uart).uart.unwrap().fr@),
    ensures
        final(gpio).gpio is Some,
        final(gpio).gpio.unwrap().gpfsel1.writes() == old(gpio).gpio.unwrap().gpfsel1.writes().push(GPFSEL1_UART),
        final(gpio).gpio.unwrap().gppud.writes() == old(gpio).gpio.unwrap().gppud.writes().push(0),
        final(gpio).gpio.unwrap().gppudclk0.writes() == old(gpio).gpio.unwrap().gppudclk0.writes() + seq![GPPUDCLK0_UART, 0u32],
        final(uart).uart is Some,
        final(uart).uart.unwrap().cr.writes() == old(uart).uart.unwrap().cr.writes() + seq![0u32, CR_ENABLE],
        final(uart).uart.unwrap().icr.writes() == old(uart).uart.unwrap().icr.writes().push(0),
        final(uart).uart.unwrap().ibrd.writes() == old(uart).uart.unwrap().ibrd.writes().push(IBRD_VALUE),
        final(uart).uart.unwrap().fbrd.writes() == old(uart).uart.unwrap().fbrd.writes().push(FBRD_VALUE),
        final(uart).uart.unwrap().lcrh.writes() == old(uart).uart.unwrap().lcrh.writes().push(LCRH_VALUE),
        final(uart).uart.unwrap().dr.writes() == old(uart).uart.unwrap().dr.writes() + chars_words("#UART ENABLED\r\n"@),
        final(gpio).steps@ == old(gpio).steps@ + uart_pin_setup(),
        final(uart).uart.unwrap().log.writes() == old(uart).uart.unwrap().log.writes() + uart_init_writes()
            + data_writes(chars_words("#UART ENABLED\r\n"@)),
{
    gpio.init_gpio();
    uart.init_uart();
    Log.write_str(uart, "#UART ENABLED\r\n");
}

/// Writes a fixed test word and a line break to a UART that is already
/// programmed.
pub fn test_uart2(uart: &mut UART0)
    requires
        old(uart).uart is Some,
        !tx_full(old(uart).uart.unwrap().fr@),
    ensures
        final(uart).uart is Some,
        final(uart).uart.unwrap().dr.writes() == old(uart).uart.unwrap().dr.writes() + chars_words(
            seq!['F', 'U', 'C', 'K', '\r', '\n'],
        ),
        final(uart).uart.unwrap().fr == old(uart).uart.unwrap().fr,
        final(uart).uart.unwrap().log.writes() == old(uart).uart.unwrap().log.writes() + data_writes(
            chars_words(seq!['F', 'U', 'C', 'K', '\r', '\n']),
        ),
{
    uart.putchar('F');
    uart.putchar('U');
    uart.putchar('C');
    uart.putchar('K');
    uart.putchar('\r');
    uart.putchar('\n');
    proof {
        let w = seq!['F', 'U', 'C', 'K', '\r', '\n'];
        assert(chars_words(w) =~= seq![
            char_word('F'),
            char_word('U'),
            char_word('C'),
            char_word('K'),
            char_word('\r'),
            char_word('\n'),
        ]);
        assert(data_writes(chars_words(w)) =~= seq![
            (UartReg::Data, char_word('F')),
            (UartReg::Data, char_word('U')),
            (UartReg::Data, char_word('C')),
            (UartReg::Data, char_word('K')),
            (UartReg::Data, char_word('\r')),
            (UartReg::Data, char_word('\n')),
        ]);
    }
}

/// The processor state a task returns to user mode with, when no saved
/// frame exists yet: EL1h with the task's stack, as a fresh exception frame
/// holds it.
pub const ENTRY_SPSR: usize = 0b0101;

/// The saved context of a task: the exception frame saved when it entered
/// the kernel (0 when there is none), where it starts, its root table, the
/// top of its kernel stack, and the reply to hand it.
pub struct AArch64Context {
    pub exception_frame: usize,
    pub entry_pc: usize,
    pub p4: usize,
    pub kernel_stack_top: usize,
    pub response_message: Option<Message>,
    pub response_status: Option<isize>,
}

/// What returning to a task does: switch to its root table if another is
/// active, return through the frame at `frame` (laid out afresh, with the
/// task's entry point and `ENTRY_SPSR`, when `fresh`), with `x0` set to the
/// reply status if there is one.
#[derive(Clone, Copy, PartialEq, Eq, Structural, Debug)]
pub struct ReturnPlan {
    pub switch_table: Option<usize>,
    pub frame: usize,
    pub fresh: bool,
    pub x0: Option<isize>,
}

impl ArchContext for AArch64Context {
    fn empty() -> (r: Self)
        ensures
            r.exception_frame == 0,
            r.entry_pc == 0,
            r.p4 == 0,
            r.kernel_stack_top == 0,
            r.response_message is None,
            r.response_status is None,
    {
        AArch64Context {
            exception_frame: 0,
            entry_pc: 0,
            p4: 0,
            kernel_stack_top: 0,
            response_message: None,
            response_status: None,
        }
    }

    fn set_response_message(&mut self, m: Message)
        ensures
            final(self).response_message == Some(m),
            final(self).response_status == old(self).response_status,
            final(self).exception_frame == old(self).exception_frame,
    {
        self.response_message = Some(m);
    }

    fn set_response_status(&mut self, s: isize)
        ensures
            final(self).response_status == Some(s),
            final(self).response_message == old(self).response_message,
            final(self).exception_frame == old(self).exception_frame,
    {
        self.response_status = Some(s);
    }
}

impl AArch64Context {
    /// A context that starts at `entry` with its kernel stack ending at
    /// `stack_top`, in the address space rooted at `p4`, handed `arg` as its
    /// first reply.
    pub fn new(entry: usize, stack_top: usize, p4: usize, arg: isize) -> (r: Self)
        ensures
            r.exception_frame == 0,
            r.entry_pc == entry,
            r.kernel_stack_top == stack_top,
            r.p4 == p4,
            r.response_message is None,
            r.response_status == Some(arg),
    {
        AArch64Context {
            exception_frame: 0,
            entry_pc: entry,
            p4,
            kernel_stack_top: stack_top,
            response_message: None,
            response_status: Some(arg),
        }
    }

    /// Gives the task the address space rooted at `p4`.
    pub fn set_page_table(&mut self, p4: usize)
        ensures
            final(self).p4 == p4,
            final(self).exception_frame == old(self).exception_frame,
            final(self).entry_pc == old(self).entry_pc,
            final(self).kernel_stack_top == old(self).kernel_stack_top,
            final(self).response_status == old(self).response_status,
            final(self).response_message == old(self).response_message,
    {
        self.p4 = p4;
    }

    /// Returning to the task, with root table `ttbr0` active and frames of
    /// `frame_size` bytes: what to do, as [`ReturnPlan`] says. The saved
    /// frame and the reply status are used up.
    pub fn return_to_user(&mut self, ttbr0: usize, frame_size: usize) -> (r: ReturnPlan)
        requires
            old(self).exception_frame == 0 ==> frame_size <= old(self).kernel_stack_top,
        ensures
            r.switch_table == if old(self).p4 != ttbr0 { Some(old(self).p4) } else { None },
            old(self).exception_frame == 0 ==> r.fresh && r.frame == old(self).kernel_stack_top - frame_size,
            old(self).exception_frame != 0 ==> !r.fresh && r.frame == old(self).exception_frame,
            r.x0 == old(self).response_status,
            final(self).exception_frame == 0,
            final(self).response_status is None,
            final(self).entry_pc == old(self).entry_pc,
            final(self).p4 == old(self).p4,
            final(self).kernel_stack_top == old(self).kernel_stack_top,
            final(self).response_message == old(self).response_message,
    {
        let switch_table = if self.p4 != ttbr0 { Some(self.p4) } else { None };
        let (frame, fresh) = if self.exception_frame == 0 {
            (self.kernel_stack_top - frame_size, true)
        } else {
            let p = self.exception_frame;
            self.exception_frame = 0;
            (p, false)
        };
        let x0 = self.response_status;
        self.response_status = None;
        ReturnPlan { switch_table, frame, fresh, x0 }
    }
}

/// The IRQ mask bit of the DAIF register.
pub const DAIF_IRQ: usize = 1 << 7;

/// What running a piece of code with IRQs off does first, with the DAIF
/// register reading `daif`: IRQs are masked when they were on.
pub open spec fn mask_actions(daif: usize) -> Seq<CpuAction> {
    if daif & DAIF_IRQ == 0 {
        seq![CpuAction::DisableIrq]
    } else {
        Seq::empty()
    }
}

/// What it does after the code: IRQs are unmasked when they were on.
pub open spec fn unmask_actions(daif: usize) -> Seq<CpuAction> {
    if daif & DAIF_IRQ == 0 {
        seq![CpuAction::EnableIrq]
    } else {
        Seq::empty()
    }
}

/// The actions before and after running a piece of code with IRQs off,
/// with the DAIF register reading `daif`.
pub fn uninterruptable(daif: usize) -> (r: (Vec<CpuAction>, Vec<CpuAction>))
    ensures
        r.0@ == mask_actions(daif),
        r.1@ == unmask_actions(daif),
{
    let mut before: Vec<CpuAction> = Vec::new();
    let mut after: Vec<CpuAction> = Vec::new();
    if daif & DAIF_IRQ == 0 {
        before.push(CpuAction::DisableIrq);
        after.push(CpuAction::EnableIrq);
    }
    proof {
        assert(before@ =~= mask_actions(daif));
        assert(after@ =~= unmask_actions(daif));
    }
    (before, after)
}

/// Law: code run through [`uninterruptable`] runs with IRQs off, and when
/// it leaves IRQs off and the table as it found them, the CPU afterwards is
/// as it was before.
pub proof fn lemma_uninterruptable_restores(cpu: CpuState, daif: usize, inside: CpuState)
    requires
        cpu.irq_enabled == (daif & DAIF_IRQ == 0),
        !inside.irq_enabled,
        inside.page_table == cpu.page_table,
    ensures
        apply_actions(cpu, mask_actions(daif)) == (CpuState { irq_enabled: false, ..cpu }),
        apply_actions(inside, unmask_actions(daif)) == cpu,
{
    reveal_with_fuel(apply_actions, 2);
    assert(seq![CpuAction::DisableIrq].drop_first() =~= Seq::<CpuAction>::empty());
    assert(seq![CpuAction::EnableIrq].drop_first() =~= Seq::<CpuAction>::empty());
}

} // verus!
