use proton::gpio::{GPIORegisters, BCM2177_GPIO};
use proton::kernel::{handler_args, InterruptHandlers, test_uart, test_uart2, uninterruptable, DAIF_IRQ, AArch64Context, ArchContext, ReturnPlan, ENTRY_SPSR, BootLog, DeviceManager, Hello, InitFS, InterruptId, System};
use proton::pm::{forget_handle, record_handle, remove_thread, ProcAction, ProcRequest, ProcessManager, ProcessResources};
use proton::page_table::CpuAction;
use proton::task::TaskId;
use proton::uart::{reg_address, UARTRegisters, UART0};
use proton::volatile::{Volatile, WriteLog};

#[test]
fn handles_are_recorded_and_forgotten() {
    let mut r = ProcessResources::new();
    r.mutex_created(false, 0x10);
    r.mutex_created(false, 0x20);
    r.mutex_created(true, 0x30);
    r.mutex_created(false, 0x40);
    assert_eq!(r.locks, vec![0x10, 0x20, 0x40]);
    assert!(r.mutex_destroyed(0x10));
    assert_eq!(r.locks, vec![0x40, 0x20]);
    assert!(!r.mutex_destroyed(0x30));
    r.condvar_created(false, 7);
    assert!(r.condvar_destroyed(7));
    assert!(r.cvars.is_empty());
}

#[test]
fn record_then_forget_restores_the_list() {
    let mut list = vec![1usize, 2, 3];
    record_handle(&mut list, false, 9);
    assert!(forget_handle(&mut list, 9));
    assert_eq!(list, vec![1, 2, 3]);
}

#[test]
fn finished_threads_leave_their_process() {
    let mut threads = vec![TaskId(1), TaskId(2), TaskId(3)];
    remove_thread(&mut threads, TaskId(1));
    assert_eq!(threads, vec![TaskId(3), TaskId(2)]);
}

#[test]
fn interrupt_slots_and_arguments() {
    assert_eq!(InterruptId::Timer.index(), 0);
    assert_eq!(InterruptId::PageFault.index(), 2);
    assert_eq!(handler_args(&[1, 2, 3]), [1, 2, 3, 0, 0, 0]);
    assert_eq!(handler_args(&[]), [0; 6]);
}

#[test]
fn boot_console_writes_line_endings() {
    let v = || Volatile::new(0u32);
    let mut regs = UARTRegisters {
        dr: v(), rsrecr: v(), fr: v(), ilpr: v(), ibrd: v(), fbrd: v(), lcrh: v(), cr: v(),
        ifls: v(), imsc: v(), ris: v(), mis: v(), icr: v(), dmacr: v(), log: WriteLog::new(),
    };
    assert_eq!(BootLog.write_str(&mut regs, "boot\n"), Ok(()));
    assert_eq!(regs.dr.get(), b'\n' as u32);
}

#[test]
fn modules_announce_themselves() {
    assert_eq!(Hello.init(), "Hello, Kernel Module!");
    assert_eq!(InitFS.init(), "Hello, Kernel Module!");
    assert_eq!(DeviceManager {}.init(), "Hello, Device Manager!");
    assert_eq!(DeviceManager {}.mount_point(), "/dev");
    let _ = System::new();
}

#[test]
fn process_manager_tracks_lock_handles() {
    let pm = ProcessManager;
    let mut r = ProcessResources::new();
    assert_eq!(pm.handle_module_call(&mut r, false, ProcRequest::MutexCreate, 0x1000), (0x1000, ProcAction::Nothing));
    assert_eq!(pm.handle_module_call(&mut r, true, ProcRequest::MutexCreate, 0x2000), (0x2000, ProcAction::Nothing));
    assert_eq!(r.locks, vec![0x1000]);
    assert_eq!(pm.handle_module_call(&mut r, false, ProcRequest::CondvarCreate, 0x3000), (0x3000, ProcAction::Nothing));
    assert_eq!(r.cvars, vec![0x3000]);
    assert_eq!(pm.handle_module_call(&mut r, false, ProcRequest::MutexLock(0x1000), 0), (0, ProcAction::Lock(0x1000)));
    assert_eq!(pm.handle_module_call(&mut r, false, ProcRequest::MutexUnlock(0x1000), 0), (0, ProcAction::Unlock(0x1000)));
    assert_eq!(
        pm.handle_module_call(&mut r, false, ProcRequest::CondvarWait(0x3000, 0x1000), 0),
        (0, ProcAction::Wait(0x3000, 0x1000))
    );
    assert_eq!(pm.handle_module_call(&mut r, false, ProcRequest::CondvarNotifyAll(0x3000), 0), (0, ProcAction::NotifyAll(0x3000)));
    // The kernel's own mutex was never recorded, so it is not freed here.
    assert_eq!(pm.handle_module_call(&mut r, false, ProcRequest::MutexDestroy(0x2000), 0), (0, ProcAction::Nothing));
    assert_eq!(pm.handle_module_call(&mut r, false, ProcRequest::MutexDestroy(0x1000), 0), (0, ProcAction::Free(0x1000)));
    assert!(r.locks.is_empty());
    assert_eq!(pm.handle_module_call(&mut r, false, ProcRequest::CondvarDestroy(0x3000), 0), (0, ProcAction::Free(0x3000)));
    assert!(r.cvars.is_empty());
}

#[test]
fn uart_brought_up_by_hand() {
    let v = || Volatile::new(0u32);
    let mut gpio = BCM2177_GPIO::new();
    gpio.attach(GPIORegisters {
        gpfsel0: v(), gpfsel1: v(), gpfsel2: v(), gpfsel3: v(), gpfsel4: v(), gpfsel5: v(),
        gpset0: v(), gpset1: v(), gpclr0: v(), gpclr1: v(), gplev0: v(), gplev1: v(),
        gpeds0: v(), gpeds1: v(), gpren0: v(), gpren1: v(), gpfen0: v(), gpfen1: v(),
        gphen0: v(), gphen1: v(), gplen0: v(), gplen1: v(), gparen0: v(), gparen1: v(),
        gpafen0: v(), gpafen1: v(), gppud: v(), gppudclk0: v(), gppudclk1: v(),
    });
    let mut uart = UART0::new();
    uart.attach(UARTRegisters {
        dr: v(), rsrecr: v(), fr: v(), ilpr: v(), ibrd: v(), fbrd: v(), lcrh: v(), cr: v(),
        ifls: v(), imsc: v(), ris: v(), mis: v(), icr: v(), dmacr: v(), log: WriteLog::new(),
    });
    test_uart(&mut gpio, &mut uart);
    let g = gpio.gpio.as_ref().unwrap();
    assert_eq!(g.gpfsel1.get(), 0x24000);
    assert_eq!(g.gppud.get(), 0);
    assert_eq!(g.gppudclk0.get(), 0);
    let u = uart.uart.as_ref().unwrap();
    assert_eq!(u.cr.get(), 0x301);
    assert_eq!(u.ibrd.get(), 26);
    assert_eq!(u.fbrd.get(), 3);
    assert_eq!(u.lcrh.get(), 0x70);
    assert_eq!(u.dr.get(), b'\n' as u32);
    test_uart2(&mut uart);
    assert_eq!(uart.uart.as_ref().unwrap().dr.get(), b'\n' as u32);
}

#[test]
fn returning_to_a_task() {
    let mut ctx = AArch64Context::new(0x40_0000, 0x9000, 0x5000, 7);
    // First return: a fresh frame below the stack top, the argument in x0,
    // and the task's table switched in.
    let plan = ctx.return_to_user(0x6000, 0x110);
    assert_eq!(plan, ReturnPlan { switch_table: Some(0x5000), frame: 0x9000 - 0x110, fresh: true, x0: Some(7) });
    assert_eq!(ENTRY_SPSR, 0b0101);
    // Later: the frame saved on kernel entry, the reply status, same table.
    ctx.exception_frame = 0x8e00;
    ctx.set_response_status(-1);
    let plan = ctx.return_to_user(0x5000, 0x110);
    assert_eq!(plan, ReturnPlan { switch_table: None, frame: 0x8e00, fresh: false, x0: Some(-1) });
    assert_eq!(ctx.exception_frame, 0);
    assert_eq!(ctx.response_status, None);
    let mut empty = AArch64Context::empty();
    empty.set_page_table(0x1000);
    assert_eq!(empty.p4, 0x1000);
}

#[test]
fn irqs_masked_around_critical_code() {
    let (before, after) = uninterruptable(0);
    assert_eq!(before, vec![CpuAction::DisableIrq]);
    assert_eq!(after, vec![CpuAction::EnableIrq]);
    let (before, after) = uninterruptable(DAIF_IRQ | 0x40);
    assert!(before.is_empty() && after.is_empty());
}

#[test]
fn interrupts_go_to_their_handlers() {
    let mut h = InterruptHandlers::new();
    assert_eq!(h.handle(InterruptId::Soft, &[1, 2]), None);
    h.set_handler(InterruptId::Soft, Some(7));
    assert_eq!(h.handle(InterruptId::Soft, &[1, 2]), Some((7, [1, 2, 0, 0, 0, 0])));
    assert_eq!(h.handle(InterruptId::Timer, &[]), None);
    h.set_handler(InterruptId::Soft, None);
    assert_eq!(h.handle(InterruptId::Soft, &[1]), None);
}

#[test]
fn device_tree_reg_gives_the_address() {
    assert_eq!(reg_address(&[0, 0, 0, 0, 0xfe, 0x20, 0x10, 0x00, 0, 0, 0x10, 0]), 0xfe20_1000);
    assert_eq!(reg_address(&[0, 0, 0, 1, 0, 0, 0, 2]), 0x1_0000_0002);
}
