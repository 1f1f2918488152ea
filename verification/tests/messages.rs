use proton::address::{Address, Physical, Virtual};
use proton::page::{Page, Size4K};
use proton::ipc::{decode_source, encode_source, IPC};
use proton::kernel_call::KernelCall;
use proton::task::{Message, TaskId};

#[test]
fn message_payload_round_trip() {
    let m = Message::new(TaskId(1), TaskId(2), 3).with_data(-5isize);
    assert_eq!(m.sender, TaskId(1));
    assert_eq!(m.receiver, TaskId(2));
    assert_eq!(m.kind, 3);
    assert_eq!(m.get_data::<isize>(), -5);
    assert_eq!(m.data[1..], [0u64, 0, 0, 0]);
}

#[test]
fn message_set_data_overwrites_prefix() {
    let mut m = Message::new(TaskId(1), TaskId(2), 0);
    m.set_data(Address::<Virtual>::new(0x1234));
    assert_eq!(m.data[0], 0x1234);
    assert_eq!(m.get_data::<Address<Virtual>>().as_usize(), 0x1234);
}

#[test]
fn reply_swaps_sender_and_receiver() {
    let m = Message::new(TaskId(4), TaskId(9), 2);
    let r = m.reply(7isize);
    assert_eq!(r.sender, TaskId(9));
    assert_eq!(r.receiver, TaskId(4));
    assert_eq!(r.kind, 2);
    assert_eq!(r.get_data::<isize>(), 7);
}

#[test]
fn kernel_call_codes() {
    assert_eq!(KernelCall::Fork.code(), 0);
    assert_eq!(KernelCall::MapPhysicalMemory.code(), 3);
    assert_eq!(KernelCall::from_code(2), Some(KernelCall::Sleep));
    assert_eq!(KernelCall::from_code(4), None);
    let m = KernelCall::sleep_message();
    assert_eq!(m.kind, 2);
}

#[test]
fn ipc_codes_and_sources() {
    assert_eq!(IPC::Receive.code(), 2);
    assert_eq!(IPC::from_code(1), Some(IPC::Send));
    assert_eq!(IPC::from_code(3), None);
    assert_eq!(encode_source(None), -1);
    assert_eq!(encode_source(Some(TaskId(6))), 6);
    assert_eq!(decode_source(-1), None);
    assert_eq!(decode_source(6), Some(TaskId(6)));
}

#[test]
fn fork_replies() {
    let m = Message::new(TaskId(0), TaskId(3), 0);
    assert_eq!(KernelCall::fork(&m.reply(0isize)), Ok(None));
    assert_eq!(KernelCall::fork(&m.reply(12isize)), Ok(Some(TaskId(12))));
    assert_eq!(KernelCall::fork(&m.reply(-1isize)), Err(()));
    let f = KernelCall::fork_message();
    assert_eq!(f.kind, 0);
    assert_eq!(f.receiver, TaskId(0));
}

#[test]
fn map_physical_memory_replies() {
    let page: Page = Page::new(Address::new(0x7000));
    let frame: Page<Size4K, Physical> = Page::new(Address::new(0x9000));
    let req = KernelCall::map_physical_memory_message(page, frame);
    assert_eq!(req.kind, 3);
    assert_eq!(req.data[0], 0x9000);
    assert_eq!(req.data[1], 0x7000);
    let ok = req.reply(Address::<Virtual>::new(0x7000));
    assert!(KernelCall::map_physical_memory(page, &ok).is_ok());
    let zero = req.reply(Address::<Virtual>::new(0));
    assert!(KernelCall::map_physical_memory(page, &zero).is_err());
    let other = req.reply(Address::<Virtual>::new(0x8000));
    assert!(KernelCall::map_physical_memory(page, &other).is_err());
    assert!(KernelCall::sleep(&req).is_ok());
}
