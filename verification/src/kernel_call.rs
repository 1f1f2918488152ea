//! Calls from user tasks into the kernel task: each call is a request
//! message to the kernel and a reply from it.
use crate::address::{Address, Virtual};
use crate::page::{Frame, Page};
use crate::task::{overwrite, Message, MessageData, TaskId};
use vstd::prelude::*;

verus! {

/// The kinds of kernel calls.
#[derive(Debug, Clone, Copy, PartialEq, Eq, Structural)]
pub enum KernelCall {
    Fork,
    Exit,
    Sleep,
    MapPhysicalMemory,
}

/// Number of kinds of kernel calls.
pub const KERNEL_CALL_COUNT: usize = 4;

impl KernelCall {
    /// The message kind of a call.
    pub open spec fn spec_code(self) -> usize {
        match self {
            KernelCall::Fork => 0,
            KernelCall::Exit => 1,
            KernelCall::Sleep => 2,
            KernelCall::MapPhysicalMemory => 3,
        }
    }

    pub fn code(&self) -> (r: usize)
        ensures
            r == self.spec_code(),
            r < KERNEL_CALL_COUNT,
    {
        match self {
            KernelCall::Fork => 0,
            KernelCall::Exit => 1,
            KernelCall::Sleep => 2,
            KernelCall::MapPhysicalMemory => 3,
        }
    }

    /// The call of a message kind, if it is one.
    pub fn from_code(kind: usize) -> (r: Option<KernelCall>)
        ensures
            kind < KERNEL_CALL_COUNT <==> r.is_some(),
            r matches Some(c) ==> c.spec_code() == kind,
    {
        match kind {
            0 => Some(KernelCall::Fork),
            1 => Some(KernelCall::Exit),
            2 => Some(KernelCall::Sleep),
            3 => Some(KernelCall::MapPhysicalMemory),
            _ => None,
        }
    }

    /// The request that asks the kernel to fork the calling task.
    pub fn fork_message() -> (r: Message)
        ensures
            r.sender.0 == 0,
            r.receiver.0 == 0,
            r.kind == KernelCall::Fork.spec_code(),
            r.data_view() == seq![0u64, 0u64, 0u64, 0u64, 0u64],
    {
        Message::new(TaskId::null(), TaskId::kernel(), KernelCall::Fork.code())
    }

    /// The outcome of a fork, from the kernel's reply: the child's id
    /// (positive), `None` in the child (zero), or an error (negative).
    pub fn fork(reply: &Message) -> (r: Result<Option<TaskId>, ()>)
        ensures
            ({
                let t = <isize as MessageData>::spec_from_words(reply.data_view());
                &&& t == 0 ==> r == Ok::<Option<TaskId>, ()>(None)
                &&& t > 0 ==> r == Ok::<Option<TaskId>, ()>(Some(TaskId(t as usize)))
                &&& t < 0 ==> r.is_err()
            }),
    {
        let task_id = reply.get_data::<isize>();
        if task_id == 0 {
            Ok(None)
        } else if task_id > 0 {
            Ok(Some(TaskId(task_id as usize)))
        } else {
            Err(())
        }
    }

    /// The request that asks the kernel to map `frame` at `page`.
    pub fn map_physical_memory_message(page: Page, frame: Frame) -> (r: Message)
        ensures
            r.sender.0 == 0,
            r.receiver.0 == 0,
            r.kind == KernelCall::MapPhysicalMemory.spec_code(),
            r.data_view() == overwrite(
                seq![0u64, 0u64, 0u64, 0u64, 0u64],
                (frame, page).spec_words(),
            ),
    {
        Message::new(TaskId::null(), TaskId::kernel(), KernelCall::MapPhysicalMemory.code()).with_data(
            (frame, page),
        )
    }

    /// The outcome of a mapping request, from the kernel's reply: the page
    /// when the kernel replied with its (non-null) address, else an error.
    pub fn map_physical_memory(page: Page, reply: &Message) -> (r: Result<Page, ()>)
        ensures
            ({
                let a = <Address<Virtual> as MessageData>::spec_from_words(reply.data_view());
                &&& (a.value() != 0 && a.value() == page.start_value()) ==> r == Ok::<Page, ()>(page)
                &&& !(a.value() != 0 && a.value() == page.start_value()) ==> r.is_err()
            }),
    {
        let addr = reply.get_data::<Address<Virtual>>();
        if addr.is_zero() || addr.as_usize() != page.start().as_usize() {
            Err(())
        } else {
            Ok(page)
        }
    }

    /// The request that puts the calling task to sleep.
    pub fn sleep_message() -> (r: Message)
        ensures
            r.sender.0 == 0,
            r.receiver.0 == 0,
            r.kind == KernelCall::Sleep.spec_code(),
            r.data_view() == seq![0u64, 0u64, 0u64, 0u64, 0u64],
    {
        Message::new(TaskId::null(), TaskId::kernel(), KernelCall::Sleep.code())
    }

    /// The outcome of a sleep: the kernel's reply wakes the task.
    pub fn sleep(reply: &Message) -> (r: Result<(), ()>)
        ensures
            r.is_ok(),
    {
        Ok(())
    }
}

} // verus!
