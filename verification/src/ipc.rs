//! Inter-process communication calls and how their arguments travel in
//! registers.
use crate::task::TaskId;
use vstd::prelude::*;

verus! {

/// The IPC calls a task can make.
#[derive(Debug, PartialEq, Eq, Clone, Copy, Structural)]
pub enum IPC {
    Log,
    Send,
    Receive,
}

impl IPC {
    /// The number passed in the first register for a call.
    pub open spec fn spec_code(self) -> usize {
        match self {
            IPC::Log => 0,
            IPC::Send => 1,
            IPC::Receive => 2,
        }
    }

    pub fn code(&self) -> (r: usize)
        ensures
            r == self.spec_code(),
    {
        match self {
            IPC::Log => 0,
            IPC::Send => 1,
            IPC::Receive => 2,
        }
    }

    /// The call that a register value names, if any.
    pub fn from_code(n: usize) -> (r: Option<IPC>)
        ensures
            n < 3 <==> r.is_some(),
            r matches Some(c) ==> c.spec_code() == n,
    {
        match n {
            0 => Some(IPC::Log),
            1 => Some(IPC::Send),
            2 => Some(IPC::Receive),
            _ => None,
        }
    }
}

/// How a `receive` names the task it waits for: the task's id, or `-1` for
/// any task.
pub open spec fn spec_encode_source(from: Option<TaskId>) -> isize {
    match from {
        Some(t) => t.0 as isize,
        None => -1isize,
    }
}

pub fn encode_source(from: Option<TaskId>) -> (r: isize)
    ensures
        r == spec_encode_source(from),
{
    match from {
        Some(t) => t.0 as isize,
        None => -1,
    }
}

/// The task a `receive` waits for: none for negative values.
pub fn decode_source(x: isize) -> (r: Option<TaskId>)
    ensures
        x < 0 ==> r.is_none(),
        x >= 0 ==> r == Some(TaskId(x as usize)),
{
    if x < 0 {
        None
    } else {
        Some(TaskId(x as usize))
    }
}

/// Law: the kernel decodes the task a receiver names, for every task id
/// that fits in a signed word.
pub proof fn lemma_source_round_trip(from: Option<TaskId>)
    requires
        from matches Some(t) ==> t.0 <= isize::MAX,
    ensures
        ({
            let x = spec_encode_source(from);
            &&& x < 0 <==> from.is_none()
            &&& from matches Some(t) ==> x as usize == t.0
        }),
{
}

} // verus!
