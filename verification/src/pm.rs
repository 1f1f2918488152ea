//! What the process manager keeps for each process: its threads, and the
//! mutexes and condition variables it created, by handle.
use vstd::prelude::*;
use crate::task::TaskId;

verus! {

/// The index of the first `h` in `s`, if there is one.
pub open spec fn first_index(s: Seq<usize>, h: usize) -> Option<int> {
    if s.contains(h) {
        Some(choose|i: int| 0 <= i < s.len() && s[i] == h && forall|j: int| 0 <= j < i ==> s[j] != h)
    } else {
        None
    }
}

/// `s` with the element at `i` replaced by the last one, and the last one
/// dropped.
pub open spec fn swap_removed(s: Seq<usize>, i: int) -> Seq<usize> {
    s.update(i, s.last()).drop_last()
}

/// The handles of the mutexes and condition variables a process created.
pub struct ProcessResources {
    pub threads: Vec<TaskId>,
    pub locks: Vec<usize>,
    pub cvars: Vec<usize>,
}

impl ProcessResources {
    /// A process with no threads, mutexes or condition variables yet.
    pub fn new() -> (r: Self)
        ensures
            r.threads@.len() == 0,
            r.locks@.len() == 0,
            r.cvars@.len() == 0,
    {
        ProcessResources { threads: Vec::new(), locks: Vec::new(), cvars: Vec::new() }
    }

    /// A mutex `h` was created for the process.
    pub fn mutex_created(&mut self, privileged: bool, h: usize)
        ensures
            privileged ==> final(self).locks@ == old(self).locks@,
            !privileged ==> final(self).locks@ == old(self).locks@.push(h),
            final(self).cvars == old(self).cvars,
            final(self).threads == old(self).threads,
    {
        record_handle(&mut self.locks, privileged, h);
    }

    /// Mutex `h` is destroyed: whether the process had it (and the memory
    /// behind it is to be freed).
    pub fn mutex_destroyed(&mut self, h: usize) -> (found: bool)
        ensures
            found == old(self).locks@.contains(h),
            match first_index(old(self).locks@, h) {
                Some(i) => final(self).locks@ == swap_removed(old(self).locks@, i),
                None => final(self).locks@ == old(self).locks@,
            },
            final(self).cvars == old(self).cvars,
            final(self).threads == old(self).threads,
    {
        forget_handle(&mut self.locks, h)
    }

    /// A condition variable `h` was created for the process.
    pub fn condvar_created(&mut self, privileged: bool, h: usize)
        ensures
            privileged ==> final(self).cvars@ == old(self).cvars@,
            !privileged ==> final(self).cvars@ == old(self).cvars@.push(h),
            final(self).locks == old(self).locks,
            final(self).threads == old(self).threads,
    {
        record_handle(&mut self.cvars, privileged, h);
    }

    /// Condition variable `h` is destroyed: whether the process had it.
    pub fn condvar_destroyed(&mut self, h: usize) -> (found: bool)
        ensures
            found == old(self).cvars@.contains(h),
            match first_index(old(self).cvars@, h) {
                Some(i) => final(self).cvars@ == swap_removed(old(self).cvars@, i),
                None => final(self).cvars@ == old(self).cvars@,
            },
            final(self).locks == old(self).locks,
            final(self).threads == old(self).threads,
    {
        forget_handle(&mut self.cvars, h)
    }
}

/// The index of the first `h` in `list`.
fn position(list: &Vec<usize>, h: usize) -> (r: Option<usize>)
    ensures
        match r {
            Some(i) => first_index(list@, h) == Some(i as int) && i < list@.len(),
            None => first_index(list@, h) is None,
        },
{
    let mut i: usize = 0;
    while i < list.len()
        invariant
            i <= list@.len(),
            forall|j: int| 0 <= j < i ==> list@[j] != h,
        decreases list@.len() - i,
    {
        if list[i] == h {
            proof {
                assert(list@.contains(h));
                let k = choose|k: int| 0 <= k < list@.len() && list@[k] == h && forall|j: int| 0 <= j < k ==> list@[j] != h;
                assert(k == i as int) by {
                    if k < i {
                        assert(list@[k] != h);
                    }
                    if k > i {
                        assert(list@[i as int] != h);
                    }
                }
            }
            return Some(i);
        }
        i = i + 1;
    }
    proof {
        if list@.contains(h) {
            let k = choose|k: int| 0 <= k < list@.len() && list@[k] == h;
            assert(list@[k] != h);
        }
    }
    None
}

/// Records a new handle `h` created by a process; handles created by the
/// kernel itself are not recorded.
pub fn record_handle(list: &mut Vec<usize>, privileged: bool, h: usize)
    ensures
        privileged ==> final(list)@ == old(list)@,
        !privileged ==> final(list)@ == old(list)@.push(h),
{
    if !privileged {
        list.push(h);
    }
}

/// Forgets handle `h` when it is destroyed: its first occurrence is taken
/// out (the last handle moves into its place). Whether it was there.
pub fn forget_handle(list: &mut Vec<usize>, h: usize) -> (found: bool)
    ensures
        found == old(list)@.contains(h),
        match first_index(old(list)@, h) {
            Some(i) => final(list)@ == swap_removed(old(list)@, i),
            None => final(list)@ == old(list)@,
        },
{
    match position(list, h) {
        Some(i) => {
            list.swap_remove(i);
            true
        },
        None => false,
    }
}

/// Takes a finished thread out of its process's list; the thread is in it.
pub fn remove_thread(threads: &mut Vec<TaskId>, id: TaskId)
    requires
        exists|i: int| 0 <= i < old(threads)@.len() && old(threads)@[i] == id,
    ensures
        exists|i: int|
            0 <= i < old(threads)@.len() && old(threads)@[i] == id && (forall|j: int| 0 <= j < i ==> old(threads)@[j] != id)
                && final(threads)@ == old(threads)@.update(i, old(threads)@.last()).drop_last(),
{
    let mut i: usize = 0;
    while i < threads.len()
        invariant
            i <= threads@.len(),
            threads@ == old(threads)@,
            forall|j: int| 0 <= j < i ==> threads@[j] != id,
            exists|k: int| 0 <= k < threads@.len() && threads@[k] == id,
        decreases threads@.len() - i,
    {
        if threads[i] == id {
            threads.swap_remove(i);
            return;
        }
        i = i + 1;
    }
    proof {
        let k = choose|k: int| 0 <= k < threads@.len() && threads@[k] == id;
        assert(threads@[k] != id);
    }
}

/// Law: a handle that a process creates and then destroys leaves its list
/// as it was, when the handle was new to it.
pub proof fn lemma_record_then_forget(list: Seq<usize>, h: usize)
    requires
        !list.contains(h),
    ensures
        first_index(list.push(h), h) == Some(list.len() as int),
        swap_removed(list.push(h), list.len() as int) == list,
{
    let l = list.push(h);
    assert(l[list.len() as int] == h);
    assert(l.contains(h));
    let k = choose|k: int| 0 <= k < l.len() && l[k] == h && forall|j: int| 0 <= j < k ==> l[j] != h;
    assert forall|j: int| 0 <= j < list.len() implies l[j] != h by {
        assert(l[j] == list[j]);
        if l[j] == h {
            assert(list.contains(h));
        }
    }
    assert(k == list.len() as int) by {
        if k < list.len() {
            assert(l[k] != h);
        }
        if k > list.len() as int {
            assert(l[list.len() as int] != h);
        }
    }
    assert(swap_removed(l, list.len() as int) =~= list);
}

/// A request to the process manager; handles are the addresses of the
/// mutexes and condition variables.
#[derive(Clone, Copy, PartialEq, Eq, Structural, Debug)]
pub enum ProcRequest {
    MutexCreate,
    MutexLock(usize),
    MutexUnlock(usize),
    MutexDestroy(usize),
    CondvarCreate,
    CondvarWait(usize, usize),
    CondvarNotifyAll(usize),
    CondvarDestroy(usize),
}

/// What the caller does on the lock objects after a request: nothing, lock
/// or unlock a mutex, wait on a condition variable with a mutex, wake its
/// waiters, or free the object behind a destroyed handle.
#[derive(Clone, Copy, PartialEq, Eq, Structural, Debug)]
pub enum ProcAction {
    Nothing,
    Lock(usize),
    Unlock(usize),
    Wait(usize, usize),
    NotifyAll(usize),
    Free(usize),
}

/// The process manager module.
pub struct ProcessManager;

/// Law: destroying a handle frees the object behind it only when the
/// calling process owns it (its handle is on the process's list): a handle
/// the process never made, or one already destroyed and no longer listed,
/// is not freed; and nothing but a destroyed handle is ever freed.
pub proof fn lemma_destroy_frees_only_owned(request: ProcRequest, locks: Seq<usize>, cvars: Seq<usize>, fresh: usize)
    ensures
        request matches ProcRequest::CondvarDestroy(c) ==> (proc_outcome(request, locks, cvars, fresh).1
            == ProcAction::Free(c) <==> cvars.contains(c)) && (!cvars.contains(c) ==> proc_outcome(
            request,
            locks,
            cvars,
            fresh,
        ).1 == ProcAction::Nothing),
        request matches ProcRequest::MutexDestroy(m) ==> (proc_outcome(request, locks, cvars, fresh).1
            == ProcAction::Free(m) <==> locks.contains(m)) && (!locks.contains(m) ==> proc_outcome(
            request,
            locks,
            cvars,
            fresh,
        ).1 == ProcAction::Nothing),
        proc_outcome(request, locks, cvars, fresh).1 matches ProcAction::Free(h) ==> (request
            == ProcRequest::CondvarDestroy(h) && cvars.contains(h)) || (request == ProcRequest::MutexDestroy(h)
            && locks.contains(h)),
{
}

/// The reply to `request` and what is done on the lock objects, given the
/// calling process's handles `locks` and `cvars` and the handle `fresh` of
/// a newly made object.
pub open spec fn proc_outcome(request: ProcRequest, locks: Seq<usize>, cvars: Seq<usize>, fresh: usize) -> (isize, ProcAction) {
    match request {
        ProcRequest::MutexCreate => (fresh as isize, ProcAction::Nothing),
        ProcRequest::CondvarCreate => (fresh as isize, ProcAction::Nothing),
        ProcRequest::MutexLock(m) => (0, ProcAction::Lock(m)),
        ProcRequest::MutexUnlock(m) => (0, ProcAction::Unlock(m)),
        ProcRequest::CondvarWait(c, m) => (0, ProcAction::Wait(c, m)),
        ProcRequest::CondvarNotifyAll(c) => (0, ProcAction::NotifyAll(c)),
        ProcRequest::MutexDestroy(m) => (0, if locks.contains(m) { ProcAction::Free(m) } else { ProcAction::Nothing }),
        ProcRequest::CondvarDestroy(c) => (0, if cvars.contains(c) { ProcAction::Free(c) } else { ProcAction::Nothing }),
    }
}

/// Law: once a condition variable the process owns (listed once) is
/// destroyed, destroying it again frees nothing: a handle is freed at most
/// once.
pub proof fn lemma_destroy_twice_frees_once(locks: Seq<usize>, cvars: Seq<usize>, c: usize, fresh: usize)
    requires
        forall|i: int, j: int| 0 <= i < cvars.len() && 0 <= j < cvars.len() && cvars[i] == c && cvars[j] == c ==> i == j,
    ensures
        ({
            let after = match first_index(cvars, c) {
                Some(i) => swap_removed(cvars, i),
                None => cvars,
            };
            proc_outcome(ProcRequest::CondvarDestroy(c), locks, after, fresh).1 == ProcAction::Nothing
        }),
{
    if cvars.contains(c) {
        let i = first_index(cvars, c)->0;
        let w = choose|k: int| 0 <= k < cvars.len() && cvars[k] == c;
        assert(0 <= w < cvars.len() && cvars[w] == c);
        assert(exists|k: int| 0 <= k < cvars.len() && cvars[k] == c && forall|j: int| 0 <= j < k ==> cvars[j] != c) by {
            assert(forall|j: int| 0 <= j < w ==> cvars[j] != c);
        }
        assert(0 <= i < cvars.len() && cvars[i] == c);
        let after = swap_removed(cvars, i);
        if after.contains(c) {
            let k = choose|k: int| 0 <= k < after.len() && after[k] == c;
            if k == i {
                assert(cvars[cvars.len() - 1] == c);
            } else {
                assert(cvars[k] == c);
            }
        }
    }
}

impl ProcessManager {
    /// Handles `request` from the process whose handles are `res`
    /// (`privileged` for the kernel itself, whose handles are not kept);
    /// `fresh` is the handle of the object a create request made. A handle
    /// is freed only when the process owned it.
    pub fn handle_module_call(&self, res: &mut ProcessResources, privileged: bool, request: ProcRequest, fresh: usize) -> (r: (isize, ProcAction))
        ensures
            r == proc_outcome(request, old(res).locks@, old(res).cvars@, fresh),
            request matches ProcRequest::CondvarDestroy(c) ==> r.0 == 0 && (if old(res).cvars@.contains(c) {
                r.1 == ProcAction::Free(c)
            } else {
                r.1 == ProcAction::Nothing
            }),
            request matches ProcRequest::MutexDestroy(m) ==> r.0 == 0 && (if old(res).locks@.contains(m) {
                r.1 == ProcAction::Free(m)
            } else {
                r.1 == ProcAction::Nothing
            }),
            final(res).threads == old(res).threads,
            request == ProcRequest::MutexCreate ==> final(res).cvars == old(res).cvars && if privileged {
                final(res).locks@ == old(res).locks@
            } else {
                final(res).locks@ == old(res).locks@.push(fresh)
            },
            request == ProcRequest::CondvarCreate ==> final(res).locks == old(res).locks && if privileged {
                final(res).cvars@ == old(res).cvars@
            } else {
                final(res).cvars@ == old(res).cvars@.push(fresh)
            },
            request matches ProcRequest::MutexDestroy(m) ==> final(res).cvars == old(res).cvars && match first_index(old(res).locks@, m) {
                Some(i) => final(res).locks@ == swap_removed(old(res).locks@, i),
                None => final(res).locks@ == old(res).locks@,
            },
            request matches ProcRequest::CondvarDestroy(c) ==> final(res).locks == old(res).locks && match first_index(old(res).cvars@, c) {
                Some(i) => final(res).cvars@ == swap_removed(old(res).cvars@, i),
                None => final(res).cvars@ == old(res).cvars@,
            },
            (request is MutexLock || request is MutexUnlock || request is CondvarWait || request is CondvarNotifyAll)
                ==> final(res).locks == old(res).locks && final(res).cvars == old(res).cvars,
    {
        match request {
            ProcRequest::MutexCreate => {
                res.mutex_created(privileged, fresh);
                (handle_value(fresh), ProcAction::Nothing)
            },
            ProcRequest::MutexLock(m) => (0, ProcAction::Lock(m)),
            ProcRequest::MutexUnlock(m) => (0, ProcAction::Unlock(m)),
            ProcRequest::MutexDestroy(m) => {
                if res.mutex_destroyed(m) {
                    (0, ProcAction::Free(m))
                } else {
                    (0, ProcAction::Nothing)
                }
            },
            ProcRequest::CondvarCreate => {
                res.condvar_created(privileged, fresh);
                (handle_value(fresh), ProcAction::Nothing)
            },
            ProcRequest::CondvarWait(c, m) => (0, ProcAction::Wait(c, m)),
            ProcRequest::CondvarNotifyAll(c) => (0, ProcAction::NotifyAll(c)),
            ProcRequest::CondvarDestroy(c) => {
                if res.condvar_destroyed(c) {
                    (0, ProcAction::Free(c))
                } else {
                    (0, ProcAction::Nothing)
                }
            },
        }
    }
}

/// A handle as the value a system call returns, bit for bit.
fn handle_value(h: usize) -> (r: isize)
    ensures
        r == h as isize,
{
    #[verifier::truncate]
    (h as isize)
}

} // verus!
