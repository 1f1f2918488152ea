//! A value computed on first use.
use vstd::prelude::*;

verus! {

/// The value has not been computed yet.
pub const UNINITIALIZED: usize = 0;

/// The value is being computed.
pub const INITIALIZING: usize = 1;

/// The value has been computed.
pub const INITIALIZED: usize = 2;

/// A value of type `T` computed by `F` the first time it is needed.
#[verifier::reject_recursive_types(T)]
pub struct Lazy<T, F: FnOnce() -> T> {
    state: usize,
    init: Option<F>,
    value: Option<T>,
}

impl<T, F: FnOnce() -> T> Lazy<T, F> {
    /// The state: uninitialized with its initializer, or initialized with
    /// its value.
    pub closed spec fn wf(&self) -> bool {
        ||| self.state == UNINITIALIZED && self.init.is_some() && self.value.is_none()
        ||| self.state == INITIALIZED && self.init.is_none() && self.value.is_some()
    }

    /// Whether the value has been computed.
    pub closed spec fn is_initialized(&self) -> bool {
        self.state == INITIALIZED
    }

    /// The initializer, while the value is not yet computed.
    pub closed spec fn initializer(&self) -> F {
        self.init.unwrap()
    }

    /// The computed value.
    pub closed spec fn value(&self) -> T {
        self.value.unwrap()
    }

    /// A lazy value computed by `f` on first use.
    pub fn new(f: F) -> (r: Self)
        ensures
            r.wf(),
            !r.is_initialized(),
            r.initializer() == f,
    {
        Self { state: UNINITIALIZED, value: None, init: Some(f) }
    }

    /// Runs the initializer and stores its value.
    fn force_initialize(&mut self)
        requires
            old(self).state == INITIALIZING,
            old(self).init.is_some(),
            old(self).value.is_none(),
            call_requires(old(self).init.unwrap(), ()),
        ensures
            final(self).wf(),
            final(self).is_initialized(),
            call_ensures(old(self).init.unwrap(), (), final(self).value()),
    {
        let f: F = self.init.take().unwrap();
        let v: T = f();
        self.value = Some(v);
        self.state = INITIALIZED;
    }

    /// Computes the value unless it already is.
    fn force_slow(lazy: &mut Self)
        requires
            old(lazy).wf(),
            !old(lazy).is_initialized() ==> call_requires(old(lazy).initializer(), ()),
        ensures
            final(lazy).wf(),
            final(lazy).is_initialized(),
            old(lazy).is_initialized() ==> final(lazy).value() == old(lazy).value(),
            !old(lazy).is_initialized() ==> call_ensures(
                old(lazy).initializer(),
                (),
                final(lazy).value(),
            ),
    {
        let state = lazy.state;
        if state == INITIALIZED {
            return ;
        }
        lazy.state = INITIALIZING;
        lazy.force_initialize();
    }

    /// Makes sure the value is computed.
    pub fn force(lazy: &mut Self)
        requires
            old(lazy).wf(),
            !old(lazy).is_initialized() ==> call_requires(old(lazy).initializer(), ()),
        ensures
            final(lazy).wf(),
            final(lazy).is_initialized(),
            old(lazy).is_initialized() ==> final(lazy).value() == old(lazy).value(),
            !old(lazy).is_initialized() ==> call_ensures(
                old(lazy).initializer(),
                (),
                final(lazy).value(),
            ),
    {
        if INITIALIZED == lazy.state {
            return ;
        }
        Self::force_slow(lazy);
    }

    /// One call of `force` from `a` gives `b`: the value is computed, by
    /// the initializer if it was not yet, and kept if it was.
    pub open spec fn forced(a: Self, b: Self) -> bool {
        &&& b.wf()
        &&& b.is_initialized()
        &&& a.is_initialized() ==> b.value() == a.value()
        &&& !a.is_initialized() ==> call_ensures(a.initializer(), (), b.value())
    }

    /// Law: over any number of calls of `force` from a value not yet
    /// computed (`states[k + 1]` is what the call made on `states[k]`
    /// gives), every state after the first call holds the value that the
    /// initializer returned in that first call.
    pub proof fn lemma_forced_repeatedly(states: Seq<Self>)
        requires
            states.len() >= 2,
            !states[0].is_initialized(),
            forall|k: int| 0 <= k < states.len() - 1 ==> Self::forced(#[trigger] states[k], states[k + 1]),
        ensures
            call_ensures(states[0].initializer(), (), states[1].value()),
            forall|k: int|
                1 <= k < states.len() ==> #[trigger] states[k].is_initialized() && states[k].value() == states[1].value(),
        decreases states.len(),
    {
        assert(Self::forced(states[0], states[1]));
        if states.len() > 2 {
            let shorter = states.drop_last();
            assert forall|k: int| 0 <= k < shorter.len() - 1 implies Self::forced(#[trigger] shorter[k], shorter[k + 1]) by {
                assert(Self::forced(states[k], states[k + 1]));
            }
            Self::lemma_forced_repeatedly(shorter);
            let n = states.len() - 1;
            assert(Self::forced(states[n - 1], states[n]));
            assert(shorter[n - 1] == states[n - 1]);
            assert forall|k: int| 1 <= k < states.len() implies #[trigger] states[k].is_initialized()
                && states[k].value() == states[1].value() by {
                if k < n {
                    assert(shorter[k] == states[k]);
                }
            }
        }
    }

    /// The value, computed first if needed.
    pub fn get(&mut self) -> (r: &T)
        requires
            old(self).wf(),
            !old(self).is_initialized() ==> call_requires(old(self).initializer(), ()),
        ensures
            final(self).wf(),
            final(self).is_initialized(),
            *r == final(self).value(),
            old(self).is_initialized() ==> final(self).value() == old(self).value(),
            !old(self).is_initialized() ==> call_ensures(
                old(self).initializer(),
                (),
                final(self).value(),
            ),
    {
        Self::force(self);
        self.value.as_ref().unwrap()
    }
}

} // verus!
