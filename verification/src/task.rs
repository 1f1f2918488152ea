//! Task identifiers and the fixed-size messages that tasks exchange.
use crate::address::{Address, Physical, Virtual};
use crate::page::{Frame, Page, Size4K};
use vstd::prelude::*;

verus! {

/// The identifier of a task.
#[derive(Debug, Hash, Eq, PartialEq, Ord, PartialOrd, Clone, Copy, Structural)]
pub struct TaskId(pub usize);

impl TaskId {
    /// The null task, used as a placeholder sender.
    pub fn null() -> (r: Self)
        ensures
            r.0 == 0,
    {
        TaskId(0)
    }

    /// The kernel's own task.
    pub fn kernel() -> (r: Self)
        ensures
            r.0 == 0,
    {
        TaskId(0)
    }
}

/// Number of payload words in a message.
pub const MESSAGE_WORDS: usize = 5;

/// A value that can travel in the payload of a message: it occupies the
/// first words of the payload.
pub trait MessageData: Sized {
    /// The words the value occupies, from the first payload word on.
    spec fn spec_words(self) -> Seq<u64>;

    /// The value stored in a payload.
    spec fn spec_from_words(words: Seq<u64>) -> Self;

    proof fn lemma_words(self)
        ensures
            self.spec_words().len() <= MESSAGE_WORDS,
            forall|w: Seq<u64>|
                w.len() == MESSAGE_WORDS && #[trigger] w.take(self.spec_words().len() as int)
                    == self.spec_words() ==> Self::spec_from_words(w) == self,
    ;

    fn to_words(&self) -> (r: Vec<u64>)
        ensures
            r@ == self.spec_words(),
    ;

    fn from_words(words: &[u64; 5]) -> (r: Self)
        ensures
            r == Self::spec_from_words(words@),
    ;
}

impl MessageData for isize {
    open spec fn spec_words(self) -> Seq<u64> {
        seq![self as u64]
    }

    open spec fn spec_from_words(words: Seq<u64>) -> isize {
        words[0] as isize
    }

    proof fn lemma_words(self) {
        let x = self;
        assert((x as u64) as isize == x) by (bit_vector);
        assert forall|w: Seq<u64>|
            w.len() == MESSAGE_WORDS && #[trigger] w.take(self.spec_words().len() as int)
                == self.spec_words() implies Self::spec_from_words(w) == self by {
            assert(w[0] == w.take(1)[0]);
        }
    }

    fn to_words(&self) -> (r: Vec<u64>) {
        vec![*self as u64]
    }

    fn from_words(words: &[u64; 5]) -> (r: isize) {
        words[0] as isize
    }
}

impl MessageData for Address<Virtual> {
    open spec fn spec_words(self) -> Seq<u64> {
        seq![self.value() as u64]
    }

    open spec fn spec_from_words(words: Seq<u64>) -> Address<Virtual> {
        Address::<Virtual>::spec_new(words[0] as usize)
    }

    proof fn lemma_words(self) {
        assert forall|w: Seq<u64>|
            w.len() == MESSAGE_WORDS && #[trigger] w.take(self.spec_words().len() as int)
                == self.spec_words() implies Self::spec_from_words(w) == self by {
            assert(w[0] == w.take(1)[0]);
            Address::<Virtual>::lemma_spec_new(w[0] as usize);
            Address::<Virtual>::lemma_value_injective(Self::spec_from_words(w), self);
        }
    }

    fn to_words(&self) -> (r: Vec<u64>) {
        vec![self.as_usize() as u64]
    }

    fn from_words(words: &[u64; 5]) -> (r: Address<Virtual>) {
        let r = Address::new(words[0] as usize);
        proof {
            Address::<Virtual>::lemma_spec_new(words@[0] as usize);
            Address::<Virtual>::lemma_value_injective(r, Self::spec_from_words(words@));
        }
        r
    }
}

/// A request to map a physical frame at a virtual page.
impl MessageData for (Frame, Page) {
    open spec fn spec_words(self) -> Seq<u64> {
        seq![self.0.start_value() as u64, self.1.start_value() as u64]
    }

    open spec fn spec_from_words(words: Seq<u64>) -> (Frame, Page) {
        (Frame::<Size4K>::at(words[0] as usize), Page::<Size4K, Virtual>::at(words[1] as usize))
    }

    proof fn lemma_words(self) {
        assert forall|w: Seq<u64>|
            w.len() == MESSAGE_WORDS && #[trigger] w.take(self.spec_words().len() as int)
                == self.spec_words() implies Self::spec_from_words(w) == self by {
            assert(w[0] == w.take(2)[0]);
            assert(w[1] == w.take(2)[1]);
            Frame::<Size4K>::lemma_at(w[0] as usize);
            Page::<Size4K, Virtual>::lemma_at(w[1] as usize);
            Frame::<Size4K>::lemma_start_injective(Self::spec_from_words(w).0, self.0);
            Page::<Size4K, Virtual>::lemma_start_injective(Self::spec_from_words(w).1, self.1);
        }
    }

    fn to_words(&self) -> (r: Vec<u64>) {
        vec![self.0.start().as_usize() as u64, self.1.start().as_usize() as u64]
    }

    fn from_words(words: &[u64; 5]) -> (r: (Frame, Page)) {
        let f = Frame::<Size4K>::from_start(Address::new(words[0] as usize));
        let p = Page::<Size4K, Virtual>::from_start(Address::new(words[1] as usize));
        proof {
            Frame::<Size4K>::lemma_at(words@[0] as usize);
            Page::<Size4K, Virtual>::lemma_at(words@[1] as usize);
            Frame::<Size4K>::lemma_start_injective(f, Self::spec_from_words(words@).0);
            Page::<Size4K, Virtual>::lemma_start_injective(p, Self::spec_from_words(words@).1);
        }
        (f, p)
    }
}

/// The payload after writing `words` over its first words.
pub open spec fn overwrite(data: Seq<u64>, words: Seq<u64>) -> Seq<u64> {
    words + data.skip(words.len() as int)
}

/// A message between tasks: sender, receiver, kind and five payload words.
#[derive(Debug, Hash, Eq, PartialEq, Ord, PartialOrd, Clone)]
pub struct Message {
    pub sender: TaskId,
    pub receiver: TaskId,
    pub kind: usize,
    pub data: [u64; 5],
}

impl Message {
    /// The payload words.
    pub open spec fn data_view(&self) -> Seq<u64> {
        self.data@
    }

    /// A message with an all-zero payload.
    pub fn new(sender: TaskId, receiver: TaskId, kind: usize) -> (r: Self)
        ensures
            r.sender == sender,
            r.receiver == receiver,
            r.kind == kind,
            r.data_view() == seq![0u64, 0u64, 0u64, 0u64, 0u64],
    {
        let r = Self { sender, receiver, kind, data: [0; 5] };
        proof {
            assert(r.data@ =~= seq![0u64, 0u64, 0u64, 0u64, 0u64]);
        }
        r
    }

    /// The message with `data` written at the start of its payload.
    pub fn with_data<T: MessageData>(self, data: T) -> (r: Self)
        ensures
            r.sender == self.sender,
            r.receiver == self.receiver,
            r.kind == self.kind,
            r.data_view() == overwrite(self.data_view(), data.spec_words()),
    {
        let mut m = self;
        m.set_data(data);
        m
    }

    /// Writes `data` at the start of the payload; the other words stay.
    pub fn set_data<T: MessageData>(&mut self, data: T)
        ensures
            final(self).sender == old(self).sender,
            final(self).receiver == old(self).receiver,
            final(self).kind == old(self).kind,
            final(self).data_view() == overwrite(old(self).data_view(), data.spec_words()),
    {
        let words = data.to_words();
        proof {
            data.lemma_words();
        }
        let mut i: usize = 0;
        while i < words.len()
            invariant
                words@ == data.spec_words(),
                words.len() <= MESSAGE_WORDS,
                i <= words.len(),
                self.sender == old(self).sender,
                self.receiver == old(self).receiver,
                self.kind == old(self).kind,
                self.data@.len() == 5,
                forall|j: int| 0 <= j < i ==> self.data@[j] == words@[j],
                forall|j: int| i <= j < 5 ==> self.data@[j] == old(self).data@[j],
            decreases words.len() - i,
        {
            self.data[i] = words[i];
            i = i + 1;
        }
        proof {
            assert(self.data@ =~= overwrite(old(self).data@, data.spec_words()));
        }
    }

    /// Reads a `T` from the start of the payload.
    pub fn get_data<T: MessageData>(&self) -> (r: T)
        ensures
            r == T::spec_from_words(self.data_view()),
    {
        T::from_words(&self.data)
    }

    /// The reply to this message: back from its receiver to its sender, of
    /// the same kind, carrying `data`.
    pub fn reply<T: MessageData>(&self, data: T) -> (r: Message)
        ensures
            r.sender == self.receiver,
            r.receiver == self.sender,
            r.kind == self.kind,
            r.data_view() == overwrite(seq![0u64, 0u64, 0u64, 0u64, 0u64], data.spec_words()),
    {
        Message::new(self.receiver, self.sender, self.kind).with_data(data)
    }
}

/// Law: what `with_data` writes, `get_data` reads back.
pub proof fn lemma_data_round_trip<T: MessageData>(m: Message, data: T)
    ensures
        T::spec_from_words(overwrite(m.data_view(), data.spec_words())) == data,
{
    data.lemma_words();
    let w = overwrite(m.data_view(), data.spec_words());
    assert(m.data_view().len() == 5);
    assert(w.take(data.spec_words().len() as int) =~= data.spec_words());
}

} // verus!
