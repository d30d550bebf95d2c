use crate::event::InputResult;
use crate::keycode::KeyCode;
use crate::lists::{
    key_list_items, key_list_new, key_list_push, key_list_remove_first, key_list_retain_other, listed_keys, other_than,
    KeyList,
};
use ringbuffer::ConstGenericRingBuffer;
use ringbuffer::RingBuffer;
use vstd::prelude::*;

verus! {

/// ringbuffer's fixed-capacity FIFO, used opaquely through the wrappers below.
#[verifier::external_type_specification]
#[verifier::external_body]
#[verifier::reject_recursive_types(T)]
pub struct ExConstGenericRingBuffer<T, const CAP: usize>(ConstGenericRingBuffer<T, CAP>);

/// What a result queue holds, oldest first.
pub uninterp spec fn queued_results(q: ConstGenericRingBuffer<InputResult, 10>) -> Seq<InputResult>;

/// What a scratch queue holds, oldest first.
pub uninterp spec fn queued_indices(q: ConstGenericRingBuffer<u16, 10>) -> Seq<u16>;

/// What a deferred-key queue holds, oldest first.
pub uninterp spec fn queued_keys(q: ConstGenericRingBuffer<KeyCode, 4>) -> Seq<KeyCode>;

/// The pending codes `q` with `c` marked: a code already pending stays as
/// it is; where four are pending, the oldest one is dropped first.
pub open spec fn add_pending(q: Seq<KeyCode>, c: KeyCode) -> Seq<KeyCode> {
    if q.contains(c) {
        q
    } else if q.len() < 4 {
        q.push(c)
    } else {
        q.drop_first().push(c)
    }
}

/// `s` with `v` appended, the oldest item dropped first where `s` is full.
pub open spec fn bounded_push<T>(s: Seq<T>, v: T, cap: nat) -> Seq<T> {
    if s.len() < cap {
        s.push(v)
    } else {
        s.drop_first().push(v)
    }
}

/// Relies on ringbuffer's `ConstGenericRingBuffer::new`: a new buffer is empty.
#[verifier::external_body]
fn results_new() -> (r: ConstGenericRingBuffer<InputResult, 10>)
    ensures
        queued_results(r) == Seq::<InputResult>::empty(),
{
    ConstGenericRingBuffer::new()
}

/// Relies on ringbuffer's `enqueue`: appends, and overwrites the oldest item when full.
#[verifier::external_body]
fn results_enqueue(q: &mut ConstGenericRingBuffer<InputResult, 10>, v: InputResult)
    requires
        queued_results(*old(q)).len() <= 10,
    ensures
        queued_results(*final(q)) == bounded_push(queued_results(*old(q)), v, 10),
{
    q.enqueue(v);
}

/// Relies on ringbuffer's `dequeue`: takes the oldest item, if any.
#[verifier::external_body]
fn results_dequeue(q: &mut ConstGenericRingBuffer<InputResult, 10>) -> (r: Option<InputResult>)
    ensures
        queued_results(*old(q)).len() == 0 ==> r is None && queued_results(*final(q)) == queued_results(*old(q)),
        queued_results(*old(q)).len() > 0 ==> r == Some(queued_results(*old(q))[0])
            && queued_results(*final(q)) == queued_results(*old(q)).drop_first(),
{
    q.dequeue()
}

/// Relies on ringbuffer's `ConstGenericRingBuffer::new`: a new buffer is empty.
#[verifier::external_body]
fn indices_new() -> (r: ConstGenericRingBuffer<u16, 10>)
    ensures
        queued_indices(r) == Seq::<u16>::empty(),
{
    ConstGenericRingBuffer::new()
}

/// Relies on ringbuffer's `enqueue`: appends, and overwrites the oldest item when full.
#[verifier::external_body]
fn indices_enqueue(q: &mut ConstGenericRingBuffer<u16, 10>, v: u16)
    requires
        queued_indices(*old(q)).len() <= 10,
    ensures
        queued_indices(*final(q)) == bounded_push(queued_indices(*old(q)), v, 10),
{
    q.enqueue(v);
}

/// Relies on ringbuffer's `dequeue`: takes the oldest item, if any.
#[verifier::external_body]
fn indices_dequeue(q: &mut ConstGenericRingBuffer<u16, 10>) -> (r: Option<u16>)
    ensures
        queued_indices(*old(q)).len() == 0 ==> r is None && queued_indices(*final(q)) == queued_indices(*old(q)),
        queued_indices(*old(q)).len() > 0 ==> r == Some(queued_indices(*old(q))[0])
            && queued_indices(*final(q)) == queued_indices(*old(q)).drop_first(),
{
    q.dequeue()
}

/// Relies on ringbuffer's `ConstGenericRingBuffer::new`: a new buffer is empty.
#[verifier::external_body]
fn keys_new() -> (r: ConstGenericRingBuffer<KeyCode, 4>)
    ensures
        queued_keys(r) == Seq::<KeyCode>::empty(),
{
    ConstGenericRingBuffer::new()
}

/// Relies on ringbuffer's `enqueue`: appends, and overwrites the oldest item when full.
#[verifier::external_body]
fn keys_enqueue(q: &mut ConstGenericRingBuffer<KeyCode, 4>, v: KeyCode)
    requires
        queued_keys(*old(q)).len() <= 4,
    ensures
        queued_keys(*final(q)) == bounded_push(queued_keys(*old(q)), v, 4),
{
    q.enqueue(v);
}

/// Relies on ringbuffer's `dequeue`: takes the oldest item, if any.
#[verifier::external_body]
fn keys_dequeue(q: &mut ConstGenericRingBuffer<KeyCode, 4>) -> (r: Option<KeyCode>)
    ensures
        queued_keys(*old(q)).len() == 0 ==> r is None && queued_keys(*final(q)) == queued_keys(*old(q)),
        queued_keys(*old(q)).len() > 0 ==> r == Some(queued_keys(*old(q))[0])
            && queued_keys(*final(q)) == queued_keys(*old(q)).drop_first(),
{
    q.dequeue()
}

/// The engine's bounded staging area: a result queue, a scratch queue of
/// indices, a queue of deferred keys and a small set of pending keys.
#[derive(Debug)]
pub struct InputBuffer {
    results: ConstGenericRingBuffer<InputResult, 10>,
    processed: ConstGenericRingBuffer<u16, 10>,
    deferred_keys: ConstGenericRingBuffer<KeyCode, 4>,
    pending_keys: KeyList,
}

impl InputBuffer {
    pub closed spec fn results(&self) -> Seq<InputResult> {
        queued_results(self.results)
    }

    pub closed spec fn indices(&self) -> Seq<u16> {
        queued_indices(self.processed)
    }

    pub closed spec fn deferred(&self) -> Seq<KeyCode> {
        queued_keys(self.deferred_keys)
    }

    pub closed spec fn pending_seq(&self) -> Seq<KeyCode> {
        listed_keys(self.pending_keys)
    }

    pub open spec fn is_pending(&self, code: KeyCode) -> bool {
        self.pending_seq().contains(code)
    }

    pub open spec fn any_pending(&self) -> bool {
        self.pending_seq().len() > 0
    }

    /// The queues stay within their capacities.
    pub closed spec fn wf(&self) -> bool {
        &&& self.results().len() <= 10
        &&& self.indices().len() <= 10
        &&& self.deferred().len() <= 4
        &&& self.pending_seq().len() <= 4
    }

    pub fn new() -> (r: Self)
        ensures
            r.wf(),
            r.results().len() == 0,
            r.indices().len() == 0,
            r.deferred().len() == 0,
            !r.any_pending(),
            forall|c: KeyCode| !r.is_pending(c),
    {
        InputBuffer {
            results: results_new(),
            processed: indices_new(),
            deferred_keys: keys_new(),
            pending_keys: key_list_new(),
        }
    }

    /// Queues a result; the oldest one is dropped when ten are queued.
    pub fn push_result(&mut self, result: InputResult)
        requires
            old(self).wf(),
        ensures
            final(self).wf(),
            final(self).results() == bounded_push(old(self).results(), result, 10),
            final(self).indices() == old(self).indices(),
            final(self).deferred() == old(self).deferred(),
            final(self).pending_seq() == old(self).pending_seq(),
    {
        results_enqueue(&mut self.results, result);
    }

    pub fn pop_result(&mut self) -> (r: Option<InputResult>)
        requires
            old(self).wf(),
        ensures
            final(self).wf(),
            old(self).results().len() == 0 ==> r is None && final(self).results() == old(self).results(),
            old(self).results().len() > 0 ==> r == Some(old(self).results()[0])
                && final(self).results() == old(self).results().drop_first(),
            final(self).indices() == old(self).indices(),
            final(self).deferred() == old(self).deferred(),
            final(self).pending_seq() == old(self).pending_seq(),
    {
        results_dequeue(&mut self.results)
    }

    pub fn push_key(&mut self, idx: u16)
        requires
            old(self).wf(),
        ensures
            final(self).wf(),
            final(self).indices() == bounded_push(old(self).indices(), idx, 10),
            final(self).results() == old(self).results(),
            final(self).deferred() == old(self).deferred(),
            final(self).pending_seq() == old(self).pending_seq(),
    {
        indices_enqueue(&mut self.processed, idx);
    }

    pub fn pop_key(&mut self) -> (r: Option<u16>)
        requires
            old(self).wf(),
        ensures
            final(self).wf(),
            old(self).indices().len() == 0 ==> r is None && final(self).indices() == old(self).indices(),
            old(self).indices().len() > 0 ==> r == Some(old(self).indices()[0])
                && final(self).indices() == old(self).indices().drop_first(),
            final(self).results() == old(self).results(),
            final(self).deferred() == old(self).deferred(),
            final(self).pending_seq() == old(self).pending_seq(),
    {
        indices_dequeue(&mut self.processed)
    }

    pub fn is_pending_key(&self, code: &KeyCode) -> (r: bool)
        ensures
            r == self.is_pending(*code),
    {
        let items = key_list_items(&self.pending_keys);
        let mut i: usize = 0;
        while i < items.len()
            invariant
                i <= items@.len(),
                items@ == self.pending_seq(),
                forall|j: int| 0 <= j < i ==> items@[j] != *code,
            decreases items.len() - i,
        {
            if items[i].0 == code.0 {
                return true;
            }
            i = i + 1;
        }
        false
    }

    pub fn has_pending_keys(&self) -> (r: bool)
        ensures
            r == self.any_pending(),
    {
        key_list_items(&self.pending_keys).len() > 0
    }

    /// Marks `code` pending; a code already pending is not added twice.
    pub fn set_pending_key(&mut self, code: KeyCode)
        requires
            old(self).wf(),
        ensures
            final(self).wf(),
            final(self).pending_seq() == add_pending(old(self).pending_seq(), code),
            final(self).is_pending(code),
            final(self).any_pending(),
            final(self).results() == old(self).results(),
            final(self).indices() == old(self).indices(),
            final(self).deferred() == old(self).deferred(),
    {
        if self.is_pending_key(&code) {
            return;
        }
        if key_list_items(&self.pending_keys).len() >= 4 {
            key_list_remove_first(&mut self.pending_keys);
        }
        key_list_push(&mut self.pending_keys, code);
        assert(self.pending_seq()[self.pending_seq().len() - 1] == code);
    }

    pub fn clear_pending_key(&mut self, code: &KeyCode)
        requires
            old(self).wf(),
        ensures
            final(self).wf(),
            forall|c: KeyCode| #[trigger] final(self).is_pending(c) <==> old(self).is_pending(c) && c != *code,
            final(self).pending_seq() == old(self).pending_seq().filter(other_than(*code)),
            final(self).results() == old(self).results(),
            final(self).indices() == old(self).indices(),
            final(self).deferred() == old(self).deferred(),
    {
        key_list_retain_other(&mut self.pending_keys, *code);
        proof {
            old(self).pending_seq().lemma_filter_len(other_than(*code));
        }
    }

    /// Queues a press that arrived while other codes were pending; the oldest
    /// one is dropped when four are queued.
    pub fn defer_key(&mut self, code: KeyCode)
        requires
            old(self).wf(),
        ensures
            final(self).wf(),
            final(self).deferred() == bounded_push(old(self).deferred(), code, 4),
            final(self).results() == old(self).results(),
            final(self).indices() == old(self).indices(),
            final(self).pending_seq() == old(self).pending_seq(),
    {
        keys_enqueue(&mut self.deferred_keys, code);
    }

    pub fn pop_deferred_key(&mut self) -> (r: Option<KeyCode>)
        requires
            old(self).wf(),
        ensures
            final(self).wf(),
            old(self).deferred().len() == 0 ==> r is None && final(self).deferred() == old(self).deferred(),
            old(self).deferred().len() > 0 ==> r == Some(old(self).deferred()[0])
                && final(self).deferred() == old(self).deferred().drop_first(),
            final(self).results() == old(self).results(),
            final(self).indices() == old(self).indices(),
            final(self).pending_seq() == old(self).pending_seq(),
    {
        keys_dequeue(&mut self.deferred_keys)
    }
}

} // verus!
