//! Executor-independent rules for a reliable, ordered channel within one membership epoch.
//!
//! A projection delivers complete frames once, in submission order, or declares link failure.
//! Acceptance into a queue is not remote delivery; no transport operation may change
//! logical-time authority.
use std::collections::VecDeque;

use vstd::prelude::*;

verus! {

/// Maximum retained frames at each channel stage.
pub const QUEUE_CAPACITY: usize = 16;

/// Payload frames may not consume the four reserved coordination entries.
pub const PAYLOAD_CAPACITY: usize = QUEUE_CAPACITY - 4;

/// Admission class; it never authorizes reordering accepted frames.
#[derive(Debug, Clone, Copy, PartialEq, Eq, Structural)]
pub enum Class {
    /// Logical-time or lifecycle coordination.
    Coordination,
    /// Application data subject to the smaller admission quota.
    Payload,
}

/// Exhaustion of a fixed channel queue or its payload quota.
#[derive(Debug, Clone, Copy, PartialEq, Eq, Structural)]
pub enum QueueError {
    /// Accepting another frame would exceed a storage or reservation bound.
    Full,
}

/// The number of payload entries.
pub open spec fn payload_count<T>(entries: Seq<(T, Class)>) -> nat
    decreases entries.len(),
{
    if entries.len() == 0 {
        0
    } else {
        payload_count(entries.drop_last()) + if entries.last().1 == Class::Payload {
            1nat
        } else {
            0nat
        }
    }
}

/// Whether one entry of `class` fits beside `entries`.
pub open spec fn admits<T>(entries: Seq<(T, Class)>, class: Class) -> bool {
    entries.len() < QUEUE_CAPACITY && (class == Class::Coordination || payload_count(entries)
        < PAYLOAD_CAPACITY)
}

proof fn lemma_payload_count_push<T>(entries: Seq<(T, Class)>, e: (T, Class))
    ensures
        payload_count(entries.push(e)) == payload_count(entries) + if e.1 == Class::Payload {
            1nat
        } else {
            0nat
        },
{
    assert(entries.push(e).drop_last() =~= entries);
}

proof fn lemma_payload_count_drop_first<T>(entries: Seq<(T, Class)>)
    requires
        entries.len() > 0,
    ensures
        payload_count(entries) == payload_count(entries.drop_first()) + if entries[0].1
            == Class::Payload {
            1nat
        } else {
            0nat
        },
    decreases entries.len(),
{
    if entries.len() > 1 {
        lemma_payload_count_drop_first(entries.drop_last());
        assert(entries.drop_last().drop_first() =~= entries.drop_first().drop_last());
        assert(entries.drop_first().last() == entries.last());
        assert(entries.drop_last()[0] == entries[0]);
        assert(payload_count(entries.drop_first()) == payload_count(entries.drop_first().drop_last())
            + if entries.drop_first().last().1 == Class::Payload {
            1nat
        } else {
            0nat
        });
    } else {
        assert(entries.drop_first().len() == 0);
        assert(entries.drop_last().len() == 0);
        assert(payload_count(entries.drop_last()) == 0);
        assert(payload_count(entries.drop_first()) == 0);
        assert(entries.last() == entries[0]);
    }
}

proof fn lemma_payload_count_bound<T>(entries: Seq<(T, Class)>)
    ensures
        payload_count(entries) <= entries.len(),
    decreases entries.len(),
{
    if entries.len() > 0 {
        lemma_payload_count_bound(entries.drop_last());
    }
}

proof fn lemma_payload_count_same_classes<T>(a: Seq<(T, Class)>, b: Seq<(T, Class)>)
    requires
        a.len() == b.len(),
        forall|i: int| 0 <= i < a.len() ==> (#[trigger] a[i]).1 == b[i].1,
    ensures
        payload_count(a) == payload_count(b),
    decreases a.len(),
{
    if a.len() > 0 {
        lemma_payload_count_same_classes(a.drop_last(), b.drop_last());
    }
}

proof fn lemma_front_update_keeps_count<T>(a: Seq<(T, Class)>)
    requires
        a.len() > 0,
    ensures
        forall|v: T| #[trigger] payload_count(a.update(0, (v, a[0].1))) == payload_count(a),
{
    assert forall|v: T| #[trigger] payload_count(a.update(0, (v, a[0].1))) == payload_count(a) by {
        lemma_payload_count_same_classes(a.update(0, (v, a[0].1)), a);
    }
}

/// `VecDeque::front_mut`: the first entry, borrowed mutably; what is written through the borrow
/// becomes the first entry, and nothing else changes. An empty deque gives nothing.
#[verifier::external_body]
fn deque_front_mut<T>(entries: &mut VecDeque<(T, Class)>) -> (r: Option<&mut (T, Class)>)
    ensures
        match r {
            Some(x) => old(entries)@.len() > 0 && *x == old(entries)@[0] && final(entries)@ == old(
                entries,
            )@.update(0, *final(x)),
            None => old(entries)@.len() == 0 && final(entries)@ == old(entries)@,
        },
{
    entries.front_mut()
}

/// Fixed-capacity FIFO with reserved coordination capacity.
///
/// Payload admission never allows coordination to overtake an accepted payload: completion and
/// grants remain behind their causally preceding data.
pub struct Queue<T> {
    /// FIFO storage, including each entry's admission class.
    entries: VecDeque<(T, Class)>,
    /// Payload entries currently consuming the non-reserved quota.
    payloads: usize,
}

impl<T> View for Queue<T> {
    type V = Seq<(T, Class)>;

    closed spec fn view(&self) -> Seq<(T, Class)> {
        self.entries@
    }
}

impl<T> Default for Queue<T> {
    /// An empty queue.
    fn default() -> (q: Self)
        ensures
            q.wf(),
            q@ == Seq::<(T, Class)>::empty(),
    {
        let q = Queue { entries: VecDeque::new(), payloads: 0 };
        assert(payload_count(q.entries@) == 0);
        q
    }
}

impl<T> Queue<T> {
    /// At most [`QUEUE_CAPACITY`] entries, at most [`PAYLOAD_CAPACITY`] of them payloads.
    pub closed spec fn wf(&self) -> bool {
        &&& self.entries@.len() <= QUEUE_CAPACITY
        &&& self.payloads == payload_count(self.entries@)
        &&& payload_count(self.entries@) <= PAYLOAD_CAPACITY
    }

    /// Reports whether one entry of this class can be retained without exceeding either quota.
    pub fn accepts(&self, class: Class) -> (b: bool)
        requires
            self.wf(),
        ensures
            b == admits(self@, class),
    {
        self.entries.len() < QUEUE_CAPACITY && (class == Class::Coordination || self.payloads
            < PAYLOAD_CAPACITY)
    }

    /// Retains one value at the back in submission order; rejection drops the supplied value.
    pub fn push(&mut self, value: T, class: Class) -> (r: Result<(), QueueError>)
        requires
            old(self).wf(),
        ensures
            final(self).wf(),
            r is Ok <==> admits(old(self)@, class),
            r is Ok ==> final(self)@ == old(self)@.push((value, class)),
            r is Err ==> r == Err::<(), QueueError>(QueueError::Full) && final(self)@ == old(self)@,
    {
        if !self.accepts(class) {
            return Err(QueueError::Full);
        }
        proof {
            lemma_payload_count_push(self.entries@, (value, class));
        }
        self.entries.push_back((value, class));
        if class == Class::Payload {
            self.payloads = self.payloads + 1;
        }
        Ok(())
    }

    /// Removes the oldest value and releases its quota.
    pub fn pop(&mut self) -> (r: Option<T>)
        requires
            old(self).wf(),
        ensures
            final(self).wf(),
            old(self)@.len() == 0 ==> r is None && final(self)@ == old(self)@,
            old(self)@.len() > 0 ==> r == Some(old(self)@[0].0) && final(self)@ == old(self)@.drop_first(),
    {
        if self.entries.len() == 0 {
            return None;
        }
        proof {
            lemma_payload_count_drop_first(self.entries@);
        }
        match self.entries.pop_front() {
            Some((value, class)) => {
                if class == Class::Payload {
                    self.payloads = self.payloads - 1;
                }
                Some(value)
            },
            None => None,
        }
    }

    /// Borrows the oldest value without changing FIFO order or releasing its quota.
    pub fn front_mut(&mut self) -> (r: Option<&mut T>)
        requires
            old(self).wf(),
        ensures
            match r {
                Some(x) => old(self)@.len() > 0 && *x == old(self)@[0].0 && final(self)@ == old(self)@.update(
                    0,
                    (*final(x), old(self)@[0].1),
                ),
                None => old(self)@.len() == 0 && final(self)@ == old(self)@,
            },
            final(self).wf(),
    {
        proof {
            if self.entries@.len() > 0 {
                lemma_front_update_keeps_count(self.entries@);
            }
        }
        match deque_front_mut(&mut self.entries) {
            Some(entry) => Some(&mut entry.0),
            None => None,
        }
    }

    /// Returns the oldest entry's class for admission into the next bounded stage.
    pub fn front_class(&self) -> (c: Option<Class>)
        requires
            self.wf(),
        ensures
            self@.len() == 0 ==> c is None,
            self@.len() > 0 ==> c == Some(self@[0].1),
    {
        if self.entries.len() == 0 {
            None
        } else {
            Some(self.entries[0].1)
        }
    }

    /// Whether the stage has no retained values.
    pub fn is_empty(&self) -> (b: bool)
        ensures
            b == (self@.len() == 0),
    {
        self.entries.len() == 0
    }

    /// The number of retained values.
    pub fn len(&self) -> (n: usize)
        ensures
            n == self@.len(),
    {
        self.entries.len()
    }
}

/// The coordination reservation: while fewer than [`QUEUE_CAPACITY`] entries are retained,
/// coordination is always admitted, even with the payload quota exhausted.
pub proof fn lemma_coordination_reserved<T>(entries: Seq<(T, Class)>)
    requires
        entries.len() < QUEUE_CAPACITY,
    ensures
        admits(entries, Class::Coordination),
{
}

/// Payloads alone never fill the reserved entries: a queue holding only payloads admits at
/// most [`PAYLOAD_CAPACITY`] of them.
pub proof fn lemma_payloads_leave_reserve<T>(entries: Seq<(T, Class)>)
    requires
        forall|i: int| 0 <= i < entries.len() ==> (#[trigger] entries[i]).1 == Class::Payload,
        entries.len() >= PAYLOAD_CAPACITY,
    ensures
        !admits(entries, Class::Payload),
    decreases entries.len(),
{
    lemma_all_payloads(entries);
}

proof fn lemma_all_payloads<T>(entries: Seq<(T, Class)>)
    requires
        forall|i: int| 0 <= i < entries.len() ==> (#[trigger] entries[i]).1 == Class::Payload,
    ensures
        payload_count(entries) == entries.len(),
    decreases entries.len(),
{
    if entries.len() > 0 {
        lemma_all_payloads(entries.drop_last());
    }
}

} // verus!
