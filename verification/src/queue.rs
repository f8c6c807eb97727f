use vstd::prelude::*;

use crate::types::{Event, EventV};

verus! {

/// The smallest production stamp every event appended to `s` from now on
/// must carry, so the buffer stays strictly ordered.
pub open spec fn seq_bound_of(s: Seq<EventV>) -> int {
    if s.len() == 0 {
        0
    } else {
        s[s.len() - 1].seq + 1
    }
}

/// The ordered buffer of undelivered events of one subscription. Insertion is
/// FIFO; an event leaves the queue in the same operation that returns it, so
/// it can never be handed out twice.
#[derive(Debug)]
pub struct EventQueue {
    pub sub_id: u64,
    pub events: Vec<Event>,
}

impl View for EventQueue {
    type V = Seq<EventV>;

    open spec fn view(&self) -> Seq<EventV> {
        self.events@.map_values(|e: Event| e@)
    }
}

impl EventQueue {
    /// Every buffered event belongs to this queue's subscription, and the
    /// production stamps grow strictly along the buffer.
    pub open spec fn wf(self) -> bool {
        &&& forall|i: int| 0 <= i < self@.len() ==> (#[trigger] self@[i]).sub_id == self.sub_id
        &&& forall|i: int, j: int| 0 <= i < j < self@.len() ==> self@[i].seq < self@[j].seq
    }


    pub fn new(sub_id: u64) -> (q: EventQueue)
        ensures
            q.sub_id == sub_id,
            q@ == Seq::<EventV>::empty(),
            q.wf(),
    {
        let q = EventQueue { sub_id, events: Vec::new() };
        proof {
            assert(q@ =~= Seq::<EventV>::empty());
        }
        q
    }

    pub fn len(&self) -> (n: usize)
        ensures
            n == self@.len(),
    {
        self.events.len()
    }

    /// Appends a freshly produced event and wakes nobody by itself: waking is
    /// the hosting runtime's concern.
    pub fn push(&mut self, e: Event)
        requires
            old(self).wf(),
            e.sub_id == old(self).sub_id,
            e@.seq >= seq_bound_of(old(self)@),
        ensures
            final(self).wf(),
            final(self).sub_id == old(self).sub_id,
            final(self)@ == old(self)@.push(e@),
    {
        let ghost pre = self@;
        self.events.push(e);
        proof {
            assert(self@ =~= pre.push(e@));
        }
    }

    /// Atomically removes and returns the oldest `min(max, len)` events, in
    /// buffer order. What is returned is gone from the queue in the same
    /// step: this is what makes delivery exactly-once.
    pub fn drain(&mut self, max: usize) -> (out: Vec<Event>)
        requires
            old(self).wf(),
        ensures
            final(self).wf(),
            final(self).sub_id == old(self).sub_id,
            out@.len() == if max <= old(self)@.len() {
                max as int
            } else {
                old(self)@.len() as int
            },
            out@.map_values(|e: Event| e@) == old(self)@.take(out@.len() as int),
            final(self)@ == old(self)@.skip(out@.len() as int),
    {
        let k = if max <= self.events.len() {
            max
        } else {
            self.events.len()
        };
        let ghost pre = self@;
        let mut head = self.events.split_off(k);
        core::mem::swap(&mut self.events, &mut head);
        proof {
            assert(head@.map_values(|e: Event| e@) =~= pre.take(k as int));
            assert(self@ =~= pre.skip(k as int));
        }
        head
    }
}

} // verus!
