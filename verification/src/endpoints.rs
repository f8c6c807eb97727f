use vstd::prelude::*;

verus! {

/// The app-key service's event fan-out bookkeeping: each listener registers
/// a bus endpoint address and receives a fresh numeric handle; an event is
/// then sent to a snapshot of every registered endpoint. Handles grow
/// strictly, so a handle is never handed out twice.
#[derive(Debug)]
pub struct EndpointRegistry {
    pub subscriptions: Vec<(u64, String)>,
    pub last_id: u64,
}

impl View for EndpointRegistry {
    type V = Seq<(u64, Seq<char>)>;

    open spec fn view(&self) -> Seq<(u64, Seq<char>)> {
        self.subscriptions@.map_values(|p: (u64, String)| (p.0, p.1@))
    }
}

impl EndpointRegistry {
    pub open spec fn wf(self) -> bool {
        &&& forall|i: int, j: int| 0 <= i < j < self@.len() ==> self@[i].0 < self@[j].0
        &&& forall|i: int| 0 <= i < self@.len() ==> (#[trigger] self@[i]).0 < self.last_id
    }

    pub fn new() -> (r: EndpointRegistry)
        ensures
            r.wf(),
            r@ == Seq::<(u64, Seq<char>)>::empty(),
            r.last_id == 0,
    {
        let r = EndpointRegistry { subscriptions: Vec::new(), last_id: 0 };
        proof {
            assert(r@ =~= Seq::<(u64, Seq<char>)>::empty());
        }
        r
    }

    /// Registers one more listener endpoint under a handle nobody holds.
    pub fn subscribe(&mut self, endpoint: String) -> (id: u64)
        requires
            old(self).wf(),
            old(self).last_id < u64::MAX,
        ensures
            final(self).wf(),
            id == old(self).last_id,
            final(self).last_id == id + 1,
            final(self)@ == old(self)@.push((id, endpoint@)),
            forall|k: int| 0 <= k < old(self)@.len() ==> (#[trigger] old(self)@[k]).0 != id,
    {
        let id = self.last_id;
        let ghost pre = self@;
        let ghost ev = endpoint@;
        self.subscriptions.push((id, endpoint));
        self.last_id = id + 1;
        proof {
            assert(self@ =~= pre.push((id, ev)));
        }
        id
    }

    /// The endpoints an event goes out to, in registration order: the
    /// snapshot the sender walks while the registry may move on.
    pub fn destinations(&self) -> (r: Vec<String>)
        ensures
            r@.len() == self@.len(),
            forall|k: int| 0 <= k < r@.len() ==> (#[trigger] r@[k])@ == self@[k].1,
    {
        let mut r: Vec<String> = Vec::new();
        let mut i: usize = 0;
        while i < self.subscriptions.len()
            invariant
                0 <= i <= self@.len(),
                r@.len() == i,
                forall|k: int| 0 <= k < i ==> (#[trigger] r@[k])@ == self@[k].1,
            decreases self@.len() - i,
        {
            r.push(self.subscriptions[i].1.clone());
            i = i + 1;
        }
        r
    }
}

} // verus!
