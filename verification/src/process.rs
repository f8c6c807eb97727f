use vstd::prelude::*;

verus! {

/// Places a child command in its own process group before it starts, so the
/// whole group can be signalled at once. Implementations call into the
/// operating system, so they live with the hosting runtime, outside the
/// verified library; nothing is promised of them here.
pub trait ProcessGroupExt<T> {
    fn new_process_group(&mut self) -> &mut T;
}

} // verus!
