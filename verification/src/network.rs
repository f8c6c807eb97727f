use vstd::prelude::*;

verus! {

/// Picks the gateway for a deployment network: the first candidate host
/// address that is not the network's own address. The host enumerates the
/// subnet with its address library and hands the candidates over as plain
/// 32-bit addresses; returns `None` when every candidate is taken by the
/// network address itself.
pub fn pick_gateway(hosts: &Vec<u32>, addr: u32) -> (r: Option<u32>)
    ensures
        match r {
            Some(g) => exists|i: int|
                0 <= i < hosts@.len() && hosts@[i] == g && g != addr && forall|k: int|
                    0 <= k < i ==> hosts@[k] == addr,
            None => forall|k: int| 0 <= k < hosts@.len() ==> hosts@[k] == addr,
        },
{
    let mut i: usize = 0;
    while i < hosts.len()
        invariant
            0 <= i <= hosts@.len(),
            forall|k: int| 0 <= k < i ==> hosts@[k] == addr,
        decreases hosts@.len() - i,
    {
        if hosts[i] != addr {
            return Some(hosts[i]);
        }
        i = i + 1;
    }
    None
}

} // verus!
