use vstd::prelude::*;

verus! {

/// Relies on rand's `SliceRandom::shuffle`, which permutes a slice in place
/// with the thread-local generator: the same items come back, in some order.
#[verifier::external_body]
fn shuffled(v: Vec<usize>) -> (r: Vec<usize>)
    ensures
        r@.to_multiset() == v@.to_multiset(),
{
    let mut v = v;
    rand::seq::SliceRandom::shuffle(v.as_mut_slice(), &mut rand::rng());
    v
}

/// `0, 1, ..., n - 1`.
pub open spec fn indices(n: nat) -> Seq<usize> {
    Seq::new(n, |i: int| i as usize)
}

/// The order in which to handle a batch of `n` readiness events: each of
/// `0..n` exactly as often as in `indices(n)`, in an order drawn anew for
/// every batch so that no connection is always served first.
pub fn dispatch_order(n: usize) -> (r: Vec<usize>)
    ensures
        r@.to_multiset() == indices(n as nat).to_multiset(),
        r@.len() == n,
{
    let mut v: Vec<usize> = Vec::new();
    let mut i: usize = 0;
    while i < n
        invariant
            i <= n,
            v@ == indices(i as nat),
        decreases n - i,
    {
        v.push(i);
        i = i + 1;
        assert(v@ =~= indices(i as nat));
    }
    let r = shuffled(v);
    proof {
        vstd::seq_lib::to_multiset_len(r@);
        vstd::seq_lib::to_multiset_len(indices(n as nat));
    }
    r
}

} // verus!
