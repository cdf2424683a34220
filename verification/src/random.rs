//! The random draws that the generator makes, each behind a contract that
//! holds of every outcome.

use crate::network::NodesVec;
use rand::rngs::ThreadRng;
use rand::seq::SliceRandom;
use rand::Rng;
use vstd::prelude::*;

verus! {

#[verifier::external_type_specification]
#[verifier::external_body]
pub struct ExThreadRng(ThreadRng);

/// `rand::thread_rng`: a handle to the generator of the current thread.
/// Nothing is claimed of the handle.
#[verifier::external_body]
pub(crate) fn thread_generator() -> ThreadRng {
    rand::thread_rng()
}

/// `Rng::gen_range` on the inclusive range `low..=high`, which must not be
/// empty. Claimed: the value drawn lies within the bounds. Which value it is
/// is left open.
#[verifier::external_body]
pub(crate) fn random_between(rng: &mut ThreadRng, low: usize, high: usize) -> (drawn: usize)
    requires
        low <= high,
    ensures
        low <= drawn <= high,
{
    rng.gen_range(low..=high)
}

/// `SliceRandom::shuffle` on the nodes. Claimed: the nodes are rearranged,
/// none is added, dropped or altered. Which arrangement results is left open.
#[verifier::external_body]
pub(crate) fn shuffle_nodes(nodes: &mut NodesVec, rng: &mut ThreadRng)
    ensures
        final(nodes)@.to_multiset() == old(nodes)@.to_multiset(),
{
    nodes.shuffle(rng);
}

} // verus!
