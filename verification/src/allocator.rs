//! Allocation of ids.
//!
//! A user id is a random number of the id range that no stored profile
//! carries yet; a connection id is a random number that no live connection
//! carries. Either is allocated in rounds: the relay proposes a candidate,
//! and once it is known whether the candidate is taken, the relay grants it
//! or proposes another. For a user id the caller asks the profile store.

use rand::rngs::ThreadRng;
use rand::Rng;
use vstd::prelude::*;

verus! {

/// The smallest id that is ever allocated.
pub const MIN_USER_ID: usize = 1;

/// The largest id that is ever allocated.
pub const MAX_USER_ID: usize = 2_147_483_647;

/// Whether `id` lies in the range that ids are allocated from.
pub open spec fn is_user_id(id: usize) -> bool {
    MIN_USER_ID <= id <= MAX_USER_ID
}

/// The thread-local generator of the `rand` crate. Nothing is said of what
/// it holds.
#[verifier::external_type_specification]
#[verifier::external_body]
pub struct ExThreadRng(ThreadRng);

/// `rand::thread_rng`: a handle to the calling thread's generator. The call
/// panics only where the operating system cannot seed the generator, which
/// no argument decides.
#[verifier::external_body]
pub(crate) fn thread_generator() -> ThreadRng {
    rand::thread_rng()
}

/// `rand::Rng::gen_range` on an inclusive range of `i32`: the number drawn
/// lies between the two bounds, both included. Which number it is depends on
/// the generator, and nothing is said of that. The call panics on an empty
/// range, which the precondition rules out, and where the operating system
/// fails to reseed the generator, which no argument decides.
#[verifier::external_body]
pub(crate) fn gen_range_inclusive(rng: &mut ThreadRng, low: i32, high: i32) -> (drawn: i32)
    requires
        low <= high,
    ensures
        low <= drawn <= high,
{
    rng.gen_range(low..=high)
}

/// `rand::Rng::gen` for `usize`: some number. Which one depends on the
/// generator, and nothing is said of that. The call panics only where the
/// operating system fails to reseed the generator, which no argument decides.
#[verifier::external_body]
pub(crate) fn gen_usize(rng: &mut ThreadRng) -> usize {
    rng.gen::<usize>()
}

/// Draws a candidate for a user id.
pub(crate) fn draw_candidate(rng: &mut ThreadRng) -> (candidate: usize)
    ensures
        is_user_id(candidate),
{
    let drawn = gen_range_inclusive(rng, 1, 2_147_483_647);
    drawn as usize
}

/// One round of allocation, as decided once it is known whether the
/// candidate is taken.
#[derive(Clone, Copy, Debug, PartialEq, Eq, Structural)]
pub enum Allocation {
    /// The candidate is free: it is the new id.
    Allocated(usize),
    /// The candidate is taken: try this one next.
    Probe(usize),
}

/// The id that is handed out for `candidate` once it is known whether the
/// candidate is taken: only a free one is.
pub open spec fn grants(candidate: usize, taken: bool) -> Option<usize> {
    if taken {
        None
    } else {
        Some(candidate)
    }
}

/// Decides a round for `candidate`, given whether it is taken, and `redraw`,
/// the candidate to try next if it is.
pub fn decide(candidate: usize, taken: bool, redraw: usize) -> (round: Allocation)
    ensures
        round == match grants(candidate, taken) {
            Some(id) => Allocation::Allocated(id),
            None => Allocation::Probe(redraw),
        },
{
    if taken {
        Allocation::Probe(redraw)
    } else {
        Allocation::Allocated(candidate)
    }
}

/// Ids stay unique: if no two stored profiles share an id, and a candidate
/// is granted on the store's answer, then storing a profile under the granted
/// id leaves the ids without repeats.
pub proof fn lemma_granted_id_is_fresh(stored: Seq<usize>, candidate: usize, taken: bool)
    requires
        stored.no_duplicates(),
        taken == stored.contains(candidate),
    ensures
        match grants(candidate, taken) {
            Some(id) => !stored.contains(id) && stored.push(id).no_duplicates(),
            None => stored.contains(candidate),
        },
{
    if !taken {
        let after = stored.push(candidate);
        assert forall|i: int, j: int| 0 <= i < after.len() && 0 <= j < after.len() && i != j implies after[i]
            != after[j] by {
            if i < stored.len() && j < stored.len() {
                assert(stored[i] != stored[j]);
            } else if i < stored.len() {
                assert(stored.contains(stored[i]));
            } else {
                assert(stored.contains(stored[j]));
            }
        }
    }
}

} // verus!
