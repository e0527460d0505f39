//! Random choices, made by the `rand` crate.
use vstd::prelude::*;

verus! {

/// Calls `rand::seq::IteratorRandom::choose` on the numbers `0..n` with the
/// thread-local generator. Its documentation says that it gives back `None`
/// exactly when the iterator is empty; otherwise it gives one of the numbers.
/// Which one is left open: it rests on chance.
#[verifier::external_body]
fn choose_index(n: usize) -> (r: Option<usize>)
    ensures
        r is Some <==> n > 0,
        r matches Some(i) ==> i < n,
{
    rand::seq::IteratorRandom::choose(0..n, &mut rand::thread_rng())
}

/// A position below `n`, picked at random.
pub fn random_index(n: usize) -> (i: usize)
    requires
        n > 0,
    ensures
        i < n,
{
    match choose_index(n) {
        Some(i) => i,
        None => 0,
    }
}

/// A character of a non-empty string, picked at random.
pub fn random_from_string(string: &str) -> (c: char)
    requires
        string@.len() > 0,
    ensures
        string@.contains(c),
{
    let n = string.unicode_len();
    let i = random_index(n);
    let c = string.get_char(i);
    assert(string@[i as int] == c);
    c
}

} // verus!
