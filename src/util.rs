//! The emoji generator: random counts and random strings of police emojis.

use rand::Rng;
use vstd::prelude::*;

verus! {

/// The symbols a generated string is drawn from: 🚨 👮 🚔 🚓.
pub open spec fn police_alphabet() -> Seq<char> {
    seq!['\u{1F6A8}', '\u{1F46E}', '\u{1F694}', '\u{1F693}']
}

/// Every character of `s` belongs to the police alphabet.
pub open spec fn all_police(s: Seq<char>) -> bool {
    forall|i: int| 0 <= i < s.len() ==> police_alphabet().contains(#[trigger] s[i])
}

/// Relies on rand's `Rng::gen_range` over the thread-local generator: on a
/// non-empty range `lo..hi` it returns a value of that range (it panics on an
/// empty one, which `requires` leaves out).
#[verifier::external_body]
fn random_in_range(lo: u64, hi: u64) -> (r: u64)
    requires
        lo < hi,
    ensures
        lo <= r < hi,
{
    rand::thread_rng().gen_range(lo..hi)
}

/// Relies on `String::push`: appends one character at the end.
#[verifier::external_body]
pub(crate) fn push_char(s: &mut String, c: char)
    ensures
        final(s)@ == old(s)@.push(c),
{
    s.push(c);
}

/// Generate a random number between `min` and `max`: a value of `min..max`, or
/// of `max..min` when the bounds come in the other order.
pub fn rand_num(min: u64, max: u64) -> (r: u64)
    requires
        min != max,
    ensures
        min < max ==> min <= r < max,
        max < min ==> max <= r < min,
{
    if min > max {
        random_in_range(max, min)
    } else {
        random_in_range(min, max)
    }
}

/// The symbol at position `i` of the police alphabet.
fn police_symbol(i: u64) -> (c: char)
    requires
        i < 4,
    ensures
        c == police_alphabet()[i as int],
{
    if i == 0 {
        '\u{1F6A8}'
    } else if i == 1 {
        '\u{1F46E}'
    } else if i == 2 {
        '\u{1F694}'
    } else {
        '\u{1F693}'
    }
}

/// Generate a string of `n` police emojis, each drawn at random.
pub fn call_police_string(n: u64) -> (s: String)
    ensures
        s@.len() == n,
        all_police(s@),
{
    let mut s = String::new();
    let mut k: u64 = 0;
    while k < n
        invariant
            k <= n,
            s@.len() == k,
            all_police(s@),
        decreases n - k,
    {
        let i = random_in_range(0, 4);
        let c = police_symbol(i);
        assert(police_alphabet().contains(c)) by {
            assert(police_alphabet()[i as int] == c);
        }
        push_char(&mut s, c);
        k = k + 1;
    }
    s
}

} // verus!
