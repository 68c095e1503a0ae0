//! The watch-list classifier: which side of a transfer is a watched address.

use vstd::prelude::*;
use vstd::string::StrSliceExecFns;

verus! {

/// An upper-case ASCII letter as its lower-case letter, any other character
/// as itself.
pub open spec fn fold_case(c: char) -> char {
    if 'A' <= c && c <= 'Z' {
        (c as int + 32) as char
    } else {
        c
    }
}

/// Two texts that differ at most in the case of their ASCII letters.
pub open spec fn same_ignoring_case(a: Seq<char>, b: Seq<char>) -> bool {
    &&& a.len() == b.len()
    &&& forall|i: int| 0 <= i < a.len() ==> fold_case(#[trigger] a[i]) == fold_case(b[i])
}

/// `address` matches an entry of the watch-list.
pub open spec fn is_watched(address: Seq<char>, watchlist: Seq<String>) -> bool {
    exists|i: int|
        0 <= i < watchlist.len() && same_ignoring_case((#[trigger] watchlist[i])@, address)
}

/// The code point of `c` after folding its case.
fn folded(c: char) -> (r: u32)
    ensures
        r == fold_case(c) as u32,
{
    let x: u32 = c as u32;
    if 65 <= x && x <= 90 {
        x + 32
    } else {
        x
    }
}

/// Whether two texts differ at most in the case of their ASCII letters.
pub fn eq_ignoring_case(a: &str, b: &str) -> (r: bool)
    ensures
        r == same_ignoring_case(a@, b@),
{
    let n: usize = a.unicode_len();
    if b.unicode_len() != n {
        return false;
    }
    let mut i: usize = 0;
    while i < n
        invariant
            i <= n,
            n == a@.len(),
            n == b@.len(),
            forall|j: int| 0 <= j < i ==> fold_case(#[trigger] a@[j]) == fold_case(b@[j]),
        decreases n - i,
    {
        if folded(a.get_char(i)) != folded(b.get_char(i)) {
            return false;
        }
        i += 1;
    }
    true
}

/// Whether `address` matches an entry of the watch-list.
pub fn watched(address: &str, watchlist: &Vec<String>) -> (r: bool)
    ensures
        r == is_watched(address@, watchlist@),
{
    let mut i: usize = 0;
    while i < watchlist.len()
        invariant
            i <= watchlist.len(),
            forall|j: int| 0 <= j < i ==> !same_ignoring_case((#[trigger] watchlist@[j])@, address@),
        decreases watchlist.len() - i,
    {
        if eq_ignoring_case(watchlist[i].as_str(), address) {
            return true;
        }
        i += 1;
    }
    false
}

/// Classifies a transfer against the watch-list. The first flag says that
/// the recipient is watched (value flows in), the second that the sender is
/// (value flows out). Both may hold, and neither.
pub fn classify(from_addr: &str, to_addr: &str, watchlist: &Vec<String>) -> (flags: (bool, bool))
    ensures
        flags.0 == is_watched(to_addr@, watchlist@),
        flags.1 == is_watched(from_addr@, watchlist@),
{
    let is_in: bool = watched(to_addr, watchlist);
    let is_out: bool = watched(from_addr, watchlist);
    (is_in, is_out)
}

/// An address that stands on the watch-list is watched, so a transfer from
/// it to itself flows both in and out.
pub proof fn lemma_listed_is_watched(watchlist: Seq<String>, i: int)
    requires
        0 <= i < watchlist.len(),
    ensures
        is_watched(watchlist[i]@, watchlist),
{
    assert(same_ignoring_case(watchlist[i]@, watchlist[i]@));
}

/// Two spellings of one address, differing in case only, are classified
/// alike.
pub proof fn lemma_case_does_not_matter(a: Seq<char>, b: Seq<char>, watchlist: Seq<String>)
    requires
        same_ignoring_case(a, b),
    ensures
        is_watched(a, watchlist) == is_watched(b, watchlist),
{
    if is_watched(a, watchlist) {
        let i = choose|i: int|
            0 <= i < watchlist.len() && same_ignoring_case((#[trigger] watchlist[i])@, a);
        let w = watchlist[i]@;
        assert forall|k: int| 0 <= k < w.len() implies fold_case(#[trigger] w[k]) == fold_case(
            b[k],
        ) by {
            assert(fold_case(a[k]) == fold_case(b[k]));
        }
        assert(same_ignoring_case(watchlist[i]@, b));
    }
    if is_watched(b, watchlist) {
        let i = choose|i: int|
            0 <= i < watchlist.len() && same_ignoring_case((#[trigger] watchlist[i])@, b);
        let w = watchlist[i]@;
        assert forall|k: int| 0 <= k < w.len() implies fold_case(#[trigger] w[k]) == fold_case(
            a[k],
        ) by {
            assert(fold_case(a[k]) == fold_case(b[k]));
        }
        assert(same_ignoring_case(watchlist[i]@, a));
    }
}

} // verus!
