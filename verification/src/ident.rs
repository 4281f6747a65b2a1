//! Listener ids: where they come from, and how one is kept apart from the
//! ids already in use.

use crate::model::{has_id, holds, ids_within, place, valid, RegistryView};
use vstd::prelude::*;
use vstd::string::StringExecFns;

verus! {

/// `c` is a digit of lower-case hexadecimal.
pub open spec fn is_hex_digit(c: char) -> bool {
    ('0' <= c && c <= '9') || ('a' <= c && c <= 'f')
}

/// `s` is the text of a random (version 4) UUID: 32 lower-case hexadecimal
/// digits in groups of 8, 4, 4, 4 and 12 with a hyphen between them, the
/// third group starting with `4` and the fourth with `8`, `9`, `a` or `b`.
pub open spec fn is_random_id(s: Seq<char>) -> bool {
    &&& s.len() == 36
    &&& forall|i: int|
        #![trigger s[i]]
        0 <= i < 36 ==> if i == 8 || i == 13 || i == 18 || i == 23 {
            s[i] == '-'
        } else {
            is_hex_digit(s[i])
        }
    &&& s[14] == '4'
    &&& (s[19] == '8' || s[19] == '9' || s[19] == 'a' || s[19] == 'b')
}

/// A new random id: the text that `to_string` gives of `uuid::Uuid::new_v4()`.
///
/// Taken on trust, not proved: that this text has the usual form of a
/// version 4 UUID, as `is_random_id` says it. Nothing is said of which id
/// comes out, nor that it differs from any other. The call needs the
/// operating system's source of random numbers, and panics if that fails.
#[verifier::external_body]
pub(crate) fn random_id() -> (id: String)
    ensures
        is_random_id(id@),
{
    uuid::Uuid::new_v4().to_string()
}

/// `n` is the length of the longest id in `r`; it is 0 if `r` has no listeners.
pub open spec fn is_longest<C>(r: RegistryView<C>, n: nat) -> bool {
    &&& ids_within(r, n)
    &&& (n == 0 || exists|event: Seq<char>, i: int| #[trigger]
        holds(r, event, i) && r[event][i].id.len() == n)
}

/// The length of the longest id in `r`.
pub open spec fn longest_id<C>(r: RegistryView<C>) -> nat {
    choose|n: nat| is_longest(r, n)
}

/// `n` times the character `0`.
pub open spec fn zeros(n: nat) -> Seq<char> {
    Seq::new(n, |i: int| '0')
}

/// The id that a listener gets when `candidate` was drawn for it: `candidate`
/// itself where no listener of `r` has it; else `candidate` followed by as
/// many `0` as make it one longer than the longest id in `r`.
pub open spec fn unused_id<C>(r: RegistryView<C>, candidate: Seq<char>) -> Seq<char> {
    if has_id(r, candidate) {
        candidate + zeros((longest_id(r) + 1 - candidate.len()) as nat)
    } else {
        candidate
    }
}

/// A registry has one longest length of ids, at most.
pub proof fn lemma_longest<C>(r: RegistryView<C>, n: nat)
    requires
        is_longest(r, n),
    ensures
        longest_id(r) == n,
{
    let m = longest_id(r);
    assert(is_longest(r, m));
    if n != 0 {
        let (event, i) = choose|event: Seq<char>, i: int| #[trigger]
            holds(r, event, i) && r[event][i].id.len() == n;
        assert(holds(r, event, i));
    }
    if m != 0 {
        let (event, i) = choose|event: Seq<char>, i: int| #[trigger]
            holds(r, event, i) && r[event][i].id.len() == m;
        assert(holds(r, event, i));
    }
}

/// A registry whose ids are no longer than `bound` has a longest length of
/// ids, and that is no more than `bound`.
pub proof fn lemma_has_longest<C>(r: RegistryView<C>, bound: nat)
    requires
        ids_within(r, bound),
    ensures
        is_longest(r, longest_id(r)),
        longest_id(r) <= bound,
    decreases bound,
{
    if bound == 0 || (exists|event: Seq<char>, i: int| #[trigger]
        holds(r, event, i) && r[event][i].id.len() == bound) {
        lemma_longest(r, bound);
    } else {
        assert(ids_within(r, (bound - 1) as nat));
        lemma_has_longest(r, (bound - 1) as nat);
    }
}

/// The id that a listener gets is one that no listener of the registry has.
pub proof fn lemma_unused_id<C>(r: RegistryView<C>, candidate: Seq<char>)
    requires
        valid(r),
    ensures
        !has_id(r, unused_id(r, candidate)),
{
    let bound = choose|n: nat| ids_within(r, n);
    lemma_has_longest(r, bound);
    let id = unused_id(r, candidate);
    if has_id(r, id) {
        let (event, i) = place(r, id);
        assert(holds(r, event, i));
        let (e0, i0) = place(r, candidate);
        assert(holds(r, e0, i0));
    }
}

/// `candidate` followed by `0`s, to the length `longest + 1`.
pub(crate) fn lengthen(candidate: String, len: usize, longest: usize) -> (id: String)
    requires
        len == candidate@.len(),
        len <= longest,
    ensures
        id@ == candidate@ + zeros((longest + 1 - len) as nat),
{
    let mut id = candidate;
    let mut n: usize = len;
    proof {
        reveal_strlit("0");
        assert(id@ =~= candidate@ + zeros(0));
    }
    while n < longest
        invariant
            len <= n <= longest,
            "0"@ == seq!['0'],
            id@ == candidate@ + zeros((n - len) as nat),
        decreases longest - n,
    {
        let ghost before = id@;
        id.append("0");
        assert(before + "0"@ =~= candidate@ + zeros((n + 1 - len) as nat));
        n += 1;
    }
    let ghost before = id@;
    id.append("0");
    assert(before + "0"@ =~= candidate@ + zeros((longest + 1 - len) as nat));
    id
}

} // verus!
