//! Laws of the parameter store, stated over the store's mathematical view
//! and proved from the contracts of its operations.

use vstd::prelude::*;
use vstd::std_specs::cmp::PartialEqSpec;

use crate::params::Parameters;
use crate::params::text_key;

verus! {

/// Inserting a value and reading the same key back yields exactly that
/// value: with `q = p.with(k, v)`, `q.get(k)` is `Some(v)`.
pub proof fn lemma_with_then_get(p: Parameters, q: Parameters, k: Seq<char>, v: Seq<char>)
    requires
        q@ == p@.insert(k, v),
    ensures
        q@.contains_key(k),
        q@[k] == v,
{
}

/// Setting the reserved text slot leaves every other key untouched: with
/// `q = p.with_text(t)` and `k` not the reserved key, `q.get(k)` finds a key
/// exactly when `p.get(k)` does, with the same text.
pub proof fn lemma_with_text_unrelated_keys(
    p: Parameters,
    q: Parameters,
    t: Seq<char>,
    k: Seq<char>,
)
    requires
        q@ == p@.insert(text_key(), t),
        k != text_key(),
    ensures
        q@.contains_key(k) == p@.contains_key(k),
        q@.contains_key(k) ==> q@[k] == p@[k],
{
}

/// Combining is a right-biased key-wise union: a key of the right store
/// takes its value from there, a key only in the left store keeps its value,
/// and no other key appears.
pub proof fn lemma_combine_right_bias(p: Parameters, q: Parameters, r: Parameters, k: Seq<char>)
    requires
        r@ == p@.union_prefer_right(q@),
    ensures
        r@.contains_key(k) == (p@.contains_key(k) || q@.contains_key(k)),
        q@.contains_key(k) ==> r@[k] == q@[k],
        p@.contains_key(k) && !q@.contains_key(k) ==> r@[k] == p@[k],
{
}

/// Combining with a store that holds a single entry is the same as a single
/// insert of that entry.
pub proof fn lemma_combine_single_entry(
    p: Parameters,
    q: Parameters,
    r: Parameters,
    k: Seq<char>,
    v: Seq<char>,
)
    requires
        q@ == Map::<Seq<char>, Seq<char>>::empty().insert(k, v),
        r@ == p@.union_prefer_right(q@),
    ensures
        r@ == p@.insert(k, v),
{
    assert(p@.union_prefer_right(q@) =~= p@.insert(k, v));
}

/// Equality looks only at rendered text: two stores that extend the same
/// store at the same key are equal exactly when the stored texts are the
/// same, no matter how either value was supplied.
pub proof fn lemma_eq_ignores_payload(
    p: Parameters,
    a: Parameters,
    b: Parameters,
    k: Seq<char>,
    ta: Seq<char>,
    tb: Seq<char>,
)
    requires
        a@ == p@.insert(k, ta),
        b@ == p@.insert(k, tb),
    ensures
        a.eq_spec(&b) == (ta == tb),
{
    if ta != tb {
        assert(a@[k] == ta);
        assert(b@[k] == tb);
        assert(a@ != b@);
    }
}

} // verus!
