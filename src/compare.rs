//! Percent-encoding-aware equality and hashing of query content.
use std::collections::hash_map::DefaultHasher;
use std::hash::Hasher;

use vstd::prelude::*;
use vstd::std_specs::hash::DefaultHasherAdditionalSpecFns;

use crate::chars::{get_percent_encoded_value, PERCENT};
use crate::encoding::{decoded, equivalent_spec, lemma_unfold_at, rest};

verus! {

/// The writes that hashing feeds to a hasher for the logical bytes `units`: one
/// single-byte write per logical byte.
pub open spec fn hash_feed(units: Seq<u8>) -> Seq<Seq<u8>> {
    Seq::new(units.len(), |k: int| seq![units[k]])
}

/// The hash of `s`: the digest of a fresh `DefaultHasher` fed the logical bytes of `s`.
pub open spec fn hash_spec(s: Seq<u8>) -> u64 {
    DefaultHasher::spec_finish(hash_feed(decoded(s)))
}

/// Reads the logical byte that starts at `i` and returns it with the position after it.
pub fn next_unit(s: &[u8], i: usize) -> (r: (u8, usize))
    requires
        i < s@.len(),
    ensures
        i < r.1 <= s@.len(),
        decoded(rest(s@, i as int)) == seq![r.0] + decoded(rest(s@, r.1 as int)),
{
    proof {
        lemma_unfold_at(s@, i as int);
    }
    if s[i] == PERCENT && s.len() - i > 2 {
        if let Some((v, _)) = get_percent_encoded_value(Some(s[i + 1]), Some(s[i + 2])) {
            return (v, i + 3);
        }
    }
    (s[i], i + 1)
}

proof fn lemma_cons_eq(x: u8, y: u8, a: Seq<u8>, b: Seq<u8>)
    ensures
        (seq![x] + a == seq![y] + b) <==> (x == y && a == b),
{
    let l = seq![x] + a;
    let r = seq![y] + b;
    if l == r {
        assert(l[0] == x);
        assert(r[0] == y);
        assert(a =~= l.subrange(1, l.len() as int));
        assert(b =~= r.subrange(1, r.len() as int));
    }
    if x == y && a == b {
        assert(l =~= r);
    }
}

/// Whether `a` and `b` hold the same logical bytes. Literal bytes compare with their case;
/// the hex digits of a triplet do not.
pub fn equivalent(a: &[u8], b: &[u8]) -> (r: bool)
    ensures
        r == equivalent_spec(a@, b@),
{
    let mut i: usize = 0;
    let mut j: usize = 0;
    assert(rest(a@, 0) =~= a@);
    assert(rest(b@, 0) =~= b@);
    while i < a.len() && j < b.len()
        invariant
            0 <= i <= a@.len(),
            0 <= j <= b@.len(),
            equivalent_spec(a@, b@) == (decoded(rest(a@, i as int)) == decoded(
                rest(b@, j as int),
            )),
        decreases a@.len() - i,
    {
        let (x, ni) = next_unit(a, i);
        let (y, nj) = next_unit(b, j);
        proof {
            lemma_cons_eq(x, y, decoded(rest(a@, ni as int)), decoded(rest(b@, nj as int)));
        }
        if x != y {
            return false;
        }
        i = ni;
        j = nj;
    }
    proof {
        if i == a.len() {
            assert(rest(a@, i as int) =~= Seq::<u8>::empty());
        }
        if j == b.len() {
            assert(rest(b@, j as int) =~= Seq::<u8>::empty());
        }
    }
    i == a.len() && j == b.len()
}

/// Feeds the logical bytes of `bytes` to `state`, one single-byte write each, so that
/// equivalent contents feed the same writes.
pub fn hash_into(bytes: &[u8], state: &mut DefaultHasher)
    ensures
        final(state)@ == old(state)@ + hash_feed(decoded(bytes@)),
{
    let mut i: usize = 0;
    assert(rest(bytes@, 0) =~= bytes@);
    while i < bytes.len()
        invariant
            0 <= i <= bytes@.len(),
            old(state)@ + hash_feed(decoded(bytes@)) == state@ + hash_feed(
                decoded(rest(bytes@, i as int)),
            ),
        decreases bytes@.len() - i,
    {
        let (x, ni) = next_unit(bytes, i);
        let one: [u8; 1] = [x];
        state.write(one.as_slice());
        proof {
            let tail = decoded(rest(bytes@, ni as int));
            assert(one@ =~= seq![x]);
            assert(hash_feed(seq![x] + tail) =~= seq![seq![x]] + hash_feed(tail));
            assert(state@ + hash_feed(tail) =~= old(state)@ + hash_feed(decoded(bytes@)));
        }
        i = ni;
    }
    assert(rest(bytes@, i as int) =~= Seq::<u8>::empty());
    assert(hash_feed(decoded(rest(bytes@, i as int))) =~= Seq::<Seq<u8>>::empty());
    assert(state@ + Seq::<Seq<u8>>::empty() =~= state@);
}

/// The hash of `bytes` under a fresh `DefaultHasher`.
pub fn hash_of(bytes: &[u8]) -> (r: u64)
    ensures
        r == hash_spec(bytes@),
{
    let mut state = DefaultHasher::new();
    hash_into(bytes, &mut state);
    assert(state@ =~= hash_feed(decoded(bytes@)));
    state.finish()
}

/// Equivalent contents feed the same writes to a hasher, so they hash alike.
pub proof fn lemma_equivalent_hash_alike(a: Seq<u8>, b: Seq<u8>)
    requires
        equivalent_spec(a, b),
    ensures
        hash_feed(decoded(a)) == hash_feed(decoded(b)),
        hash_spec(a) == hash_spec(b),
{
}

} // verus!
