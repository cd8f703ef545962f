//! The percent-encoding model of query content: validity, logical (decoded) bytes,
//! canonical form, and the facts that relate them.
use vstd::prelude::*;

use crate::chars::{
    ascii_upper, lemma_upper_hex_digit, hex_pair_value, is_canonical_hex_digit, is_hex_digit, is_query_literal,
    is_unreserved, PERCENT,
};

verus! {

/// `s` opens with a well-formed percent triplet.
pub open spec fn is_triplet(s: Seq<u8>) -> bool {
    s.len() >= 3 && s[0] == PERCENT && is_hex_digit(s[1]) && is_hex_digit(s[2])
}

pub open spec fn rest(s: Seq<u8>, n: int) -> Seq<u8> {
    s.subrange(n, s.len() as int)
}

/// Every byte of `s` is a query literal or belongs to a well-formed percent triplet.
pub open spec fn valid_query(s: Seq<u8>) -> bool
    decreases s.len(),
{
    if s.len() == 0 {
        true
    } else if s[0] == PERCENT {
        is_triplet(s) && valid_query(rest(s, 3))
    } else {
        is_query_literal(s[0]) && valid_query(rest(s, 1))
    }
}

/// The logical bytes of `s`: each well-formed percent triplet stands for the byte it
/// encodes, and every other byte stands for itself.
pub open spec fn decoded(s: Seq<u8>) -> Seq<u8>
    decreases s.len(),
{
    if s.len() == 0 {
        Seq::empty()
    } else if is_triplet(s) {
        seq![hex_pair_value(s[1], s[2])] + decoded(rest(s, 3))
    } else {
        seq![s[0]] + decoded(rest(s, 1))
    }
}

/// Two byte strings are equivalent when their logical bytes agree; literal bytes keep
/// their case, only the hex digits of a triplet are read without regard to case.
pub open spec fn equivalent_spec(a: Seq<u8>, b: Seq<u8>) -> bool {
    decoded(a) == decoded(b)
}

/// What the normalizer makes of one triplet `%` `hi` `lo`.
pub open spec fn normalized_triplet(hi: u8, lo: u8) -> Seq<u8> {
    if is_unreserved(hex_pair_value(hi, lo)) {
        seq![hex_pair_value(hi, lo)]
    } else {
        seq![PERCENT, ascii_upper(hi), ascii_upper(lo)]
    }
}

/// Canonical form: triplets that encode an unreserved byte are decoded, the others get
/// upper-case hex digits, and all other bytes are kept.
pub open spec fn normalize_spec(s: Seq<u8>) -> Seq<u8>
    decreases s.len(),
{
    if s.len() == 0 {
        Seq::empty()
    } else if is_triplet(s) {
        normalized_triplet(s[1], s[2]) + normalize_spec(rest(s, 3))
    } else {
        seq![s[0]] + normalize_spec(rest(s, 1))
    }
}

/// No triplet of `s` encodes an unreserved byte, and every triplet has canonical hex digits.
pub open spec fn is_canonical(s: Seq<u8>) -> bool
    decreases s.len(),
{
    if s.len() == 0 {
        true
    } else if is_triplet(s) {
        is_canonical_hex_digit(s[1]) && is_canonical_hex_digit(s[2]) && !is_unreserved(
            hex_pair_value(s[1], s[2]),
        ) && is_canonical(rest(s, 3))
    } else {
        is_canonical(rest(s, 1))
    }
}

/// Every byte of valid content is ASCII.
pub proof fn lemma_valid_is_ascii(s: Seq<u8>)
    requires
        valid_query(s),
    ensures
        forall|i: int| 0 <= i < s.len() ==> #[trigger] s[i] < 128,
    decreases s.len(),
{
    if s.len() > 0 {
        let n: int = if s[0] == PERCENT { 3 } else { 1 };
        lemma_valid_is_ascii(rest(s, n));
        assert forall|i: int| 0 <= i < s.len() implies #[trigger] s[i] < 128 by {
            if i >= n {
                assert(s[i] == rest(s, n)[i - n]);
            }
        }
    }
}

/// Relates the suffix of `s` that starts at `i` to `s` itself: its first bytes, whether it
/// opens with a triplet, and the suffix after its first triplet or byte.
pub proof fn lemma_unfold_at(s: Seq<u8>, i: int)
    requires
        0 <= i < s.len(),
    ensures
        ({
            let t = rest(s, i);
            let n: int = if is_triplet(t) { 3 } else { 1 };
            &&& rest(t, n) == rest(s, i + n)
            &&& t[0] == s[i]
            &&& is_triplet(t) <==> (s[i] == PERCENT && i + 2 < s.len() && is_hex_digit(s[i + 1])
                && is_hex_digit(s[i + 2]))
            &&& is_triplet(t) ==> t[1] == s[i + 1] && t[2] == s[i + 2]
        }),
{
    let t = rest(s, i);
    if is_triplet(t) {
        assert(rest(t, 3) =~= rest(s, i + 3));
    } else {
        assert(rest(t, 1) =~= rest(s, i + 1));
    }
}

/// Logical bytes, validity, canonicity and normal form all split at the end of valid content.
pub proof fn lemma_concat(p: Seq<u8>, x: Seq<u8>)
    requires
        valid_query(p),
    ensures
        valid_query(p + x) == valid_query(x),
        is_canonical(p + x) == (is_canonical(p) && is_canonical(x)),
        decoded(p + x) == decoded(p) + decoded(x),
        normalize_spec(p + x) == normalize_spec(p) + normalize_spec(x),
    decreases p.len(),
{
    if p.len() == 0 {
        assert(p + x =~= x);
        assert(decoded(p) =~= Seq::empty());
        assert(normalize_spec(p) =~= Seq::empty());
        assert(decoded(p) + decoded(x) =~= decoded(x));
        assert(normalize_spec(p) + normalize_spec(x) =~= normalize_spec(x));
    } else {
        let n: int = if p[0] == PERCENT { 3 } else { 1 };
        let px = p + x;
        assert(px[0] == p[0]);
        if n == 3 {
            assert(px[1] == p[1] && px[2] == p[2]);
        }
        assert(rest(px, n) =~= rest(p, n) + x);
        lemma_concat(rest(p, n), x);
        if n == 3 {
            assert(normalize_spec(px) =~= normalized_triplet(p[1], p[2]) + (normalize_spec(
                rest(p, n),
            ) + normalize_spec(x)));
            assert(decoded(px) =~= seq![hex_pair_value(p[1], p[2])] + (decoded(rest(p, n))
                + decoded(x)));
        } else {
            assert(normalize_spec(px) =~= seq![p[0]] + (normalize_spec(rest(p, n))
                + normalize_spec(x)));
            assert(decoded(px) =~= seq![p[0]] + (decoded(rest(p, n)) + decoded(x)));
        }
    }
}

/// Normalizing never lengthens content.
pub proof fn lemma_normalize_len(s: Seq<u8>)
    ensures
        normalize_spec(s).len() <= s.len(),
    decreases s.len(),
{
    if s.len() > 0 {
        let n: int = if is_triplet(s) { 3 } else { 1 };
        lemma_normalize_len(rest(s, n));
    }
}

/// The empty content is valid and canonical, and stands for nothing.
pub proof fn lemma_empty()
    ensures
        valid_query(Seq::<u8>::empty()),
        is_canonical(Seq::<u8>::empty()),
        decoded(Seq::<u8>::empty()) == Seq::<u8>::empty(),
        normalize_spec(Seq::<u8>::empty()) == Seq::<u8>::empty(),
{
}

/// What one triplet becomes is valid, canonical content with the same logical byte.
proof fn lemma_normalized_triplet(hi: u8, lo: u8)
    requires
        is_hex_digit(hi),
        is_hex_digit(lo),
    ensures
        valid_query(normalized_triplet(hi, lo)),
        is_canonical(normalized_triplet(hi, lo)),
        decoded(normalized_triplet(hi, lo)) == seq![hex_pair_value(hi, lo)],
{
    let t = normalized_triplet(hi, lo);
    let v = hex_pair_value(hi, lo);
    lemma_upper_hex_digit(hi);
    lemma_upper_hex_digit(lo);
    lemma_empty();
    if is_unreserved(v) {
        lemma_single_literal(v);
    } else {
        assert(t[0] == PERCENT && t[1] == ascii_upper(hi) && t[2] == ascii_upper(lo));
        assert(rest(t, 3) =~= Seq::<u8>::empty());
        assert(decoded(t) =~= seq![v] + decoded(rest(t, 3)));
        assert(decoded(t) =~= seq![v]);
    }
}

/// A single query literal is valid, canonical content that stands for itself.
pub proof fn lemma_single_literal(b: u8)
    requires
        is_query_literal(b),
    ensures
        valid_query(seq![b]),
        is_canonical(seq![b]),
        decoded(seq![b]) == seq![b],
{
    let t = seq![b];
    lemma_empty();
    assert(t[0] == b);
    assert(rest(t, 1) =~= Seq::<u8>::empty());
    assert(decoded(t) =~= seq![b] + decoded(rest(t, 1)));
    assert(decoded(t) =~= seq![b]);
}

/// A lone well-formed triplet is valid content that stands for the byte it encodes; it is
/// canonical when its digits are and that byte is not unreserved.
pub proof fn lemma_single_triplet(t: Seq<u8>)
    requires
        t.len() == 3,
        is_triplet(t),
    ensures
        valid_query(t),
        is_canonical(t) == (is_canonical_hex_digit(t[1]) && is_canonical_hex_digit(t[2])
            && !is_unreserved(hex_pair_value(t[1], t[2]))),
        decoded(t) == seq![hex_pair_value(t[1], t[2])],
{
    lemma_empty();
    assert(rest(t, 3) =~= Seq::<u8>::empty());
    assert(decoded(t) =~= seq![hex_pair_value(t[1], t[2])] + decoded(rest(t, 3)));
}

/// The normal form of valid content is valid and canonical, and has the same logical bytes.
pub proof fn lemma_normalize_valid(s: Seq<u8>)
    requires
        valid_query(s),
    ensures
        valid_query(normalize_spec(s)),
        is_canonical(normalize_spec(s)),
        decoded(normalize_spec(s)) == decoded(s),
    decreases s.len(),
{
    if s.len() > 0 {
        if is_triplet(s) {
            let r = rest(s, 3);
            lemma_normalize_valid(r);
            lemma_normalized_triplet(s[1], s[2]);
            lemma_concat(normalized_triplet(s[1], s[2]), normalize_spec(r));
        } else {
            let r = rest(s, 1);
            lemma_normalize_valid(r);
            lemma_single_literal(s[0]);
            lemma_concat(seq![s[0]], normalize_spec(r));
        }
    }
}

/// Content is canonical exactly when normalizing leaves it unchanged.
pub proof fn lemma_canonical_iff_fixed(s: Seq<u8>)
    ensures
        is_canonical(s) <==> normalize_spec(s) == s,
    decreases s.len(),
{
    if s.len() > 0 {
        let ns = normalize_spec(s);
        if is_triplet(s) {
            let r = rest(s, 3);
            lemma_canonical_iff_fixed(r);
            lemma_upper_hex_digit(s[1]);
            lemma_upper_hex_digit(s[2]);
            let t = normalized_triplet(s[1], s[2]);
            assert(ns == t + normalize_spec(r));
            if is_unreserved(hex_pair_value(s[1], s[2])) {
                lemma_normalize_len(r);
                assert(ns.len() < s.len());
                assert(!is_canonical(s));
                assert(ns != s);
            } else {
                assert(t.len() == 3);
                assert(rest(ns, 3) =~= normalize_spec(r));
                if is_canonical(s) {
                    assert(t =~= seq![s[0], s[1], s[2]]);
                    assert(ns =~= s);
                }
                if ns == s {
                    assert(ns[1] == t[1] && ns[2] == t[2]);
                    assert(normalize_spec(r) == r);
                    assert(is_canonical(s));
                }
                assert(is_canonical(s) <==> ns == s);
            }
        } else {
            let r = rest(s, 1);
            lemma_canonical_iff_fixed(r);
            assert(ns == seq![s[0]] + normalize_spec(r));
            assert(rest(ns, 1) =~= normalize_spec(r));
            if is_canonical(s) {
                assert(ns =~= s);
            }
            if ns == s {
                assert(normalize_spec(r) == r);
                assert(is_canonical(s));
            }
            assert(is_canonical(s) <==> ns == s);
        }
    } else {
        assert(normalize_spec(s) =~= s);
    }
}

/// Normalizing valid content twice gives what normalizing it once gave, and the result
/// is canonical.
pub proof fn lemma_normalize_idempotent(s: Seq<u8>)
    requires
        valid_query(s),
    ensures
        normalize_spec(normalize_spec(s)) == normalize_spec(s),
        is_canonical(normalize_spec(s)),
{
    lemma_normalize_valid(s);
    lemma_canonical_iff_fixed(normalize_spec(s));
}

/// Normalizing both sides does not change whether two valid contents are equivalent.
pub proof fn lemma_equivalence_under_normalization(a: Seq<u8>, b: Seq<u8>)
    requires
        valid_query(a),
        valid_query(b),
    ensures
        equivalent_spec(a, b) == equivalent_spec(normalize_spec(a), normalize_spec(b)),
{
    lemma_normalize_valid(a);
    lemma_normalize_valid(b);
}

} // verus!
