//! The query component of a URI and its scanner.
use vstd::prelude::*;
use vstd::slice::slice_to_vec;
use vstd::string::StringSliceAdditionalSpecFns;

use crate::chars::{
    classify, decode_hex_pair, get_percent_encoded_value, is_query_literal, is_unreserved_byte,
    to_ascii_upper, ByteClass, HASH, PERCENT,
};
use crate::compare::{equivalent, next_unit};
use crate::encoding::{
    equivalent_spec, is_canonical, is_triplet, lemma_canonical_iff_fixed, lemma_concat, lemma_empty,
    lemma_normalize_valid, lemma_single_literal, lemma_single_triplet, lemma_unfold_at,
    lemma_valid_is_ascii, normalize_spec, normalized_triplet, rest, valid_query,
};

verus! {

/// Why a byte string is not a query.
#[derive(Clone, Copy, Debug, PartialEq, Eq, Hash, Structural)]
pub enum InvalidQuery {
    /// A valid query was read, but bytes (from a `#` on) were left over where the whole
    /// input had to be one query.
    ExpectedEOF,
    /// A byte that a query cannot hold, other than `#`.
    InvalidCharacter,
    /// A `%` not followed by two hex digits.
    InvalidPercentEncoding,
}

impl InvalidQuery {
    /// A short description of the error.
    pub fn description(&self) -> (r: &'static str)
        ensures
            r@ == self.description_spec()@,
    {
        match self {
            InvalidQuery::ExpectedEOF => "expected EOF",
            InvalidQuery::InvalidCharacter => "invalid query character",
            InvalidQuery::InvalidPercentEncoding => "invalid query percent encoding",
        }
    }

    pub open spec fn description_spec(&self) -> &'static str {
        match self {
            InvalidQuery::ExpectedEOF => "expected EOF",
            InvalidQuery::InvalidCharacter => "invalid query character",
            InvalidQuery::InvalidPercentEncoding => "invalid query percent encoding",
        }
    }
}

/// What scanning `s` for a query gives: the length of the query that opens `s` (up to the
/// first `#` or the end), or the first error met from the left.
pub open spec fn scan_spec(s: Seq<u8>) -> Result<nat, InvalidQuery>
    decreases s.len(),
{
    if s.len() == 0 || s[0] == HASH {
        Ok(0)
    } else if s[0] == PERCENT {
        if is_triplet(s) {
            shifted(scan_spec(rest(s, 3)), 3)
        } else {
            Err(InvalidQuery::InvalidPercentEncoding)
        }
    } else if is_query_literal(s[0]) {
        shifted(scan_spec(rest(s, 1)), 1)
    } else {
        Err(InvalidQuery::InvalidCharacter)
    }
}

pub open spec fn shifted(r: Result<nat, InvalidQuery>, k: nat) -> Result<nat, InvalidQuery> {
    match r {
        Ok(n) => Ok(n + k),
        Err(e) => Err(e),
    }
}

/// What reading all of `s` as one query gives.
pub open spec fn parse_exact_spec(s: Seq<u8>) -> Result<(), InvalidQuery> {
    match scan_spec(s) {
        Ok(n) => if n == s.len() {
            Ok(())
        } else {
            Err(InvalidQuery::ExpectedEOF)
        },
        Err(e) => Err(e),
    }
}

/// The bytes of a query: a view into the caller's buffer, or a buffer of its own.
#[derive(Debug)]
pub enum QueryBytes<'a> {
    Borrowed(&'a [u8]),
    Owned(Vec<u8>),
}

impl<'a> QueryBytes<'a> {
    pub open spec fn bytes(&self) -> Seq<u8> {
        match self {
            QueryBytes::Borrowed(b) => b@,
            QueryBytes::Owned(v) => v@,
        }
    }

    pub fn as_slice(&self) -> (r: &[u8])
        ensures
            r@ == self.bytes(),
    {
        match self {
            QueryBytes::Borrowed(b) => b,
            QueryBytes::Owned(v) => v.as_slice(),
        }
    }
}

/// The query component of a URI: valid query content, kept byte for byte as it was read.
///
/// Content is case-sensitive, and percent-encoding plays no part in equality: `"query"` and
/// `"que%72y"` are the same query, and so are `"a%2f"` and `"a%2F"`.
#[derive(Debug)]
pub struct Query<'a> {
    normalized: bool,
    query: QueryBytes<'a>,
}

impl<'a> View for Query<'a> {
    type V = Seq<u8>;

    closed spec fn view(&self) -> Seq<u8> {
        self.query.bytes()
    }
}

/// Relies on std::str::from_utf8: ASCII bytes are valid UTF-8, so it accepts them and
/// returns a `str` over exactly those bytes.
#[verifier::external_body]
fn ascii_str(bytes: &[u8]) -> (r: &str)
    requires
        forall|i: int| 0 <= i < bytes@.len() ==> #[trigger] bytes@[i] < 128,
    ensures
        r.spec_bytes() == bytes@,
{
    std::str::from_utf8(bytes).unwrap()
}

impl<'a> Query<'a> {
    #[verifier::type_invariant]
    spec fn well_formed(self) -> bool {
        &&& valid_query(self.query.bytes())
        &&& self.normalized == is_canonical(self.query.bytes())
    }

    /// The content as text, exactly as it was read.
    pub fn as_str(&self) -> (r: &str)
        ensures
            r.spec_bytes() == self@,
    {
        proof {
            use_type_invariant(self);
            lemma_valid_is_ascii(self@);
        }
        ascii_str(self.query.as_slice())
    }

    /// The content as bytes, exactly as they were read; they are always valid query content.
    pub fn as_bytes(&self) -> (r: &[u8])
        ensures
            r@ == self@,
            valid_query(r@),
    {
        proof {
            use_type_invariant(self);
        }
        self.query.as_slice()
    }

    /// The same query over a buffer of its own, free of the input's lifetime.
    pub fn into_owned(self) -> (r: Query<'static>)
        ensures
            r@ == self@,
    {
        proof {
            use_type_invariant(&self);
        }
        let bytes = match self.query {
            QueryBytes::Borrowed(b) => slice_to_vec(b),
            QueryBytes::Owned(v) => v,
        };
        Query { normalized: self.normalized, query: QueryBytes::Owned(bytes) }
    }

    /// Whether the content is already in canonical form.
    pub fn is_normalized(&self) -> (r: bool)
        ensures
            r == is_canonical(self@),
    {
        proof {
            use_type_invariant(self);
        }
        self.normalized
    }

    /// Rewrites the content into canonical form, in place: triplets that encode an
    /// unreserved byte are decoded, the others get upper-case hex digits. Does nothing when
    /// the content is canonical already; a borrowed view is first copied into a buffer of
    /// its own.
    pub fn normalize(&mut self)
        ensures
            final(self)@ == normalize_spec(old(self)@),
            is_canonical(final(self)@),
    {
        proof {
            use_type_invariant(&*self);
            lemma_normalize_valid(self@);
        }
        if self.normalized {
            proof {
                lemma_canonical_iff_fixed(self@);
            }
            return;
        }
        let ghost before = self@;
        proof {
            lemma_empty();
        }
        let mut taken = Query { normalized: true, query: QueryBytes::Owned(Vec::new()) };
        core::mem::swap(&mut taken, self);
        proof {
            use_type_invariant(&taken);
        }
        let mut bytes = match taken.query {
            QueryBytes::Borrowed(b) => slice_to_vec(b),
            QueryBytes::Owned(v) => v,
        };
        normalize_in_place(&mut bytes);
        *self = Query { normalized: true, query: QueryBytes::Owned(bytes) };
    }
}

impl<'a> Query<'a> {
    /// Reads all of `value` as one query; leftover bytes (a `#` and what follows) are an
    /// error.
    pub fn parse_bytes(value: &'a [u8]) -> (r: Result<Query<'a>, InvalidQuery>)
        ensures
            match parse_exact_spec(value@) {
                Ok(()) => r matches Ok(q) && q@ == value@,
                Err(e) => r == Err::<Query<'a>, InvalidQuery>(e),
            },
            r == exact_query(value),
    {
        match parse_query(value) {
            Ok((query, remainder)) => {
                if remainder.len() == 0 {
                    proof {
                        use_type_invariant(&query);
                        assert(value@.subrange(0, value@.len() as int) =~= value@);
                    }
                    Ok(Query { normalized: query.normalized, query: QueryBytes::Borrowed(value) })
                } else {
                    Err(InvalidQuery::ExpectedEOF)
                }
            },
            Err(e) => Err(e),
        }
    }

    /// Reads all of `value` as one query, as `parse_bytes` does on its bytes.
    pub fn parse_str(value: &'a str) -> (r: Result<Query<'a>, InvalidQuery>)
        ensures
            match parse_exact_spec(value.spec_bytes()) {
                Ok(()) => r matches Ok(q) && q@ == value.spec_bytes(),
                Err(e) => r == Err::<Query<'a>, InvalidQuery>(e),
            },
            r == exact_query_str(value),
    {
        let bytes = value.as_bytes();
        proof {
            let chosen = choose|b: &'a [u8]| b@ == value.spec_bytes();
            assert(bytes@ == value.spec_bytes());
            assert(chosen@ == bytes@);
            assert(chosen == bytes);
        }
        Query::parse_bytes(bytes)
    }
}

/// The query that reading all of `value` gives, or the error.
pub closed spec fn exact_query<'a>(value: &'a [u8]) -> Result<Query<'a>, InvalidQuery> {
    match parse_exact_spec(value@) {
        Ok(()) => Ok(Query { normalized: is_canonical(value@), query: QueryBytes::Borrowed(value) }),
        Err(e) => Err(e),
    }
}

impl<'a> vstd::std_specs::convert::TryFromSpecImpl<&'a [u8]> for Query<'a> {
    open spec fn obeys_try_from_spec() -> bool {
        true
    }

    open spec fn try_from_spec(value: &'a [u8]) -> Result<Query<'a>, InvalidQuery> {
        exact_query(value)
    }
}

impl<'a> TryFrom<&'a [u8]> for Query<'a> {
    type Error = InvalidQuery;

    fn try_from(value: &'a [u8]) -> Result<Query<'a>, InvalidQuery> {
        Query::parse_bytes(value)
    }
}

/// The query that reading all of the bytes of `value` gives, or the error.
pub closed spec fn exact_query_str<'a>(value: &'a str) -> Result<Query<'a>, InvalidQuery> {
    exact_query(choose|b: &'a [u8]| b@ == value.spec_bytes())
}

impl<'a> vstd::std_specs::convert::TryFromSpecImpl<&'a str> for Query<'a> {
    open spec fn obeys_try_from_spec() -> bool {
        true
    }

    open spec fn try_from_spec(value: &'a str) -> Result<Query<'a>, InvalidQuery> {
        exact_query_str(value)
    }
}

impl<'a> TryFrom<&'a str> for Query<'a> {
    type Error = InvalidQuery;

    fn try_from(value: &'a str) -> Result<Query<'a>, InvalidQuery> {
        Query::parse_str(value)
    }
}

impl<'a, 'b> PartialEq<Query<'b>> for Query<'a> {
    fn eq(&self, other: &Query<'b>) -> (r: bool) {
        equivalent(self.query.as_slice(), other.query.as_slice())
    }
}

impl<'a, 'b> vstd::std_specs::cmp::PartialEqSpecImpl<Query<'b>> for Query<'a> {
    open spec fn obeys_eq_spec() -> bool {
        true
    }

    open spec fn eq_spec(&self, other: &Query<'b>) -> bool {
        equivalent_spec(self@, other@)
    }
}

impl<'a> PartialEq<[u8]> for Query<'a> {
    fn eq(&self, other: &[u8]) -> (r: bool) {
        equivalent(self.query.as_slice(), other)
    }
}

impl<'a> vstd::std_specs::cmp::PartialEqSpecImpl<[u8]> for Query<'a> {
    open spec fn obeys_eq_spec() -> bool {
        true
    }

    open spec fn eq_spec(&self, other: &[u8]) -> bool {
        equivalent_spec(self@, other@)
    }
}

impl<'a> PartialEq<str> for Query<'a> {
    fn eq(&self, other: &str) -> (r: bool) {
        equivalent(self.query.as_slice(), other.as_bytes())
    }
}

impl<'a> vstd::std_specs::cmp::PartialEqSpecImpl<str> for Query<'a> {
    open spec fn obeys_eq_spec() -> bool {
        true
    }

    open spec fn eq_spec(&self, other: &str) -> bool {
        equivalent_spec(self@, other.spec_bytes())
    }
}

impl<'a, 'b> PartialEq<&'b str> for Query<'a> {
    fn eq(&self, other: &&'b str) -> (r: bool) {
        equivalent(self.query.as_slice(), other.as_bytes())
    }
}

impl<'a, 'b> vstd::std_specs::cmp::PartialEqSpecImpl<&'b str> for Query<'a> {
    open spec fn obeys_eq_spec() -> bool {
        true
    }

    open spec fn eq_spec(&self, other: &&'b str) -> bool {
        equivalent_spec(self@, other.spec_bytes())
    }
}

impl<'a> AsRef<[u8]> for Query<'a> {
    fn as_ref(&self) -> &[u8] {
        self.as_bytes()
    }
}

impl<'a> AsRef<str> for Query<'a> {
    fn as_ref(&self) -> &str {
        self.as_str()
    }
}

impl<'a> core::ops::Deref for Query<'a> {
    type Target = str;

    fn deref(&self) -> &str {
        self.as_str()
    }
}

/// A copy that shares a borrowed view and duplicates an owned buffer.
impl<'a> Clone for Query<'a> {
    fn clone(&self) -> (r: Query<'a>)
        ensures
            r@ == self@,
    {
        proof {
            use_type_invariant(self);
        }
        let query = match &self.query {
            QueryBytes::Borrowed(b) => QueryBytes::Borrowed(*b),
            QueryBytes::Owned(v) => QueryBytes::Owned(slice_to_vec(v.as_slice())),
        };
        Query { normalized: self.normalized, query }
    }
}

impl<'a> Eq for Query<'a> {
}

/// Relies on std::hash::Hasher::write_u8 to feed one byte to a hasher. Nothing is stated of
/// the hasher's state, which is the hasher's own business.
#[verifier::external_body]
fn feed_byte<H: core::hash::Hasher>(state: &mut H, byte: u8) {
    state.write_u8(byte)
}

/// Hashes the logical bytes, one byte per triplet or literal, so that equal queries hash
/// alike.
impl<'a> core::hash::Hash for Query<'a> {
    fn hash<H: core::hash::Hasher>(&self, state: &mut H) {
        let bytes = self.query.as_slice();
        let mut i: usize = 0;
        while i < bytes.len()
            invariant
                i <= bytes@.len(),
            decreases bytes@.len() - i,
        {
            let (unit, next) = next_unit(bytes, i);
            feed_byte(state, unit);
            i = next;
        }
    }
}

/// Rewrites valid content into its normal form within its own buffer, in one pass from the
/// left. The write position never passes the read position, since a triplet becomes one
/// or three bytes, so no unread byte is overwritten; the buffer is then cut to what was
/// written.
pub fn normalize_in_place(bytes: &mut Vec<u8>)
    requires
        valid_query(old(bytes)@),
    ensures
        final(bytes)@ == normalize_spec(old(bytes)@),
{
    let ghost orig = bytes@;
    let mut read: usize = 0;
    let mut write: usize = 0;
    proof {
        assert(rest(orig, 0) =~= orig);
        assert(bytes@.subrange(0, 0) + normalize_spec(orig) =~= normalize_spec(orig));
    }
    while read < bytes.len()
        invariant
            bytes@.len() == orig.len(),
            write <= read <= orig.len(),
            rest(bytes@, read as int) == rest(orig, read as int),
            valid_query(rest(orig, read as int)),
            normalize_spec(orig) == bytes@.subrange(0, write as int) + normalize_spec(
                rest(orig, read as int),
            ),
        decreases orig.len() - read,
    {
        let ghost prev = bytes@;
        let ghost t = rest(orig, read as int);
        proof {
            lemma_unfold_at(orig, read as int);
            assert(orig[read as int] == prev[read as int]) by {
                assert(rest(prev, read as int)[0] == t[0]);
            }
        }
        let byte = bytes[read];
        if byte == PERCENT {
            proof {
                assert(rest(prev, read as int)[1] == t[1]);
                assert(rest(prev, read as int)[2] == t[2]);
            }
            let first = bytes[read + 1];
            let second = bytes[read + 2];
            let value = decode_hex_pair(first, second);
            if is_unreserved_byte(value) {
                bytes.set(write, value);
                write = write + 1;
            } else {
                bytes.set(write, PERCENT);
                bytes.set(write + 1, to_ascii_upper(first));
                bytes.set(write + 2, to_ascii_upper(second));
                write = write + 3;
            }
            read = read + 3;
            proof {
                let piece = normalized_triplet(first, second);
                assert(bytes@.subrange(0, write as int) =~= prev.subrange(0, write - piece.len())
                    + piece);
            }
        } else {
            bytes.set(write, byte);
            write = write + 1;
            read = read + 1;
            proof {
                assert(bytes@.subrange(0, write as int) =~= prev.subrange(0, write - 1) + seq![
                    byte,
                ]);
            }
        }
        proof {
            assert(rest(bytes@, read as int) =~= rest(orig, read as int)) by {
                assert(rest(prev, read as int - (if byte == PERCENT { 3int } else { 1int }))
                    == rest(orig, read as int - (if byte == PERCENT { 3int } else { 1int })));
                assert forall|k: int| 0 <= k < orig.len() - read implies #[trigger] rest(
                    bytes@,
                    read as int,
                )[k] == rest(orig, read as int)[k] by {
                    let d: int = if byte == PERCENT { 3 } else { 1 };
                    assert(rest(prev, read - d)[k + d] == rest(orig, read - d)[k + d]);
                }
            }
        }
    }
    proof {
        assert(rest(orig, read as int) =~= Seq::<u8>::empty());
        lemma_empty();
        assert(bytes@.subrange(0, write as int) + Seq::<u8>::empty() =~= bytes@.subrange(
            0,
            write as int,
        ));
    }
    bytes.truncate(write);
}

/// Reads the query that opens `value`, up to the first `#` or the end, and returns it with
/// the rest of the input (empty, or from the `#` on). The query keeps the bytes as they
/// were; it is normalized exactly when no triplet in it encodes an unreserved byte or has a
/// lower-case hex digit.
pub fn parse_query<'a>(value: &'a [u8]) -> (r: Result<(Query<'a>, &'a [u8]), InvalidQuery>)
    ensures
        match scan_spec(value@) {
            Ok(n) => r matches Ok((q, remainder)) && n <= value@.len() && q@ == value@.subrange(
                0,
                n as int,
            ) && remainder@ == rest(value@, n as int),
            Err(e) => r == Err::<(Query<'a>, &'a [u8]), InvalidQuery>(e),
        },
{
    let mut i: usize = 0;
    let mut normalized = true;
    proof {
        assert(rest(value@, 0) =~= value@);
        assert(value@.subrange(0, 0) =~= Seq::<u8>::empty());
    }
    while i < value.len() && value[i] != HASH
        invariant
            i <= value@.len(),
            valid_query(value@.subrange(0, i as int)),
            normalized == is_canonical(value@.subrange(0, i as int)),
            scan_spec(value@) == shifted(scan_spec(rest(value@, i as int)), i as nat),
        decreases value@.len() - i,
    {
        let byte = value[i];
        let ghost s = value@;
        let ghost t = rest(s, i as int);
        proof {
            lemma_unfold_at(s, i as int);
        }
        match classify(byte) {
            ByteClass::Literal => {
                proof {
                    lemma_single_literal(byte);
                    lemma_concat(s.subrange(0, i as int), seq![byte]);
                    assert(s.subrange(0, i as int) + seq![byte] =~= s.subrange(0, i + 1));
                }
                i = i + 1;
            },
            ByteClass::Percent => {
                let first = if value.len() - i > 1 {
                    Some(value[i + 1])
                } else {
                    None
                };
                let second = if value.len() - i > 2 {
                    Some(value[i + 2])
                } else {
                    None
                };
                match get_percent_encoded_value(first, second) {
                    Some((hex_value, uppercase)) => {
                        if !uppercase || is_unreserved_byte(hex_value) {
                            normalized = false;
                        }
                        proof {
                            let token = s.subrange(i as int, i + 3);
                            lemma_single_triplet(token);
                            lemma_concat(s.subrange(0, i as int), token);
                            assert(s.subrange(0, i as int) + token =~= s.subrange(0, i + 3));
                        }
                        i = i + 3;
                    },
                    None => {
                        return Err(InvalidQuery::InvalidPercentEncoding);
                    },
                }
            },
            _ => {
                return Err(InvalidQuery::InvalidCharacter);
            },
        }
    }
    proof {
        if i == value.len() {
            assert(rest(value@, i as int) =~= Seq::<u8>::empty());
        }
    }
    let (head, remainder) = value.split_at(i);
    let query = Query { normalized, query: QueryBytes::Borrowed(head) };
    Ok((query, remainder))
}


/// Scanning valid content followed by nothing, or by a `#` and anything after it, reads
/// exactly that content as the query.
pub proof fn lemma_scan_stops_at_fragment(q: Seq<u8>, remainder: Seq<u8>)
    requires
        valid_query(q),
        remainder.len() == 0 || remainder[0] == HASH,
    ensures
        scan_spec(q + remainder) == Ok::<nat, InvalidQuery>(q.len()),
    decreases q.len(),
{
    let s = q + remainder;
    if q.len() == 0 {
        assert(s =~= remainder);
    } else {
        let n: int = if q[0] == PERCENT { 3 } else { 1 };
        assert(s[0] == q[0]);
        if n == 3 {
            assert(s[1] == q[1] && s[2] == q[2]);
        }
        assert(rest(s, n) =~= rest(q, n) + remainder);
        lemma_scan_stops_at_fragment(rest(q, n), remainder);
    }
}

/// Reading valid content as a whole query succeeds, and the query holds exactly that
/// content, so reading it back gives the same bytes.
pub proof fn lemma_round_trip(s: Seq<u8>)
    requires
        valid_query(s),
    ensures
        scan_spec(s) == Ok::<nat, InvalidQuery>(s.len()),
        parse_exact_spec(s) == Ok::<(), InvalidQuery>(()),
{
    lemma_scan_stops_at_fragment(s, Seq::empty());
    assert(s + Seq::<u8>::empty() =~= s);
}

} // verus!
