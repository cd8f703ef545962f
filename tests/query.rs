use std::collections::hash_map::DefaultHasher;
use std::convert::TryFrom;
use std::hash::{Hash, Hasher};

use uri_query::chars::{
    classify, decode_hex_pair, get_percent_encoded_value, is_unreserved_byte, to_ascii_upper,
    ByteClass,
};
use uri_query::compare::{equivalent, hash_into, hash_of, next_unit};
use uri_query::query::{normalize_in_place, parse_query, InvalidQuery, Query};

fn std_hash(query: &Query) -> u64 {
    let mut hasher = DefaultHasher::new();
    query.hash(&mut hasher);
    hasher.finish()
}

fn normalized(text: &str) -> Query<'_> {
    let mut query = Query::try_from(text).unwrap();
    query.normalize();
    query
}

#[test]
fn round_trip_keeps_bytes() {
    for text in ["", "query", "a=b&c=d", "que%72y", "a%2fb%7E", "x/y?z:@!$&'()*+,;=-._~"] {
        let query = Query::try_from(text).unwrap();
        assert_eq!(query.as_str(), text);
        assert_eq!(query.as_bytes(), text.as_bytes());
    }
}

#[test]
fn round_trip_from_bytes() {
    let query = Query::try_from(&b"a%41=%2f"[..]).unwrap();
    assert_eq!(query.as_str(), "a%41=%2f");
}

#[test]
fn normalize_decodes_unreserved() {
    let query = normalized("a%7Eb");
    assert_eq!(query.as_str(), "a~b");
    assert!(query.is_normalized());
}

#[test]
fn normalize_uppercases_reserved() {
    let query = normalized("a%2fb");
    assert_eq!(query.as_str(), "a%2Fb");
    assert!(query.is_normalized());
}

#[test]
fn normalize_leaves_canonical_content() {
    let query = Query::try_from("abc").unwrap();
    assert!(query.is_normalized());
    let query = normalized("abc");
    assert_eq!(query.as_str(), "abc");
    assert!(query.is_normalized());
}

#[test]
fn normalize_is_idempotent() {
    let mut query = normalized("%41%62%2f%3D%7e%25x");
    assert_eq!(query.as_str(), "Ab%2F%3D~%25x");
    query.normalize();
    assert_eq!(query.as_str(), "Ab%2F%3D~%25x");
    assert!(query.is_normalized());
}

#[test]
fn normalize_owned_query() {
    let mut query = Query::try_from("%61%2a").unwrap().into_owned();
    query.normalize();
    assert_eq!(query.as_str(), "a%2A");
}

#[test]
fn normalize_in_place_shrinks_buffer() {
    let mut bytes = b"%7E%7e%2fz".to_vec();
    normalize_in_place(&mut bytes);
    assert_eq!(bytes, b"~~%2Fz".to_vec());
}

#[test]
fn normalized_flag_after_parse() {
    assert!(Query::try_from("a%2F%20").unwrap().is_normalized());
    assert!(!Query::try_from("a%2f").unwrap().is_normalized());
    assert!(!Query::try_from("a%41").unwrap().is_normalized());
    assert!(!Query::try_from("%7E").unwrap().is_normalized());
    assert!(Query::try_from("").unwrap().is_normalized());
}

#[test]
fn equality_is_case_sensitive() {
    let upper = Query::try_from("Query").unwrap();
    let lower = Query::try_from("query").unwrap();
    assert!(upper != lower);
    assert!(!equivalent(b"Query", b"query"));
}

#[test]
fn equality_sees_through_percent_encoding() {
    let encoded = Query::try_from("que%72y").unwrap();
    let plain = Query::try_from("query").unwrap();
    assert!(encoded == plain);
    assert!(equivalent(b"que%72y", b"query"));
}

#[test]
fn equality_ignores_hex_digit_case() {
    let upper = Query::try_from("a%2F").unwrap();
    let lower = Query::try_from("a%2f").unwrap();
    assert!(upper == lower);
    assert!(equivalent(b"a%2F", b"a%2f"));
}

#[test]
fn equality_of_different_lengths() {
    assert!(!equivalent(b"ab", b"a"));
    assert!(!equivalent(b"a", b"a%62"));
    assert!(equivalent(b"", b""));
    assert!(!equivalent(b"%25", b"%2525"));
    assert!(equivalent(b"%25", b"%"));
}

#[test]
fn equivalence_survives_normalization() {
    let pairs = [("%41b", "Ab", true), ("a%2f", "a%2F", true), ("a%2f", "a/", true), ("a%2f", "a%2e", false), ("x", "y", false)];
    for (a, b, expected) in pairs {
        let qa = Query::try_from(a).unwrap();
        let qb = Query::try_from(b).unwrap();
        assert_eq!(qa == qb, expected);
        assert_eq!(normalized(a) == normalized(b), expected);
    }
}

#[test]
fn equivalent_queries_hash_alike() {
    let a = Query::try_from("que%72y%2f").unwrap();
    let b = Query::try_from("query%2F").unwrap();
    assert!(a == b);
    assert_eq!(std_hash(&a), std_hash(&b));
    assert_eq!(hash_of(b"que%72y%2f"), hash_of(b"query%2F"));
    assert_ne!(hash_of(b"query"), hash_of(b"Query"));
    assert_ne!(std_hash(&a), std_hash(&Query::try_from("Query%2F").unwrap()));
}

#[test]
fn hash_feeds_logical_bytes() {
    let mut fed = DefaultHasher::new();
    hash_into(b"%41b", &mut fed);
    let mut direct = DefaultHasher::new();
    direct.write(&[b'A']);
    direct.write(&[b'b']);
    assert_eq!(fed.finish(), direct.finish());
    assert_eq!(hash_of(b"%41b"), direct.finish());
}

#[test]
fn prefix_parse_stops_at_fragment() {
    let (query, remainder) = parse_query(b"a=b#frag").unwrap();
    assert_eq!(query.as_str(), "a=b");
    assert_eq!(remainder, b"#frag");
}

#[test]
fn prefix_parse_without_fragment() {
    let (query, remainder) = parse_query(b"a=%2Fb").unwrap();
    assert_eq!(query.as_str(), "a=%2Fb");
    assert!(remainder.is_empty());
    let (query, remainder) = parse_query(b"#").unwrap();
    assert_eq!(query.as_str(), "");
    assert_eq!(remainder, b"#");
}

#[test]
fn strict_parse_rejects_fragment() {
    assert_eq!(Query::try_from("a=b#frag").unwrap_err(), InvalidQuery::ExpectedEOF);
    assert_eq!(Query::parse_bytes(b"a#").unwrap_err(), InvalidQuery::ExpectedEOF);
}

#[test]
fn invalid_percent_encoding() {
    assert_eq!(Query::try_from("a%ZZb").unwrap_err(), InvalidQuery::InvalidPercentEncoding);
    assert_eq!(Query::try_from("a%2").unwrap_err(), InvalidQuery::InvalidPercentEncoding);
    assert_eq!(Query::try_from("%").unwrap_err(), InvalidQuery::InvalidPercentEncoding);
    assert_eq!(parse_query(b"%g1#").unwrap_err(), InvalidQuery::InvalidPercentEncoding);
}

#[test]
fn invalid_character() {
    assert_eq!(Query::try_from("a<b").unwrap_err(), InvalidQuery::InvalidCharacter);
    assert_eq!(Query::try_from("a b").unwrap_err(), InvalidQuery::InvalidCharacter);
    assert_eq!(Query::parse_bytes(&[b'a', 0xC3, 0xA9]).unwrap_err(), InvalidQuery::InvalidCharacter);
    assert_eq!(Query::try_from("a[%ZZ").unwrap_err(), InvalidQuery::InvalidCharacter);
}

#[test]
fn first_error_wins() {
    assert_eq!(Query::try_from("%ZZ<").unwrap_err(), InvalidQuery::InvalidPercentEncoding);
    assert_eq!(parse_query(b"ok#<").unwrap().1, b"#<");
}

#[test]
fn into_owned_keeps_content_and_flag() {
    let text = String::from("a%2fb");
    let owned = Query::try_from(text.as_str()).unwrap().into_owned();
    drop(text);
    assert_eq!(owned.as_str(), "a%2fb");
    assert!(!owned.is_normalized());
}

#[test]
fn error_descriptions() {
    assert_eq!(InvalidQuery::ExpectedEOF.description(), "expected EOF");
    assert_eq!(InvalidQuery::InvalidCharacter.description(), "invalid query character");
    assert_eq!(
        InvalidQuery::InvalidPercentEncoding.description(),
        "invalid query percent encoding"
    );
}

#[test]
fn byte_classes() {
    assert_eq!(classify(b'a'), ByteClass::Literal);
    assert_eq!(classify(b'?'), ByteClass::Literal);
    assert_eq!(classify(b'\''), ByteClass::Literal);
    assert_eq!(classify(b'%'), ByteClass::Percent);
    assert_eq!(classify(b'#'), ByteClass::FragmentStart);
    assert_eq!(classify(b'<'), ByteClass::Invalid);
    assert_eq!(classify(b'"'), ByteClass::Invalid);
    assert_eq!(classify(0x80), ByteClass::Invalid);
    assert!(is_unreserved_byte(b'~'));
    assert!(!is_unreserved_byte(b'/'));
}

#[test]
fn percent_decoding() {
    assert_eq!(get_percent_encoded_value(Some(b'7'), Some(b'E')), Some((0x7E, true)));
    assert_eq!(get_percent_encoded_value(Some(b'2'), Some(b'f')), Some((0x2F, false)));
    assert_eq!(get_percent_encoded_value(Some(b'a'), Some(b'0')), Some((0xA0, false)));
    assert_eq!(get_percent_encoded_value(Some(b'Z'), Some(b'0')), None);
    assert_eq!(get_percent_encoded_value(Some(b'2'), None), None);
    assert_eq!(get_percent_encoded_value(None, None), None);
    assert_eq!(decode_hex_pair(b'f', b'F'), 0xFF);
    assert_eq!(to_ascii_upper(b'f'), b'F');
    assert_eq!(to_ascii_upper(b'7'), b'7');
}

#[test]
fn logical_units() {
    assert_eq!(next_unit(b"%41b", 0), (b'A', 3));
    assert_eq!(next_unit(b"%41b", 3), (b'b', 4));
    assert_eq!(next_unit(b"a%4", 1), (b'%', 2));
}

#[test]
fn compares_with_text_and_bytes() {
    let query = Query::try_from("que%72y%2f").unwrap();
    assert!(query == *"query/");
    assert!(query == "query%2F");
    assert!(query != "Query/");
    assert!(query == b"que%72y/"[..]);
    assert!(query != b"query"[..]);
}

#[test]
fn views_as_text_and_bytes() {
    let query = Query::try_from("a%2Fb").unwrap();
    let bytes: &[u8] = query.as_ref();
    let text: &str = query.as_ref();
    assert_eq!(bytes, b"a%2Fb");
    assert_eq!(text, "a%2Fb");
    assert_eq!(query.len(), 5);
    assert!(query.starts_with("a%"));
    let copy = query.clone();
    assert_eq!(copy.as_str(), "a%2Fb");
    assert!(copy == query);
}
