use timeable_mergeable_nft::decode::parse;
use timeable_mergeable_nft::error::Error;
use timeable_mergeable_nft::metadata::encode;
use timeable_mergeable_nft::metadata::merged_nft_metadata;
use timeable_mergeable_nft::metadata::TokenMetadata;
use timeable_mergeable_nft::numeral::join_ids;
use timeable_mergeable_nft::numeral::u64_to_dec;

fn payload(s: &str) -> Vec<u8> {
    s.as_bytes().to_vec()
}

#[test]
fn decode_defaults() {
    let m = parse(&payload(r#"{"name":"a","description":"b","asset":"c"}"#)).unwrap();
    assert_eq!(m.name, b"a".to_vec());
    assert_eq!(m.description, b"b".to_vec());
    assert_eq!(m.asset_uri, b"c".to_vec());
    assert_eq!(m.timeable, None);
    assert_eq!(m.mergeable, None);
    assert_eq!(m.expiry, None);
    assert!(m.is_timeable());
    assert!(m.is_mergeable());
    assert_eq!(m.expiry_or_default(), 0);
}

#[test]
fn decode_explicit_flags() {
    let m = parse(&payload(
        r#"{"name":"n","description":"d","asset":"a","timeable":false,"mergeable":true,"timestamp":1234}"#,
    ))
    .unwrap();
    assert_eq!(m.timeable, Some(false));
    assert_eq!(m.mergeable, Some(true));
    assert_eq!(m.expiry, Some(1234));
    assert!(!m.is_timeable());
    assert!(m.is_mergeable());
    assert_eq!(m.expiry_or_default(), 1234);
}

#[test]
fn decode_members_in_any_order() {
    let m = parse(&payload(
        r#"{"timestamp":7,"asset":"a","name":"n","mergeable":false,"description":"d"}"#,
    ))
    .unwrap();
    assert_eq!(m.name, b"n".to_vec());
    assert_eq!(m.expiry, Some(7));
    assert!(!m.is_mergeable());
}

#[test]
fn decode_skips_unknown_members() {
    let m = parse(&payload(
        r#"{"name":"n","color":"blue","description":"d","rank":42,"asset":"a","shiny":true}"#,
    ))
    .unwrap();
    assert_eq!(m.name, b"n".to_vec());
    assert_eq!(m.description, b"d".to_vec());
    assert_eq!(m.asset_uri, b"a".to_vec());
}

#[test]
fn decode_missing_required_field() {
    assert_eq!(
        parse(&payload(r#"{"name":"n","description":"d"}"#)),
        Err(Error::DecodeError)
    );
    assert_eq!(
        parse(&payload(r#"{"description":"d","asset":"a"}"#)),
        Err(Error::DecodeError)
    );
}

#[test]
fn decode_duplicate_field() {
    assert_eq!(
        parse(&payload(r#"{"name":"n","name":"m","description":"d","asset":"a"}"#)),
        Err(Error::DecodeError)
    );
}

#[test]
fn decode_wrong_type_for_known_key() {
    assert_eq!(
        parse(&payload(r#"{"name":true,"description":"d","asset":"a"}"#)),
        Err(Error::DecodeError)
    );
    assert_eq!(
        parse(&payload(r#"{"name":"n","description":"d","asset":"a","timeable":"yes"}"#)),
        Err(Error::DecodeError)
    );
    assert_eq!(
        parse(&payload(r#"{"name":"n","description":"d","asset":"a","timestamp":"7"}"#)),
        Err(Error::DecodeError)
    );
}

#[test]
fn decode_structurally_invalid() {
    assert_eq!(parse(&payload("")), Err(Error::DecodeError));
    assert_eq!(parse(&payload("{}")), Err(Error::DecodeError));
    assert_eq!(parse(&payload("[1,2]")), Err(Error::DecodeError));
    assert_eq!(
        parse(&payload(r#"{"name":"n","description":"d","asset":"a""#)),
        Err(Error::DecodeError)
    );
    assert_eq!(
        parse(&payload(r#"{"name":"n","description":"d","asset":"a"}x"#)),
        Err(Error::DecodeError)
    );
    assert_eq!(
        parse(&payload(r#"{"name":"n\"","description":"d","asset":"a"}"#)),
        Err(Error::DecodeError)
    );
}

#[test]
fn decode_is_compact() {
    // The wire format is the compact one the encoder writes: no whitespace
    // between tokens.
    assert_eq!(
        parse(&payload(r#"{"name": "n", "description": "d", "asset": "a"}"#)),
        Err(Error::DecodeError)
    );
}

#[test]
fn decode_number_bounds() {
    let m = parse(&payload(
        r#"{"name":"n","description":"d","asset":"a","timestamp":18446744073709551615}"#,
    ))
    .unwrap();
    assert_eq!(m.expiry, Some(u64::MAX));
    assert_eq!(
        parse(&payload(
            r#"{"name":"n","description":"d","asset":"a","timestamp":18446744073709551616}"#
        )),
        Err(Error::DecodeError)
    );
}

#[test]
fn encode_exact_bytes() {
    let m = TokenMetadata {
        name: b"n".to_vec(),
        description: b"d".to_vec(),
        asset_uri: b"a".to_vec(),
        timeable: None,
        mergeable: Some(false),
        expiry: Some(9),
    };
    assert_eq!(
        encode(&m),
        br#"{"name":"n","description":"d","asset":"a","mergeable":false,"timestamp":9}"#.to_vec()
    );
}

#[test]
fn encode_parse_round_trip() {
    let m = TokenMetadata {
        name: b"Dappend Merged Nft".to_vec(),
        description: b"We merged 5,9 token ids".to_vec(),
        asset_uri: b"https://example.test/x".to_vec(),
        timeable: Some(true),
        mergeable: None,
        expiry: Some(100),
    };
    let back = parse(&encode(&m)).unwrap();
    assert_eq!(back.name, m.name);
    assert_eq!(back.description, m.description);
    assert_eq!(back.asset_uri, m.asset_uri);
    assert_eq!(back.timeable, m.timeable);
    assert_eq!(back.mergeable, m.mergeable);
    assert_eq!(back.expiry, m.expiry);
}

#[test]
fn decimal_rendering() {
    assert_eq!(u64_to_dec(0), b"0".to_vec());
    assert_eq!(u64_to_dec(5), b"5".to_vec());
    assert_eq!(u64_to_dec(10), b"10".to_vec());
    assert_eq!(u64_to_dec(987654321), b"987654321".to_vec());
    assert_eq!(u64_to_dec(u64::MAX), b"18446744073709551615".to_vec());
}

#[test]
fn comma_join() {
    assert_eq!(join_ids(&vec![]), b"".to_vec());
    assert_eq!(join_ids(&vec![5]), b"5".to_vec());
    assert_eq!(join_ids(&vec![5, 9]), b"5,9".to_vec());
    assert_eq!(join_ids(&vec![12, 0, 7]), b"12,0,7".to_vec());
}

#[test]
fn merged_metadata_contents() {
    let m = merged_nft_metadata(&vec![5, 9]);
    assert_eq!(m.name, b"Dappend Merged Nft".to_vec());
    assert_eq!(m.description, b"We merged 5,9 token ids".to_vec());
    assert_eq!(m.timeable, None);
    assert_eq!(m.mergeable, None);
    assert_eq!(m.expiry, None);
    let back = parse(&encode(&m)).unwrap();
    assert_eq!(back.description, m.description);
}
