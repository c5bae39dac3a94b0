use zkbinfo::killmail::IdHashBinary;

#[test]
fn test_try_from_fail_on_invalid_hex_number() {
    let value = IdHashBinary::try_from((42, "1a3"));
    assert!(value.is_err());
    assert_eq!(value.unwrap_err(), IdHashBinary::ERR_DECODE);
}

#[test]
fn test_try_from_fail_on_too_short_hash() {
    let value = IdHashBinary::try_from((42, "1a38d4921711476e5ea304f799a1552b4d2e5d"));
    assert!(value.is_err());
    assert_eq!(value.unwrap_err(), IdHashBinary::ERR_ARRAY);
}

#[test]
fn test_try_from_fail_on_too_long_hash() {
    let value = IdHashBinary::try_from((42, "1a38d4921711476e5ea304f799a1552b4d2e5d2828"));
    assert!(value.is_err());
    assert_eq!(value.unwrap_err(), IdHashBinary::ERR_ARRAY);
}

#[test]
fn test_try_from() {
    let res = IdHashBinary::try_from((42, "1a38d4921711476e5ea304f799a1552b4d2e5d28"));
    assert!(res.is_ok());
    let value = res.unwrap();
    assert_eq!(42, value.get_id());
    assert_eq!(
        "1a38d4921711476e5ea304f799a1552b4d2e5d28",
        IdHashBinary::hash_to_string(&value.get_hash()[..])
    );
}

#[test]
fn hash_bytes_follow_the_digits() {
    let value = IdHashBinary::try_from((7, "00ff10AB00000000000000000000000000000001")).unwrap();
    let hash = value.get_hash();
    assert_eq!(hash[0], 0x00);
    assert_eq!(hash[1], 0xff);
    assert_eq!(hash[2], 0x10);
    assert_eq!(hash[3], 0xab);
    assert_eq!(hash[19], 0x01);
}

#[test]
fn hash_to_string_writes_lower_case_pairs() {
    assert_eq!(IdHashBinary::hash_to_string(&[0x01, 0xab, 0xff]), "01abff");
    assert_eq!(IdHashBinary::hash_to_string(&[]), "");
}

#[test]
fn string_to_hash_decodes_or_refuses() {
    assert_eq!(IdHashBinary::string_to_hash(String::from("0aFF")), Ok(vec![0x0a, 0xff]));
    assert_eq!(IdHashBinary::string_to_hash(String::from("0aF")), Err(IdHashBinary::ERR_DECODE));
    assert_eq!(IdHashBinary::string_to_hash(String::from("zz")), Err(IdHashBinary::ERR_DECODE));
}
