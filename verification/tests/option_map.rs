use sudo_plugin::{Error, OptionMap};

#[test]
fn new_parses_simple_keys() {
    let map = OptionMap::new(vec![b"key1=value1".to_vec(), b"key2=value2".to_vec()]);

    assert_eq!(Some("value1"), map.get_str("key1"));
    assert_eq!(Some("value2"), map.get_str("key2"));
    assert_eq!(None, map.get_str("key3"));
}

#[test]
fn lookup_returns_supplied_value() {
    let map = OptionMap::new(vec![
        b"alpha=one".to_vec(),
        b"beta=two".to_vec(),
        b"gamma=three".to_vec(),
    ]);

    assert_eq!(Some("one"), map.get_str("alpha"));
    assert_eq!(Some("two"), map.get_str("beta"));
    assert_eq!(Some("three"), map.get_str("gamma"));
}

#[test]
fn value_may_contain_separator() {
    let map = OptionMap::new(vec![b"a=b=c".to_vec()]);

    assert_eq!(Some("b=c"), map.get_str("a"));
}

#[test]
fn empty_value_is_kept() {
    let map = OptionMap::new(vec![b"key=".to_vec()]);

    assert_eq!(Some(""), map.get_str("key"));
}

#[test]
fn duplicate_key_keeps_last_value() {
    let map = OptionMap::new(vec![b"key=first".to_vec(), b"key=second".to_vec()]);

    assert_eq!(Some("second"), map.get_str("key"));
}

#[test]
fn token_without_separator_maps_to_itself() {
    let map = OptionMap::new(vec![b"standalone".to_vec()]);

    assert_eq!(Some("standalone"), map.get_str("standalone"));
    assert_eq!(
        Some(b"standalone".as_slice()),
        map.get_bytes(b"standalone")
    );
}

#[test]
fn no_tokens_make_an_empty_map() {
    let map = OptionMap::new(vec![]);

    assert_eq!(None, map.get_str("anything"));
    assert_eq!(None, map.get_bytes(b"anything"));
    assert!(map.get::<String>("anything").is_err());
}

#[test]
fn default_map_is_empty() {
    let map = OptionMap::default();

    assert_eq!(None, map.get_str("key"));
    assert_eq!(None, map.get_bytes(b"key"));
}

#[test]
fn get_bytes_returns_raw_bytes() {
    let mut token = b"binary=".to_vec();
    token.push(0xff);
    token.push(0xfe);
    let map = OptionMap::new(vec![token]);

    assert_eq!(Some([0xff, 0xfe].as_slice()), map.get_bytes(b"binary"));
    assert_eq!(None, map.get_str("binary"));
}

#[test]
fn get_parses_typed_values() {
    let map = OptionMap::new(vec![b"count=42".to_vec(), b"flag=true".to_vec()]);

    assert_eq!(42, map.get::<u64>("count").unwrap());
    assert!(map.get::<bool>("flag").unwrap());
    assert_eq!("42", map.get::<String>("count").unwrap());
}

#[test]
fn get_u64_bounds() {
    let map = OptionMap::new(vec![
        b"max=18446744073709551615".to_vec(),
        b"over=18446744073709551616".to_vec(),
        b"zero=0".to_vec(),
    ]);

    assert_eq!(u64::MAX, map.get::<u64>("max").unwrap());
    assert!(matches!(map.get::<u64>("over"), Err(Error::ParseError(_))));
    assert_eq!(0, map.get::<u64>("zero").unwrap());
}

#[test]
fn get_reports_missing_key() {
    let map = OptionMap::new(vec![b"present=1".to_vec()]);

    let err = map.get::<u64>("absent").unwrap_err();
    assert!(matches!(&err, Error::MissingOption(k) if k == "absent"));
    assert_eq!("absent", err.key().as_str());
}

#[test]
fn get_reports_bad_encoding() {
    let mut token = b"binary=".to_vec();
    token.push(0xff);
    let map = OptionMap::new(vec![token]);

    let err = map.get::<String>("binary").unwrap_err();
    assert!(matches!(&err, Error::EncodingError(k) if k == "binary"));
}

#[test]
fn get_reports_parse_failure() {
    let map = OptionMap::new(vec![b"count=abc".to_vec()]);

    let err = map.get::<u64>("count").unwrap_err();
    assert!(matches!(&err, Error::ParseError(k) if k == "count"));
}
