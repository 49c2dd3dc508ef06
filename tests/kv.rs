use thumbor::kv::{parse_kv_pair, KvError};

#[test]
fn key_and_value() {
    let kv = parse_kv_pair("name=thumbor").unwrap();
    assert_eq!(kv.key, "name");
    assert_eq!(kv.value, "thumbor");
}

#[test]
fn value_stops_at_second_equals() {
    let kv = parse_kv_pair("a=b=c").unwrap();
    assert_eq!(kv.key, "a");
    assert_eq!(kv.value, "b");
}

#[test]
fn empty_key_or_value() {
    let kv = parse_kv_pair("=v").unwrap();
    assert_eq!((kv.key.as_str(), kv.value.as_str()), ("", "v"));
    let kv = parse_kv_pair("k=").unwrap();
    assert_eq!((kv.key.as_str(), kv.value.as_str()), ("k", ""));
}

#[test]
fn non_ascii_text_is_kept_whole() {
    let kv = parse_kv_pair("città=Zürich").unwrap();
    assert_eq!(kv.key, "città");
    assert_eq!(kv.value, "Zürich");
}

#[test]
fn missing_equals_is_refused() {
    for s in ["novalue", ""] {
        let e = parse_kv_pair(s).unwrap_err();
        assert_eq!(e, KvError { input: s.to_string() });
        assert_eq!(e.to_string(), format!("Failed to parse {}", s));
    }
}
