use query_string::split;
use query_string::FormUrlDecoded;
use query_string::FromQueryString;
use query_string::FromQueryStringError;
use query_string::NoopQueryStringExtractor;
use query_string::QueryStringExtractor;

fn values_of(raw: &[&str]) -> Vec<FormUrlDecoded> {
    let mut out = Vec::new();
    for r in raw {
        out.push(FormUrlDecoded::new(r).expect("test value must decode"));
    }
    out
}

fn vals(res: Option<&Vec<FormUrlDecoded>>) -> Vec<String> {
    res.expect("key must be present").iter().map(|v| v.val().to_string()).collect()
}

#[test]
fn split_none_yields_no_keys() {
    let res = split(None);
    assert!(!res.contains_key("key"));
    assert!(!res.contains_key(""));
    assert!(res.get("anything").is_none());
}

#[test]
fn split_two_distinct_keys() {
    let res = split(Some("key=val&key2=val"));
    assert_eq!(vals(res.get("key")), ["val"]);
    assert_eq!(vals(res.get("key2")), ["val"]);
}

#[test]
fn split_percent_decodes_keys_and_values() {
    let res = split(Some("k%65y=val&key=%76al+2"));
    assert_eq!(vals(res.get("key")), ["val", "val 2"]);
}

#[test]
fn split_keeps_empty_value() {
    let res = split(Some("key=val&key2="));
    assert_eq!(vals(res.get("key")), ["val"]);
    assert_eq!(vals(res.get("key2")), [""]);
    assert!(res.contains_key("key2"));
}

#[test]
fn split_drops_pair_without_separator() {
    let res = split(Some("flag&key=val"));
    assert!(res.contains_key("key"));
    assert!(!res.contains_key("flag"));
    assert!(res.get("flag").is_none());
}

#[test]
fn split_repeated_key_keeps_order() {
    let res = split(Some("a=1&b=2&a=3"));
    assert_eq!(vals(res.get("a")), ["1", "3"]);
    assert_eq!(vals(res.get("b")), ["2"]);
}

#[test]
fn split_value_decode_failure_keeps_key() {
    let res = split(Some("key=%FF"));
    assert!(res.contains_key("key"));
    assert_eq!(res.get("key").unwrap().len(), 0);

    let res = split(Some("key=%FF&key=ok"));
    assert_eq!(vals(res.get("key")), ["ok"]);
}

#[test]
fn split_key_decode_failure_drops_pair() {
    let res = split(Some("%FF=x&b=2"));
    assert!(!res.contains_key("\u{FFFD}"));
    assert_eq!(vals(res.get("b")), ["2"]);
}

#[test]
fn split_keeps_extra_equals_in_value() {
    let res = split(Some("a=b=c"));
    assert_eq!(vals(res.get("a")), ["b=c"]);
}

#[test]
fn split_incomplete_escapes_pass_through() {
    let res = split(Some("a=%4&b=%zz&c=%41"));
    assert_eq!(vals(res.get("a")), ["%4"]);
    assert_eq!(vals(res.get("b")), ["%zz"]);
    assert_eq!(vals(res.get("c")), ["A"]);
}

#[test]
fn split_empty_string_has_no_keys() {
    let res = split(Some(""));
    assert!(!res.contains_key(""));
}

#[test]
fn add_unmapped_segment_inserts_empty_sequence() {
    let mut res = split(None);
    res.add_unmapped_segment("opt");
    assert!(res.contains_key("opt"));
    assert_eq!(res.get("opt").unwrap().len(), 0);
}

#[test]
fn add_unmapped_segment_decodes_key() {
    let mut res = split(None);
    res.add_unmapped_segment("ke%79");
    assert!(res.contains_key("key"));
}

#[test]
fn add_unmapped_segment_keeps_existing_values() {
    let mut res = split(Some("k=v"));
    res.add_unmapped_segment("k");
    assert_eq!(vals(res.get("k")), ["v"]);
}

#[test]
fn add_unmapped_segment_ignores_undecodable_key() {
    let mut res = split(None);
    res.add_unmapped_segment("%FF");
    assert!(!res.contains_key("%FF"));
    assert!(!res.contains_key("\u{FFFD}"));
}

#[test]
fn form_url_decode_handles_plus_and_escapes() {
    assert_eq!(query_string::form_url_decode("a+b%21").unwrap(), "a b!");
    assert_eq!(query_string::form_url_decode("%E2%82%AC").unwrap(), "\u{20AC}");
    assert!(query_string::form_url_decode("%FF").is_none());
}

#[test]
fn form_url_decoded_new_and_val() {
    let v = FormUrlDecoded::new("%61+b").unwrap();
    assert_eq!(v.val(), "a b");
    assert!(FormUrlDecoded::new("%FF").is_none());
}

#[test]
fn string_conversion_takes_exactly_one_value() {
    let one = values_of(&["hello"]);
    assert_eq!(String::from_query_string("k", &one).unwrap(), "hello");

    let none: Vec<FormUrlDecoded> = Vec::new();
    let err = String::from_query_string("k", &none).unwrap_err();
    assert_eq!(err.description(), "Invalid number of values");

    let two = values_of(&["a", "b"]);
    let err = String::from_query_string("k", &two).unwrap_err();
    assert_eq!(err.description(), "Invalid number of values");
}

#[test]
fn bool_conversion() {
    assert!(bool::from_query_string("k", &values_of(&["true"])).unwrap());
    assert!(!bool::from_query_string("k", &values_of(&["false"])).unwrap());
    assert!(bool::from_query_string("k", &values_of(&["TRUE"])).is_err());
    assert!(bool::from_query_string("k", &values_of(&[""])).is_err());
    assert!(bool::from_query_string("k", &values_of(&["true", "true"])).is_err());
}

#[test]
fn unsigned_conversions() {
    assert_eq!(u8::from_query_string("k", &values_of(&["42"])).unwrap(), 42);
    assert_eq!(u8::from_query_string("k", &values_of(&["%2B42"])).unwrap(), 42);
    assert_eq!(u8::from_query_string("k", &values_of(&["007"])).unwrap(), 7);
    assert!(u8::from_query_string("k", &values_of(&["256"])).is_err());
    assert!(u8::from_query_string("k", &values_of(&["-1"])).is_err());
    assert!(u8::from_query_string("k", &values_of(&["4 2"])).is_err());
    assert!(u8::from_query_string("k", &values_of(&[""])).is_err());

    assert_eq!(u16::from_query_string("k", &values_of(&["65535"])).unwrap(), 65535);
    assert_eq!(u32::from_query_string("k", &values_of(&["70000"])).unwrap(), 70000);
    assert_eq!(
        u64::from_query_string("k", &values_of(&["18446744073709551615"])).unwrap(),
        u64::MAX
    );
    assert!(u64::from_query_string("k", &values_of(&["18446744073709551616"])).is_err());
    assert_eq!(usize::from_query_string("k", &values_of(&["123"])).unwrap(), 123);
}

#[test]
fn signed_conversions() {
    assert_eq!(i8::from_query_string("k", &values_of(&["-128"])).unwrap(), -128);
    assert!(i8::from_query_string("k", &values_of(&["128"])).is_err());
    assert_eq!(i16::from_query_string("k", &values_of(&["-30000"])).unwrap(), -30000);
    assert_eq!(i32::from_query_string("k", &values_of(&["-123"])).unwrap(), -123);
    assert_eq!(i32::from_query_string("k", &values_of(&["%2B5"])).unwrap(), 5);
    assert!(i32::from_query_string("k", &values_of(&["2147483648"])).is_err());
    assert_eq!(
        i32::from_query_string("k", &values_of(&["-2147483648"])).unwrap(),
        i32::MIN
    );
    assert_eq!(i64::from_query_string("k", &values_of(&["-9000000000"])).unwrap(), -9000000000);
    assert_eq!(isize::from_query_string("k", &values_of(&["-7"])).unwrap(), -7);
    assert!(isize::from_query_string("k", &values_of(&["--7"])).is_err());
}

#[test]
fn scalar_arity_is_always_checked() {
    let none: Vec<FormUrlDecoded> = Vec::new();
    let two = values_of(&["1", "2"]);
    assert_eq!(
        u32::from_query_string("k", &none).unwrap_err().description(),
        "Invalid number of values"
    );
    assert_eq!(
        u32::from_query_string("k", &two).unwrap_err().description(),
        "Invalid number of values"
    );
    assert!(bool::from_query_string("k", &none).is_err());
    assert!(String::from_query_string("k", &none).is_err());
    assert!(i64::from_query_string("k", &two).is_err());
}

#[test]
fn optional_conversion_absent_on_empty() {
    let none: Vec<FormUrlDecoded> = Vec::new();
    assert_eq!(Option::<u8>::from_query_string("k", &none).unwrap(), None);
    assert_eq!(Option::<String>::from_query_string("k", &none).unwrap(), None);
    assert_eq!(Option::<bool>::from_query_string("k", &none).unwrap(), None);
}

#[test]
fn optional_conversion_delegates_when_present() {
    assert_eq!(Option::<u8>::from_query_string("k", &values_of(&["7"])).unwrap(), Some(7));
    assert!(Option::<u8>::from_query_string("k", &values_of(&["x"])).is_err());
    assert!(Option::<u8>::from_query_string("k", &values_of(&["1", "2"])).is_err());
}

#[test]
fn repeated_conversion_collects_in_order() {
    let out = Vec::<u8>::from_query_string("k", &values_of(&["1", "2", "3"])).unwrap();
    assert_eq!(out, vec![1, 2, 3]);

    let empty: Vec<FormUrlDecoded> = Vec::new();
    let out = Vec::<u8>::from_query_string("k", &empty).unwrap();
    assert!(out.is_empty());

    assert!(Vec::<u8>::from_query_string("k", &values_of(&["1", "x"])).is_err());
}

#[test]
fn repeated_conversion_over_split_output() {
    let res = split(Some("a=3&b=9&a=1"));
    let out = Vec::<String>::from_query_string("a", res.get("a").unwrap()).unwrap();
    assert_eq!(out, vec!["3".to_string(), "1".to_string()]);
    let nums = Vec::<i32>::from_query_string("a", res.get("a").unwrap()).unwrap();
    assert_eq!(nums, vec![3, 1]);
}

#[test]
fn optional_of_repeated_composes() {
    let none: Vec<FormUrlDecoded> = Vec::new();
    assert_eq!(Option::<Vec<u8>>::from_query_string("k", &none).unwrap(), None);
    assert_eq!(
        Option::<Vec<u8>>::from_query_string("k", &values_of(&["1", "2"])).unwrap(),
        Some(vec![1, 2])
    );
}

#[test]
fn conversion_error_keeps_parser_description() {
    let err: FromQueryStringError =
        u8::from_query_string("k", &values_of(&["abc"])).unwrap_err();
    assert!(!err.description().is_empty());
    assert_ne!(err.description(), "Invalid number of values");
}

#[test]
fn noop_extractor_always_succeeds() {
    assert!(NoopQueryStringExtractor::extract(None).is_ok());
    assert!(NoopQueryStringExtractor::extract(Some("a=1&b=2")).is_ok());
    assert!(NoopQueryStringExtractor::extract(Some("%%%garbage")).is_ok());
}

#[test]
fn split_empty_key_is_a_key() {
    let res = split(Some("=x"));
    assert!(res.contains_key(""));
    assert_eq!(vals(res.get("")), ["x"]);
}

#[test]
fn split_escaped_equals_stays_in_key() {
    let res = split(Some("a%3Db=c"));
    assert_eq!(vals(res.get("a=b")), ["c"]);
    assert!(!res.contains_key("a"));
}
