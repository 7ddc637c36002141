use std::str::FromStr;

use witness_generator::format::{decimal_string, push_hex};
use witness_generator::headers::{
    header_map_from_pairs, parse_header_arg, parse_header_args, HeaderError,
};

fn name_accepted(name: &str) -> bool {
    header_map_from_pairs(&vec![(name.to_string(), "v".to_string())]).is_ok()
}

fn value_accepted(value: &str) -> bool {
    header_map_from_pairs(&vec![("k".to_string(), value.to_string())]).is_ok()
}
use witness_generator::text::chars_of;

#[test]
fn decimal_text_of_numbers() {
    assert_eq!(decimal_string(0), "0");
    assert_eq!(decimal_string(7), "7");
    assert_eq!(decimal_string(10), "10");
    assert_eq!(decimal_string(21_000_000), "21000000");
    assert_eq!(decimal_string(u64::MAX), u64::MAX.to_string());
}

#[test]
fn hex_text_of_hashes() {
    let mut bytes = [0u8; 32];
    for (i, b) in bytes.iter_mut().enumerate() {
        *b = (i as u8).wrapping_mul(17);
    }
    let mut s = String::from("hash ");
    push_hex(&mut s, &bytes);
    let expected: String = bytes.iter().map(|b| format!("{:02x}", b)).collect();
    assert_eq!(s, format!("hash 0x{}", expected));
    assert_eq!(s.len(), 5 + 2 + 64);
}

#[test]
fn chars_of_keeps_every_character() {
    assert_eq!(chars_of("añb"), vec!['a', 'ñ', 'b']);
    assert!(chars_of("").is_empty());
}

#[test]
fn header_names_accepted_as_http_accepts() {
    let long_ok = "a".repeat(65535);
    let long_bad = "a".repeat(65536);
    let cases = [
        "X-Api-Key", "authorization", "content-type", "a!#$%&'*+-.^_`|~9", "", "bad name",
        "colon:name", "naïve", "tab\tname", "(paren)", long_ok.as_str(), long_bad.as_str(),
    ];
    for name in cases {
        assert_eq!(
            name_accepted(name),
            http::HeaderName::from_str(name).is_ok(),
            "name {:?}",
            name.chars().take(20).collect::<String>()
        );
    }
    assert!(name_accepted("X-Api-Key"));
    assert!(!name_accepted(""));
    assert!(!name_accepted(&long_bad));
}

#[test]
fn header_values_accepted_as_http_accepts() {
    let cases = ["Bearer abc", "", "tab\tok", "line\nbreak", "del\u{7f}", "é ünïcode", "\r", " lead"];
    for value in cases {
        assert_eq!(
            value_accepted(value),
            http::HeaderValue::from_str(value).is_ok(),
            "value {:?}",
            value
        );
    }
    assert!(!value_accepted("line\nbreak"));
}

#[test]
fn header_argument_splits_at_first_colon() {
    assert_eq!(parse_header_arg("Key:Value"), Ok(("Key".to_string(), "Value".to_string())));
    assert_eq!(parse_header_arg("a:b:c"), Ok(("a".to_string(), "b:c".to_string())));
    assert_eq!(parse_header_arg(":v"), Ok(("".to_string(), "v".to_string())));
    assert_eq!(parse_header_arg("k:"), Ok(("k".to_string(), "".to_string())));
    assert_eq!(
        parse_header_arg("novalue"),
        Err("invalid header format: 'novalue'. expected 'key:value'".to_string())
    );
}

#[test]
fn header_arguments_fail_on_first_bad_one() {
    let args = vec!["a:1".to_string(), "bad".to_string(), "worse".to_string()];
    assert_eq!(
        parse_header_args(&args),
        Err("invalid header format: 'bad'. expected 'key:value'".to_string())
    );
    let good = vec!["a:1".to_string(), "B:2:3".to_string()];
    assert_eq!(
        parse_header_args(&good),
        Ok(vec![("a".to_string(), "1".to_string()), ("B".to_string(), "2:3".to_string())])
    );
    assert_eq!(parse_header_args(&vec![]), Ok(vec![]));
}

#[test]
fn header_map_holds_lowercased_names() {
    let pairs = vec![
        ("X-Api-Key".to_string(), "secret".to_string()),
        ("Accept".to_string(), "a".to_string()),
        ("accept".to_string(), "b".to_string()),
    ];
    let map = header_map_from_pairs(&pairs).unwrap();
    assert_eq!(map.len(), 3);
    assert_eq!(map.get("x-api-key").unwrap(), "secret");
    let accepts: Vec<&str> = map.get_all("accept").iter().map(|v| v.to_str().unwrap()).collect();
    assert_eq!(accepts, vec!["a", "b"]);
    assert!(map.keys().all(|k| k.as_str() == k.as_str().to_lowercase()));
}

#[test]
fn header_map_refuses_first_invalid_pair() {
    let bad_name = vec![("ok".to_string(), "1".to_string()), ("bad name".to_string(), "\n".to_string())];
    assert_eq!(header_map_from_pairs(&bad_name).unwrap_err(), HeaderError::InvalidName);
    let bad_value = vec![("ok".to_string(), "line\nbreak".to_string()), ("bad name".to_string(), "x".to_string())];
    assert_eq!(header_map_from_pairs(&bad_value).unwrap_err(), HeaderError::InvalidValue);
    assert_eq!(HeaderError::InvalidName.message(), "invalid HTTP header name");
    assert_eq!(HeaderError::InvalidValue.message(), "failed to parse header value");
    assert_eq!(
        HeaderError::InvalidName.message(),
        http::HeaderName::from_str("bad name").unwrap_err().to_string()
    );
    assert_eq!(
        HeaderError::InvalidValue.message(),
        http::HeaderValue::from_str("\n").unwrap_err().to_string()
    );
}

#[test]
fn header_map_of_no_pairs_is_empty() {
    assert!(header_map_from_pairs(&vec![]).unwrap().is_empty());
}

#[test]
fn repeated_name_keeps_values_in_order() {
    let pairs = vec![
        ("X-A".to_string(), "first".to_string()),
        ("x-b".to_string(), "other".to_string()),
        ("x-a".to_string(), "second".to_string()),
        ("X-a".to_string(), "third".to_string()),
    ];
    let map = header_map_from_pairs(&pairs).unwrap();
    assert_eq!(map.get("x-a").unwrap(), "first");
    let all: Vec<&str> = map.get_all("x-a").iter().map(|v| v.to_str().unwrap()).collect();
    assert_eq!(all, vec!["first", "second", "third"]);
    assert_eq!(map.keys_len(), 2);
}

#[test]
fn many_values_under_one_name_are_accepted() {
    let pairs: Vec<(String, String)> = (0..7000).map(|i| ("same".to_string(), i.to_string())).collect();
    let map = header_map_from_pairs(&pairs).unwrap();
    assert_eq!(map.get_all("same").iter().count(), 7000);
}
