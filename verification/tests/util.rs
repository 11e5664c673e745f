use abbr::error::Error;
use abbr::util::{alias_to_pair, param_to_pair, parse_count, split_once, str_eq};

#[test]
fn alias_splits_at_first_delimiter() {
    assert_eq!(alias_to_pair("docker=dk").unwrap(), ("docker", "dk"));
    assert_eq!(alias_to_pair("a=b=c").unwrap(), ("a", "b=c"));
    assert_eq!(alias_to_pair("=x").unwrap(), ("", "x"));
    assert_eq!(alias_to_pair("x=").unwrap(), ("x", ""));
    assert_eq!(alias_to_pair("git tag -d=gtd").unwrap(), ("git tag -d", "gtd"));
}

#[test]
fn alias_without_delimiter_is_invalid() {
    assert!(matches!(alias_to_pair("docker"), Err(Error::InvalidAliasFormat)));
    assert!(matches!(alias_to_pair(""), Err(Error::InvalidAliasFormat)));
}

#[test]
fn alias_with_wide_characters_splits_by_character() {
    assert_eq!(alias_to_pair("héllo wörld=hw").unwrap(), ("héllo wörld", "hw"));
    assert_eq!(alias_to_pair("日本=語").unwrap(), ("日本", "語"));
}

#[test]
fn param_reads_key_and_count() {
    assert_eq!(param_to_pair("a/3"), Some(("a", 3)));
    assert_eq!(param_to_pair("add/0"), Some(("add", 0)));
    assert_eq!(param_to_pair("/12"), Some(("", 12)));
    assert_eq!(param_to_pair("a/+3"), Some(("a", 3)));
    assert_eq!(param_to_pair("a/007"), Some(("a", 7)));
}

#[test]
fn param_without_valid_count_is_none() {
    assert_eq!(param_to_pair("a"), None);
    assert_eq!(param_to_pair("a/"), None);
    assert_eq!(param_to_pair("a/x"), None);
    assert_eq!(param_to_pair("a/-1"), None);
    assert_eq!(param_to_pair("a/1/2"), None);
    assert_eq!(param_to_pair("a/1 "), None);
    assert_eq!(param_to_pair("a/+"), None);
    assert_eq!(param_to_pair("a/٣"), None);
}

#[test]
fn count_agrees_with_the_standard_parser() {
    let max = usize::MAX.to_string();
    let over = format!("{}0", max);
    let mut samples: Vec<String> = vec![
        "".into(),
        "0".into(),
        "1".into(),
        "+".into(),
        "+0".into(),
        "++1".into(),
        "-0".into(),
        "12a".into(),
        " 1".into(),
        "1_0".into(),
        "0000000000000000000000000000000000012".into(),
        max.clone(),
        format!("+{}", max),
        over,
        "18446744073709551616".into(),
        "99999999999999999999999999".into(),
    ];
    for n in 0..300usize {
        samples.push(n.to_string());
    }
    for s in samples {
        assert_eq!(parse_count(&s), s.parse::<usize>().ok(), "input {:?}", s);
    }
}

#[test]
fn count_at_the_limit() {
    assert_eq!(parse_count(&usize::MAX.to_string()), Some(usize::MAX));
    assert_eq!(parse_count("18446744073709551615"), "18446744073709551615".parse::<usize>().ok());
}

#[test]
fn split_once_agrees_with_the_standard_one() {
    for s in ["", "/", "a/b", "a/b/c", "//", "no slash", "é/ü", "x/"] {
        assert_eq!(split_once(s, '/'), s.split_once('/'), "input {:?}", s);
    }
}

#[test]
fn strings_compare_by_content() {
    assert!(str_eq("", ""));
    assert!(str_eq("abc", "abc"));
    assert!(!str_eq("abc", "abd"));
    assert!(!str_eq("abc", "ab"));
    assert!(!str_eq("ab", "abc"));
    assert!(str_eq("héllo", "héllo"));
}
