use tuber_lib::parse::{get_bool, get_str, get_u64, parse_yaml_list, parse_yaml_map};

#[test]
fn test_parse_yaml_map() {
    let yaml = "---\nversion: 0.2.11\nuptime: 12345\ncurrent-jobs-ready: 42\n";
    let map = parse_yaml_map(yaml);
    assert_eq!(map.get("version"), Some("0.2.11"));
    assert_eq!(map.get("uptime"), Some("12345"));
    assert_eq!(map.get("current-jobs-ready"), Some("42"));
}

#[test]
fn test_parse_yaml_list() {
    let yaml = "---\n- default\n- emails\n- webhooks\n";
    let list = parse_yaml_list(yaml);
    assert_eq!(list, vec!["default", "emails", "webhooks"]);
}

#[test]
fn test_get_u64() {
    let yaml = "count: 42\nbad: notanumber\n";
    let map = parse_yaml_map(yaml);
    assert_eq!(get_u64(&map, "count"), 42);
    assert_eq!(get_u64(&map, "bad"), 0);
    assert_eq!(get_u64(&map, "missing"), 0);
}

#[test]
fn yaml_map_later_line_replaces_earlier() {
    let map = parse_yaml_map("name: first\nother: x\nname: second\n");
    assert_eq!(map.get("name"), Some("second"));
    assert_eq!(map.get("other"), Some("x"));
}

#[test]
fn yaml_map_trims_and_strips_quotes() {
    let map = parse_yaml_map("  key:   \"quoted value\"  \r\nplain:  \"\"\"x\"\"  \n");
    assert_eq!(map.get("key"), Some("quoted value"));
    assert_eq!(map.get("plain"), Some("x"));
}

#[test]
fn yaml_map_skips_markers_and_lines_without_separator() {
    let map = parse_yaml_map("--- a: b\nnot a pair\nk:v\nk2: v2");
    assert_eq!(map.get("--- a"), None);
    assert_eq!(map.get("not a pair"), None);
    assert_eq!(map.get("k"), None);
    assert_eq!(map.get("k2"), Some("v2"));
}

#[test]
fn yaml_map_splits_at_first_separator() {
    let map = parse_yaml_map("url: http: //x: y\n");
    assert_eq!(map.get("url"), Some("http: //x: y"));
}

#[test]
fn yaml_map_trims_unicode_whitespace() {
    let map = parse_yaml_map("\u{3000}key\u{a0}: \u{2003}value\u{85}\n");
    assert_eq!(map.get("key"), Some("value"));
}

#[test]
fn yaml_map_of_empty_text_is_empty() {
    let map = parse_yaml_map("");
    assert_eq!(map.get(""), None);
    let map = parse_yaml_map(": v\n");
    assert_eq!(map.get(""), Some("v"));
}

#[test]
fn yaml_list_trims_items_and_ignores_other_lines() {
    let list = parse_yaml_list("---\n-  padded  \r\n-x\n - indented\n- last");
    assert_eq!(list, vec!["padded", "last"]);
    assert!(parse_yaml_list("").is_empty());
}

#[test]
fn get_str_and_get_bool() {
    let map = parse_yaml_map("draining: true\nbinlog-enabled: false\nname: \"tuber\"\nodd: TRUE\n");
    assert_eq!(get_str(&map, "name"), "tuber");
    assert_eq!(get_str(&map, "missing"), "");
    assert!(get_bool(&map, "draining"));
    assert!(!get_bool(&map, "binlog-enabled"));
    assert!(!get_bool(&map, "odd"));
    assert!(!get_bool(&map, "missing"));
}

#[test]
fn get_u64_follows_unsigned_parse() {
    let map = parse_yaml_map(
        "plus: +7\nminus: -7\nmax: 18446744073709551615\nover: 18446744073709551616\nlead: 007\nspace: 1 2\n",
    );
    assert_eq!(get_u64(&map, "plus"), 7);
    assert_eq!(get_u64(&map, "minus"), 0);
    assert_eq!(get_u64(&map, "max"), u64::MAX);
    assert_eq!(get_u64(&map, "over"), 0);
    assert_eq!(get_u64(&map, "lead"), 7);
    assert_eq!(get_u64(&map, "space"), 0);
}

#[test]
fn list_of_joined_texts_is_joined_lists() {
    let a = "---\n- alpha\n";
    let b = "- beta\r\nnoise\n-  gamma ";
    let mut joined = parse_yaml_list(a);
    joined.extend(parse_yaml_list(b));
    assert_eq!(parse_yaml_list(&format!("{a}{b}")), joined);
    assert_eq!(joined, vec!["alpha", "beta", "gamma"]);
    assert_eq!(parse_yaml_list(&format!("{}{b}", "")), parse_yaml_list(b));
}

#[test]
fn map_of_joined_texts_prefers_the_second() {
    let a = "name: first\nuptime: 5\n";
    let b = "name: second\nos: linux";
    let map = parse_yaml_map(&format!("{a}{b}"));
    assert_eq!(map.get("name"), Some("second"));
    assert_eq!(map.get("uptime"), Some("5"));
    assert_eq!(map.get("os"), Some("linux"));
}
