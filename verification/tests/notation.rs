use fwos::documents::{read_toml, to_json};
use fwos::ip::{cidr, read, write_ip, IpAddr};
use fwos::json::{encode, equal, parse, Json};
use fwos::text::{
    cut, digits_of, head, holds, joined, lines_of, parse_number, parts, precedes, print, rcut, sort_texts, strip,
    trimmed, words_of, write_lines,
};

#[test]
fn addresses_are_read_and_written() {
    for (raw, shown) in [
        ("10.0.2.15", "10.0.2.15"),
        ("0.0.0.0", "0.0.0.0"),
        ("255.255.255.255", "255.255.255.255"),
        ("::", "::"),
        ("::1", "::1"),
        ("fd53:1:1:0:0:0:0:6", "fd53:1:1::6"),
        ("FD53:0001::1", "fd53:1::1"),
        ("1:0:0:2:0:0:0:3", "1:0:0:2::3"),
        ("1:2:3:4:5:6:7:8", "1:2:3:4:5:6:7:8"),
        ("::ffff:10.0.0.1", "::ffff:10.0.0.1"),
    ] {
        assert_eq!(write_ip(read(raw).unwrap()), shown, "{raw}");
    }
    for raw in [
        "", "1.2.3", "1.2.3.4.5", "01.2.3.4", "256.1.1.1", "1.2.3.4 ", ":", ":::", "1::2::3", "12345::", "1:2:3:4:5:6:7",
        "1:2:3:4:5:6:7:8:9", "::g", "fe80::1%eth0", "1:2:3:4:5:6:7:8::",
    ] {
        assert_eq!(read(raw), None, "{raw}");
    }
    assert_eq!(read("1.2.3.4"), Some(IpAddr::V4(0x0102_0304)));
}

#[test]
fn written_addresses_read_back() {
    for ip in [
        IpAddr::V4(0),
        IpAddr::V4(0x0a00_020f),
        IpAddr::V6(0),
        IpAddr::V6(1),
        IpAddr::V6(1 << 127),
        IpAddr::V6(0xffff_0a00_0001),
        IpAddr::V6(0x0001_0000_0000_0002_0000_0000_0000_0003),
        IpAddr::V6(u128::MAX),
    ] {
        assert_eq!(read(&write_ip(ip)), Some(ip));
        assert_eq!(cidr(&format!("{}/17", write_ip(ip))), Some((ip, 17)));
    }
}

#[test]
fn prefixes_are_read() {
    assert_eq!(cidr("10.0.0.0/8"), Some((IpAddr::V4(0x0a00_0000), 8)));
    assert_eq!(cidr("::/128"), Some((IpAddr::V6(0), 128)));
    assert_eq!(cidr("10.0.0.0/33"), None);
    assert_eq!(cidr("::/129"), None);
    assert_eq!(cidr("10.0.0.0"), None);
    assert_eq!(cidr("10.0.0.0/x"), None);
}

#[test]
fn texts_are_taken_apart() {
    assert_eq!(cut("a=b=c", '='), Some(("a".into(), "b=c".into())));
    assert_eq!(cut("abc", '='), None);
    assert_eq!(rcut("a.b.c", '.'), Some(("a.b".into(), "c".into())));
    assert_eq!(head("a/b", '/'), "a");
    assert_eq!(head("ab", '/'), "ab");
    assert_eq!(parts("a,,b", ','), vec!["a", "", "b"]);
    assert_eq!(parts("", ','), vec![""]);
    assert_eq!(words_of(" a\t b\n"), vec!["a", "b"]);
    assert_eq!(lines_of("a\r\n\nb"), vec!["a", "", "b"]);
    assert_eq!(lines_of("a\n"), vec!["a"]);
    assert_eq!(trimmed("\u{a0} a b \n"), "a b");
    assert_eq!(strip("docker://x", "docker://"), "x");
    assert!(holds("abcabd", "abd"));
    assert!(!holds("abc", "ac"));
}

#[test]
fn texts_are_put_together() {
    assert_eq!(joined(&vec!["a".into(), "b".into()], ", "), "a, b");
    assert_eq!(joined(&vec![], ", "), "");
    assert_eq!(write_lines(&vec!["a".into(), "b".into()]), "a\nb\n");
    assert_eq!(print(0), "0");
    assert_eq!(print(u64::MAX), "18446744073709551615");
    assert_eq!(digits_of(255, 16), "ff");
}

#[test]
fn numbers_are_read() {
    assert_eq!(parse_number("42", 100), Some(42));
    assert_eq!(parse_number("+42", 100), Some(42));
    assert_eq!(parse_number("007", 100), Some(7));
    assert_eq!(parse_number("101", 100), None);
    assert_eq!(parse_number("", 100), None);
    assert_eq!(parse_number("+", 100), None);
    assert_eq!(parse_number("-1", 100), None);
    assert_eq!(parse_number("4 2", 100), None);
    assert_eq!(parse_number("18446744073709551615", u64::MAX), Some(u64::MAX));
    assert_eq!(parse_number("18446744073709551616", u64::MAX), None);
}

#[test]
fn texts_are_sorted() {
    let v: Vec<String> = ["b", "a", "ab", "", "\u{e9}", "a"].iter().map(|s| s.to_string()).collect();
    let mut expected = v.clone();
    expected.sort();
    assert_eq!(sort_texts(&v), expected);
    assert!(precedes("a", "ab"));
    assert!(!precedes("b", "ab"));
}

#[test]
fn sign_of_zero_does_not_count() {
    let v = parse(br#"{"a":[0.0,{"b":-0.0}]}"#).unwrap();
    assert!(equal(&v, &parse(br#"{"a":[-0.0,{"b":0.0}]}"#).unwrap()));
    assert!(equal(&v, &parse(br#"{"a":[-0,{"b":0e3}]}"#).unwrap()));
    assert!(!equal(&v, &parse(br#"{"a":[0,{"b":0.0}]}"#).unwrap()));
    assert!(!equal(&v, &parse(br#"{"a":[0.0,{"b":0.5}]}"#).unwrap()));
    assert_eq!(encode(&v), r#"{"a":[0.0,{"b":-0.0}]}"#);
}

#[test]
fn negative_integers_keep_their_text() {
    for text in ["-1", "-10", "-9223372036854775808"] {
        let v = parse(text.as_bytes()).unwrap();
        assert!(matches!(&v, Json::Numeral(s) if s == text));
        assert_eq!(encode(&v), text);
        assert_eq!(encode(&Json::Numeral(text.into())), text);
    }
}

#[test]
fn documents_are_read_and_written() {
    let v = parse(br#" {"b":[1,-2,1.5,null,true],"a":"y","a":"x"} "#).unwrap();
    assert_eq!(v.text_member("a"), Some("x"));
    let l = v.get("b").unwrap().as_list().unwrap();
    assert_eq!(l[0].as_u64(), Some(1));
    assert!(matches!(&l[1], Json::Numeral(s) if s == "-2"));
    assert_eq!(l[4].as_bool(), Some(true));
    assert_eq!(encode(&v), r#"{"a":"x","b":[1,-2,1.5,null,true]}"#);
    assert!(parse(b"{").is_err());
    assert!(parse(b"").is_err());
    assert!(v.get("c").is_none());
    assert!(equal(&v, &v.clone()));
    let reordered = parse(br#"{"a":"x","b":[1,-2,1.5,null,true]}"#).unwrap();
    assert!(equal(&v, &reordered));
    assert!(!equal(&v, &Json::Null));
    let built = Json::object().with("k", Json::texts(&vec!["q\"".into()])).with("n", Json::Natural(7));
    assert_eq!(encode(&built), r#"{"k":["q\""],"n":7}"#);
    assert_eq!(encode(&built.with("n", Json::text_or_null(&None))), r#"{"k":["q\""],"n":null}"#);
}

#[test]
fn toml_is_read_as_json() {
    let v = read_toml("a = 1\n[b]\nc = [\"x\"]\nd = true\ne = 1.5\n").unwrap();
    assert_eq!(encode(&v), r#"{"a":1,"b":{"c":["x"],"d":true,"e":1.5}}"#);
    assert!(read_toml("a = ").is_none());
    assert_eq!(to_json("a = 1").unwrap(), r#"{"a":1}"#);
    // The members come in the order of their keys, tables among them.
    assert_eq!(
        to_json("z = -2\nb = 1\n[[a]]\nx = 2.5\n[c]\nd = [\"y\"]\n").unwrap(),
        r#"{"a":[{"x":2.5}],"b":1,"c":{"d":["y"]},"z":-2}"#
    );
    assert_eq!(to_json("\n {}").unwrap(), "\n {}");
    assert!(to_json("=").unwrap_err().starts_with("parse TOML Desired state: "));
}
