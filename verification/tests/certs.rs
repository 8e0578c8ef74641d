use verilib_structure::certs::cert_file_name;
use verilib_structure::certs::cert_subject;
use verilib_structure::certs::create_cert;
use verilib_structure::certs::decode_name;
use verilib_structure::certs::delete_cert;
use verilib_structure::certs::encode_name;
use verilib_structure::certs::get_existing_certs;
use verilib_structure::certs::Cert;
use verilib_structure::name_set::NameSet;

fn names(list: &[&str]) -> Vec<String> {
    list.iter().map(|s| s.to_string()).collect()
}

#[test]
fn encode_escapes_everything_but_letters_and_digits() {
    assert_eq!(encode_name("abcXYZ019"), "abcXYZ019");
    assert_eq!(encode_name("foo bar?"), "foo%20bar%3F");
    assert_eq!(encode_name("a/b:c#d()"), "a%2Fb%3Ac%23d%28%29");
    assert_eq!(encode_name("_-.~"), "%5F%2D%2E%7E");
    assert_eq!(encode_name(""), "");
}

#[test]
fn encode_escapes_each_byte_of_a_unicode_character() {
    assert_eq!(encode_name("é"), "%C3%A9");
    assert_eq!(encode_name("💖"), "%F0%9F%92%96");
}

#[test]
fn decode_accepts_both_cases_of_hex_digits() {
    assert_eq!(decode_name("foo%20bar%3f"), "foo bar?");
    assert_eq!(decode_name("foo%20bar%3F"), "foo bar?");
}

#[test]
fn decode_leaves_incomplete_escapes_alone() {
    assert_eq!(decode_name("100%"), "100%");
    assert_eq!(decode_name("%4"), "%4");
    assert_eq!(decode_name("%zz"), "%zz");
    assert_eq!(decode_name("%%41"), "%A");
}

#[test]
fn decode_replaces_malformed_utf8() {
    assert_eq!(decode_name("%00%9F%92%96"), "\u{0}\u{fffd}\u{fffd}\u{fffd}");
}

#[test]
fn round_trip_gives_the_name_back() {
    for name in [
        "",
        "plain",
        "probe:curve25519-dalek/4.1.3/scalar/Scalar#from_bytes_mod_order()",
        "a/b:c#d()",
        "naïve café",
        "日本語",
        "💖 heart",
        "100% sure",
        "%41",
        "tab\tnewline\n",
    ] {
        assert_eq!(decode_name(&encode_name(name)), name);
    }
}

#[test]
fn cert_file_name_appends_the_extension() {
    assert_eq!(cert_file_name("a/b"), "a%2Fb.json");
    assert_eq!(cert_file_name(""), ".json");
}

#[test]
fn cert_subject_takes_only_json_files() {
    assert_eq!(cert_subject("a%2Fb.json"), Some("a/b".to_string()));
    assert_eq!(cert_subject("a%2Fb.txt"), None);
    assert_eq!(cert_subject("json"), None);
    assert_eq!(cert_subject(".json"), None);
    assert_eq!(cert_subject("x.json.bak"), None);
    assert_eq!(cert_subject("x.y.json"), Some("x.y".to_string()));
}

#[test]
fn existing_certs_ignore_foreign_files() {
    let files = names(&["f1.json", "README.md", "a%2Fb.json", ".json", "f1.json"]);
    let certs = get_existing_certs(&files);
    assert_eq!(certs.to_names(), names(&["a/b", "f1"]));
}

#[test]
fn existing_certs_of_an_empty_directory() {
    let certs = get_existing_certs(&Vec::new());
    assert_eq!(certs.len(), 0);
}

#[test]
fn create_cert_is_allowed_twice() {
    let mut certs = NameSet::new();
    assert_eq!(create_cert(&mut certs, "m#f()"), "m%23f%28%29.json");
    assert_eq!(create_cert(&mut certs, "m#f()"), "m%23f%28%29.json");
    assert_eq!(certs.to_names(), names(&["m#f()"]));
}

#[test]
fn delete_cert_of_a_certified_symbol() {
    let mut certs = NameSet::from_names(&names(&["a", "b"]));
    assert_eq!(delete_cert(&mut certs, "a"), Some("a.json".to_string()));
    assert_eq!(certs.to_names(), names(&["b"]));
}

#[test]
fn delete_cert_without_certificate_is_a_no_op() {
    let mut certs = NameSet::from_names(&names(&["a", "b"]));
    assert_eq!(delete_cert(&mut certs, "c"), None);
    assert_eq!(certs.to_names(), names(&["a", "b"]));
    let mut none = NameSet::new();
    assert_eq!(delete_cert(&mut none, "c"), None);
    assert_eq!(none.len(), 0);
}

#[test]
fn cert_time_stamp() {
    assert_eq!(Cert::new(1_700_000_000, 5), Some(Cert { seconds: 1_700_000_000, nanoseconds: 5 }));
    assert_eq!(Cert::new(-1, 1_999_999_999), Some(Cert { seconds: -1, nanoseconds: 1_999_999_999 }));
    assert_eq!(Cert::new(0, 2_000_000_000), None);
}
