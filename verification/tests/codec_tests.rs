use exclave::codec::{escape, unescape};
use exclave::strutil::{lower_string, u64_dec_string};

#[test]
fn escape_writes_two_char_codes() {
    assert_eq!(escape("a\tb"), "a\\tb");
    assert_eq!(escape("line\n"), "line\\n");
    assert_eq!(escape("cr\rx"), "cr\\rx");
    assert_eq!(escape("back\\slash"), "back\\\\slash");
    assert_eq!(escape("plain"), "plain");
}

#[test]
fn unescape_reverses_codes() {
    assert_eq!(unescape("a\\tb"), "a\tb");
    assert_eq!(unescape("line\\n"), "line\n");
    assert_eq!(unescape("cr\\rx"), "cr\rx");
    assert_eq!(unescape("back\\\\slash"), "back\\slash");
}

#[test]
fn unescape_drops_backslash_before_other_characters() {
    assert_eq!(unescape("ma\\x"), "max");
    assert_eq!(unescape("plain"), "plain");
}

#[test]
fn escape_round_trip_preserves_every_string() {
    let cases = [
        "a\tb\nc\rd\\e",
        "\\\\",
        "\t\t\t",
        "mixed \\t literal and \t real tab",
        "",
        "ends with newline\n",
        "tnr letters alone",
    ];
    for s in cases {
        assert_eq!(unescape(&escape(s)), s);
    }
}

#[test]
fn decimal_rendering_is_exact() {
    assert_eq!(u64_dec_string(0), "0");
    assert_eq!(u64_dec_string(7), "7");
    assert_eq!(u64_dec_string(12345), "12345");
    assert_eq!(u64_dec_string(u64::MAX), "18446744073709551615");
}

#[test]
fn lowercase_folds_ascii_only() {
    assert_eq!(lower_string("MiXeD-09"), "mixed-09");
    assert_eq!(lower_string("abc"), "abc");
}
