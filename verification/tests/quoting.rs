use shadowenv::escape::shell_escape;
use shadowenv::output::{encode_fish, encode_porcelain, encode_posix};

fn exports(pairs: &[(&str, Option<&str>)]) -> Vec<(String, Option<String>)> {
    pairs.iter().map(|(k, v)| (k.to_string(), v.map(|s| s.to_string()))).collect()
}

#[test]
fn safe_words_pass_through_bare() {
    assert_eq!(shell_escape("abcXYZ019-_=/,.+"), "abcXYZ019-_=/,.+");
    assert_eq!(shell_escape("PATH=/usr/bin"), "PATH=/usr/bin");
}

#[test]
fn empty_value_is_quoted() {
    assert_eq!(shell_escape(""), "''");
}

#[test]
fn quoting_safety_round_trip_spelling() {
    // A value with a single quote, a dollar sign and a space: the quoted
    // spelling a POSIX shell evaluates back to the original bytes.
    assert_eq!(shell_escape("don't $pay 5"), "'don'\\''t $pay 5'");
    // Only single quotes need the close-escape-reopen splice.
    assert_eq!(shell_escape("''"), "''\\'''\\'''");
    assert_eq!(shell_escape("a b"), "'a b'");
    assert_eq!(shell_escape("$HOME"), "'$HOME'");
}

#[test]
fn posix_lines_are_exact() {
    let got = encode_posix("7:{}", &exports(&[("A", Some("x y")), ("B", None)]));
    assert_eq!(got, "__shadowenv_data='7:{}'\nexport A='x y'\nunset B\n");
}

#[test]
fn fish_lines_are_exact() {
    let got = encode_fish("7:{}", &exports(&[("A", Some("x")), ("B", None)]));
    assert_eq!(got, "set -g __shadowenv_data '7:{}'\nset -gx A x\nset -e B\n");
}

#[test]
fn porcelain_needs_no_trailing_parse() {
    // Records are parseable by splitting on 0x1E alone; the value field is
    // raw, so quoting never appears.
    let got = encode_porcelain("7:{}", &exports(&[("A", Some("a'b$c d"))]));
    assert_eq!(got, "\x01\x1f__shadowenv_data\x1f7:{}\x1e\x02\x1fA\x1fa'b$c d\x1e");
}
