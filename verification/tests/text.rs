use telemetry::text::{
    dedup, join, parse_integer, place, same_text, split_all, split_once, Placement,
};

fn strings(parts: &[&str]) -> Vec<String> {
    parts.iter().map(|part| part.to_string()).collect()
}

#[test]
fn texts_are_placed_as_std_orders_them() {
    let words = ["", "a", "aa", "ab", "b", "A", ".", "a.b", "é", "z", "\u{ffff}", "\u{10000}"];
    for a in words {
        for b in words {
            let expected = if a < b {
                Placement::Before
            } else if a == b {
                Placement::Same
            } else {
                Placement::After
            };
            assert!(place(a, b) == expected, "{} and {}", a, b);
            assert_eq!(same_text(a, b), a == b);
        }
    }
}

#[test]
fn a_text_is_cut_at_the_first_separator() {
    assert_eq!(
        split_once("web.john.usr.example.org", '.'),
        Some(("web".to_string(), "john.usr.example.org".to_string()))
    );
    assert_eq!(split_once(".x", '.'), Some(("".to_string(), "x".to_string())));
    assert_eq!(split_once("x.", '.'), Some(("x".to_string(), "".to_string())));
    assert_eq!(split_once("é.ü", '.'), Some(("é".to_string(), "ü".to_string())));
    assert_eq!(split_once("none", '.'), None);
    assert_eq!(split_once("", '.'), None);
}

#[test]
fn a_text_is_cut_at_every_separator() {
    assert_eq!(split_all("a b c", ' '), strings(&["a", "b", "c"]));
    assert_eq!(split_all("a  b", ' '), strings(&["a", "", "b"]));
    assert_eq!(split_all(" ", ' '), strings(&["", ""]));
    assert_eq!(split_all("", ' '), strings(&[""]));
    for s in ["a b c", " a ", "", "no", "  "] {
        let expected: Vec<String> = s.split(' ').map(|part| part.to_string()).collect();
        assert_eq!(split_all(s, ' '), expected);
        assert_eq!(join(&split_all(s, ' '), " "), s);
    }
}

#[test]
fn strings_are_joined() {
    assert_eq!(join(&strings(&[]), ", "), "");
    assert_eq!(join(&strings(&["one"]), ", "), "one");
    assert_eq!(join(&strings(&["one", "two", "two"]), ", "), "one, two, two");
}

#[test]
fn neighbours_that_repeat_are_left_out() {
    for parts in [
        strings(&[]),
        strings(&["a"]),
        strings(&["a", "a", "a"]),
        strings(&["a", "a", "b", "a", "a", "b", "b"]),
    ] {
        let mut expected = parts.clone();
        expected.dedup();
        assert_eq!(dedup(&parts), expected);
    }
    assert_eq!(dedup(&strings(&["a", "a", "b", "a"])), strings(&["a", "b", "a"]));
}

#[test]
fn integers_are_read_as_std_reads_them() {
    let samples = [
        "0",
        "-0",
        "+7",
        "-7",
        "007",
        "200",
        "1600000000000",
        "9223372036854775807",
        "9223372036854775808",
        "-9223372036854775808",
        "-9223372036854775809",
        "99999999999999999999999999999999999999999999999999",
        "",
        "+",
        "-",
        "--1",
        "+-1",
        "1-",
        " 1",
        "1 ",
        "1_000",
        "1.0",
        "1e3",
        "0x10",
        "٣",
        "a",
    ];
    for sample in samples {
        assert_eq!(parse_integer(sample), sample.parse::<i64>().ok(), "{}", sample);
    }
    assert_eq!(parse_integer("-9223372036854775808"), Some(i64::MIN));
    assert_eq!(parse_integer("9223372036854775808"), None);
}
