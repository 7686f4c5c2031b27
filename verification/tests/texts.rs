//! Integers, lists of parts and leading numbers.
use trka::text::{decimal_text, number_text, parse_i64, split_commas};

#[test]
fn integers_read_as_the_standard_library_reads_them() {
    let cases = [
        "0",
        "-0",
        "+7",
        "42",
        "-42",
        "007",
        "",
        "-",
        "+",
        "--1",
        "1 ",
        " 1",
        "1.0",
        "1e3",
        "0x10",
        "9223372036854775807",
        "9223372036854775808",
        "-9223372036854775808",
        "-9223372036854775809",
        "99999999999999999999999999999999999999999999",
        "000000000000000000000000000000000000000000012",
        "\u{0663}",
    ];
    for case in cases {
        assert_eq!(parse_i64(case), case.parse::<i64>().ok(), "{case:?}");
    }
}

#[test]
fn decimal_text_reads_back() {
    for n in [0usize, 7, 10, 99, 100, 12345, usize::MAX] {
        let text = decimal_text(n);
        assert_eq!(text, n.to_string());
        assert_eq!(text.parse::<usize>().ok(), Some(n));
    }
}

#[test]
fn texts_split_at_commas() {
    for case in ["", ",", "a", "a,b", "a,,b", ",a,", "40.7,-73.9,40.8,-73.8", "\u{e9},\u{4e2d}"] {
        let parts: Vec<String> = case.split(',').map(|part| part.to_string()).collect();
        assert_eq!(split_commas(case), parts);
        assert_eq!(split_commas(case).join(","), case);
    }
}

#[test]
fn leading_number_loses_units_and_blanks() {
    for (value, number) in [
        ("12", "12"),
        ("12.5 m", "12.5"),
        ("  8m", "8"),
        ("\u{2003}30ft\t", "30"),
        ("-3", "-3"),
        ("about 5", ""),
        ("", ""),
        ("   ", ""),
        ("1.2.3-4x5", "1.2.3-4"),
        ("5 ", "5"),
    ] {
        assert_eq!(number_text(value), number, "{value:?}");
    }
}
