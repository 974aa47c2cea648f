use xlsx_row::numtext::is_float_literal_text;

#[test]
fn accepts_ordinary_literals() {
    for s in [
        "0", "3.14", "-2.5", "+0.5", ".5", "5.", "1e9", "1E9", "1e+9", "1e-9", "2.5E-10", "-.5e2",
    ] {
        assert!(is_float_literal_text(s), "should accept {:?}", s);
    }
}

#[test]
fn accepts_special_words_case_insensitively() {
    for s in [
        "inf", "INF", "Inf", "-inf", "+inf", "infinity", "Infinity", "INFINITY", "nan", "NaN",
        "NAN", "-NaN",
    ] {
        assert!(is_float_literal_text(s), "should accept {:?}", s);
    }
}

#[test]
fn rejects_malformed_text() {
    for s in [
        "", "abc", "+", "-", ".", "e9", "1e", "1e+", "1.2.3", "--1", "1.5x", " 1", "1 ", "0x10",
        "1_000", "in", "infin", "nans",
    ] {
        assert!(!is_float_literal_text(s), "should reject {:?}", s);
    }
}

#[test]
fn agrees_with_float_parsing() {
    for s in [
        "0", "3.14", "-2.5e10", "+.5", "1.", ".5", "1e9", "1E-9", "inf", "Infinity", "NaN",
        "-nan", "+infinity", "abc", "", "+", ".", "1e", "1.2.3", "e9", "--1", "1e+", " 1", "1 ",
        "0x1", "1_000", "5e", "1e99999", "00.5", "007",
    ] {
        assert_eq!(
            is_float_literal_text(s),
            s.parse::<f64>().is_ok(),
            "disagreement on {:?}",
            s
        );
    }
}
