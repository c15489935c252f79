//! The exact decimal engine: lexemes and arithmetic.

use math_rpc::dec::{
    dec_add, dec_div, dec_lexeme, dec_mul, dec_sqrt, dec_sub, parse_dec, Dec,
};

fn dec(lex: &str) -> Dec {
    parse_dec(lex).expect("lexeme reads exactly")
}

#[test]
fn test_parse_normalizes() {
    assert_eq!(dec("1.0"), Dec { m: 1, s: 0 });
    assert_eq!(dec("2.50"), Dec { m: 25, s: 1 });
    assert_eq!(dec("-0.125"), Dec { m: -125, s: 3 });
    assert_eq!(dec("0"), Dec { m: 0, s: 0 });
    assert_eq!(dec("-0"), Dec { m: 0, s: 0 });
}

#[test]
fn test_parse_rejects() {
    assert!(parse_dec("").is_none());
    assert!(parse_dec("1e3").is_none());
    assert!(parse_dec("1.").is_none());
    assert!(parse_dec(".5").is_none());
    assert!(parse_dec("12a").is_none());
    assert!(parse_dec("1.0000000000000000001").is_none());
}

#[test]
fn test_lexeme_round_trip() {
    for lex in ["0", "6", "-3", "2.5", "-0.125", "1000", "0.000000000000000001"] {
        let d = dec(lex);
        assert_eq!(dec_lexeme(d), lex);
        assert_eq!(parse_dec(&dec_lexeme(d)), Some(d));
    }
}

#[test]
fn test_exact_arithmetic() {
    assert_eq!(dec_add(dec("0.1"), dec("0.2")), Some(dec("0.3")));
    assert_eq!(dec_sub(dec("1"), dec("0.999")), Some(dec("0.001")));
    assert_eq!(dec_mul(dec("1.5"), dec("1.5")), Some(dec("2.25")));
    assert_eq!(dec_div(dec("10"), dec("4")), Some(dec("2.5")));
    assert_eq!(dec_div(dec("1"), dec("3")), None);
    assert_eq!(dec_sqrt(dec("2.25")), Some(dec("1.5")));
    assert_eq!(dec_sqrt(dec("2")), None);
}

#[test]
fn test_overflow_is_reported() {
    let big = dec("4000000000000000000");
    assert_eq!(dec_add(big, big), None);
    assert_eq!(dec_mul(big, big), None);
    // An underflow of scale is reported too.
    let tiny = dec("0.000000000000000001");
    assert_eq!(dec_mul(tiny, tiny), None);
}
