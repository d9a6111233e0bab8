use ebdb::literal::is_float_text;
use ebdb::literal::parse_bool;
use ebdb::literal::parse_i128;
use ebdb::literal::parse_u128;
use ebdb::literal::parse_usize;
use ebdb::literal::spells_text;
use ebdb::literal::FloatLiteral;

fn samples() -> Vec<String> {
    let mut samples: Vec<String> = vec![
        "", "0", "7", "64", "007", "+5", "-5", "+", "-", "+-5", "--5", "5-", "5+", " 5", "5 ",
        "5_0", "0x10", "1e3", "12a", "a", "١٢٣", "５", "1.0", "١", "+0", "-0", "00",
        "18446744073709551615", "18446744073709551616", "4294967295", "4294967296",
        "340282366920938463463374607431768211455", "340282366920938463463374607431768211456",
        "+340282366920938463463374607431768211455",
        "170141183460469231731687303715884105727", "170141183460469231731687303715884105728",
        "-170141183460469231731687303715884105728", "-170141183460469231731687303715884105729",
        "-340282366920938463463374607431768211455", "-340282366920938463463374607431768211456",
        "99999999999999999999999999999999999999999999999999",
        "-99999999999999999999999999999999999999999999999999",
        "000000000000000000000000000000000000000000000000000000000000000000001",
        "true", "false", "True", "FALSE", "tru", "truee", "yes", "1", "t",
    ]
    .into_iter()
    .map(|text| text.to_string())
    .collect();
    for n in 0..300u32 {
        samples.push(n.to_string());
        samples.push(format!("-{}", n));
        samples.push(format!("+{}", n));
    }
    samples
}

fn float_samples() -> Vec<String> {
    let mut samples: Vec<String> = vec![
        "", "0", "1", "3.14", "-3.14", "+3.14", "2.5E10", "2.5e10", "2.5E-10", "2.5e+10", "5.",
        ".5", "0.5", ".", "+", "-", "+.", "-.", "e", "e5", ".e5", "1e", "1e+", "1e-", "1E", "1e5",
        "1e05", "1e5.0", "1.e5", "1.e", ".5e3", "..5", "1..5", "1.2.3", "1 ", " 1", "1_0", "0x1p3",
        "inf", "-inf", "+inf", "INF", "Inf", "iNf", "infinity", "-infinity", "+INFINITY",
        "Infinity", "infinit", "infinityy", "in", "nan", "NaN", "NAN", "-nan", "+NaN", "nane",
        "na", "1f", "1.0f64", "1d", "--1", "+-1", "1-", "1e--5", "1e5e5", "١.٥", "1,5", "１.５",
        "İnf", "ınf", "ınfınıty", "1e99999", "1e-99999",
        "123456789012345678901234567890123456789012345678901234567890.123456789e-300",
        "00000.00000", "000", "-0", "-0.0", "+0e0", "1E+0", "infe5", "nan.", ".nan", "e.5",
        "5e", "+e5", "-e5", "+inf.", "i", "n", "k", "K", "true",
    ]
    .into_iter()
    .map(|text| text.to_string())
    .collect();
    let pieces = ["", "1", "12", ".", "e", "E", "+", "-", "0"];
    for a in pieces {
        for b in pieces {
            for c in pieces {
                for d in pieces {
                    samples.push(format!("{}{}{}{}", a, b, c, d));
                }
            }
        }
    }
    samples
}

#[test]
fn usize_is_read_as_std_reads_it() {
    for text in samples() {
        assert_eq!(parse_usize(&text), text.parse::<usize>().ok(), "{:?}", text);
    }
}

#[test]
fn u128_is_read_as_std_reads_it() {
    for text in samples() {
        assert_eq!(parse_u128(&text), text.parse::<u128>().ok(), "{:?}", text);
    }
}

#[test]
fn i128_is_read_as_std_reads_it() {
    for text in samples() {
        assert_eq!(parse_i128(&text), text.parse::<i128>().ok(), "{:?}", text);
    }
}

#[test]
fn bool_is_read_as_std_reads_it() {
    for text in samples() {
        assert_eq!(parse_bool(&text), text.parse::<bool>().ok(), "{:?}", text);
    }
}

#[test]
fn float_is_written_as_std_reads_it() {
    for text in float_samples() {
        assert_eq!(is_float_text(&text), text.parse::<f64>().is_ok(), "{:?}", text);
    }
    for text in samples() {
        assert_eq!(is_float_text(&text), text.parse::<f64>().is_ok(), "{:?}", text);
    }
}

#[test]
fn exact_numbers() {
    assert_eq!(parse_usize("64"), Some(64));
    assert_eq!(parse_usize("+64"), Some(64));
    assert_eq!(parse_usize("0"), Some(0));
    assert_eq!(parse_usize("-1"), None);
    assert_eq!(parse_usize(""), None);
    assert_eq!(parse_usize("six"), None);
    assert_eq!(parse_u128("340282366920938463463374607431768211455"), Some(u128::MAX));
    assert_eq!(parse_u128("340282366920938463463374607431768211456"), None);
    assert_eq!(parse_i128("-170141183460469231731687303715884105728"), Some(i128::MIN));
    assert_eq!(parse_i128("170141183460469231731687303715884105727"), Some(i128::MAX));
    assert_eq!(parse_i128("170141183460469231731687303715884105728"), None);
    assert_eq!(parse_i128("-42"), Some(-42));
    assert_eq!(parse_i128("+42"), Some(42));
    assert_eq!(parse_i128("-"), None);
}

#[test]
fn exact_truth_values() {
    assert_eq!(parse_bool("true"), Some(true));
    assert_eq!(parse_bool("false"), Some(false));
    assert_eq!(parse_bool("TRUE"), None);
    assert_eq!(parse_bool(""), None);
}

#[test]
fn words_are_spelled_in_either_case() {
    assert!(spells_text("null", "null"));
    assert!(spells_text("NULL", "null"));
    assert!(spells_text("nUlL", "null"));
    assert!(!spells_text("nul", "null"));
    assert!(!spells_text("nulll", "null"));
    assert!(!spells_text("nu11", "null"));
    assert!(!spells_text("", "null"));
    assert!(spells_text("", ""));
}

#[test]
fn float_literal_keeps_its_text() {
    let literal = FloatLiteral::parse("-2.5e10").unwrap();
    assert_eq!(literal.as_str(), "-2.5e10");
    assert_eq!(literal.as_str().parse::<f64>().unwrap(), -2.5e10);
    assert!(FloatLiteral::parse("2.5e").is_none());
    assert!(FloatLiteral::parse("").is_none());
    assert!(FloatLiteral::parse("abc").is_none());
}

#[test]
fn null_is_spelled_as_lowercasing_spells_it() {
    let samples = [
        "null", "NULL", "Null", "nULL", "nuLl", "nul", "nulll", "", "n", "nu11", "ｎｕｌｌ", "NUＬL",
        "null ", " null", "nu\u{0}ll", "\u{212A}ull", "n\u{0130}ll", "nůll", "ǋull", "Ǌull",
    ];
    for text in samples {
        assert_eq!(spells_text(text, "null"), text.to_lowercase() == "null", "{:?}", text);
    }
}

#[test]
fn only_six_letters_lowercase_into_null() {
    let mut found = String::new();
    let mut c = '\0';
    loop {
        let lower: String = c.to_lowercase().collect();
        if !lower.is_empty() && lower.chars().all(|l| l == 'n' || l == 'u' || l == 'l') {
            found.push(c);
        }
        if c == char::MAX {
            break;
        }
        c = char::from_u32(c as u32 + 1).unwrap_or('\u{E000}');
    }
    assert_eq!(found, "LNUlnu");
}
