use ether::param::{convert_param, float_text, ParamKind, ParamValue};

fn integer_texts() -> Vec<String> {
    let mut v: Vec<String> = vec![
        "", "+", "-", "0", "-0", "+0", "00", "007", "1", "-1", "+1", "42", "4 2", " 42", "42 ",
        "1a", "a1", "--1", "+-1", "-+1", "++1", "1-", "1+", "١", "²", "0x10", "1_000", "1.0",
        "2147483647", "2147483648", "-2147483648", "-2147483649",
        "4294967295", "4294967296",
        "9223372036854775807", "9223372036854775808", "-9223372036854775808",
        "-9223372036854775809", "18446744073709551615", "18446744073709551616",
        "-18446744073709551616", "99999999999999999999999999999999999999999",
        "-99999999999999999999999999999999999999999",
        "000000000000000000000000000000000000000000000000001",
        "127", "128", "-128", "-129", "255", "256", "32767", "32768", "-32768", "-32769", "65535", "65536",
        "170141183460469231731687303715884105727", "170141183460469231731687303715884105728",
        "-170141183460469231731687303715884105728", "-170141183460469231731687303715884105729",
        "340282366920938463463374607431768211455", "340282366920938463463374607431768211456",
        "3402823669209384634633746074317682114550", "-340282366920938463463374607431768211455",
    ]
    .into_iter()
    .map(|s| s.to_owned())
    .collect();
    v.push("+".repeat(2) + "5");
    v
}

#[test]
fn integers_read_as_rust_reads_them() {
    for t in integer_texts() {
        let t = t.as_str();
        assert_eq!(
            convert_param(ParamKind::I8, t),
            t.parse::<i8>().ok().map(ParamValue::I8),
            "i8 {:?}",
            t
        );
        assert_eq!(
            convert_param(ParamKind::I16, t),
            t.parse::<i16>().ok().map(ParamValue::I16),
            "i16 {:?}",
            t
        );
        assert_eq!(
            convert_param(ParamKind::I32, t),
            t.parse::<i32>().ok().map(ParamValue::I32),
            "i32 {:?}",
            t
        );
        assert_eq!(
            convert_param(ParamKind::I64, t),
            t.parse::<i64>().ok().map(ParamValue::I64),
            "i64 {:?}",
            t
        );
        assert_eq!(
            convert_param(ParamKind::I128, t),
            t.parse::<i128>().ok().map(ParamValue::I128),
            "i128 {:?}",
            t
        );
        assert_eq!(
            convert_param(ParamKind::Isize, t),
            t.parse::<isize>().ok().map(ParamValue::Isize),
            "isize {:?}",
            t
        );
        assert_eq!(
            convert_param(ParamKind::U8, t),
            t.parse::<u8>().ok().map(ParamValue::U8),
            "u8 {:?}",
            t
        );
        assert_eq!(
            convert_param(ParamKind::U16, t),
            t.parse::<u16>().ok().map(ParamValue::U16),
            "u16 {:?}",
            t
        );
        assert_eq!(
            convert_param(ParamKind::U32, t),
            t.parse::<u32>().ok().map(ParamValue::U32),
            "u32 {:?}",
            t
        );
        assert_eq!(
            convert_param(ParamKind::U64, t),
            t.parse::<u64>().ok().map(ParamValue::U64),
            "u64 {:?}",
            t
        );
        assert_eq!(
            convert_param(ParamKind::U128, t),
            t.parse::<u128>().ok().map(ParamValue::U128),
            "u128 {:?}",
            t
        );
        assert_eq!(
            convert_param(ParamKind::Usize, t),
            t.parse::<usize>().ok().map(ParamValue::Usize),
            "usize {:?}",
            t
        );
    }
}

#[test]
fn bools_and_chars_read_as_rust_reads_them() {
    let texts = ["", "true", "false", "True", "FALSE", "tru", "truee", " true", "1", "0", "a", "é", "ab", "😀", "\u{301}"];
    for t in texts.iter() {
        assert_eq!(convert_param(ParamKind::Bool, t), t.parse::<bool>().ok().map(ParamValue::Bool), "{:?}", t);
        assert_eq!(convert_param(ParamKind::Char, t), t.parse::<char>().ok().map(ParamValue::Char), "{:?}", t);
    }
}

#[test]
fn integer_edges() {
    assert_eq!(convert_param(ParamKind::I32, "-2147483648"), Some(ParamValue::I32(i32::MIN)));
    assert_eq!(convert_param(ParamKind::I32, "2147483648"), None);
    assert_eq!(convert_param(ParamKind::I64, "-9223372036854775808"), Some(ParamValue::I64(i64::MIN)));
    assert_eq!(convert_param(ParamKind::U64, "18446744073709551615"), Some(ParamValue::U64(u64::MAX)));
    assert_eq!(convert_param(ParamKind::U64, "18446744073709551616"), None);
    assert_eq!(convert_param(ParamKind::U32, "+7"), Some(ParamValue::U32(7)));
    assert_eq!(convert_param(ParamKind::U32, "-0"), None);
    assert_eq!(convert_param(ParamKind::I32, "-0"), Some(ParamValue::I32(0)));
    assert_eq!(convert_param(ParamKind::I32, ""), None);
    assert_eq!(convert_param(ParamKind::Text, ""), Some(ParamValue::Text(String::new())));
    assert_eq!(convert_param(ParamKind::U128, "340282366920938463463374607431768211455"), Some(ParamValue::U128(u128::MAX)));
    assert_eq!(convert_param(ParamKind::I128, "-170141183460469231731687303715884105728"), Some(ParamValue::I128(i128::MIN)));
    assert_eq!(convert_param(ParamKind::U8, "256"), None);
    assert_eq!(convert_param(ParamKind::Bool, "true"), Some(ParamValue::Bool(true)));
    assert_eq!(convert_param(ParamKind::Char, "é"), Some(ParamValue::Char('é')));
}

#[test]
fn float_syntax_is_rusts() {
    let texts = [
        "", "+", "-", ".", "+.", "-.", "1", "1.", ".1", "1.5", "+1.5", "-1.5", "1e5", "1E5",
        "1e+5", "1e-5", "1e", "1e+", "e5", ".e5", "1.e5", ".5e5", "1.5e5.5", "1..5", "1.5.",
        "inf", "INF", "Inf", "-inf", "+inf", "infinity", "Infinity", "INFINITY", "-infinity",
        "infin", "infinityy", "nan", "NaN", "-nan", "+NAN", "nana", "na", "in", "i", "n",
        " 1", "1 ", "1_0", "0x1", "1f", "1.0f64", "１", "١", "1e٣", "e", "E", "-e5",
        "00.00", "0000", "1e0000000000000000000000000000000000000000000000001",
        "123456789012345678901234567890", "--1", "+-1",
    ];
    for t in texts.iter() {
        assert_eq!(float_text(t), t.parse::<f64>().is_ok(), "{:?}", t);
        assert_eq!(
            convert_param(ParamKind::Float, t).is_some(),
            t.parse::<f64>().is_ok(),
            "{:?}",
            t
        );
    }
}
