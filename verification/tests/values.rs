use jp_estat::{build_payload_i32, parse_nullable, parse_stat_value, MeshError, NO_DATA_I32};

#[test]
fn stat_value_no_data_forms() {
    assert_eq!(NO_DATA_I32, i32::MIN);
    assert_eq!(parse_stat_value(""), Ok(i32::MIN));
    assert_eq!(parse_stat_value("   "), Ok(i32::MIN));
    assert_eq!(parse_stat_value("*"), Ok(i32::MIN));
    assert_eq!(parse_stat_value(" * "), Ok(i32::MIN));
    assert_eq!(parse_stat_value("\u{3000}*\t"), Ok(i32::MIN));
}

#[test]
fn stat_value_numbers() {
    assert_eq!(parse_stat_value("0"), Ok(0));
    assert_eq!(parse_stat_value(" 42 "), Ok(42));
    assert_eq!(parse_stat_value("-17"), Ok(-17));
    assert_eq!(parse_stat_value("+8"), Ok(8));
    assert_eq!(parse_stat_value("007"), Ok(7));
    assert_eq!(parse_stat_value("-0"), Ok(0));
    assert_eq!(parse_stat_value("2147483647"), Ok(i32::MAX));
    assert_eq!(parse_stat_value("-2147483648"), Ok(i32::MIN));
    assert_eq!(parse_stat_value("-2147483647"), Ok(-2147483647));
}

#[test]
fn stat_value_out_of_range() {
    assert_eq!(parse_stat_value("2147483648"), Err(MeshError::ValueOutOfRange));
    assert_eq!(parse_stat_value("-2147483649"), Err(MeshError::ValueOutOfRange));
    assert_eq!(parse_stat_value("9223372036854775807"), Err(MeshError::ValueOutOfRange));
    assert_eq!(parse_stat_value("-9223372036854775808"), Err(MeshError::ValueOutOfRange));
}

#[test]
fn stat_value_invalid() {
    assert_eq!(parse_stat_value("9223372036854775808"), Err(MeshError::InvalidInteger));
    assert_eq!(parse_stat_value("-9223372036854775809"), Err(MeshError::InvalidInteger));
    assert_eq!(parse_stat_value("99999999999999999999999999"), Err(MeshError::InvalidInteger));
    assert_eq!(parse_stat_value("12.5"), Err(MeshError::InvalidInteger));
    assert_eq!(parse_stat_value("1 2"), Err(MeshError::InvalidInteger));
    assert_eq!(parse_stat_value("abc"), Err(MeshError::InvalidInteger));
    assert_eq!(parse_stat_value("-"), Err(MeshError::InvalidInteger));
    assert_eq!(parse_stat_value("+"), Err(MeshError::InvalidInteger));
    assert_eq!(parse_stat_value("--1"), Err(MeshError::InvalidInteger));
    assert_eq!(parse_stat_value("**"), Err(MeshError::InvalidInteger));
    assert_eq!(parse_stat_value("１２"), Err(MeshError::InvalidInteger));
}

#[test]
fn stat_value_agrees_with_std() {
    let samples = [
        "0", "-1", "+1", " 15", "0000000000000000000000012", "2147483647", "2147483648", "x", "",
        "*", "1e3", "-", "+-1", "9223372036854775807", "9223372036854775808", "٣",
    ];
    for s in samples {
        let t = s.trim();
        let expected = if t.is_empty() || t == "*" {
            Ok(i32::MIN)
        } else {
            match t.parse::<i64>() {
                Err(_) => Err(MeshError::InvalidInteger),
                Ok(v) => i32::try_from(v).map_err(|_| MeshError::ValueOutOfRange),
            }
        };
        assert_eq!(parse_stat_value(s), expected, "value {:?}", s);
    }
}

#[test]
fn nullable_values() {
    assert_eq!(parse_nullable::<i64>(""), Ok(None));
    assert_eq!(parse_nullable::<i64>(" * "), Ok(None));
    assert_eq!(parse_nullable::<i64>("53393599212"), Ok(Some(53393599212)));
    assert_eq!(parse_nullable::<i64>("-9223372036854775808"), Ok(Some(i64::MIN)));
    assert_eq!(parse_nullable::<i64>("9223372036854775808"), Err(MeshError::InvalidInteger));
    assert_eq!(parse_nullable::<i32>("53393599212"), Err(MeshError::InvalidInteger));
    assert_eq!(parse_nullable::<i32>(" 12 "), Ok(Some(12)));
    assert_eq!(parse_nullable::<i16>("32767"), Ok(Some(i16::MAX)));
    assert_eq!(parse_nullable::<i16>("32768"), Err(MeshError::InvalidInteger));
    assert_eq!(parse_nullable::<i16>("-32768"), Ok(Some(i16::MIN)));
    assert_eq!(parse_nullable::<i16>("2x"), Err(MeshError::InvalidInteger));
}

#[test]
fn payload_is_little_endian() {
    assert_eq!(build_payload_i32(&[]), Vec::<u8>::new());
    assert_eq!(build_payload_i32(&[1]), vec![1, 0, 0, 0]);
    assert_eq!(build_payload_i32(&[0x01020304]), vec![4, 3, 2, 1]);
    assert_eq!(build_payload_i32(&[-1]), vec![255, 255, 255, 255]);
    assert_eq!(build_payload_i32(&[i32::MIN]), vec![0, 0, 0, 128]);
    assert_eq!(build_payload_i32(&[i32::MAX]), vec![255, 255, 255, 127]);
    assert_eq!(build_payload_i32(&[256, -2]), vec![0, 1, 0, 0, 254, 255, 255, 255]);
}

#[test]
fn payload_agrees_with_std() {
    let values = [0, 1, -1, 255, 256, 65535, 65536, 16777216, -16777217, i32::MIN, i32::MAX, 123456789];
    let mut expected = Vec::new();
    for v in values {
        expected.extend_from_slice(&v.to_le_bytes());
    }
    assert_eq!(build_payload_i32(&values), expected);
}
