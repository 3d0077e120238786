use builtin_cast::call::FnCall;
use builtin_cast::cast::{json_fsp_for_time, str_is_negative, Json, StrAsJson};
use builtin_cast::context::StatementContext;
use builtin_cast::error::CastError;
use builtin_cast::field_type::{
    has_unsigned_flag, is_utf8_charset, FieldType, MAX_FSP, TYPE_DATETIME, TYPE_LONG_LONG,
    TYPE_STRING, TYPE_TIMESTAMP, UNSIGNED_FLAG, UNSPECIFIED_LENGTH,
};
use builtin_cast::int_text::{i64_to_text, int_value_as_i64, int_value_to_text, u64_to_text, IntValue};
use builtin_cast::res::{decimal_from_parse, value_after_truncation, Res};
use builtin_cast::utf8_check::is_valid_utf8;
use builtin_cast::utf8_scan::{char_start_index, count_char_starts};

const TYPE_VARCHAR: i32 = 15;

fn field(tp: i32, flag: u32, flen: i32, decimal: i32, charset: &str) -> FieldType {
    FieldType { tp, flag, flen, decimal, charset: charset.to_string() }
}

fn call(tp: FieldType) -> FnCall {
    FnCall { tp, child_tp: field(TYPE_LONG_LONG as i32, 0, 20, 0, "binary") }
}

fn strict() -> StatementContext {
    StatementContext { ignore_truncate: false, truncate_as_warning: false }
}

fn lenient() -> StatementContext {
    StatementContext { ignore_truncate: false, truncate_as_warning: true }
}

#[test]
fn unsigned_flag_is_bit_five() {
    assert!(has_unsigned_flag(UNSIGNED_FLAG));
    assert!(has_unsigned_flag(UNSIGNED_FLAG | 1));
    assert!(!has_unsigned_flag(1 | 2 | 64));
    assert!(field(8, 32, 20, 0, "binary").is_unsigned());
    assert!(!field(8, 0, 20, 0, "binary").is_unsigned());
}

#[test]
fn utf8_charsets_are_recognised() {
    assert!(is_utf8_charset(&"utf8".to_string()));
    assert!(is_utf8_charset(&"utf8mb4".to_string()));
    assert!(!is_utf8_charset(&"binary".to_string()));
    assert!(!is_utf8_charset(&"UTF8".to_string()));
}

#[test]
fn truncation_is_an_error_only_in_strict_mode() {
    assert_eq!(strict().handle_truncate(true), Err(CastError::Truncated));
    assert_eq!(strict().handle_truncate(false), Ok(()));
    assert_eq!(lenient().handle_truncate(true), Ok(()));
    let ignore = StatementContext { ignore_truncate: true, truncate_as_warning: false };
    assert_eq!(ignore.handle_truncate(true), Ok(()));
    assert!(strict().handle_truncate_as_error());
    assert!(!ignore.handle_truncate_as_error());
}

#[test]
fn flen_and_decimal_target() {
    assert_eq!(field(5, 0, UNSPECIFIED_LENGTH, 2, "binary").specified_flen_decimal(), None);
    assert_eq!(field(5, 0, 10, UNSPECIFIED_LENGTH, "binary").specified_flen_decimal(), None);
    assert_eq!(field(5, 0, 10, 2, "binary").specified_flen_decimal(), Some((10, 2)));
    // each part is cut to a byte
    assert_eq!(field(5, 0, 300, 2, "binary").specified_flen_decimal(), Some((44, 2)));
}

#[test]
fn utf8_text_is_cut_by_characters() {
    let c = call(field(TYPE_VARCHAR, 0, 3, 0, "utf8"));
    let out = c.produce_str_with_specified_tp(&lenient(), "héllo".to_string());
    assert_eq!(out, Ok("hél".as_bytes().to_vec()));
    let out = c.produce_str_with_specified_tp(&lenient(), "日本語テキスト".to_string());
    assert_eq!(out, Ok("日本語".as_bytes().to_vec()));
    let out = c.produce_str_with_specified_tp(&lenient(), "héh".to_string());
    assert_eq!(out, Ok("héh".as_bytes().to_vec()));
}

#[test]
fn utf8_text_too_long_is_an_error_in_strict_mode() {
    let c = call(field(TYPE_VARCHAR, 0, 3, 0, "utf8mb4"));
    let out = c.produce_str_with_specified_tp(&strict(), "héllo".to_string());
    assert_eq!(out, Err(CastError::DataTooLong { flen: 3, len: 5 }));
}

#[test]
fn other_text_is_cut_by_bytes() {
    let c = call(field(TYPE_VARCHAR, 0, 4, 0, "binary"));
    assert_eq!(c.produce_str_with_specified_tp(&lenient(), "abcdef".to_string()), Ok(b"abcd".to_vec()));
    assert_eq!(
        c.produce_str_with_specified_tp(&strict(), "abcdef".to_string()),
        Err(CastError::DataTooLong { flen: 4, len: 6 })
    );
    assert_eq!(c.produce_str_with_specified_tp(&strict(), "ab".to_string()), Ok(b"ab".to_vec()));
}

#[test]
fn fixed_char_text_is_padded_with_zeros() {
    let c = call(field(TYPE_STRING as i32, 0, 5, 0, "binary"));
    assert_eq!(c.produce_str_with_specified_tp(&strict(), "ab".to_string()), Ok(vec![b'a', b'b', 0, 0, 0]));
    assert_eq!(c.produce_str_with_specified_tp(&strict(), "abcde".to_string()), Ok(b"abcde".to_vec()));
    // a UTF-8 fixed-length column is not padded
    let u = call(field(TYPE_STRING as i32, 0, 5, 0, "utf8"));
    assert_eq!(u.produce_str_with_specified_tp(&strict(), "ab".to_string()), Ok(b"ab".to_vec()));
}

#[test]
fn negative_length_keeps_text() {
    let c = call(field(TYPE_STRING as i32, 0, -1, 0, "binary"));
    assert_eq!(c.produce_str_with_specified_tp(&strict(), "anything".to_string()), Ok(b"anything".to_vec()));
}

#[test]
fn fitting_twice_changes_nothing() {
    let cases = [
        (field(TYPE_VARCHAR, 0, 3, 0, "utf8"), "héllo wörld"),
        (field(TYPE_STRING as i32, 0, 6, 0, "binary"), "ab"),
        (field(TYPE_VARCHAR, 0, 2, 0, "binary"), "abc"),
    ];
    for (ft, text) in cases {
        let c = call(ft);
        let once = c.produce_str_with_specified_tp(&lenient(), text.to_string()).unwrap();
        let again = c.produce_str_with_specified_tp(&lenient(), String::from_utf8(once.clone()).unwrap()).unwrap();
        assert_eq!(once, again);
    }
}

#[test]
fn integers_are_written_in_decimal() {
    assert_eq!(i64_to_text(0), b"0".to_vec());
    assert_eq!(i64_to_text(-5), b"-5".to_vec());
    assert_eq!(i64_to_text(1234567890), b"1234567890".to_vec());
    assert_eq!(i64_to_text(i64::MIN), b"-9223372036854775808".to_vec());
    assert_eq!(i64_to_text(i64::MAX), b"9223372036854775807".to_vec());
    assert_eq!(u64_to_text(u64::MAX), b"18446744073709551615".to_vec());
    assert_eq!(int_value_to_text(IntValue::Unsigned(42)), b"42".to_vec());
}

#[test]
fn decimal_text_reads_back() {
    for v in [i64::MIN, -1000, -1, 0, 7, 10, 99, 100, i64::MAX] {
        let text = String::from_utf8(i64_to_text(v)).unwrap();
        assert_eq!(text.parse::<i64>().unwrap(), v);
        assert_eq!(text, v.to_string());
    }
}

#[test]
fn unsigned_bits_read_as_signed() {
    assert_eq!(int_value_as_i64(IntValue::Unsigned(u64::MAX)), -1);
    assert_eq!(int_value_as_i64(IntValue::Unsigned(1 << 63)), i64::MIN);
    assert_eq!(int_value_as_i64(IntValue::Unsigned(5)), 5);
    assert_eq!(int_value_as_i64(IntValue::Signed(-7)), -7);
}

#[test]
fn int_as_str_fits_decimal_text() {
    let c = call(field(TYPE_VARCHAR, 0, 3, 0, "utf8"));
    assert_eq!(c.cast_int_as_str(&lenient(), None), Ok(None));
    assert_eq!(c.cast_int_as_str(&lenient(), Some(IntValue::Signed(-12))), Ok(Some(b"-12".to_vec())));
    assert_eq!(c.cast_int_as_str(&lenient(), Some(IntValue::Signed(12345))), Ok(Some(b"123".to_vec())));
    assert_eq!(
        c.cast_int_as_str(&strict(), Some(IntValue::Unsigned(12345))),
        Err(CastError::DataTooLong { flen: 3, len: 5 })
    );
}

#[test]
fn str_as_str_checks_utf8() {
    let c = call(field(TYPE_VARCHAR, 0, 2, 0, "utf8"));
    assert_eq!(c.cast_str_as_str(&lenient(), None), Ok(None));
    assert_eq!(c.cast_str_as_str(&lenient(), Some(vec![0xff, 0x00])), Err(CastError::InvalidUtf8));
    assert_eq!(c.cast_str_as_str(&lenient(), Some("äöü".as_bytes().to_vec())), Ok(Some("äö".as_bytes().to_vec())));
}

#[test]
fn negative_sign_after_whitespace() {
    assert!(str_is_negative(b"-12"));
    assert!(str_is_negative(b" \t\n\r\x0c-12"));
    assert!(!str_is_negative(b"  12"));
    assert!(!str_is_negative(b""));
    assert!(!str_is_negative(b"   "));
    assert!(!str_is_negative(b"+-1"));
    // vertical tab is not ASCII white space
    assert!(!str_is_negative(b"\x0b-1"));
}

#[test]
fn int_as_json_follows_unsignedness() {
    let signed = call(field(TYPE_VARCHAR, 0, -1, 0, "utf8"));
    assert_eq!(signed.cast_int_as_jsonn(Some(-1)), Some(Json::I64(-1)));
    assert_eq!(signed.cast_int_as_jsonn(None), None);
    let unsigned = FnCall {
        tp: field(TYPE_VARCHAR, 0, -1, 0, "utf8"),
        child_tp: field(TYPE_LONG_LONG as i32, UNSIGNED_FLAG as u32, 20, 0, "binary"),
    };
    assert_eq!(unsigned.cast_int_as_jsonn(Some(-1)), Some(Json::U64(u64::MAX)));
}

#[test]
fn str_as_json_parses_or_quotes() {
    let parse = call(field(245, 0, -1, 0, "utf8"));
    assert_eq!(parse.cast_str_as_json(Some(b"[1]".to_vec())), Ok(Some(StrAsJson::Parse(b"[1]".to_vec()))));
    let quote = call(field(245, 0, -1, 1, "utf8"));
    assert_eq!(
        quote.cast_str_as_json(Some(b"[1]".to_vec())),
        Ok(Some(StrAsJson::Value(Json::String(b"[1]".to_vec()))))
    );
    assert_eq!(quote.cast_str_as_json(Some(vec![0xc3])), Err(CastError::InvalidUtf8));
    assert_eq!(quote.cast_str_as_json(None), Ok(None));
}

#[test]
fn time_json_precision() {
    assert_eq!(json_fsp_for_time(TYPE_DATETIME, 0), MAX_FSP);
    assert_eq!(json_fsp_for_time(TYPE_TIMESTAMP, 3), MAX_FSP);
    assert_eq!(json_fsp_for_time(10, 2), 2);
}

#[test]
fn truncated_numbers() {
    assert_eq!(value_after_truncation(&strict(), Res::Exact(1.5f64)), Ok(1.5));
    assert_eq!(value_after_truncation(&strict(), Res::Truncated(1.5f64)), Err(CastError::Truncated));
    assert_eq!(value_after_truncation(&strict(), Res::Overflow(9.9f64)), Err(CastError::Truncated));
    assert_eq!(value_after_truncation(&lenient(), Res::Overflow(9.9f64)), Ok(9.9));
}

#[test]
fn decimals_read_from_text() {
    assert_eq!(decimal_from_parse(&strict(), Res::Exact(3u32)), Ok(3));
    assert_eq!(decimal_from_parse(&strict(), Res::Overflow(4u32)), Ok(4));
    assert_eq!(decimal_from_parse(&strict(), Res::Truncated(5u32)), Err(CastError::Truncated));
    assert_eq!(decimal_from_parse(&lenient(), Res::Truncated(5u32)), Ok(5));
}

#[test]
fn utf8_validation() {
    assert!(is_valid_utf8(b""));
    assert!(is_valid_utf8("aé日😀".as_bytes()));
    // stray continuation byte
    assert!(!is_valid_utf8(&[0x80]));
    // overlong encoding of '/'
    assert!(!is_valid_utf8(&[0xc0, 0xaf]));
    // encoded surrogate
    assert!(!is_valid_utf8(&[0xed, 0xa0, 0x80]));
    // beyond U+10FFFF
    assert!(!is_valid_utf8(&[0xf4, 0x90, 0x80, 0x80]));
    // cut short
    assert!(!is_valid_utf8(&[0xe6, 0x97]));
    for b in [vec![0xffu8], vec![b'a', 0xf0, 0x9f, 0x98], "ok".as_bytes().to_vec()] {
        assert_eq!(is_valid_utf8(&b), std::str::from_utf8(&b).is_ok());
    }
}

#[test]
fn character_starts_in_utf8() {
    let s = "aé日😀b".as_bytes();
    assert_eq!(count_char_starts(s), 5);
    assert_eq!(count_char_starts(b""), 0);
    assert_eq!(char_start_index(s, 0), 0);
    assert_eq!(char_start_index(s, 1), 1);
    assert_eq!(char_start_index(s, 2), 3);
    assert_eq!(char_start_index(s, 3), 6);
    assert_eq!(char_start_index(s, 4), 10);
    assert_eq!(char_start_index(s, 5), s.len());
    assert_eq!(char_start_index(s, 9), s.len());
}
