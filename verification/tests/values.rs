use env_toml::datetime::{DateParts, OffsetParts, TimeParts};
use env_toml::deserializer::{EnumVisit, StructVisit, Visit};
use env_toml::env::{resolve_env_var, EnvVar};
use env_toml::integer::TomlInteger;
use env_toml::keys::validate_struct_keys;
use env_toml::value::{TableEntry, Text, TomlValue};
use env_toml::{Error, Span, ValueDeserializer};

fn any(src: &str) -> Result<Visit, Error> {
    ValueDeserializer::parse(src).expect("parse").deserialize_any(None)
}

fn string_of(src: &str) -> String {
    match any(src) {
        Ok(Visit::Str(s)) => s,
        Ok(Visit::BorrowedStr(s)) => s.to_string(),
        other => panic!("not a string: {:?}", other),
    }
}

fn env_any<'a>(src: &'a str, env: &str) -> Visit<'a> {
    ValueDeserializer::parse(src).unwrap().deserialize_any(Some(env.to_string())).unwrap()
}

fn table_of(src: &str) -> Vec<TableEntry> {
    match any(src) {
        Ok(Visit::Table(entries, _)) => entries,
        other => panic!("not a table: {:?}", other),
    }
}

#[test]
fn integers_go_to_the_smallest_signed_type_first() {
    assert!(matches!(any("42"), Ok(Visit::I64(42))));
    assert!(matches!(any("-17"), Ok(Visit::I64(-17))));
    assert!(matches!(any("+5"), Ok(Visit::I64(5))));
    assert!(matches!(any("-0"), Ok(Visit::I64(0))));
    assert!(matches!(any("1_000"), Ok(Visit::I64(1000))));
    assert!(matches!(any("9223372036854775807"), Ok(Visit::I64(i64::MAX))));
    assert!(matches!(any("9223372036854775808"), Ok(Visit::U64(9223372036854775808))));
    assert!(matches!(any("-9223372036854775808"), Ok(Visit::I64(i64::MIN))));
    assert!(matches!(any("-9223372036854775809"), Ok(Visit::I128(-9223372036854775809))));
    assert!(matches!(any("18446744073709551616"), Ok(Visit::I128(18446744073709551616))));
    assert!(matches!(
        any("170141183460469231731687303715884105728"),
        Ok(Visit::U128(170141183460469231731687303715884105728))
    ));
    assert!(matches!(any("-170141183460469231731687303715884105728"), Ok(Visit::I128(i128::MIN))));
}

#[test]
fn integers_in_other_radixes() {
    assert!(matches!(any("0xff"), Ok(Visit::I64(255))));
    assert!(matches!(any("0xDEAD_beef"), Ok(Visit::I64(0xdeadbeef))));
    assert!(matches!(any("0o17"), Ok(Visit::I64(15))));
    assert!(matches!(any("0b101"), Ok(Visit::I64(5))));
}

#[test]
fn integer_overflow_is_an_error_at_the_value() {
    let e = any("  340282366920938463463374607431768211456").unwrap_err();
    assert_eq!(e.message, "integer number overflowed");
    assert_eq!(e.span, Some(Span { start: 2, end: 41 }));
}

#[test]
fn malformed_integers_are_rejected() {
    for src in ["01", "1__0", "_1", "1_", "0x", "+0x1", "0xg", "0b2", "--1"] {
        assert!(ValueDeserializer::parse(src).is_err(), "{src}");
    }
}

#[test]
fn integer_conversions_are_exact() {
    let i = TomlInteger { negative: true, radix: 10, digits: vec![0] };
    assert_eq!(i.to_i64(), Some(0));
    assert_eq!(i.to_u64(), None);
    assert_eq!(i.to_u128(), None);
    let big = TomlInteger { negative: false, radix: 16, digits: vec![15; 17] };
    assert_eq!(big.to_i64(), None);
    assert_eq!(big.to_u64(), None);
    assert_eq!(big.to_i128(), Some(0xfffff_ffff_ffff_ffff));
    assert_eq!(big.magnitude(), Some(0xfffff_ffff_ffff_ffff));
}

#[test]
fn floats_keep_their_text_without_underscores() {
    for (src, text) in [
        ("3.14", "3.14"),
        ("-1_000.5", "-1000.5"),
        ("1e6", "1e6"),
        ("6.626e-34", "6.626e-34"),
        ("+1.5E+3", "+1.5E+3"),
        ("inf", "inf"),
        ("-nan", "-nan"),
    ] {
        match any(src) {
            Ok(Visit::Float(f)) => assert_eq!(String::from_utf8(f.text).unwrap(), text),
            other => panic!("{src}: {:?}", other),
        }
    }
    for src in ["1.", ".5", "1.e5", "01.5", "1e", "1.5_"] {
        assert!(ValueDeserializer::parse(src).is_err(), "{src}");
    }
}

#[test]
fn booleans() {
    assert!(matches!(any("true"), Ok(Visit::Bool(true))));
    assert!(matches!(any("false"), Ok(Visit::Bool(false))));
    assert!(ValueDeserializer::parse("True").is_err());
}

#[test]
fn datetimes_are_read_by_toml_datetime() {
    match any("1979-05-27T07:32:00Z") {
        Ok(Visit::Datetime(d)) => {
            assert_eq!(d.date, Some(DateParts { year: 1979, month: 5, day: 27 }));
            assert_eq!(d.time, Some(TimeParts { hour: 7, minute: 32, second: 0, nanosecond: 0 }));
            assert_eq!(d.offset, Some(OffsetParts::Z));
        }
        other => panic!("{:?}", other),
    }
    match any("1979-05-27 00:32:00.5-07:00") {
        Ok(Visit::Datetime(d)) => {
            assert_eq!(d.time.unwrap().nanosecond, 500_000_000);
            assert_eq!(d.offset, Some(OffsetParts::Custom(-420)));
        }
        other => panic!("{:?}", other),
    }
    match any("07:32:00") {
        Ok(Visit::Datetime(d)) => assert!(d.date.is_none() && d.time.is_some()),
        other => panic!("{:?}", other),
    }
    assert!(ValueDeserializer::parse("1979-13-01").is_err());
}

#[test]
fn basic_strings_decode_escapes() {
    assert_eq!(string_of(r#""a\tb\n\"q\"\\ \u00e9 \U0001F600""#), "a\tb\n\"q\"\\ \u{e9} \u{1F600}");
    assert!(ValueDeserializer::parse(r#""\x41""#).is_err());
    assert!(ValueDeserializer::parse(r#""\uD800""#).is_err());
    assert!(ValueDeserializer::parse("\"a\nb\"").is_err());
    assert!(ValueDeserializer::parse("\"unterminated").is_err());
}

#[test]
fn literal_strings_keep_backslashes() {
    assert_eq!(string_of(r"'C:\Users\nodejs'"), r"C:\Users\nodejs");
    assert_eq!(string_of("'héllo'"), "héllo");
}

#[test]
fn multiline_strings() {
    assert_eq!(string_of("\"\"\"\nRoses\nViolets\"\"\""), "Roses\nViolets");
    assert_eq!(string_of("\"\"\"The quick \\\n    brown fox\"\"\""), "The quick brown fox");
    assert_eq!(string_of("\"\"\"a \"\"quote\"\" b\"\"\"\"\""), "a \"\"quote\"\" b\"\"");
    assert_eq!(string_of("'''\nline one\r\nline two'''"), "line one\r\nline two");
    assert_eq!(string_of("''''That,' she said'''"), "'That,' she said");
    assert!(ValueDeserializer::parse("\"\"\"a\"\"\"\"\"\"").is_err());
}

#[test]
fn only_a_whole_basic_string_is_a_placeholder() {
    assert_eq!(string_of(r#""prefix-${VAR}""#), "prefix-${VAR}");
    assert_eq!(string_of(r#""${A}${B}""#), "${A}${B}");
    assert_eq!(string_of("'${VAR}'"), "${VAR}");
    assert_eq!(string_of(r#""${A-B}""#), "${A-B}");
    let d = ValueDeserializer::parse(r#""${VAR:x}""#).unwrap();
    assert_eq!(d.env_var_name(), Some("VAR".to_string()));
}

#[test]
fn bare_placeholders() {
    let d = ValueDeserializer::parse("${GREETING:hello world}").unwrap();
    assert_eq!(d.env_var_name(), Some("GREETING".to_string()));
    match d.deserialize_str(None) {
        Ok(Visit::Str(s)) => assert_eq!(s, "hello world"),
        other => panic!("{:?}", other),
    }
    for src in ["${}", "${A-B}", "${A", "${A:b", "${A:$b}", "$A"] {
        assert!(ValueDeserializer::parse(src).is_err(), "{src}");
    }
}

#[test]
fn env_text_is_read_as_a_scalar() {
    assert!(matches!(env_any("${X}", "8080"), Visit::I64(8080)));
    assert!(matches!(env_any("${X}", "true"), Visit::Bool(true)));
    assert!(matches!(env_any("${X}", " 42 "), Visit::I64(42)));
    assert!(matches!(env_any("${X}", "'quoted'"), Visit::Str(ref s) if s == "quoted"));
    assert!(matches!(env_any("${X}", "hello"), Visit::Str(ref s) if s == "hello"));
    assert!(matches!(env_any("${X}", "1979-05-27"), Visit::Str(ref s) if s == "1979-05-27"));
    assert!(matches!(env_any("${X}", "${Y}"), Visit::Str(ref s) if s == "${Y}"));
    let huge = "340282366920938463463374607431768211456";
    assert!(matches!(env_any("${X}", huge), Visit::Str(ref s) if s == huge));
    match env_any("${X}", "1e400") {
        Visit::FloatOrStr(f, s) => {
            assert_eq!(f.text, b"1e400".to_vec());
            assert_eq!(s, "1e400");
        }
        other => panic!("{:?}", other),
    }
}

#[test]
fn the_environment_wins_over_the_default() {
    let v = EnvVar::new("A".to_string(), Some("d".to_string()));
    let sp = Span { start: 1, end: 2 };
    assert_eq!(resolve_env_var(v, Some("e".to_string()), sp).unwrap(), "e");
    let v = EnvVar::new("A".to_string(), Some("d".to_string()));
    assert_eq!(resolve_env_var(v, None, sp).unwrap(), "d");
    let v = EnvVar::new("A".to_string(), None);
    let e = resolve_env_var(v, None, sp).unwrap_err();
    assert_eq!(e.message, "environment variable `A` not set");
    assert_eq!(e.span, Some(sp));
}

#[test]
fn arrays_with_comments_newlines_and_trailing_commas() {
    let src = "[\n  1, # one\n  [2, 'two'],\n  { three = 3 },\n]";
    match any(src) {
        Ok(Visit::Array(items, span)) => {
            assert_eq!(span, Span { start: 0, end: src.len() });
            assert_eq!(items.len(), 3);
            assert_eq!(items[0].span, Span { start: 4, end: 5 });
            assert!(matches!(items[1].value, TomlValue::Array(ref inner) if inner.len() == 2));
            assert!(matches!(items[2].value, TomlValue::Table(ref t) if t.len() == 1));
        }
        other => panic!("{:?}", other),
    }
    assert!(matches!(any("[]"), Ok(Visit::Array(ref v, _)) if v.is_empty()));
    for src in ["[1,,2]", "[1 2]", "[,]", "[1"] {
        assert!(ValueDeserializer::parse(src).is_err(), "{src}");
    }
}

#[test]
fn inline_tables_and_dotted_keys() {
    let t = table_of(r#"{ a.b = 1, a.c = 2, "quoted key" = 'x', d-e = true }"#);
    assert_eq!(t.len(), 3);
    assert_eq!(t[0].key, "a");
    assert!(t[0].implicit);
    match &t[0].item.value {
        TomlValue::Table(inner) => {
            assert_eq!(inner.len(), 2);
            assert_eq!(inner[0].key, "b");
            assert_eq!(inner[1].key, "c");
        }
        other => panic!("{:?}", other),
    }
    assert_eq!(t[1].key, "quoted key");
    assert_eq!(t[2].key, "d-e");
    assert!(table_of("{}").is_empty());
    for src in ["{ a = 1, a = 2 }", "{ a = { b = 1 }, a.c = 2 }", "{ a.b = 1, a = 2 }", "{ a = 1, }", "{ a = 1 b = 2 }", "{ = 1 }"] {
        assert!(ValueDeserializer::parse(src).is_err(), "{src}");
    }
}

#[test]
fn documents_allow_surrounding_whitespace_only() {
    let d = ValueDeserializer::parse("  42\t").unwrap();
    assert_eq!(d.span(), Span { start: 2, end: 4 });
    assert!(ValueDeserializer::parse("42 x").is_err());
    assert!(ValueDeserializer::parse("").is_err());
    let d = ValueDeserializer::new("'a'").unwrap();
    assert_eq!(d.span(), Span { start: 0, end: 3 });
}

#[test]
fn unexpected_struct_keys_are_listed() {
    let t = table_of("{ a = 1, b = 2, c = 3 }");
    let e = validate_struct_keys(&t, &["a"]).unwrap_err();
    assert_eq!(e.message, "unexpected keys in table: b, c, available keys: a");
    assert_eq!(e.span, Some(Span { start: 9, end: 10 }));
    assert!(validate_struct_keys(&t, &["c", "b", "a"]).is_ok());
    let e = validate_struct_keys(&t, &[]).unwrap_err();
    assert_eq!(e.message, "unexpected keys in table: a, b, c, available keys: ");
}

#[test]
fn structs_check_keys_only_when_asked() {
    let d = ValueDeserializer::parse("{ a = 1, z = 2 }").unwrap();
    assert!(matches!(d.deserialize_struct("S", &["a"], None), Ok(StructVisit::Value(Visit::Table(..)))));
    let d = ValueDeserializer::parse("{ a = 1, z = 2 }").unwrap().with_struct_key_validation();
    let e = d.deserialize_struct("S", &["a"], None).unwrap_err();
    assert_eq!(e.message, "unexpected keys in table: z, available keys: a");
    assert_eq!(e.span, Some(Span { start: 9, end: 10 }));
}

#[test]
fn structs_named_for_spans_and_datetimes() {
    let d = ValueDeserializer::parse(" 7 ").unwrap();
    match d.deserialize_struct("$__serde_spanned_private_Spanned", &[], None) {
        Ok(StructVisit::Spanned(inner)) => assert_eq!(inner.span(), Span { start: 1, end: 2 }),
        other => panic!("{:?}", other),
    }
    let d = ValueDeserializer::parse("1979-05-27").unwrap();
    assert!(matches!(
        d.deserialize_struct("$__toml_private_Datetime", &[], None),
        Ok(StructVisit::Value(Visit::Datetime(_)))
    ));
    let d = ValueDeserializer::parse("7").unwrap();
    assert!(matches!(d.deserialize_struct("$__toml_private_Datetime", &[], None), Ok(StructVisit::Value(Visit::I64(7)))));
}

#[test]
fn enums_from_strings_tables_and_placeholders() {
    let d = ValueDeserializer::parse("'Red'").unwrap();
    assert!(matches!(d.deserialize_enum(None), Ok(EnumVisit::Variant(Text::Borrowed(s))) if s == "Red"));
    let d = ValueDeserializer::parse("${COLOR:Blue}").unwrap();
    assert!(matches!(d.deserialize_enum(None), Ok(EnumVisit::Variant(Text::Owned(ref s))) if s == "Blue"));
    let d = ValueDeserializer::parse("{ Rgb = [1, 2, 3] }").unwrap();
    match d.deserialize_enum(None) {
        Ok(EnumVisit::Tagged(k, v)) => {
            assert_eq!(k, "Rgb");
            assert!(matches!(v.value, TomlValue::Array(ref a) if a.len() == 3));
            assert_eq!(v.span, Span { start: 8, end: 17 });
        }
        other => panic!("{:?}", other),
    }
    let e = ValueDeserializer::parse("{}").unwrap().deserialize_enum(None).unwrap_err();
    assert_eq!(e.message, "wanted exactly 1 element, found 0 elements");
    let e = ValueDeserializer::parse("{ A = 1, B = 2 }").unwrap().deserialize_enum(None).unwrap_err();
    assert_eq!(e.message, "wanted exactly 1 element, more than 1 element");
    assert_eq!(e.span, Some(Span { start: 0, end: 16 }));
    let d = ValueDeserializer::parse(" 5").unwrap();
    let e = d.deserialize_enum(None).unwrap_err();
    assert_eq!(e.message, "wanted string or table");
    assert_eq!(e.span, Some(Span { start: 1, end: 2 }));
}

#[test]
fn errors_keep_their_own_span() {
    let e = Error::custom("x".to_string(), None).or_span(Span { start: 3, end: 4 });
    assert_eq!(e.span, Some(Span { start: 3, end: 4 }));
    let e = Error::custom("x".to_string(), Some(Span { start: 1, end: 2 })).or_span(Span { start: 3, end: 4 });
    assert_eq!(e.span, Some(Span { start: 1, end: 2 }));
}

#[test]
fn strings_ask_for_raw_text() {
    let d = ValueDeserializer::parse("${PORT}").unwrap();
    assert!(matches!(d.deserialize_string(Some("8080".into())), Ok(Visit::Str(ref s)) if s == "8080"));
    let d = ValueDeserializer::parse("12").unwrap();
    assert!(matches!(d.deserialize_str(None), Ok(Visit::I64(12))));
}

#[test]
fn value_deserializer_doc_example() {
    let value = r#"{ title = 'TOML Example', owner = { name = 'Lisa' } }"#;
    let t = table_of(value);
    assert_eq!(t.len(), 2);
    assert_eq!(t[0].key, "title");
    assert!(matches!(t[0].item.value, TomlValue::String(ref t) if t.as_str() == "TOML Example"));
    match &t[1].item.value {
        TomlValue::Table(owner) => {
            assert_eq!(owner[0].key, "name");
            assert!(matches!(owner[0].item.value, TomlValue::String(ref t) if t.as_str() == "Lisa"));
        }
        other => panic!("{:?}", other),
    }
}

#[test]
fn a_passed_key_check_changes_nothing() {
    let plain = ValueDeserializer::parse("{ a = 1, b = 'x' }").unwrap();
    let checked = ValueDeserializer::parse("{ a = 1, b = 'x' }").unwrap().with_struct_key_validation();
    let (p, c) = match (plain.deserialize_struct("S", &["a", "b"], None), checked.deserialize_struct("S", &["a", "b"], None)) {
        (Ok(StructVisit::Value(Visit::Table(p, ps))), Ok(StructVisit::Value(Visit::Table(c, cs)))) => {
            assert_eq!(ps, cs);
            (p, c)
        }
        other => panic!("{:?}", other),
    };
    assert_eq!(p.len(), c.len());
    for (x, y) in p.iter().zip(c.iter()) {
        assert_eq!(x.key, y.key);
        assert_eq!(x.item.span, y.item.span);
    }
    let checked = ValueDeserializer::parse("7").unwrap().with_struct_key_validation();
    assert!(matches!(checked.deserialize_struct("S", &["a"], None), Ok(StructVisit::Value(Visit::I64(7)))));
}

#[test]
fn parse_errors_point_into_the_input() {
    let e = ValueDeserializer::parse("[1, 2").unwrap_err();
    assert_eq!(e.message, "expected `,` or `]` in array");
    assert_eq!(e.span, Some(Span { start: 5, end: 5 }));
    let e = ValueDeserializer::parse("{ a = 1, a = 2 }").unwrap_err();
    assert_eq!(e.message, "duplicate key");
    assert_eq!(e.span, Some(Span { start: 9, end: 9 }));
    let e = ValueDeserializer::parse("42 x").unwrap_err();
    assert_eq!(e.message, "unexpected content after the value");
    assert_eq!(e.span, Some(Span { start: 3, end: 3 }));
    let e = ValueDeserializer::parse("").unwrap_err();
    assert_eq!(e.message, "expected a value");
    assert_eq!(e.span, Some(Span { start: 0, end: 0 }));
}

#[test]
fn each_parse_error_names_its_cause() {
    let cases: [(&str, &str, usize); 7] = [
        ("\"abc", "invalid string", 0),
        ("${}", "invalid environment variable placeholder", 0),
        ("tru", "invalid value", 0),
        ("{ a 1 }", "expected `=` after key", 4),
        ("{ = 1 }", "expected a key", 2),
        ("{ a = 1 b = 2 }", "expected `,` or `}` in inline table", 8),
        ("{ a = 1, }", "expected a key", 9),
    ];
    for (src, msg, at) in cases {
        let e = ValueDeserializer::parse(src).unwrap_err();
        assert_eq!(e.message, msg, "{src}");
        assert_eq!(e.span, Some(Span { start: at, end: at }), "{src}");
    }
}

#[test]
fn strings_that_need_no_unescaping_are_borrowed() {
    let src = "\"plain text\"";
    match any(src) {
        Ok(Visit::BorrowedStr(s)) => {
            assert_eq!(s, "plain text");
            assert!(std::ptr::eq(s.as_ptr(), src[1..].as_ptr()));
        }
        other => panic!("{:?}", other),
    }
    let borrowed = [
        (r"'C:\Users'", r"C:\Users"),
        ("\"\"\"\nRoses\"\"\"", "Roses"),
        ("''''That,' she said'''", "'That,' she said"),
        ("\"\"\"a \"\"quote\"\" b\"\"\"\"\"", "a \"\"quote\"\" b\"\""),
        ("\"h\u{e9}llo\"", "h\u{e9}llo"),
        ("''", ""),
    ];
    for (src, text) in borrowed {
        assert!(matches!(any(src), Ok(Visit::BorrowedStr(s)) if s == text), "{src}");
    }
    let owned = [
        (r#""a\tb""#, "a\tb"),
        ("\"\"\"The quick \\\n    brown fox\"\"\"", "The quick brown fox"),
        (r#""\u00e9""#, "\u{e9}"),
    ];
    for (src, text) in owned {
        assert!(matches!(any(src), Ok(Visit::Str(ref s)) if s == text), "{src}");
    }
    let d = ValueDeserializer::parse("'x'").unwrap();
    assert!(matches!(d.deserialize_str(None), Ok(Visit::BorrowedStr("x"))));
    assert!(matches!(env_any("${X}", "'quoted'"), Visit::Str(ref s) if s == "quoted"));
}
