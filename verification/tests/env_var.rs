use std::collections::HashMap;

use env_toml::deserializer::Visit;
use env_toml::value::SpannedValue;
use env_toml::ValueDeserializer;

/// The environment of a test: the variables that are set.
struct Env(Vec<(&'static str, &'static str)>);

impl Env {
    fn get(&self, name: &str) -> Option<String> {
        self.0.iter().find(|(n, _)| *n == name).map(|(_, v)| v.to_string())
    }

    fn value_for(&self, d: &ValueDeserializer) -> Option<String> {
        d.env_var_name().and_then(|n| self.get(&n))
    }
}

/// Parses an inline table and returns its entries by key.
fn fields(src: &str) -> HashMap<String, SpannedValue<'_>> {
    let d = ValueDeserializer::parse(src).expect("failed to parse TOML");
    match d.deserialize_any(None) {
        Ok(Visit::Table(entries, _)) => entries.into_iter().map(|e| (e.key, e.item)).collect(),
        other => panic!("not a table: {:?}", other),
    }
}

fn field<'a>(map: &mut HashMap<String, SpannedValue<'a>>, key: &str) -> ValueDeserializer<'a> {
    ValueDeserializer::from_spanned(map.remove(key).expect("missing field"))
}

fn as_string(env: &Env, d: ValueDeserializer) -> String {
    let e = env.value_for(&d);
    match d.deserialize_str(e) {
        Ok(Visit::Str(s)) => s,
        Ok(Visit::BorrowedStr(s)) => s.to_string(),
        other => panic!("not a string: {:?}", other),
    }
}

fn as_i64(env: &Env, d: ValueDeserializer) -> i64 {
    let e = env.value_for(&d);
    match d.deserialize_any(e) {
        Ok(Visit::I64(v)) => v,
        other => panic!("not an integer: {:?}", other),
    }
}

fn as_f64(env: &Env, d: ValueDeserializer) -> f64 {
    let e = env.value_for(&d);
    match d.deserialize_any(e) {
        Ok(Visit::Float(f)) | Ok(Visit::FloatOrStr(f, _)) => {
            String::from_utf8(f.text).unwrap().parse().unwrap()
        }
        other => panic!("not a float: {:?}", other),
    }
}

fn as_bool(env: &Env, d: ValueDeserializer) -> bool {
    let e = env.value_for(&d);
    match d.deserialize_any(e) {
        Ok(Visit::Bool(b)) => b,
        other => panic!("not a boolean: {:?}", other),
    }
}

fn is_present(env: &Env, d: &ValueDeserializer) -> bool {
    d.deserialize_option(env.value_for(d))
}

fn error_message(env: &Env, d: ValueDeserializer) -> String {
    let e = env.value_for(&d);
    match d.deserialize_str(e) {
        Err(e) => e.message,
        Ok(v) => panic!("expected an error, got {:?}", v),
    }
}

#[test]
fn test_env_var() {
    let env = Env(vec![("DB_URL", "postgres://localhost:5432"), ("DB_PORT", "9090"), ("EMPTY_VAL", "")]);
    let mut m = fields(
        "{ db_url = ${DB_URL}, db_port = ${DB_PORT:8080}, default_port = ${MISSING_PORT:8080}, empty_string_default = ${EMPTY_VAL:}, empty_option_default = ${EMPTY_VAL:} }",
    );
    assert_eq!(as_string(&env, field(&mut m, "db_url")), "postgres://localhost:5432");
    assert_eq!(as_i64(&env, field(&mut m, "db_port")), 9090);
    assert_eq!(as_i64(&env, field(&mut m, "default_port")), 8080);
    assert_eq!(as_string(&env, field(&mut m, "empty_string_default")), "");
    assert!(!is_present(&env, &field(&mut m, "empty_option_default")));
}

#[test]
fn test_env_var_missing() {
    let env = Env(vec![]);
    let d = ValueDeserializer::parse("${MISSING_VAL}").unwrap();
    let msg = error_message(&env, d);
    assert!(msg.contains("environment variable `MISSING_VAL` not set"));
}

#[test]
fn test_env_var_in_array() {
    let env = Env(vec![("VAL1", "a"), ("VAL2", "b")]);
    let d = ValueDeserializer::parse("[ ${VAL1}, ${VAL2:c}, ${VAL3:d} ]").unwrap();
    let items = match d.deserialize_any(None) {
        Ok(Visit::Array(items, _)) => items,
        other => panic!("not an array: {:?}", other),
    };
    let list: Vec<String> =
        items.into_iter().map(|i| as_string(&env, ValueDeserializer::from_spanned(i))).collect();
    assert_eq!(list, vec!["a", "b", "d"]);
}

#[test]
fn test_env_var_in_table() {
    let env = Env(vec![("KEY1", "value1")]);
    let mut m = fields("{ table = { key = ${KEY1} } }");
    let table = field(&mut m, "table");
    let mut inner = match table.deserialize_any(None) {
        Ok(Visit::Table(entries, _)) => {
            entries.into_iter().map(|e| (e.key, e.item)).collect::<HashMap<_, _>>()
        }
        other => panic!("not a table: {:?}", other),
    };
    assert_eq!(as_string(&env, field(&mut inner, "key")), "value1");
}

#[test]
fn test_env_var_numeric_types() {
    let env = Env(vec![("PORT", "8080"), ("TIMEOUT", "3.01"), ("DEBUG", "true"), ("COUNT", "42")]);
    let mut m = fields(
        "{ port = ${PORT}, timeout = ${TIMEOUT}, debug = ${DEBUG}, count = ${COUNT}, port_s = ${PORT} }",
    );
    assert_eq!(as_i64(&env, field(&mut m, "port")), 8080);
    assert!((as_f64(&env, field(&mut m, "timeout")) - 3.01).abs() < f64::EPSILON);
    assert!(as_bool(&env, field(&mut m, "debug")));
    assert_eq!(as_i64(&env, field(&mut m, "count")), 42);
    assert_eq!(as_string(&env, field(&mut m, "port_s")), "8080");
}

#[test]
fn test_visit_env_var_value_fallbacks() {
    let env = Env(vec![("VAR_ARRAY", "[1, 2]"), ("VAR_TABLE", "{ a = 1 }")]);
    let mut m = fields("{ arr_s = ${VAR_ARRAY}, tbl_s = ${VAR_TABLE} }");
    assert_eq!(as_string(&env, field(&mut m, "arr_s")), "[1, 2]");
    assert_eq!(as_string(&env, field(&mut m, "tbl_s")), "{ a = 1 }");

    // Read as any value, the array text is still a string, never a sequence.
    let d = ValueDeserializer::parse("${VAR_ARRAY}").unwrap();
    let e = env.value_for(&d);
    let v = d.deserialize_any(e).unwrap();
    assert!(!matches!(v, Visit::Array(..)));
    assert!(matches!(v, Visit::Str(ref s) if s == "[1, 2]"));
}

#[test]
fn test_env_var_optional_empty_default() {
    let env = Env(vec![]);
    let d = ValueDeserializer::parse("${OPTIONAL_VAL:}").unwrap();
    assert!(!is_present(&env, &d));
}

#[test]
fn test_env_var_optional_u16_empty_default() {
    let env = Env(vec![]);
    let d = ValueDeserializer::parse("${OPTIONAL_PORT:}").unwrap();
    assert!(!is_present(&env, &d));
}

#[test]
fn test_env_var_optional_no_default() {
    let env = Env(vec![]);
    let d = ValueDeserializer::parse("${OPTIONAL_VAL_2}").unwrap();
    assert!(is_present(&env, &d));
    let e = env.value_for(&d);
    assert!(d.deserialize_str(e).is_err());
}

#[test]
fn test_env_var_optional_with_default() {
    let env = Env(vec![]);
    let d = ValueDeserializer::parse("${OPTIONAL_VAL_3:default}").unwrap();
    assert!(is_present(&env, &d));
    assert_eq!(as_string(&env, d), "default");
}

#[test]
fn test_env_var_non_optional_empty_default() {
    let env = Env(vec![]);
    let d = ValueDeserializer::parse("${NON_OPTIONAL_VAL:}").unwrap();
    assert_eq!(as_string(&env, d), "");
}

#[test]
fn test_env_var_optional_u16_present() {
    let env = Env(vec![("PRESENT_PORT", "9090")]);
    let d = ValueDeserializer::parse("${PRESENT_PORT:8080}").unwrap();
    assert!(is_present(&env, &d));
    assert_eq!(as_i64(&env, d), 9090);
}

#[test]
fn test_env_var_set_to_empty_string() {
    let env = Env(vec![("SET_EMPTY_VAL", "")]);
    let d = ValueDeserializer::parse("${SET_EMPTY_VAL:}").unwrap();
    assert!(!is_present(&env, &d));
}

#[test]
fn test_env_var_in_string() {
    let env = Env(vec![("DB_URL", "postgres://localhost:5432"), ("DB_PORT", "9090"), ("EMPTY_VAL", "")]);
    let mut m = fields(
        r#"{ db_url = "${DB_URL}", db_port = "${DB_PORT:8080}", default_port = "${MISSING_PORT:8080}", empty_string_default = "${EMPTY_VAL:}", empty_option_default = "${EMPTY_VAL:}" }"#,
    );
    assert_eq!(as_string(&env, field(&mut m, "db_url")), "postgres://localhost:5432");
    assert_eq!(as_i64(&env, field(&mut m, "db_port")), 9090);
    assert_eq!(as_i64(&env, field(&mut m, "default_port")), 8080);
    assert_eq!(as_string(&env, field(&mut m, "empty_string_default")), "");
    assert!(!is_present(&env, &field(&mut m, "empty_option_default")));
}

#[test]
fn test_env_var_missing_in_string() {
    let env = Env(vec![]);
    let d = ValueDeserializer::parse(r#""${MISSING_VAL}""#).unwrap();
    let msg = error_message(&env, d);
    assert!(msg.contains("environment variable `MISSING_VAL` not set"));
}

#[test]
fn test_env_var_in_string_in_array() {
    let env = Env(vec![("VAL1", "a"), ("VAL2", "b")]);
    let d = ValueDeserializer::parse(r#"[ "${VAL1}", "${VAL2:c}", "${VAL3:d}" ]"#).unwrap();
    let items = match d.deserialize_any(None) {
        Ok(Visit::Array(items, _)) => items,
        other => panic!("not an array: {:?}", other),
    };
    let list: Vec<String> =
        items.into_iter().map(|i| as_string(&env, ValueDeserializer::from_spanned(i))).collect();
    assert_eq!(list, vec!["a", "b", "d"]);
}

#[test]
fn test_env_var_in_string_in_table() {
    let env = Env(vec![("KEY1", "value1")]);
    let mut m = fields(r#"{ table.key = "${KEY1}" }"#);
    let table = field(&mut m, "table");
    let mut inner = match table.deserialize_any(None) {
        Ok(Visit::Table(entries, _)) => {
            entries.into_iter().map(|e| (e.key, e.item)).collect::<HashMap<_, _>>()
        }
        other => panic!("not a table: {:?}", other),
    };
    assert_eq!(as_string(&env, field(&mut inner, "key")), "value1");
}

#[test]
fn test_env_var_in_string_numeric_types() {
    let env = Env(vec![("PORT", "8080"), ("TIMEOUT", "3.01"), ("DEBUG", "true"), ("COUNT", "42")]);
    let mut m = fields(
        r#"{ port = "${PORT}", timeout = "${TIMEOUT}", debug = "${DEBUG}", count = "${COUNT}", port_s = "${PORT}" }"#,
    );
    assert_eq!(as_i64(&env, field(&mut m, "port")), 8080);
    assert!((as_f64(&env, field(&mut m, "timeout")) - 3.01).abs() < f64::EPSILON);
    assert!(as_bool(&env, field(&mut m, "debug")));
    assert_eq!(as_i64(&env, field(&mut m, "count")), 42);
    assert_eq!(as_string(&env, field(&mut m, "port_s")), "8080");
}

#[test]
fn test_visit_env_var_in_string_value_fallbacks() {
    let env = Env(vec![("VAR_ARRAY", "[1, 2]"), ("VAR_TABLE", "{ a = 1 }")]);
    let mut m = fields(r#"{ arr_s = "${VAR_ARRAY}", tbl_s = "${VAR_TABLE}" }"#);
    assert_eq!(as_string(&env, field(&mut m, "arr_s")), "[1, 2]");
    assert_eq!(as_string(&env, field(&mut m, "tbl_s")), "{ a = 1 }");

    let d = ValueDeserializer::parse(r#""${VAR_ARRAY}""#).unwrap();
    let e = env.value_for(&d);
    let v = d.deserialize_any(e).unwrap();
    assert!(!matches!(v, Visit::Array(..)));
}

#[test]
fn test_env_var_in_string_optional_empty_default() {
    let env = Env(vec![]);
    let d = ValueDeserializer::parse(r#""${OPTIONAL_VAL:}""#).unwrap();
    assert!(!is_present(&env, &d));
}

#[test]
fn test_env_var_in_string_optional_u16_empty_default() {
    let env = Env(vec![]);
    let d = ValueDeserializer::parse(r#""${OPTIONAL_PORT:}""#).unwrap();
    assert!(!is_present(&env, &d));
}

#[test]
fn test_env_var_in_string_optional_no_default() {
    let env = Env(vec![]);
    let d = ValueDeserializer::parse(r#""${OPTIONAL_VAL_2}""#).unwrap();
    assert!(is_present(&env, &d));
    let e = env.value_for(&d);
    assert!(d.deserialize_str(e).is_err());
}

#[test]
fn test_env_var_in_string_optional_with_default() {
    let env = Env(vec![]);
    let d = ValueDeserializer::parse(r#""${OPTIONAL_VAL_3:default}""#).unwrap();
    assert_eq!(as_string(&env, d), "default");
}

#[test]
fn test_env_var_in_string_non_optional_empty_default() {
    let env = Env(vec![]);
    let d = ValueDeserializer::parse(r#""${NON_OPTIONAL_VAL:}""#).unwrap();
    assert_eq!(as_string(&env, d), "");
}

#[test]
fn test_env_var_in_string_optional_u16_present() {
    let env = Env(vec![("PRESENT_PORT", "9090")]);
    let d = ValueDeserializer::parse(r#""${PRESENT_PORT:8080}""#).unwrap();
    assert!(is_present(&env, &d));
    assert_eq!(as_i64(&env, d), 9090);
}

#[test]
fn test_env_var_in_string_set_to_empty_string() {
    let env = Env(vec![("SET_EMPTY_VAL", "")]);
    let d = ValueDeserializer::parse(r#""${SET_EMPTY_VAL:}""#).unwrap();
    assert!(!is_present(&env, &d));
}

#[test]
fn test_env_var_dollar_in_default_in_string() {
    let env = Env(vec![]);
    let d = ValueDeserializer::parse(r#""${MISSING_WITH_DOLLAR_DEFAULT:$5.00}""#).unwrap();
    assert_eq!(as_string(&env, d), "$5.00");
}

#[test]
fn test_env_var_dollar_in_default_set_from_env() {
    let env = Env(vec![("PRESENT_WITH_DOLLAR_DEFAULT", "actual")]);
    let d = ValueDeserializer::parse(r#""${PRESENT_WITH_DOLLAR_DEFAULT:$fallback}""#).unwrap();
    assert_eq!(as_string(&env, d), "actual");
}
