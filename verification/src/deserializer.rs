//! Deserialization of a TOML value: how each value, and each resolved
//! placeholder, is presented to a deserializer's visitor.
use vstd::prelude::*;
use vstd::utf8::encode_utf8;
use crate::error::{Error, Span};
use crate::env::{EnvVar, resolve_env_var, resolution, opt_view, not_set_message};
use crate::value::{Text, TomlValue, TomlFloat, SpannedValue, TableEntry, ValueModel, ItemModel, EntryModel, items_model, entries_model, items_wf, entries_wf};
use crate::datetime::DatetimeParts;
use crate::integer::{TomlInteger, digits_value};
use crate::grammar::document;
use crate::parser::{parse_document, reports};

verus! {

/// What a visitor is handed.
#[derive(Debug)]
pub enum Visit<'a> {
    /// An owned string (`visit_string`).
    Str(String),
    /// A string borrowed from the input (`visit_borrowed_str`).
    BorrowedStr(&'a str),
    /// An integer that fits an `i64` (`visit_i64`).
    I64(i64),
    /// A non-negative integer that fits a `u64` but not an `i64`.
    U64(u64),
    /// An integer that fits an `i128` but neither of the above.
    I128(i128),
    /// A non-negative integer that fits only a `u128`.
    U128(u128),
    /// A float literal (`visit_f64` of its value).
    Float(TomlFloat),
    /// A float literal read from an environment variable, and that
    /// variable's text, for when the literal does not fit an `f64`.
    FloatOrStr(TomlFloat, String),
    /// A boolean.
    Bool(bool),
    /// A datetime.
    Datetime(DatetimeParts),
    /// An array and its span.
    Array(Vec<SpannedValue<'a>>, Span),
    /// A table and its span.
    Table(Vec<TableEntry<'a>>, Span),
}

/// The model of what a visitor is handed.
pub enum VisitModel {
    Str(Seq<char>),
    BorrowedStr(Seq<char>),
    I64(i64),
    U64(u64),
    I128(i128),
    U128(u128),
    Float(Seq<u8>),
    FloatOrStr(Seq<u8>, Seq<char>),
    Bool(bool),
    Datetime(DatetimeParts),
    Array(Seq<ItemModel>, Span),
    Table(Seq<EntryModel>, Span),
}

impl<'a> Visit<'a> {
    /// The model of the visit.
    pub open spec fn model(&self) -> VisitModel {
        match self {
            Visit::Str(s) => VisitModel::Str(s@),
            Visit::BorrowedStr(s) => VisitModel::BorrowedStr(s@),
            Visit::I64(v) => VisitModel::I64(*v),
            Visit::U64(v) => VisitModel::U64(*v),
            Visit::I128(v) => VisitModel::I128(*v),
            Visit::U128(v) => VisitModel::U128(*v),
            Visit::Float(f) => VisitModel::Float(f.text@),
            Visit::FloatOrStr(f, s) => VisitModel::FloatOrStr(f.text@, s@),
            Visit::Bool(b) => VisitModel::Bool(*b),
            Visit::Datetime(d) => VisitModel::Datetime(*d),
            Visit::Array(items, sp) => VisitModel::Array(items_model(items@), *sp),
            Visit::Table(entries, sp) => VisitModel::Table(entries_model(entries@), *sp),
        }
    }

    /// The values of an array or table visit are well formed, so each can
    /// be handed to a deserializer of its own.
    pub open spec fn wf(&self) -> bool {
        match self {
            Visit::Array(items, _) => items_wf(items@),
            Visit::Table(entries, _) => entries_wf(entries@),
            _ => true,
        }
    }
}

/// The value of an integer literal.
pub open spec fn integer_value(negative: bool, radix: u32, digits: Seq<u8>) -> int {
    if negative {
        -digits_value(digits, radix as int)
    } else {
        digits_value(digits, radix as int)
    }
}

/// An integer goes to the first of `i64`, `u64`, `i128`, `u128` that
/// holds it (a literal written with `-` never goes to an unsigned type);
/// `None` when none does.
pub open spec fn integer_visit(negative: bool, radix: u32, digits: Seq<u8>) -> Option<VisitModel> {
    let v = integer_value(negative, radix, digits);
    if i64::MIN <= v <= i64::MAX {
        Some(VisitModel::I64(v as i64))
    } else if !negative && 0 <= v <= u64::MAX {
        Some(VisitModel::U64(v as u64))
    } else if i128::MIN <= v <= i128::MAX {
        Some(VisitModel::I128(v as i128))
    } else if !negative && 0 <= v <= u128::MAX {
        Some(VisitModel::U128(v as u128))
    } else {
        None
    }
}

/// How the resolved text of a placeholder is handed over: read as a TOML
/// value, an integer, float, boolean or string goes as such; anything else
/// (arrays, tables, datetimes, placeholders, integers too large for any
/// type, text that is no TOML value) goes as the raw text.
pub open spec fn env_visit(text: Seq<char>) -> VisitModel {
    match document(encode_utf8(text)) {
        Ok((ValueModel::Integer(neg, radix, digits), _)) => match integer_visit(neg, radix, digits) {
            Some(v) => v,
            None => VisitModel::Str(text),
        },
        Ok((ValueModel::Float(f), _)) => VisitModel::FloatOrStr(f, text),
        Ok((ValueModel::Boolean(b), _)) => VisitModel::Bool(b),
        Ok((ValueModel::String(s, _), _)) => VisitModel::Str(s),
        _ => VisitModel::Str(text),
    }
}

/// An error as its message and span.
pub open spec fn error_model(e: Error) -> (Seq<char>, Option<Span>) {
    (e.message@, e.span)
}

/// What `deserialize_any` yields for a value with the given span, given
/// the environment's value for a placeholder's variable.
pub open spec fn any_result(m: ValueModel, span: Span, env: Option<Seq<char>>) -> Result<VisitModel, (Seq<char>, Option<Span>)> {
    match m {
        ValueModel::String(s, borrowed) => if borrowed {
            Ok(VisitModel::BorrowedStr(s))
        } else {
            Ok(VisitModel::Str(s))
        },
        ValueModel::Integer(neg, radix, digits) => match integer_visit(neg, radix, digits) {
            Some(v) => Ok(v),
            None => Err(("integer number overflowed"@, Some(span))),
        },
        ValueModel::Float(f) => Ok(VisitModel::Float(f)),
        ValueModel::Boolean(b) => Ok(VisitModel::Bool(b)),
        ValueModel::Datetime(d) => Ok(VisitModel::Datetime(d)),
        ValueModel::Array(items) => Ok(VisitModel::Array(items, span)),
        ValueModel::Table(entries) => Ok(VisitModel::Table(entries, span)),
        ValueModel::EnvVar(name, default) => match resolution(env, default) {
            Some(text) => Ok(env_visit(text)),
            None => Err((not_set_message(name), Some(span))),
        },
    }
}

/// The visit of an integer literal, when some integer type holds it.
pub fn visit_integer<'a>(i: TomlInteger) -> (res: Option<Visit<'a>>)
    requires
        i.wf(),
    ensures
        match integer_visit(i.negative, i.radix, i.digits@) {
            Some(v) => res matches Some(r) && r.model() == v,
            None => res is None,
        },
{
    proof {
        crate::integer::lemma_digits_value_nonneg(i.digits@, i.radix as int);
    }
    if let Some(v) = i.to_i64() {
        Some(Visit::I64(v))
    } else if let Some(v) = i.to_u64() {
        Some(Visit::U64(v))
    } else if let Some(v) = i.to_i128() {
        Some(Visit::I128(v))
    } else if let Some(v) = i.to_u128() {
        Some(Visit::U128(v))
    } else {
        None
    }
}

/// Re-reads the resolved text of a placeholder as a TOML value and decides
/// what the visitor gets; text that is no integer, float, boolean or string
/// goes through unchanged.
pub fn visit_env_var_value<'a>(value: String) -> (res: Visit<'a>)
    ensures
        res.model() == env_visit(value@),
{
    let copy = value.clone();
    let parsed = parse_document(copy.as_str());
    match parsed {
        Ok((v, _span)) => match v {
            TomlValue::Integer(i) => match visit_integer(i) {
                Some(r) => r,
                None => Visit::Str(value),
            },
            TomlValue::Float(f) => Visit::FloatOrStr(f, value),
            TomlValue::Boolean(b) => Visit::Bool(b),
            TomlValue::String(t) => Visit::Str(t.as_str().to_owned()),
            _ => Visit::Str(value),
        },
        Err(_) => Visit::Str(value),
    }
}

} // verus!

verus! {

/// What `deserialize_enum` hands over: a variant name, or the key and
/// value of a table's single entry (the variant and its content).
#[derive(Debug)]
pub enum EnumVisit<'a> {
    Variant(Text<'a>),
    Tagged(String, SpannedValue<'a>),
}

/// What `deserialize_struct` hands over: the value itself together with
/// its span (for a `Spanned` field), or an ordinary visit.
#[derive(Debug)]
pub enum StructVisit<'a> {
    Spanned(ValueDeserializer<'a>),
    Value(Visit<'a>),
}

/// The name under which `serde_spanned` asks for a `Spanned`.
pub open spec fn spanned_struct_name() -> Seq<char> {
    "$__serde_spanned_private_Spanned"@
}

/// The name under which `toml_datetime` asks for a `Datetime`.
pub open spec fn datetime_struct_name() -> Seq<char> {
    "$__toml_private_Datetime"@
}

/// Whether a struct name asks for a `Spanned`.
///
/// Trusted: calls `serde_spanned::de::is_spanned`, whose source compares
/// the name with its private constant `$__serde_spanned_private_Spanned`.
#[verifier::external_body]
pub(crate) fn is_spanned(name: &'static str) -> (res: bool)
    ensures
        res == (name@ == spanned_struct_name()),
{
    serde_spanned::de::is_spanned(name)
}

/// Whether a struct name asks for a `Datetime`.
///
/// Trusted: calls `toml_datetime::de::is_datetime`, whose source compares
/// the name with its private constant `$__toml_private_Datetime`.
#[verifier::external_body]
pub(crate) fn is_datetime(name: &'static str) -> (res: bool)
    ensures
        res == (name@ == datetime_struct_name()),
{
    toml_datetime::de::is_datetime(name)
}

/// Deserialization of one TOML value.
///
/// ```text
/// { title = 'TOML Example', owner = { name = 'Lisa' } }
/// ```
/// parses to a deserializer whose value is a table with the keys `title`
/// and `owner`.
#[derive(Debug)]
pub struct ValueDeserializer<'a> {
    span: Span,
    input: TomlValue<'a>,
    validate_struct_keys: bool,
}

impl<'a> ValueDeserializer<'a> {
    #[verifier::type_invariant]
    spec fn inv(self) -> bool {
        self.input.wf()
    }

    /// The model of the value.
    pub closed spec fn input_model(self) -> ValueModel {
        self.input.model()
    }

    /// The span of the value.
    pub closed spec fn span_model(self) -> Span {
        self.span
    }

    /// Whether struct keys are checked against the struct's fields.
    pub closed spec fn validates_keys(self) -> bool {
        self.validate_struct_keys
    }

    /// Parses a TOML value. On failure the error points at the byte where
    /// reading stopped.
    pub fn parse(raw: &'a str) -> (res: Result<Self, Error>)
        ensures
            match document(encode_utf8(raw@)) {
                Ok((m, sp)) => res matches Ok(d) && d.input_model() == m && d.span_model() == sp
                    && !d.validates_keys(),
                Err(f) => res matches Err(e) && reports(e, f),
            },
            res matches Err(e) ==> e.span matches Some(sp) && sp.start == sp.end
                && sp.end <= encode_utf8(raw@).len(),
    {
        match parse_document(raw) {
            Ok((input, span)) => Ok(Self::with_parts(input, span)),
            Err(e) => Err(e),
        }
    }

    /// The same as [`ValueDeserializer::parse`], under its former name.
    pub fn new(raw: &'a str) -> (res: Result<Self, Error>)
        ensures
            match document(encode_utf8(raw@)) {
                Ok((m, sp)) => res matches Ok(d) && d.input_model() == m && d.span_model() == sp
                    && !d.validates_keys(),
                Err(f) => res matches Err(e) && reports(e, f),
            },
            res matches Err(e) ==> e.span matches Some(sp) && sp.start == sp.end
                && sp.end <= encode_utf8(raw@).len(),
    {
        Self::parse(raw)
    }

    /// A deserializer for a value read from `span`, not checking struct
    /// keys.
    pub fn with_parts(input: TomlValue<'a>, span: Span) -> (d: Self)
        requires
            input.wf(),
        ensures
            d.input_model() == input.model(),
            d.span_model() == span,
            !d.validates_keys(),
    {
        Self { input, span, validate_struct_keys: false }
    }

    /// The same deserializer, checking struct keys against struct fields.
    pub fn with_struct_key_validation(self) -> (d: Self)
        ensures
            d.input_model() == self.input_model(),
            d.span_model() == self.span_model(),
            d.validates_keys(),
    {
        proof {
            use_type_invariant(&self);
        }
        let ValueDeserializer { span, input, validate_struct_keys: _ } = self;
        Self { input, span, validate_struct_keys: true }
    }

    /// A deserializer for a spanned value.
    pub fn from_spanned(root: SpannedValue<'a>) -> (d: Self)
        requires
            root.value.wf(),
        ensures
            d.input_model() == root.value.model(),
            d.span_model() == root.span,
            !d.validates_keys(),
    {
        Self::with_parts(root.value, root.span)
    }

    /// The span of the value.
    pub fn span(&self) -> (s: Span)
        ensures
            s == self.span_model(),
    {
        self.span
    }

    /// The name of the environment variable to look up, when the value is a
    /// placeholder.
    pub fn env_var_name(&self) -> (res: Option<String>)
        ensures
            match self.input_model() {
                ValueModel::EnvVar(name, _) => res matches Some(n) && n@ == name,
                _ => res is None,
            },
    {
        match &self.input {
            TomlValue::EnvVar(v) => Some(v.name.clone()),
            _ => None,
        }
    }

    /// Decides what the visitor gets for the value. `env_value` is the
    /// environment's value for the placeholder's variable (`None` when it
    /// is not set); it is only read when the value is a placeholder. A
    /// string whose text is the input's bytes between its delimiters (no
    /// escape, nothing trimmed) is handed on borrowed from the input.
    pub fn deserialize_any(self, env_value: Option<String>) -> (res: Result<Visit<'a>, Error>)
        ensures
            match any_result(self.input_model(), self.span_model(), opt_view(env_value)) {
                Ok(v) => res matches Ok(r) && r.model() == v,
                Err(e) => res matches Err(r) && error_model(r) == e,
            },
            res matches Ok(r) ==> r.wf(),
    {
        proof {
            use_type_invariant(&self);
        }
        let ValueDeserializer { span, input, validate_struct_keys: _ } = self;
        match input {
            TomlValue::String(Text::Borrowed(s)) => Ok(Visit::BorrowedStr(s)),
            TomlValue::String(Text::Owned(s)) => Ok(Visit::Str(s)),
            TomlValue::Integer(i) => match visit_integer(i) {
                Some(v) => Ok(v),
                None => Err(Error::custom(String::from_str("integer number overflowed"), Some(span))),
            },
            TomlValue::Float(f) => Ok(Visit::Float(f)),
            TomlValue::Boolean(b) => Ok(Visit::Bool(b)),
            TomlValue::Datetime(d) => Ok(Visit::Datetime(d)),
            TomlValue::Array(items) => Ok(Visit::Array(items, span)),
            TomlValue::Table(entries) => Ok(Visit::Table(entries, span)),
            TomlValue::EnvVar(v) => match resolve_env_var(v, env_value, span) {
                Ok(value) => Ok(visit_env_var_value(value)),
                Err(e) => Err(e),
            },
        }
    }
}

} // verus!

verus! {

/// The model of what `deserialize_enum` hands over.
pub enum EnumModel {
    Variant(Seq<char>, bool),
    Tagged(Seq<char>, ItemModel),
}

impl<'a> EnumVisit<'a> {
    /// The model of the enum visit.
    pub open spec fn model(&self) -> EnumModel {
        match self {
            EnumVisit::Variant(t) => EnumModel::Variant(t.chars(), t.is_borrowed()),
            EnumVisit::Tagged(k, v) => EnumModel::Tagged(k@, crate::value::item_model(*v)),
        }
    }
}

/// The model of what `deserialize_struct` hands over.
pub enum StructModel {
    Spanned(ValueModel, Span, bool),
    Value(VisitModel),
}

impl<'a> StructVisit<'a> {
    /// The model of the struct visit.
    pub open spec fn model(&self) -> StructModel {
        match self {
            StructVisit::Spanned(d) => StructModel::Spanned(d.input_model(), d.span_model(), d.validates_keys()),
            StructVisit::Value(v) => StructModel::Value(v.model()),
        }
    }
}

/// What `deserialize_str` yields: a placeholder's resolved text as it is,
/// without reading it as TOML; any other value as `deserialize_any` does.
pub open spec fn str_result(m: ValueModel, span: Span, env: Option<Seq<char>>) -> Result<VisitModel, (Seq<char>, Option<Span>)> {
    match m {
        ValueModel::EnvVar(name, default) => match resolution(env, default) {
            Some(text) => Ok(VisitModel::Str(text)),
            None => Err((not_set_message(name), Some(span))),
        },
        _ => any_result(m, span, env),
    }
}

/// What `deserialize_enum` yields: a string (or a placeholder's resolved
/// text) names a unit variant; a table with a single entry holds a variant
/// (the key) with its content (the value), and a table with no entry or
/// more than one is an error; anything else is the error
/// `wanted string or table`.
pub open spec fn enum_result(m: ValueModel, span: Span, env: Option<Seq<char>>) -> Result<EnumModel, (Seq<char>, Option<Span>)> {
    match m {
        ValueModel::String(s, borrowed) => Ok(EnumModel::Variant(s, borrowed)),
        ValueModel::EnvVar(name, default) => match resolution(env, default) {
            Some(text) => Ok(EnumModel::Variant(text, false)),
            None => Err((not_set_message(name), Some(span))),
        },
        ValueModel::Table(entries) => if entries.len() == 1 {
            Ok(EnumModel::Tagged(entries[0].key, entries[0].item))
        } else if entries.len() == 0 {
            Err(("wanted exactly 1 element, found 0 elements"@, Some(span)))
        } else {
            Err(("wanted exactly 1 element, more than 1 element"@, Some(span)))
        },
        _ => Err(("wanted string or table"@, Some(span))),
    }
}

/// What `deserialize_struct` yields: the value and its span for a
/// `Spanned`; the datetime for a `Datetime` read from a datetime; an error
/// for a table with keys that are not fields (when keys are checked);
/// otherwise what `deserialize_any` yields.
pub open spec fn struct_result(name: Seq<char>, fields: Seq<Seq<char>>, validate: bool, m: ValueModel, span: Span, env: Option<Seq<char>>) -> Result<StructModel, (Seq<char>, Option<Span>)> {
    if name == spanned_struct_name() {
        Ok(StructModel::Spanned(m, span, validate))
    } else if name == datetime_struct_name() && m is Datetime {
        Ok(StructModel::Value(VisitModel::Datetime(m->Datetime_0)))
    } else if validate && m is Table && crate::keys::extra_entries(m->Table_0, fields).len() > 0 {
        let extra = crate::keys::extra_entries(m->Table_0, fields);
        Err((crate::keys::unexpected_keys_message(crate::keys::keys_of(extra), fields), Some(extra[0].key_span)))
    } else {
        match any_result(m, span, env) {
            Ok(v) => Ok(StructModel::Value(v)),
            Err(e) => Err(e),
        }
    }
}

/// Whether an optional field holds a value: a placeholder that resolves
/// to the empty string stands for an absent value; everything else is
/// present.
pub open spec fn option_present(m: ValueModel, env: Option<Seq<char>>) -> bool {
    match m {
        ValueModel::EnvVar(_, default) => resolution(env, default) != Some(Seq::<char>::empty()),
        _ => true,
    }
}

impl<'a> ValueDeserializer<'a> {
    /// Decides what the visitor gets when it asks for a string: a
    /// placeholder's resolved text is handed over as it is, so a `String`
    /// field keeps `"8080"` even where a numeric field would read 8080.
    pub fn deserialize_str(self, env_value: Option<String>) -> (res: Result<Visit<'a>, Error>)
        ensures
            match str_result(self.input_model(), self.span_model(), opt_view(env_value)) {
                Ok(v) => res matches Ok(r) && r.model() == v,
                Err(e) => res matches Err(r) && error_model(r) == e,
            },
            res matches Ok(r) ==> r.wf(),
    {
        proof {
            use_type_invariant(&self);
        }
        let ValueDeserializer { span, input, validate_struct_keys } = self;
        match input {
            TomlValue::EnvVar(v) => match resolve_env_var(v, env_value, span) {
                Ok(value) => Ok(Visit::Str(value)),
                Err(e) => Err(e),
            },
            other => ValueDeserializer { span, input: other, validate_struct_keys }.deserialize_any(
                env_value,
            ),
        }
    }

    /// The same as [`ValueDeserializer::deserialize_str`].
    pub fn deserialize_string(self, env_value: Option<String>) -> (res: Result<Visit<'a>, Error>)
        ensures
            match str_result(self.input_model(), self.span_model(), opt_view(env_value)) {
                Ok(v) => res matches Ok(r) && r.model() == v,
                Err(e) => res matches Err(r) && error_model(r) == e,
            },
            res matches Ok(r) ==> r.wf(),
    {
        self.deserialize_str(env_value)
    }

    /// Decides what the visitor gets when it asks for an enum.
    pub fn deserialize_enum(self, env_value: Option<String>) -> (res: Result<EnumVisit<'a>, Error>)
        ensures
            match enum_result(self.input_model(), self.span_model(), opt_view(env_value)) {
                Ok(v) => res matches Ok(r) && r.model() == v,
                Err(e) => res matches Err(r) && error_model(r) == e,
            },
            res matches Ok(EnumVisit::Tagged(_, v)) ==> v.value.wf(),
    {
        proof {
            use_type_invariant(&self);
        }
        let ValueDeserializer { span, input, validate_struct_keys: _ } = self;
        match input {
            TomlValue::String(t) => Ok(EnumVisit::Variant(t)),
            TomlValue::EnvVar(v) => match resolve_env_var(v, env_value, span) {
                Ok(value) => Ok(EnumVisit::Variant(Text::Owned(value))),
                Err(e) => Err(e),
            },
            TomlValue::Table(entries) => {
                let mut entries = entries;
                proof {
                    crate::value::lemma_entries_model(entries@);
                }
                if entries.len() == 1 {
                    let e = entries.remove(0);
                    Ok(EnumVisit::Tagged(e.key, e.item))
                } else if entries.len() == 0 {
                    Err(Error::custom(String::from_str("wanted exactly 1 element, found 0 elements"), Some(span)))
                } else {
                    Err(Error::custom(String::from_str("wanted exactly 1 element, more than 1 element"), Some(span)))
                }
            },
            _ => Err(Error::custom(String::from_str("wanted string or table"), Some(span))),
        }
    }

    /// Decides what the visitor gets when it asks for the struct `name`
    /// with the given fields.
    pub fn deserialize_struct(self, name: &'static str, fields: &[&str], env_value: Option<String>) -> (res: Result<StructVisit<'a>, Error>)
        ensures
            match struct_result(name@, crate::keys::names_view(fields@), self.validates_keys(), self.input_model(), self.span_model(), opt_view(env_value)) {
                Ok(v) => res matches Ok(r) && r.model() == v,
                Err(e) => res matches Err(r) && error_model(r) == e,
            },
            res matches Ok(StructVisit::Value(v)) ==> v.wf(),
    {
        proof {
            use_type_invariant(&self);
        }
        if is_spanned(name) {
            return Ok(StructVisit::Spanned(self));
        }
        if is_datetime(name) {
            if let TomlValue::Datetime(d) = &self.input {
                return Ok(StructVisit::Value(Visit::Datetime(*d)));
            }
        }
        if self.validate_struct_keys {
            if let TomlValue::Table(entries) = &self.input {
                match crate::keys::validate_struct_keys(entries, fields) {
                    Ok(()) => {},
                    Err(e) => {
                        return Err(e.or_span(self.span));
                    },
                }
            }
        }
        match self.deserialize_any(env_value) {
            Ok(v) => Ok(StructVisit::Value(v)),
            Err(e) => Err(e),
        }
    }

    /// Whether an optional field holds a value (`visit_some`) or not
    /// (`visit_none`): a placeholder whose resolution is empty, as
    /// `${NAME:}` with `NAME` unset or set to the empty string, stands for
    /// `None`.
    pub fn deserialize_option(&self, env_value: Option<String>) -> (present: bool)
        ensures
            present == option_present(self.input_model(), opt_view(env_value)),
    {
        proof {
            assert(forall|t: Seq<char>| t.len() == 0 ==> t =~= Seq::<char>::empty());
        }
        match &self.input {
            TomlValue::EnvVar(v) => match env_value {
                Some(value) => !value.as_str().is_empty(),
                None => match &v.default {
                    Some(d) => !d.as_str().is_empty(),
                    None => true,
                },
            },
            _ => true,
        }
    }
}

} // verus!
