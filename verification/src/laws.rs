//! Properties of the placeholder syntax and of deserialization that hold
//! for every input.
use vstd::prelude::*;
use vstd::utf8::encode_utf8;
use crate::strings::{
    StringKind, basic_body, literal_body, ml_basic_body, ml_literal_body, escape_at, hex_number,
    string_at, is_control, triple_at, ws_len, newline_len, ws_newline_len, lemma_ws_len_bound,
    lemma_ws_newline_len_bound,
};
use vstd::utf8::{
    encode_scalar, valid_utf8, decode_utf8, partial_valid_utf8, is_leading_byte_width_1,
    partial_valid_utf8_extend_ascii_block,
};
use crate::scalar::{integer_literal, true_word, false_word, without_underscores, float_literal, digit_run_len, valid_dec_int, valid_digit_run, split_sign, is_special_float};
use crate::deserializer::EnumModel;
use crate::integer::digits_value;
use crate::grammar::{
    bare_placeholder, quoted_placeholder, string_value, value_at, run_len, name_pred,
    default_pred, lemma_run_len_bound, Failure, fail, content_start, content_end, verbatim,
    lemma_string_content, document, text_of, opt_text_of, scalar_value,
};
use crate::value::ValueModel;
use crate::deserializer::{
    env_visit, VisitModel, str_result, any_result, enum_result, struct_result, option_present,
    spanned_struct_name,
};
use crate::keys::extra_entries;
use crate::env::not_set_message;
use crate::error::Span;

verus! {

/// A basic string whose content has no quote, backslash or control
/// character holds exactly that content.
proof fn lemma_plain_basic_body(q: Seq<u8>, i: int)
    requires
        q.len() >= 2,
        q[q.len() - 1] == 0x22,
        1 <= i <= q.len() - 1,
        forall|k: int| 1 <= k < q.len() - 1 ==> #[trigger] q[k] != 0x22 && q[k] != 0x5c && !is_control(q[k]),
    ensures
        basic_body(q, i) == Some((q.subrange(i, q.len() - 1), (q.len() - i) as nat)),
    decreases q.len() - i,
{
    if i < q.len() - 1 {
        lemma_plain_basic_body(q, i + 1);
        assert(seq![q[i]] + q.subrange(i + 1, q.len() - 1) =~= q.subrange(i, q.len() - 1));
    } else {
        assert(q.subrange(i, q.len() - 1) =~= Seq::<u8>::empty());
    }
}

/// The value of a quoted plain text is the value of its content as a
/// basic string.
proof fn lemma_quoted_value(p: Seq<u8>)
    requires
        p.len() > 0,
        p[0] != 0x22 && p[0] != 0x27,
        forall|k: int| 0 <= k < p.len() ==> #[trigger] p[k] != 0x22 && p[k] != 0x5c && !is_control(p[k]),
    ensures
        ({
            let q = seq![0x22u8] + p + seq![0x22u8];
            value_at(q, 0) == (match string_value(StringKind::Basic, p, true) {
                Some(v) => Ok((v, q.len())),
                None => fail("invalid UTF-8 in string"@, 0),
            })
        }),
{
    let q = seq![0x22u8] + p + seq![0x22u8];
    assert forall|k: int| 1 <= k < q.len() - 1 implies #[trigger] q[k] != 0x22 && q[k] != 0x5c
        && !is_control(q[k]) by {
        assert(q[k] == p[k - 1]);
    }
    lemma_plain_basic_body(q, 1);
    assert(q.subrange(1, q.len() - 1) =~= p);
    assert(!triple_at(q, 0, 0x22));
    assert(!triple_at(q, 0, 0x27));
    assert(string_at(q, 0) == Some((StringKind::Basic, p, (p.len() + 2) as nat)));
}

/// The content of a bare placeholder, read as a string's content, is the
/// same placeholder.
proof fn lemma_bare_content_is_quoted_placeholder(p: Seq<u8>)
    requires
        bare_placeholder(p, 0) matches Some((_, _, len)) && len == p.len(),
    ensures
        ({
            let (name, default, _) = bare_placeholder(p, 0).unwrap();
            quoted_placeholder(p) == Some((name, default))
        }),
{
    let (name, default, len) = bare_placeholder(p, 0).unwrap();
    let n = run_len(p, 2, name_pred());
    lemma_run_len_bound(p, 2, name_pred());
    let j = 2 + n as int;
    if p[j] != 0x7d {
        let d = run_len(p, j + 1, default_pred());
        lemma_run_len_bound(p, j + 1, default_pred());
        assert(j + 1 + d == p.len() - 1);
        assert forall|k: int| j + 1 <= k < p.len() - 1 implies #[trigger] p[k] != 0x7d by {
            assert(default_pred()(p[k]));
        }
    }
}

/// Both spellings of a placeholder mean the same: when `p` is a bare
/// placeholder `${NAME}` or `${NAME:default}` whose default holds no
/// quote, backslash or control character, `p` and `"p"` read as the same
/// placeholder (and neither reads when the name or default is not UTF-8).
pub proof fn lemma_quoted_and_bare_placeholders_agree(p: Seq<u8>)
    requires
        bare_placeholder(p, 0) matches Some((_, _, len)) && len == p.len(),
        forall|k: int| 0 <= k < p.len() ==> #[trigger] p[k] != 0x22 && p[k] != 0x5c && !is_control(p[k]),
    ensures
        ({
            let q = seq![0x22u8] + p + seq![0x22u8];
            let (name, default, _) = bare_placeholder(p, 0).unwrap();
            &&& value_at(p, 0) is Ok <==> value_at(q, 0) is Ok
            &&& value_at(p, 0) is Ok <==> (text_of(name) is Some && opt_text_of(default) is Some)
            &&& value_at(p, 0) matches Ok((m, n)) ==> {
                &&& m is EnvVar
                &&& n == p.len()
                &&& value_at(q, 0) == Ok::<(ValueModel, nat), Failure>((m, q.len()))
            }
        }),
{
    let (name, default, len) = bare_placeholder(p, 0).unwrap();
    lemma_quoted_value(p);
    lemma_bare_content_is_quoted_placeholder(p);
    assert(p[0] == 0x24);
}

/// A string is read as a placeholder only when it is a single-line basic
/// string whose whole content is one `${...}`: text before or after a
/// placeholder, or a second placeholder, keeps the string a string.
pub proof fn lemma_only_whole_strings_are_placeholders(kind: StringKind, b: Seq<u8>, borrowed: bool)
    ensures
        string_value(kind, b, borrowed) matches Some(ValueModel::EnvVar(_, _)) ==> {
            &&& kind == StringKind::Basic
            &&& b.len() >= 4
            &&& b[0] == 0x24 && b[1] == 0x7b
            &&& b[b.len() - 1] == 0x7d
            &&& forall|k: int| 0 <= k < b.len() - 1 ==> #[trigger] b[k] != 0x7d
        },
{
    if let Some(ValueModel::EnvVar(_, _)) = string_value(kind, b, borrowed) {
        if kind == StringKind::Basic {
            if let Some((name, default)) = quoted_placeholder(b) {
                let n = run_len(b, 2, name_pred());
                lemma_run_len_bound(b, 2, name_pred());
                assert forall|k: int| 0 <= k < b.len() - 1 implies #[trigger] b[k] != 0x7d by {
                    if 2 <= k < 2 + n {
                        assert(name_pred()(b[k]));
                    }
                }
            }
        }
    }
}

/// Structured text in an environment variable stays text: when the
/// variable's text reads as an array, a table, a datetime or a
/// placeholder, or as no TOML value at all, the visitor gets the text as
/// it is.
pub proof fn lemma_structured_env_text_is_a_string(text: Seq<char>)
    requires
        match document(encode_utf8(text)) {
            Ok((v, _)) => v is Array || v is Table || v is Datetime || v is EnvVar,
            Err(_) => true,
        },
    ensures
        env_visit(text) == VisitModel::Str(text),
{
}

/// A placeholder resolves to the environment's value when the variable is
/// set (whatever its default), to the default when it is not, and fails
/// with ``environment variable `NAME` not set`` when there is neither;
/// asked for a string, the resolved text comes back unchanged.
pub proof fn lemma_placeholder_resolution(name: Seq<char>, default: Option<Seq<char>>, span: Span, env: Option<Seq<char>>)
    ensures
        env matches Some(t) ==> str_result(ValueModel::EnvVar(name, default), span, env) == Ok::<VisitModel, (Seq<char>, Option<Span>)>(VisitModel::Str(t)),
        env is None && default is Some ==> str_result(ValueModel::EnvVar(name, default), span, env) == Ok::<VisitModel, (Seq<char>, Option<Span>)>(VisitModel::Str(default.unwrap())),
        env is None && default is None ==> str_result(ValueModel::EnvVar(name, default), span, env) == Err::<VisitModel, (Seq<char>, Option<Span>)>((not_set_message(name), Some(span))),
        env is None && default is None ==> any_result(ValueModel::EnvVar(name, default), span, env) == Err::<VisitModel, (Seq<char>, Option<Span>)>((not_set_message(name), Some(span))),
        env matches Some(t) ==> any_result(ValueModel::EnvVar(name, default), span, env) == Ok::<VisitModel, (Seq<char>, Option<Span>)>(env_visit(t)),
{
}

/// An optional field holding `${NAME:}` is absent when `NAME` is unset or
/// set to the empty string, and present when `NAME` has text.
pub proof fn lemma_empty_placeholder_is_absent(name: Seq<char>, env: Option<Seq<char>>)
    ensures
        option_present(ValueModel::EnvVar(name, Some(Seq::<char>::empty())), env) == (env matches Some(t) && t.len() > 0),
{
    if let Some(t) = env {
        if t.len() == 0 {
            assert(t =~= Seq::<char>::empty());
        }
    }
}

/// Every error that deciding a value's visit can give points into the
/// input: it carries the value's span.
pub proof fn lemma_errors_carry_spans(m: ValueModel, span: Span, env: Option<Seq<char>>)
    ensures
        any_result(m, span, env) matches Err(e) ==> e.1 == Some(span),
        str_result(m, span, env) matches Err(e) ==> e.1 == Some(span),
        enum_result(m, span, env) matches Err(e) ==> e.1 == Some(span),
{
}

/// Checking struct keys only ever refuses: for any struct but `Spanned`,
/// when the check passes the visitor gets exactly what it gets without the
/// check, and the check fails only on a table with a key that is none of
/// the fields.
pub proof fn lemma_key_check_only_refuses(name: Seq<char>, fields: Seq<Seq<char>>, m: ValueModel, span: Span, env: Option<Seq<char>>)
    requires
        name != spanned_struct_name(),
    ensures
        struct_result(name, fields, true, m, span, env) is Ok ==> struct_result(name, fields, true, m, span, env)
            == struct_result(name, fields, false, m, span, env),
        struct_result(name, fields, true, m, span, env) != struct_result(name, fields, false, m, span, env)
            ==> (m matches ValueModel::Table(entries) && extra_entries(entries, fields).len() > 0),
{
}

/// An escape sequence is longer than the bytes it stands for.
proof fn lemma_escape_shortens(s: Seq<u8>, j: int)
    requires
        escape_at(s, j) is Some,
    ensures
        ({
            let (e, k) = escape_at(s, j).unwrap();
            1 <= k && e.len() <= k
        }),
{
    let c = s[j];
    if c == 0x75 {
        let v = hex_number(s, j + 1, 4).unwrap();
        assert(encode_scalar(v as u32).len() <= 4);
    } else if c == 0x55 {
        let v = hex_number(s, j + 1, 8).unwrap();
        assert(encode_scalar(v as u32).len() <= 4);
    }
}

/// A basic string's text is its raw content exactly when the content holds
/// no backslash; an escape makes the text shorter.
proof fn lemma_basic_body_verbatim(s: Seq<u8>, j: int)
    requires
        basic_body(s, j) is Some,
    ensures
        ({
            let (b, m) = basic_body(s, j).unwrap();
            &&& 1 <= m && 0 <= j && j + m <= s.len()
            &&& b.len() <= m - 1
            &&& (b == s.subrange(j, j + m - 1) <==> forall|k: int| j <= k < j + m - 1 ==> #[trigger] s[k] != 0x5c)
        }),
    decreases s.len() - j,
{
    let (b, m) = basic_body(s, j).unwrap();
    let c = s[j];
    if c == 0x22 {
        assert(b =~= s.subrange(j, j + m - 1));
    } else if c == 0x5c {
        let (e, k) = escape_at(s, j + 1).unwrap();
        lemma_escape_shortens(s, j + 1);
        lemma_basic_body_verbatim(s, j + 1 + k);
        assert(b.len() < m - 1);
        assert(b != s.subrange(j, j + m - 1));
    } else {
        lemma_basic_body_verbatim(s, j + 1);
        let (r, m1) = basic_body(s, j + 1).unwrap();
        assert(b == seq![c] + r);
        if r == s.subrange(j + 1, j + m - 1) {
            assert(b =~= s.subrange(j, j + m - 1));
        }
        if b == s.subrange(j, j + m - 1) {
            assert(r =~= s.subrange(j, j + m - 1).drop_first());
            assert(r =~= s.subrange(j + 1, j + m - 1));
        }
        if forall|k: int| j + 1 <= k < j + m - 1 ==> #[trigger] s[k] != 0x5c {
            assert forall|k: int| j <= k < j + m - 1 implies #[trigger] s[k] != 0x5c by {
                if k > j {
                    assert(j + 1 <= k < j + m - 1);
                }
            }
        }
    }
}

/// A literal string's text is its raw content.
proof fn lemma_literal_body_verbatim(s: Seq<u8>, j: int)
    requires
        literal_body(s, j) is Some,
    ensures
        ({
            let (b, m) = literal_body(s, j).unwrap();
            1 <= m && 0 <= j && j + m <= s.len() && b == s.subrange(j, j + m - 1)
        }),
    decreases s.len() - j,
{
    let (b, m) = literal_body(s, j).unwrap();
    if s[j] == 0x27 {
        assert(b =~= s.subrange(j, j + m - 1));
    } else {
        lemma_literal_body_verbatim(s, j + 1);
        assert(b =~= s.subrange(j, j + m - 1));
    }
}

/// A multi-line literal string's text is its raw content.
proof fn lemma_ml_literal_body_verbatim(s: Seq<u8>, j: int)
    requires
        ml_literal_body(s, j) is Some,
    ensures
        ({
            let (b, m) = ml_literal_body(s, j).unwrap();
            3 <= m && 0 <= j && j + m <= s.len() && b == s.subrange(j, j + m - 3)
        }),
    decreases s.len() - j,
{
    let (b, m) = ml_literal_body(s, j).unwrap();
    if triple_at(s, j, 0x27) {
        assert(b =~= s.subrange(j, j + m - 3));
    } else if newline_len(s, j) > 0 {
        lemma_ml_literal_body_verbatim(s, j + newline_len(s, j));
        assert(b =~= s.subrange(j, j + m - 3));
    } else {
        lemma_ml_literal_body_verbatim(s, j + 1);
        assert(b =~= s.subrange(j, j + m - 3));
    }
}

/// A multi-line basic string's text is its raw content exactly when the
/// content holds no backslash; an escape or a line-ending backslash makes
/// the text shorter.
proof fn lemma_ml_basic_body_verbatim(s: Seq<u8>, j: int)
    requires
        ml_basic_body(s, j) is Some,
    ensures
        ({
            let (b, m) = ml_basic_body(s, j).unwrap();
            &&& 3 <= m && 0 <= j && j + m <= s.len()
            &&& b.len() <= m - 3
            &&& (b == s.subrange(j, j + m - 3) <==> forall|k: int| j <= k < j + m - 3 ==> #[trigger] s[k] != 0x5c)
        }),
    decreases s.len() - j,
{
    let (b, m) = ml_basic_body(s, j).unwrap();
    let c = s[j];
    if triple_at(s, j, 0x22) {
        assert(b =~= s.subrange(j, j + m - 3));
    } else if c == 0x5c {
        let w = ws_len(s, j + 1);
        if newline_len(s, j + 1 + w) > 0 {
            let k: nat = 1 + w + ws_newline_len(s, j + 1 + w);
            lemma_ws_len_bound(s, j + 1);
            lemma_ws_newline_len_bound(s, j + 1 + w);
            assert(ws_newline_len(s, j + 1 + w) >= 1);
            lemma_ml_basic_body_verbatim(s, j + k);
        } else {
            let (e, k) = escape_at(s, j + 1).unwrap();
            lemma_escape_shortens(s, j + 1);
            lemma_ml_basic_body_verbatim(s, j + 1 + k);
        }
        assert(b.len() < m - 3);
        assert(b != s.subrange(j, j + m - 3));
    } else {
        let w: int = if newline_len(s, j) > 0 { newline_len(s, j) as int } else { 1 };
        lemma_ml_basic_body_verbatim(s, j + w);
        let (r, m1) = ml_basic_body(s, j + w).unwrap();
        assert(b == s.subrange(j, j + w) + r);
        if r == s.subrange(j + w, j + m - 3) {
            assert(b =~= s.subrange(j, j + m - 3));
        }
        if b == s.subrange(j, j + m - 3) {
            assert(r =~= s.subrange(j, j + m - 3).subrange(w, m - 3));
            assert(r =~= s.subrange(j + w, j + m - 3));
        }
        assert forall|k: int| j <= k < j + w implies #[trigger] s[k] != 0x5c by {}
        if forall|k: int| j + w <= k < j + m - 3 ==> #[trigger] s[k] != 0x5c {
            assert forall|k: int| j <= k < j + m - 3 implies #[trigger] s[k] != 0x5c by {
                if k >= j + w {
                    assert(j + w <= k < j + m - 3);
                }
            }
        }
    }
}

/// A string is handed on borrowed from the input exactly when reading it
/// unescaped nothing: a literal string (single- or multi-line) always, a
/// basic string exactly when its content holds no backslash.
pub proof fn lemma_borrowed_exactly_without_escapes(s: Seq<u8>, i: int)
    requires
        string_at(s, i) is Some,
    ensures
        ({
            let (kind, b, n) = string_at(s, i).unwrap();
            let a = content_start(s, i, kind);
            let e = content_end(i, kind, n);
            verbatim(s, i, kind, b, n) <==> (kind == StringKind::Literal || kind
                == StringKind::MultilineLiteral || forall|k: int| a <= k < e ==> #[trigger] s[k] != 0x5c)
        }),
{
    lemma_string_content(s, i);
    if triple_at(s, i, 0x22) {
        lemma_ml_basic_body_verbatim(s, i + 3 + newline_len(s, i + 3));
    } else if triple_at(s, i, 0x27) {
        lemma_ml_literal_body_verbatim(s, i + 3 + newline_len(s, i + 3));
    } else if s[i] == 0x22 {
        lemma_basic_body_verbatim(s, i + 1);
    } else {
        lemma_literal_body_verbatim(s, i + 1);
    }
}

/// ASCII bytes are valid UTF-8.
proof fn lemma_ascii_valid_utf8(b: Seq<u8>)
    requires
        forall|k: int| 0 <= k < b.len() ==> #[trigger] b[k] < 0x80,
    ensures
        valid_utf8(b),
{
    assert(b.subrange(0, 0) =~= Seq::<u8>::empty());
    assert(partial_valid_utf8(b, 0));
    assert forall|k: int| 0 <= 0 <= k < b.len() <= b.len() implies #[trigger] is_leading_byte_width_1(b[k]) by {}
    partial_valid_utf8_extend_ascii_block(b, 0, b.len() as int);
    assert(b.subrange(0, b.len() as int) =~= b);
}

/// A run of bytes that satisfy `p`, ended by one that does not (or by the
/// end of the input), has exactly its length.
proof fn lemma_run_len_exact(s: Seq<u8>, i: int, k: int, p: spec_fn(u8) -> bool)
    requires
        0 <= i <= k <= s.len(),
        forall|x: int| i <= x < k ==> p(#[trigger] s[x]),
        k == s.len() || !p(s[k]),
    ensures
        run_len(s, i, p) == k - i,
    decreases k - i,
{
    if i < k {
        lemma_run_len_exact(s, i + 1, k, p);
    }
}

/// Digits and underscores counted from `i`, ended by another byte.
proof fn lemma_digit_run_len_exact(s: Seq<u8>, i: int, k: int)
    requires
        0 <= i <= k <= s.len(),
        forall|x: int| i <= x < k ==> 0x30 <= #[trigger] s[x] <= 0x39,
        k == s.len() || !(0x30 <= s[k] <= 0x39 || s[k] == 0x5f),
    ensures
        digit_run_len(s, i) == k - i,
    decreases k - i,
{
    if i < k {
        lemma_digit_run_len_exact(s, i + 1, k);
    }
}

/// A float's integer part is written as a decimal integer is: any run of
/// digits without a superfluous leading zero, a lone `0` included; followed
/// by `.` and digits it makes a float literal (`0.5`, `3.14`, `10.0`).
pub proof fn lemma_float_integer_part_is_a_decimal_integer(ip: Seq<u8>, d: Seq<u8>)
    requires
        ip.len() > 0,
        forall|k: int| 0 <= k < ip.len() ==> 0x30 <= #[trigger] ip[k] <= 0x39,
        ip[0] != 0x30 || ip.len() == 1,
        d.len() > 0,
        forall|k: int| 0 <= k < d.len() ==> 0x30 <= #[trigger] d[k] <= 0x39,
    ensures
        float_literal(ip + seq![0x2eu8] + d),
        scalar_value(ip + seq![0x2eu8] + d) == Some(ValueModel::Float(ip + seq![0x2eu8] + d)),
{
    let t = ip + seq![0x2eu8] + d;
    assert(split_sign(t).1 == t);
    assert forall|x: int| 0 <= x < ip.len() implies 0x30 <= #[trigger] t[x] <= 0x39 by {
        assert(t[x] == ip[x]);
    }
    assert(t[ip.len() as int] == 0x2e);
    lemma_digit_run_len_exact(t, 0, ip.len() as int);
    let p = ip.len() as int;
    assert(t.subrange(0, p) =~= ip);
    assert(!is_special_float(t)) by {
        if t =~= seq![0x69u8, 0x6eu8, 0x66u8] {
            assert(t[0] == 0x69);
        }
        if t =~= seq![0x6eu8, 0x61u8, 0x6eu8] {
            assert(t[0] == 0x6e);
        }
    }
    assert(valid_digit_run(ip, 10)) by {
        assert forall|k: int| 0 <= k < ip.len() implies #[trigger] crate::scalar::is_radix_digit(ip[k], 10) by {}
    }
    assert(valid_dec_int(ip));
    let rest = t.subrange(p, t.len() as int);
    assert(rest =~= seq![0x2eu8] + d);
    let dl = d.len() as int;
    assert forall|x: int| 1 <= x < 1 + dl implies 0x30 <= #[trigger] rest[x] <= 0x39 by {
        assert(rest[x] == d[x - 1]);
    }
    lemma_digit_run_len_exact(rest, 1, 1 + dl);
    assert(rest.subrange(1, 1 + dl) =~= d);
    assert(valid_digit_run(d, 10)) by {
        assert forall|k: int| 0 <= k < d.len() implies #[trigger] crate::scalar::is_radix_digit(d[k], 10) by {}
    }
    assert(rest.subrange(1 + dl, rest.len() as int).len() == 0);
    assert(integer_literal(t) is None) by {
        assert(t[p] == 0x2e);
        assert(!crate::scalar::is_radix_digit(t[p], 10));
        assert(!valid_digit_run(t, 10));
    }
    assert(!(t =~= true_word())) by {
        assert(t[0] != true_word()[0]);
    }
    assert(!(t =~= false_word())) by {
        assert(t[0] != false_word()[0]);
    }
    lemma_without_underscores_unchanged(t);
}

/// Bytes without an underscore lose nothing when underscores are dropped.
proof fn lemma_without_underscores_unchanged(t: Seq<u8>)
    requires
        forall|k: int| 0 <= k < t.len() ==> #[trigger] t[k] != 0x5f,
    ensures
        without_underscores(t) == t,
    decreases t.len(),
{
    if t.len() > 0 {
        lemma_without_underscores_unchanged(t.drop_last());
        assert(t.drop_last().push(t.last()) =~= t);
    }
}

/// A bare placeholder's default may hold any byte but `}`, `$` and line
/// breaks (a `:` included, as in URLs and `host:port`): `${NAME:default}`
/// reads as the placeholder for `NAME` with that default.
pub proof fn lemma_bare_default_alphabet(n: Seq<u8>, d: Seq<u8>)
    requires
        n.len() > 0,
        forall|k: int| 0 <= k < n.len() ==> {
            let b = #[trigger] n[k];
            (0x30 <= b <= 0x39) || (0x41 <= b <= 0x5a) || (0x61 <= b <= 0x7a) || b == 0x5f
        },
        forall|k: int| 0 <= k < d.len() ==> {
            let b = #[trigger] d[k];
            b != 0x7d && b != 0x24 && b != 0x0a && b != 0x0d
        },
        valid_utf8(d),
    ensures
        ({
            let s = seq![0x24u8, 0x7bu8] + n + seq![0x3au8] + d + seq![0x7du8];
            value_at(s, 0) == Ok::<(ValueModel, nat), Failure>(
                (ValueModel::EnvVar(decode_utf8(n), Some(decode_utf8(d))), s.len()),
            )
        }),
{
    let s = seq![0x24u8, 0x7bu8] + n + seq![0x3au8] + d + seq![0x7du8];
    let j = 2 + n.len() as int;
    let dl = d.len() as int;
    assert forall|x: int| 2 <= x < j implies name_pred()(#[trigger] s[x]) by {
        assert(s[x] == n[x - 2]);
    }
    assert(s[j] == 0x3a);
    lemma_run_len_exact(s, 2, j, name_pred());
    assert forall|x: int| j + 1 <= x < j + 1 + dl implies default_pred()(#[trigger] s[x]) by {
        assert(s[x] == d[x - j - 1]);
    }
    assert(s[j + 1 + dl] == 0x7d);
    lemma_run_len_exact(s, j + 1, j + 1 + dl, default_pred());
    assert(s.subrange(2, j) =~= n);
    assert(s.subrange(j + 1, j + 1 + dl) =~= d);
    lemma_ascii_valid_utf8(n);
}

/// An integer read from an environment variable keeps its sign and value:
/// whatever integer type it goes to holds the literal's signed value, and
/// one that fits an `i64` goes to `i64`.
pub proof fn lemma_env_integers_keep_their_value(t: Seq<char>)
    ensures
        document(encode_utf8(t)) matches Ok((ValueModel::Integer(neg, radix, digits), _)) ==> {
            let v = if neg {
                -digits_value(digits, radix as int)
            } else {
                digits_value(digits, radix as int)
            };
            &&& env_visit(t) matches VisitModel::I64(x) ==> x == v
            &&& env_visit(t) matches VisitModel::U64(x) ==> x == v
            &&& env_visit(t) matches VisitModel::I128(x) ==> x == v
            &&& env_visit(t) matches VisitModel::U128(x) ==> x == v
            &&& (i64::MIN <= v <= i64::MAX ==> env_visit(t) == VisitModel::I64(v as i64))
        },
{
}

/// An integer value keeps its sign and value when deserialized: whatever
/// integer type it goes to holds its signed value, and one that fits an
/// `i64` goes to `i64`.
pub proof fn lemma_integers_keep_their_value(neg: bool, radix: u32, digits: Seq<u8>, span: Span, env: Option<Seq<char>>)
    ensures
        ({
            let v = if neg {
                -digits_value(digits, radix as int)
            } else {
                digits_value(digits, radix as int)
            };
            let r = any_result(ValueModel::Integer(neg, radix, digits), span, env);
            &&& r matches Ok(VisitModel::I64(x)) ==> x == v
            &&& r matches Ok(VisitModel::U64(x)) ==> x == v
            &&& r matches Ok(VisitModel::I128(x)) ==> x == v
            &&& r matches Ok(VisitModel::U128(x)) ==> x == v
            &&& (i64::MIN <= v <= i64::MAX ==> r == Ok::<VisitModel, (Seq<char>, Option<Span>)>(VisitModel::I64(v as i64)))
        }),
{
}

/// Re-reading a variable's text gives what reading the same text as a
/// value gives: when the text is an integer that some integer type holds,
/// or a boolean, the placeholder is handed on as that value is.
pub proof fn lemma_env_text_reads_as_a_value(t: Seq<char>, span: Span)
    ensures
        document(encode_utf8(t)) matches Ok((m, sp)) ==> (
            (m is Integer || m is Boolean) && any_result(m, sp, None) is Ok ==>
                Ok::<VisitModel, (Seq<char>, Option<Span>)>(env_visit(t)) == any_result(m, sp, None)),
{
}

/// For a placeholder, an enum's variant is named by the same resolution as
/// a string: the environment's value whenever the variable is set, else the
/// default, else the error that the variable is not set.
pub proof fn lemma_enum_placeholder_resolution(name: Seq<char>, default: Option<Seq<char>>, span: Span, env: Option<Seq<char>>)
    ensures
        env matches Some(t) ==> enum_result(ValueModel::EnvVar(name, default), span, env)
            == Ok::<EnumModel, (Seq<char>, Option<Span>)>(EnumModel::Variant(t, false)),
        env is None && default is Some ==> enum_result(ValueModel::EnvVar(name, default), span, env)
            == Ok::<EnumModel, (Seq<char>, Option<Span>)>(EnumModel::Variant(default.unwrap(), false)),
        env is None && default is None ==> enum_result(ValueModel::EnvVar(name, default), span, env)
            == Err::<EnumModel, (Seq<char>, Option<Span>)>((not_set_message(name), Some(span))),
        match str_result(ValueModel::EnvVar(name, default), span, env) {
            Ok(VisitModel::Str(t)) => enum_result(ValueModel::EnvVar(name, default), span, env)
                == Ok::<EnumModel, (Seq<char>, Option<Span>)>(EnumModel::Variant(t, false)),
            Err(e) => enum_result(ValueModel::EnvVar(name, default), span, env)
                == Err::<EnumModel, (Seq<char>, Option<Span>)>(e),
            _ => false,
        },
{
}

/// An optional field is present unless it is a placeholder that resolves
/// to the empty text: a set variable makes it present exactly when the
/// variable's text is non-empty (whatever the default); an unset one with a
/// default exactly when the default is non-empty; an unset one without a
/// default is present (and then fails as not set); any other value is
/// present.
pub proof fn lemma_option_presence(m: ValueModel, env: Option<Seq<char>>)
    ensures
        m matches ValueModel::EnvVar(_, default) ==> {
            &&& env matches Some(t) ==> option_present(m, env) == (t.len() > 0)
            &&& env is None && default is Some ==> option_present(m, env) == (default.unwrap().len() > 0)
            &&& env is None && default is None ==> option_present(m, env)
        },
        !(m is EnvVar) ==> option_present(m, env),
{
    if let ValueModel::EnvVar(_, default) = m {
        if let Some(t) = env {
            if t.len() == 0 {
                assert(t =~= Seq::<char>::empty());
            }
        } else if let Some(d) = default {
            if d.len() == 0 {
                assert(d =~= Seq::<char>::empty());
            }
        }
    }
}

} // verus!
