//! The grammar of a single TOML value with placeholders, as specification
//! functions over the bytes of the input.
use vstd::prelude::*;
use vstd::utf8::*;
use crate::error::Span;
use crate::scalar::{is_digit, true_word, false_word, integer_literal, float_literal, without_underscores, scalar_token_len};
use crate::strings::{
    ws_len, newline_len, ws_newline_len, is_control, string_at, StringKind, lemma_ws_len_bound,
    lemma_ws_newline_len_bound,
    basic_body, literal_body, ml_basic_body, ml_literal_body, escape_at, triple_at,
};
use crate::value::{ValueModel, ItemModel, EntryModel};
use crate::datetime::datetime_from_text;

verus! {

/// A byte of a placeholder's variable name: an ASCII letter, digit or `_`.
pub open spec fn is_name_byte(b: u8) -> bool {
    is_digit(b) || (0x61 <= b <= 0x7a) || (0x41 <= b <= 0x5a) || b == 0x5f
}

/// A byte of a bare key: an ASCII letter, digit, `_` or `-`.
pub open spec fn is_bare_key_byte(b: u8) -> bool {
    is_name_byte(b) || b == 0x2d
}

/// A byte of the default of a bare placeholder: anything but `}`, `$` and
/// line breaks.
pub open spec fn is_bare_default_byte(b: u8) -> bool {
    b != 0x7d && b != 0x24 && b != 0x0a && b != 0x0d
}

/// Placeholder name bytes.
pub open spec fn name_pred() -> spec_fn(u8) -> bool {
    |b: u8| is_name_byte(b)
}

/// Bare key bytes.
pub open spec fn bare_key_pred() -> spec_fn(u8) -> bool {
    |b: u8| is_bare_key_byte(b)
}

/// Bytes of the default of a bare placeholder.
pub open spec fn default_pred() -> spec_fn(u8) -> bool {
    |b: u8| is_bare_default_byte(b)
}

/// Bytes allowed in a comment.
pub open spec fn comment_pred() -> spec_fn(u8) -> bool {
    |b: u8| !is_control(b)
}

/// The number of bytes from `i` on that satisfy `p`.
pub open spec fn run_len(s: Seq<u8>, i: int, p: spec_fn(u8) -> bool) -> nat
    decreases s.len() - i,
{
    if 0 <= i < s.len() && p(s[i]) {
        1 + run_len(s, i + 1, p)
    } else {
        0
    }
}

/// Runs stay inside the input.
pub proof fn lemma_run_len_bound(s: Seq<u8>, i: int, p: spec_fn(u8) -> bool)
    requires
        0 <= i <= s.len(),
    ensures
        i + run_len(s, i, p) <= s.len(),
        forall|k: int| i <= k < i + run_len(s, i, p) ==> p(#[trigger] s[k]),
    decreases s.len() - i,
{
    if i < s.len() && p(s[i]) {
        lemma_run_len_bound(s, i + 1, p);
    }
}

/// The text that UTF-8 bytes stand for.
pub open spec fn text_of(b: Seq<u8>) -> Option<Seq<char>> {
    if valid_utf8(b) {
        Some(decode_utf8(b))
    } else {
        None
    }
}

/// The text of optional bytes.
pub open spec fn opt_text_of(b: Option<Seq<u8>>) -> Option<Option<Seq<char>>> {
    match b {
        Some(d) => match text_of(d) {
            Some(t) => Some(Some(t)),
            None => None,
        },
        None => Some(None),
    }
}

/// A bare placeholder `${NAME}` or `${NAME:default}` at `i`: the name, the
/// default, and the length of the placeholder.
pub open spec fn bare_placeholder(s: Seq<u8>, i: int) -> Option<(Seq<u8>, Option<Seq<u8>>, nat)> {
    if 0 <= i && i + 1 < s.len() && s[i] == 0x24 && s[i + 1] == 0x7b {
        let n = run_len(s, i + 2, name_pred());
        let j = i + 2 + n;
        if n == 0 || j >= s.len() {
            None
        } else if s[j] == 0x7d {
            Some((s.subrange(i + 2, j), None, (n + 3) as nat))
        } else if s[j] == 0x3a {
            let d = run_len(s, j + 1, default_pred());
            if j + 1 + d < s.len() && s[j + 1 + d] == 0x7d {
                Some((s.subrange(i + 2, j), Some(s.subrange(j + 1, j + 1 + d)), (n + d + 4) as nat))
            } else {
                None
            }
        } else {
            None
        }
    } else {
        None
    }
}

/// A string's content that is exactly one placeholder: its name and
/// default. The default runs to the final `}` and holds no other `}`.
pub open spec fn quoted_placeholder(c: Seq<u8>) -> Option<(Seq<u8>, Option<Seq<u8>>)> {
    if c.len() >= 4 && c[0] == 0x24 && c[1] == 0x7b && c[c.len() - 1] == 0x7d {
        let n = run_len(c, 2, name_pred());
        let j = 2 + n as int;
        if n == 0 {
            None
        } else if j == c.len() - 1 {
            Some((c.subrange(2, j), None))
        } else if j < c.len() - 1 && c[j] == 0x3a && (forall|k: int| j + 1 <= k < c.len() - 1 ==> #[trigger] c[k] != 0x7d) {
            Some((c.subrange(2, j), Some(c.subrange(j + 1, c.len() - 1))))
        } else {
            None
        }
    } else {
        None
    }
}

/// Where the content of a string of kind `kind` opening at `i` begins:
/// after the opening delimiter, and for a multi-line string after the
/// newline that may follow it.
pub open spec fn content_start(s: Seq<u8>, i: int, kind: StringKind) -> int {
    if kind == StringKind::MultilineBasic || kind == StringKind::MultilineLiteral {
        i + 3 + newline_len(s, i + 3)
    } else {
        i + 1
    }
}

/// Where the content of a string of kind `kind` and length `n` opening at
/// `i` ends: at its closing delimiter.
pub open spec fn content_end(i: int, kind: StringKind, n: nat) -> int {
    if kind == StringKind::MultilineBasic || kind == StringKind::MultilineLiteral {
        i + n - 3
    } else {
        i + n - 1
    }
}

/// Whether the text `b` of the string of kind `kind` and length `n` at `i`
/// is exactly the input's bytes between its delimiters: reading it
/// unescaped nothing and trimmed nothing, so it can be borrowed.
pub open spec fn verbatim(s: Seq<u8>, i: int, kind: StringKind, b: Seq<u8>, n: nat) -> bool {
    let a = content_start(s, i, kind);
    let e = content_end(i, kind, n);
    0 <= a <= e <= s.len() && b == s.subrange(a, e)
}

/// A basic string's body ends with its closing quote.
proof fn lemma_basic_body_close(s: Seq<u8>, j: int)
    requires
        basic_body(s, j) is Some,
    ensures
        ({
            let m = basic_body(s, j).unwrap().1;
            &&& m >= 1 && 0 <= j && j + m <= s.len()
            &&& s[j + m - 1] == 0x22
        }),
    decreases s.len() - j,
{
    let c = s[j];
    if c == 0x22 {
    } else if c == 0x5c {
        let k = escape_at(s, j + 1).unwrap().1;
        lemma_basic_body_close(s, j + 1 + k);
    } else {
        lemma_basic_body_close(s, j + 1);
    }
}

/// A literal string's body ends with its closing apostrophe.
proof fn lemma_literal_body_close(s: Seq<u8>, j: int)
    requires
        literal_body(s, j) is Some,
    ensures
        ({
            let m = literal_body(s, j).unwrap().1;
            &&& m >= 1 && 0 <= j && j + m <= s.len()
            &&& s[j + m - 1] == 0x27
        }),
    decreases s.len() - j,
{
    if s[j] != 0x27 {
        lemma_literal_body_close(s, j + 1);
    }
}

/// A multi-line basic string's body ends with its closing delimiter.
proof fn lemma_ml_basic_body_close(s: Seq<u8>, j: int)
    requires
        ml_basic_body(s, j) is Some,
    ensures
        ({
            let m = ml_basic_body(s, j).unwrap().1;
            &&& m >= 3 && 0 <= j && j + m <= s.len()
            &&& s[j + m - 3] == 0x22
        }),
    decreases s.len() - j,
{
    let c = s[j];
    if triple_at(s, j, 0x22) {
    } else if c == 0x5c {
        let w = ws_len(s, j + 1);
        if newline_len(s, j + 1 + w) > 0 {
            let k: nat = 1 + w + ws_newline_len(s, j + 1 + w);
            lemma_ws_len_bound(s, j + 1);
            lemma_ws_newline_len_bound(s, j + 1 + w);
            lemma_ml_basic_body_close(s, j + k);
        } else {
            let k = escape_at(s, j + 1).unwrap().1;
            lemma_ml_basic_body_close(s, j + 1 + k);
        }
    } else if newline_len(s, j) > 0 {
        lemma_ml_basic_body_close(s, j + newline_len(s, j));
    } else {
        lemma_ml_basic_body_close(s, j + 1);
    }
}

/// A multi-line literal string's body ends with its closing delimiter.
proof fn lemma_ml_literal_body_close(s: Seq<u8>, j: int)
    requires
        ml_literal_body(s, j) is Some,
    ensures
        ({
            let m = ml_literal_body(s, j).unwrap().1;
            &&& m >= 3 && 0 <= j && j + m <= s.len()
            &&& s[j + m - 3] == 0x27
        }),
    decreases s.len() - j,
{
    if triple_at(s, j, 0x27) {
    } else if newline_len(s, j) > 0 {
        lemma_ml_literal_body_close(s, j + newline_len(s, j));
    } else {
        lemma_ml_literal_body_close(s, j + 1);
    }
}

/// A string's content lies inside it and is followed by a quote or an
/// apostrophe (the closing delimiter).
pub proof fn lemma_string_content(s: Seq<u8>, i: int)
    requires
        string_at(s, i) is Some,
    ensures
        ({
            let (kind, b, n) = string_at(s, i).unwrap();
            let a = content_start(s, i, kind);
            let e = content_end(i, kind, n);
            &&& 0 <= i < a <= e < i + n <= s.len()
            &&& (s[e] == 0x22 || s[e] == 0x27)
        }),
{
    if triple_at(s, i, 0x22) {
        lemma_ml_basic_body_close(s, i + 3 + newline_len(s, i + 3));
    } else if triple_at(s, i, 0x27) {
        lemma_ml_literal_body_close(s, i + 3 + newline_len(s, i + 3));
    } else if s[i] == 0x22 {
        lemma_basic_body_close(s, i + 1);
    } else {
        lemma_literal_body_close(s, i + 1);
    }
}

/// The value of a string: a placeholder when a single-line basic string
/// holds exactly one, the decoded text otherwise (marked `borrowed` as
/// given).
pub open spec fn string_value(kind: StringKind, b: Seq<u8>, borrowed: bool) -> Option<ValueModel> {
    match (if kind == StringKind::Basic { quoted_placeholder(b) } else { None }) {
        Some((name, default)) => match (text_of(name), opt_text_of(default)) {
            (Some(n), Some(d)) => Some(ValueModel::EnvVar(n, d)),
            _ => None,
        },
        None => match text_of(b) {
            Some(t) => Some(ValueModel::String(t, borrowed)),
            None => None,
        },
    }
}

/// The value of a bare scalar token: a boolean, an integer, a float or a
/// datetime (read by `toml_datetime` from the token's text), tried in
/// that order.
pub open spec fn scalar_value(t: Seq<u8>) -> Option<ValueModel> {
    if t =~= true_word() {
        Some(ValueModel::Boolean(true))
    } else if t =~= false_word() {
        Some(ValueModel::Boolean(false))
    } else if integer_literal(t) is Some {
        let (neg, radix, digits) = integer_literal(t).unwrap();
        Some(ValueModel::Integer(neg, radix, digits))
    } else if float_literal(t) {
        Some(ValueModel::Float(without_underscores(t)))
    } else {
        match text_of(t) {
            Some(c) => match datetime_from_text(c) {
                Some(d) => Some(ValueModel::Datetime(d)),
                None => None,
            },
            None => None,
        }
    }
}

/// A comment at `i`: `#` and the bytes after it up to the end of the line;
/// its length, or 0 if there is no comment.
pub open spec fn comment_len(s: Seq<u8>, i: int) -> nat {
    if 0 <= i < s.len() && s[i] == 0x23 {
        1 + run_len(s, i + 1, comment_pred())
    } else {
        0
    }
}

/// Whitespace, newlines and comments from `i` on, as allowed between the
/// elements of an array.
pub open spec fn array_space_len(s: Seq<u8>, i: int) -> nat
    decreases s.len() - i,
{
    if 0 <= i < s.len() && (s[i] == 0x20 || s[i] == 0x09) {
        1 + array_space_len(s, i + 1)
    } else if newline_len(s, i) > 0 {
        newline_len(s, i) + array_space_len(s, i + newline_len(s, i))
    } else if comment_len(s, i) > 0 {
        proof {
            lemma_run_len_bound(s, i + 1, comment_pred());
        }
        comment_len(s, i) + array_space_len(s, i + comment_len(s, i))
    } else {
        0
    }
}

/// Array spacing stays inside the input.
pub proof fn lemma_array_space_len_bound(s: Seq<u8>, i: int)
    requires
        0 <= i <= s.len(),
    ensures
        i + array_space_len(s, i) <= s.len(),
    decreases s.len() - i,
{
    if i < s.len() && (s[i] == 0x20 || s[i] == 0x09) {
        lemma_array_space_len_bound(s, i + 1);
    } else if newline_len(s, i) > 0 {
        lemma_array_space_len_bound(s, i + newline_len(s, i));
    } else if comment_len(s, i) > 0 {
        lemma_run_len_bound(s, i + 1, comment_pred());
        lemma_array_space_len_bound(s, i + comment_len(s, i));
    }
}

/// The span from `a` to `b`.
pub open spec fn span_of(a: int, b: int) -> Span {
    Span { start: a as usize, end: b as usize }
}

/// A simple key at `i`: a bare key or a single-line string; its text and
/// length.
pub open spec fn simple_key(s: Seq<u8>, i: int) -> Option<(Seq<char>, nat)> {
    if !(0 <= i < s.len()) {
        None
    } else if s[i] == 0x22 || s[i] == 0x27 {
        match string_at(s, i) {
            Some((kind, b, n)) => if kind == StringKind::Basic || kind == StringKind::Literal {
                match text_of(b) {
                    Some(t) => Some((t, n)),
                    None => None,
                }
            } else {
                None
            },
            None => None,
        }
    } else {
        let n = run_len(s, i, bare_key_pred());
        if n == 0 {
            None
        } else {
            match text_of(s.subrange(i, i + n)) {
                Some(t) => Some((t, n)),
                None => None,
            }
        }
    }
}

/// A dotted key at `i`: its parts with their spans, and its length.
pub open spec fn dotted_key(s: Seq<u8>, i: int) -> Option<(Seq<(Seq<char>, Span)>, nat)>
    decreases s.len() - i,
{
    match simple_key(s, i) {
        Some((k, n)) => {
            let part = (k, span_of(i, i + n));
            let j = i + n + ws_len(s, i + n);
            if 0 <= j < s.len() && s[j] == 0x2e {
                let r = j + 1 + ws_len(s, j + 1);
                proof {
                    lemma_ws_len_bound(s, j + 1);
                }
                match dotted_key(s, r) {
                    Some((rest, m)) => Some((seq![part] + rest, (r - i + m) as nat)),
                    None => None,
                }
            } else {
                Some((seq![part], n))
            }
        },
        None => None,
    }
}

/// The index of the first entry with key `k` from `j` on.
pub open spec fn find_key_from(entries: Seq<EntryModel>, k: Seq<char>, j: int) -> Option<int>
    decreases entries.len() - j,
{
    if !(0 <= j < entries.len()) {
        None
    } else if entries[j].key == k {
        Some(j)
    } else {
        find_key_from(entries, k, j + 1)
    }
}

/// The first entry with a key, when there is one, is where it is said.
pub proof fn lemma_find_key_from(entries: Seq<EntryModel>, k: Seq<char>, j: int)
    requires
        0 <= j,
    ensures
        find_key_from(entries, k, j) matches Some(x) ==> j <= x < entries.len() && entries[x].key == k,
    decreases entries.len() - j,
{
    if 0 <= j < entries.len() && entries[j].key != k {
        lemma_find_key_from(entries, k, j + 1);
    }
}

/// The table after defining the dotted key `path` as `item`. A key may be
/// defined once; a dotted key extends only tables that earlier dotted keys
/// of the same table created.
pub open spec fn table_insert(entries: Seq<EntryModel>, path: Seq<(Seq<char>, Span)>, item: ItemModel) -> Option<Seq<EntryModel>>
    decreases path.len(),
{
    if path.len() == 0 {
        None
    } else {
        let (k, ks) = path[0];
        match find_key_from(entries, k, 0) {
            Some(j) => {
                let e = entries[j];
                if path.len() == 1 || !e.implicit {
                    None
                } else {
                    match e.item.value {
                        ValueModel::Table(sub) => match table_insert(sub, path.drop_first(), item) {
                            Some(sub2) => Some(entries.update(j, EntryModel {
                                key: e.key,
                                key_span: e.key_span,
                                item: ItemModel { value: ValueModel::Table(sub2), span: e.item.span },
                                implicit: true,
                            })),
                            None => None,
                        },
                        _ => None,
                    }
                }
            },
            None => if path.len() == 1 {
                Some(entries.push(EntryModel { key: k, key_span: ks, item, implicit: false }))
            } else {
                match table_insert(seq![], path.drop_first(), item) {
                    Some(sub) => Some(entries.push(EntryModel {
                        key: k,
                        key_span: ks,
                        item: ItemModel { value: ValueModel::Table(sub), span: ks },
                        implicit: true,
                    })),
                    None => None,
                }
            },
        }
    }
}

/// Why and where reading stopped: a message and the byte position.
pub struct Failure {
    pub message: Seq<char>,
    pub at: int,
}

/// Reading stops at `at` for the reason `message`.
pub open spec fn fail<T>(message: Seq<char>, at: int) -> Result<T, Failure> {
    Err(Failure { message, at })
}

/// The value at `i` and its length, or where and why reading it fails.
pub open spec fn value_at(s: Seq<u8>, i: int) -> Result<(ValueModel, nat), Failure>
    decreases s.len() - i, 0int,
{
    if !(0 <= i < s.len()) {
        fail("expected a value"@, i)
    } else {
        let c = s[i];
        if c == 0x22 || c == 0x27 {
            match string_at(s, i) {
                Some((kind, b, n)) => match string_value(kind, b, verbatim(s, i, kind, b, n)) {
                    Some(v) => Ok((v, n)),
                    None => fail("invalid UTF-8 in string"@, i),
                },
                None => fail("invalid string"@, i),
            }
        } else if c == 0x5b {
            match array_items(s, i + 1) {
                Ok((items, m)) => Ok((ValueModel::Array(items), 1 + m)),
                Err(f) => Err(f),
            }
        } else if c == 0x7b {
            match table_body(s, i + 1, seq![], true) {
                Ok((entries, m)) => Ok((ValueModel::Table(entries), 1 + m)),
                Err(f) => Err(f),
            }
        } else if c == 0x24 {
            match bare_placeholder(s, i) {
                Some((name, default, n)) => match (text_of(name), opt_text_of(default)) {
                    (Some(nm), Some(d)) => Ok((ValueModel::EnvVar(nm, d), n)),
                    _ => fail("invalid UTF-8 in environment variable placeholder"@, i),
                },
                None => fail("invalid environment variable placeholder"@, i),
            }
        } else {
            let n = scalar_token_len(s, i);
            if n == 0 {
                fail("expected a value"@, i)
            } else {
                match scalar_value(s.subrange(i, i + n)) {
                    Some(v) => Ok((v, n)),
                    None => fail("invalid value"@, i),
                }
            }
        }
    }
}

/// The elements of an array from `i` (after `[` or a `,`), up to and
/// including the closing `]`: the elements and the length, or where and
/// why reading them fails.
pub open spec fn array_items(s: Seq<u8>, i: int) -> Result<(Seq<ItemModel>, nat), Failure>
    decreases s.len() - i, 1int,
{
    if !(0 <= i <= s.len()) {
        fail("expected a value"@, i)
    } else {
        let p = i + array_space_len(s, i);
        proof {
            lemma_array_space_len_bound(s, i);
        }
        if p < s.len() && s[p] == 0x5d {
            Ok((seq![], (p - i + 1) as nat))
        } else {
            match value_at(s, p) {
                Ok((v, n)) => {
                    let item = ItemModel { value: v, span: span_of(p, p + n) };
                    let q = p + n + array_space_len(s, p + n);
                    if q < s.len() && s[q] == 0x2c {
                        match array_items(s, q + 1) {
                            Ok((rest, m)) => Ok((seq![item] + rest, (q + 1 - i + m) as nat)),
                            Err(f) => Err(f),
                        }
                    } else if q < s.len() && s[q] == 0x5d {
                        Ok((seq![item], (q - i + 1) as nat))
                    } else {
                        fail("expected `,` or `]` in array"@, q)
                    }
                },
                Err(f) => Err(f),
            }
        }
    }
}

/// The key/value pairs of an inline table from `i` (after `{` or a `,`),
/// added to `entries`, up to and including the closing `}`, or where and
/// why reading them fails. `may_close` says whether `}` may come here
/// (right after `{`, not after a `,`).
pub open spec fn table_body(s: Seq<u8>, i: int, entries: Seq<EntryModel>, may_close: bool) -> Result<(Seq<EntryModel>, nat), Failure>
    decreases s.len() - i, 1int,
{
    if !(0 <= i <= s.len()) {
        fail("expected a key"@, i)
    } else {
        let p = i + ws_len(s, i);
        proof {
            lemma_ws_len_bound(s, i);
        }
        if may_close && p < s.len() && s[p] == 0x7d {
            Ok((entries, (p - i + 1) as nat))
        } else {
            match dotted_key(s, p) {
                Some((path, kn)) => {
                    let q = p + kn + ws_len(s, p + kn);
                    if q < s.len() && s[q] == 0x3d {
                        let r = q + 1 + ws_len(s, q + 1);
                        proof {
                            lemma_ws_len_bound(s, q + 1);
                        }
                        match value_at(s, r) {
                            Ok((v, n)) => match table_insert(
                                entries,
                                path,
                                ItemModel { value: v, span: span_of(r, r + n) },
                            ) {
                                Some(entries2) => {
                                    let t = r + n + ws_len(s, r + n);
                                    if t < s.len() && s[t] == 0x2c {
                                        match table_body(s, t + 1, entries2, false) {
                                            Ok((all, m)) => Ok((all, (t + 1 - i + m) as nat)),
                                            Err(f) => Err(f),
                                        }
                                    } else if t < s.len() && s[t] == 0x7d {
                                        Ok((entries2, (t - i + 1) as nat))
                                    } else {
                                        fail("expected `,` or `}` in inline table"@, t)
                                    }
                                },
                                None => fail("duplicate key"@, p),
                            },
                            Err(f) => Err(f),
                        }
                    } else {
                        fail("expected `=` after key"@, q)
                    }
                },
                None => fail("expected a key"@, p),
            }
        }
    }
}

/// A whole input that is one value with optional spaces and tabs around
/// it: the value and the span it covers, or where and why reading fails.
pub open spec fn document(s: Seq<u8>) -> Result<(ValueModel, Span), Failure> {
    let p = ws_len(s, 0) as int;
    match value_at(s, p) {
        Ok((v, n)) => {
            let q = p + n + ws_len(s, p + n);
            if q == s.len() {
                Ok((v, span_of(p, p + n)))
            } else {
                fail("unexpected content after the value"@, q)
            }
        },
        Err(f) => Err(f),
    }
}

} // verus!
