//! The parser of a single TOML value with placeholders; each function
//! follows the grammar in `grammar`.
use vstd::prelude::*;
use vstd::utf8::*;
use crate::error::{Error, Span};
use crate::scalar::{scalar_token_length, parse_integer, is_float_literal, strip_underscores, true_word, false_word, copy_range};
use crate::strings::{StringKind, read_string, newline_at, count_ws, string_at};
use crate::value::{Text, items_model, items_wf, TomlValue, TomlFloat, SpannedValue, TableEntry, EntryModel, entries_model, entries_wf, entry_model, item_model, lemma_entries_model, lemma_entries_wf, lemma_items_model_push};
use crate::grammar::{Failure, span_of, content_start, content_end, verbatim, lemma_string_content, value_at, array_items, table_body, document, is_name_byte, run_len, name_pred, bare_key_pred, default_pred, comment_pred, text_of, opt_text_of, bare_placeholder, quoted_placeholder, string_value, scalar_value, comment_len, array_space_len, simple_key, dotted_key, find_key_from, table_insert, lemma_find_key_from};
use crate::env::{EnvVar, opt_view};
use crate::datetime::parse_datetime;
use crate::text::string_from_utf8;

verus! {

/// Whether `b` is a placeholder name byte.
pub fn name_byte(b: u8) -> (r: bool)
    ensures
        r == is_name_byte(b),
{
    (0x30 <= b && b <= 0x39) || (0x61 <= b && b <= 0x7a) || (0x41 <= b && b <= 0x5a) || b == 0x5f
}

/// The length of the run of name bytes at `i`.
pub fn count_name_run(s: &[u8], i: usize) -> (n: usize)
    requires
        i <= s@.len(),
    ensures
        n == run_len(s@, i as int, name_pred()),
        i + n <= s@.len(),
{
    let mut j = i;
    while j < s.len() && name_byte(s[j])
        invariant
            i <= j <= s@.len(),
            run_len(s@, i as int, name_pred()) == (j - i) + run_len(s@, j as int, name_pred()),
        decreases s@.len() - j,
    {
        j = j + 1;
    }
    j - i
}

/// The length of the run of bare key bytes at `i`.
pub fn count_bare_key_run(s: &[u8], i: usize) -> (n: usize)
    requires
        i <= s@.len(),
    ensures
        n == run_len(s@, i as int, bare_key_pred()),
        i + n <= s@.len(),
{
    let mut j = i;
    while j < s.len() && (name_byte(s[j]) || s[j] == 0x2d)
        invariant
            i <= j <= s@.len(),
            run_len(s@, i as int, bare_key_pred()) == (j - i) + run_len(s@, j as int, bare_key_pred()),
        decreases s@.len() - j,
    {
        j = j + 1;
    }
    j - i
}

/// The length of the run of bare default bytes at `i`.
pub fn count_default_run(s: &[u8], i: usize) -> (n: usize)
    requires
        i <= s@.len(),
    ensures
        n == run_len(s@, i as int, default_pred()),
        i + n <= s@.len(),
{
    let mut j = i;
    while j < s.len() && s[j] != 0x7d && s[j] != 0x24 && s[j] != 0x0a && s[j] != 0x0d
        invariant
            i <= j <= s@.len(),
            run_len(s@, i as int, default_pred()) == (j - i) + run_len(s@, j as int, default_pred()),
        decreases s@.len() - j,
    {
        j = j + 1;
    }
    j - i
}

/// The length of the run of comment bytes at `i`.
pub fn count_comment_run(s: &[u8], i: usize) -> (n: usize)
    requires
        i <= s@.len(),
    ensures
        n == run_len(s@, i as int, comment_pred()),
        i + n <= s@.len(),
{
    let mut j = i;
    while j < s.len() && !((s[j] < 0x20 && s[j] != 0x09) || s[j] == 0x7f)
        invariant
            i <= j <= s@.len(),
            run_len(s@, i as int, comment_pred()) == (j - i) + run_len(s@, j as int, comment_pred()),
        decreases s@.len() - j,
    {
        j = j + 1;
    }
    j - i
}

/// The text of UTF-8 bytes.
pub fn text(b: Vec<u8>) -> (res: Option<String>)
    ensures
        res is Some <==> text_of(b@) is Some,
        res matches Some(t) ==> text_of(b@) == Some(t@),
{
    string_from_utf8(b)
}

/// The text of optional UTF-8 bytes.
fn opt_text(b: Option<Vec<u8>>) -> (res: Option<Option<String>>)
    ensures
        res is Some <==> opt_text_of(match b { Some(v) => Some(v@), None => None }) is Some,
        res matches Some(t) ==> opt_text_of(match b { Some(v) => Some(v@), None => None }) == Some(opt_view(t)),
{
    match b {
        Some(v) => match text(v) {
            Some(t) => Some(Some(t)),
            None => None,
        },
        None => Some(None),
    }
}

/// Reads a bare placeholder at `i`: name, default and length.
pub fn read_bare_placeholder(s: &[u8], i: usize) -> (res: Option<(Vec<u8>, Option<Vec<u8>>, usize)>)
    requires
        i <= s@.len(),
    ensures
        res is Some <==> bare_placeholder(s@, i as int) is Some,
        res matches Some((n, d, len)) ==> {
            &&& bare_placeholder(s@, i as int) == Some((n@, match d { Some(v) => Some(v@), None => None }, len as nat))
            &&& i + len <= s@.len()
        },
{
    if !(s.len() - i > 1 && s[i] == 0x24 && s[i + 1] == 0x7b) {
        return None;
    }
    let n = count_name_run(s, i + 2);
    let j = i + 2 + n;
    if n == 0 || j >= s.len() {
        return None;
    }
    if s[j] == 0x7d {
        Some((copy_range(s, i + 2, j), None, n + 3))
    } else if s[j] == 0x3a {
        let d = count_default_run(s, j + 1);
        if j + 1 + d < s.len() && s[j + 1 + d] == 0x7d {
            Some((copy_range(s, i + 2, j), Some(copy_range(s, j + 1, j + 1 + d)), n + d + 4))
        } else {
            None
        }
    } else {
        None
    }
}

/// Reads a string content that is exactly one placeholder.
pub fn read_quoted_placeholder(c: &[u8]) -> (res: Option<(Vec<u8>, Option<Vec<u8>>)>)
    ensures
        res is Some <==> quoted_placeholder(c@) is Some,
        res matches Some((n, d)) ==> quoted_placeholder(c@) == Some((n@, match d { Some(v) => Some(v@), None => None })),
{
    let len = c.len();
    if !(len >= 4 && c[0] == 0x24 && c[1] == 0x7b && c[len - 1] == 0x7d) {
        return None;
    }
    let n = count_name_run(c, 2);
    let j = 2 + n;
    if n == 0 {
        return None;
    }
    if j == len - 1 {
        return Some((copy_range(c, 2, j), None));
    }
    if j >= len - 1 || c[j] != 0x3a {
        return None;
    }
    let mut k = j + 1;
    while k < len - 1
        invariant
            j + 1 <= k <= len - 1,
            len == c@.len(),
            len >= 4,
            c@[0] == 0x24 && c@[1] == 0x7b && c@[len - 1] == 0x7d,
            n == run_len(c@, 2, name_pred()),
            n > 0,
            j == 2 + n,
            j < len - 1,
            c@[j as int] == 0x3a,
            forall|m: int| j + 1 <= m < k ==> #[trigger] c@[m] != 0x7d,
        decreases len - 1 - k,
    {
        if c[k] == 0x7d {
            return None;
        }
        k = k + 1;
    }
    Some((copy_range(c, 2, j), Some(copy_range(c, j + 1, len - 1))))
}

} // verus!

verus! {

/// One part of a dotted key, with its span.
#[derive(Debug)]
pub struct KeyPart {
    pub key: String,
    pub span: Span,
}

/// The model of a dotted key.
pub open spec fn path_model(p: Seq<KeyPart>) -> Seq<(Seq<char>, Span)> {
    p.map_values(|x: KeyPart| (x.key@, x.span))
}

/// The value of a string of the given kind with the given decoded bytes.
pub fn make_string_value<'a>(kind: StringKind, b: Vec<u8>) -> (res: Option<TomlValue<'a>>)
    ensures
        res is Some <==> string_value(kind, b@, false) is Some,
        res matches Some(v) ==> string_value(kind, b@, false) == Some(v.model()) && v.wf(),
{
    let ph = if kind == StringKind::Basic {
        read_quoted_placeholder(b.as_slice())
    } else {
        None
    };
    match ph {
        Some((name, default)) => {
            let n = text(name);
            let d = opt_text(default);
            match (n, d) {
                (Some(n), Some(d)) => Some(TomlValue::EnvVar(EnvVar::new(n, d))),
                _ => None,
            }
        },
        None => {
            proof {
                if kind == StringKind::Basic {
                    assert(quoted_placeholder(b@) is None);
                }
            }
            match text(b) {
                Some(t) => Some(TomlValue::String(Text::Owned(t))),
                None => None,
            }
        },
    }
}

/// The value of the bare scalar token `t`.
pub fn make_scalar_value<'a>(t: &[u8]) -> (res: Option<TomlValue<'a>>)
    ensures
        res is Some <==> scalar_value(t@) is Some,
        res matches Some(v) ==> scalar_value(t@) == Some(v.model()) && v.wf(),
{
    let n = t.len();
    let is_true = n == 4 && t[0] == 0x74 && t[1] == 0x72 && t[2] == 0x75 && t[3] == 0x65;
    let is_false = n == 5 && t[0] == 0x66 && t[1] == 0x61 && t[2] == 0x6c && t[3] == 0x73 && t[4]
        == 0x65;
    proof {
        if is_true {
            assert(t@ =~= true_word());
        } else if t@ =~= true_word() {
            assert(t@[0] == true_word()[0]);
        }
        if is_false {
            assert(t@ =~= false_word());
        } else if t@ =~= false_word() {
            assert(t@[0] == false_word()[0]);
        }
    }
    if is_true {
        return Some(TomlValue::Boolean(true));
    }
    if is_false {
        return Some(TomlValue::Boolean(false));
    }
    match parse_integer(t) {
        Some(i) => {
            return Some(TomlValue::Integer(i));
        },
        None => {},
    }
    if is_float_literal(t) {
        let text = strip_underscores(t, 0, n);
        proof {
            assert(t@.subrange(0, n as int) =~= t@);
        }
        return Some(TomlValue::Float(TomlFloat { text }));
    }
    let bytes = copy_range(t, 0, n);
    proof {
        assert(t@.subrange(0, n as int) =~= t@);
    }
    match text(bytes) {
        Some(c) => match parse_datetime(c.as_str()) {
            Some(d) => Some(TomlValue::Datetime(d)),
            None => None,
        },
        None => None,
    }
}

/// The length of the comment at `i`, or 0.
pub fn comment_at(s: &[u8], i: usize) -> (n: usize)
    requires
        i <= s@.len(),
    ensures
        n == comment_len(s@, i as int),
        i + n <= s@.len(),
{
    if i < s.len() && s[i] == 0x23 {
        1 + count_comment_run(s, i + 1)
    } else {
        0
    }
}

/// The length of the spacing (whitespace, newlines, comments) at `i`.
pub fn count_array_space(s: &[u8], i: usize) -> (n: usize)
    requires
        i <= s@.len(),
    ensures
        n == array_space_len(s@, i as int),
        i + n <= s@.len(),
{
    let mut j = i;
    loop
        invariant
            i <= j <= s@.len(),
            array_space_len(s@, i as int) == (j - i) + array_space_len(s@, j as int),
        decreases s@.len() - j,
    {
        if j < s.len() && (s[j] == 0x20 || s[j] == 0x09) {
            j = j + 1;
        } else {
            let nl = newline_at(s, j);
            if nl > 0 {
                j = j + nl;
            } else {
                let c = comment_at(s, j);
                if c > 0 {
                    j = j + c;
                } else {
                    return j - i;
                }
            }
        }
    }
}

/// Reads a simple key at `i`: its text and length.
pub fn read_simple_key(s: &[u8], i: usize) -> (res: Option<(String, usize)>)
    requires
        i <= s@.len(),
    ensures
        res is Some <==> simple_key(s@, i as int) is Some,
        res matches Some((key, len)) ==> simple_key(s@, i as int) == Some((key@, len as nat)),
        res matches Some((key, len)) ==> i + len <= s@.len(),
{
    if i >= s.len() {
        return None;
    }
    if s[i] == 0x22 || s[i] == 0x27 {
        match read_string(s, i) {
            Some((kind, b, n)) => {
                if kind == StringKind::Basic || kind == StringKind::Literal {
                    match text(b) {
                        Some(t) => Some((t, n)),
                        None => None,
                    }
                } else {
                    None
                }
            },
            None => None,
        }
    } else {
        let n = count_bare_key_run(s, i);
        if n == 0 {
            None
        } else {
            match text(copy_range(s, i, i + n)) {
                Some(t) => Some((t, n)),
                None => None,
            }
        }
    }
}

/// Reads a dotted key at `start`: its parts and length.
pub fn read_dotted_key(s: &[u8], start: usize) -> (res: Option<(Vec<KeyPart>, usize)>)
    requires
        start <= s@.len(),
    ensures
        res is Some <==> dotted_key(s@, start as int) is Some,
        res matches Some((p, n)) ==> dotted_key(s@, start as int) == Some((path_model(p@), n as nat))
            && start + n <= s@.len() && p@.len() > 0,
{
    let mut parts: Vec<KeyPart> = Vec::new();
    let mut j = start;
    let total = s.len();
    loop
        invariant
            start <= j <= s@.len(),
            total == s@.len(),
            dotted_key(s@, start as int) == (match dotted_key(s@, j as int) {
                Some((rest, m)) => Some((path_model(parts@) + rest, (j - start + m) as nat)),
                None => None,
            }),
        decreases s@.len() - j,
    {
        match read_simple_key(s, j) {
            Some((k, n)) => {
                let e = j + n;
                let w = count_ws(s, e);
                let j2 = e + w;
                let part = KeyPart { key: k, span: Span { start: j, end: j + n } };
                let ghost old_parts = parts@;
                parts.push(part);
                proof {
                    assert(path_model(parts@) =~= path_model(old_parts) + seq![(part.key@, part.span)]);
                }
                if j2 < s.len() && s[j2] == 0x2e {
                    let r = j2 + 1 + count_ws(s, j2 + 1);
                    proof {
                        match dotted_key(s@, r as int) {
                            Some((rest, m)) => {
                                assert(path_model(old_parts) + (seq![(part.key@, part.span)] + rest)
                                    =~= path_model(parts@) + rest);
                            },
                            None => {},
                        }
                    }
                    j = r;
                } else {
                    return Some((parts, j - start + n));
                }
            },
            None => {
                return None;
            },
        }
    }
}

} // verus!

verus! {

/// The index of the first entry whose key is `k`.
pub fn find_entry(entries: &Vec<TableEntry<'_>>, k: &String) -> (res: Option<usize>)
    ensures
        match find_key_from(entries_model(entries@), k@, 0) {
            Some(j) => res == Some(j as usize),
            None => res is None,
        },
{
    proof {
        lemma_entries_model(entries@);
    }
    let ghost m = entries_model(entries@);
    let mut i: usize = 0;
    while i < entries.len()
        invariant
            i <= entries@.len(),
            m == entries_model(entries@),
            m.len() == entries@.len(),
            forall|k2: int| 0 <= k2 < entries@.len() ==> #[trigger] m[k2] == entry_model(entries@[k2]),
            find_key_from(m, k@, 0) == find_key_from(m, k@, i as int),
        decreases entries@.len() - i,
    {
        if entries[i].key == *k {
            assert(m[i as int].key == k@);
            return Some(i);
        }
        assert(m[i as int].key != k@);
        i = i + 1;
    }
    None
}

/// Defines the dotted key `path[k..]` as `item` in `entries`.
pub fn insert_path<'a>(entries: Vec<TableEntry<'a>>, path: &Vec<KeyPart>, k: usize, item: SpannedValue<'a>) -> (res: Option<Vec<TableEntry<'a>>>)
    requires
        k < path@.len(),
        entries_wf(entries@),
        item.value.wf(),
    ensures
        res is Some <==> table_insert(entries_model(entries@), path_model(path@).skip(k as int), item_model(item)) is Some,
        res matches Some(e) ==> {
            &&& table_insert(entries_model(entries@), path_model(path@).skip(k as int), item_model(item))
                == Some(entries_model(e@))
            &&& entries_wf(e@)
        },
    decreases path@.len() - k,
{
    let ghost pm = path_model(path@).skip(k as int);
    let ghost em = entries_model(entries@);
    let ghost orig = entries@;
    proof {
        lemma_entries_model(entries@);
        lemma_entries_wf(entries@);
        assert(pm[0] == (path@[k as int].key@, path@[k as int].span));
        assert(pm.drop_first() =~= path_model(path@).skip(k + 1));
    }
    let idx = find_entry(&entries, &path[k].key);
    let last = k == path.len() - 1;
    proof {
        lemma_find_key_from(em, path@[k as int].key@, 0);
    }
    match idx {
        Some(j) => {
            if last || !entries[j].implicit {
                return None;
            }
            let mut entries = entries;
            let e = entries.remove(j);
            let TableEntry { key, key_span, item: old_item, implicit } = e;
            let SpannedValue { value, span } = old_item;
            match value {
                TomlValue::Table(sub) => {
                    proof {
                        assert(orig[j as int] == e);
                        assert(e.item.value.wf());
                    }
                    match insert_path(sub, path, k + 1, item) {
                        Some(sub2) => {
                            let new_entry = TableEntry {
                                key,
                                key_span,
                                item: SpannedValue { value: TomlValue::Table(sub2), span },
                                implicit: true,
                            };
                            let ghost removed = entries@;
                            entries.insert(j, new_entry);
                            proof {
                                assert(entries@ =~= orig.update(j as int, new_entry));
                                assert forall|q: int| 0 <= q < orig.len() implies entry_model(
                                    #[trigger] entries@[q],
                                ) == em.update(j as int, entry_model(new_entry))[q] by {
                                    if q != j {
                                        assert(entries@[q] == orig[q]);
                                    }
                                }
                                lemma_entries_model(entries@);
                                assert(entries_model(entries@) =~= em.update(j as int, entry_model(new_entry)));
                                lemma_entries_wf(entries@);
                                assert forall|q: int| 0 <= q < entries@.len() implies (#[trigger] entries@[q]).item.value.wf() by {
                                    if q != j {
                                        assert(entries@[q] == orig[q]);
                                    }
                                }
                            }
                            Some(entries)
                        },
                        None => None,
                    }
                },
                _ => None,
            }
        },
        None => {
            if last {
                let ghost before = entries@;
                let mut entries = entries;
                let key = path[k].key.clone();
                let e = TableEntry { key, key_span: path[k].span, item, implicit: false };
                entries.push(e);
                proof {
                    assert(entries@ =~= before.push(e));
                    assert(entries@.subrange(0, before.len() as int) =~= before);
                    assert(pm.len() == 1);
                    assert(entries_model(entries@) == em.push(entry_model(e)));
                    assert(entries_wf(entries@));
                }
                Some(entries)
            } else {
                proof {
                    assert(entries_model(Seq::<TableEntry<'a>>::empty()) =~= Seq::<EntryModel>::empty());
                }
                match insert_path(Vec::new(), path, k + 1, item) {
                    Some(sub) => {
                        let ghost before = entries@;
                        let mut entries = entries;
                        let key = path[k].key.clone();
                        let e = TableEntry {
                            key,
                            key_span: path[k].span,
                            item: SpannedValue { value: TomlValue::Table(sub), span: path[k].span },
                            implicit: true,
                        };
                        entries.push(e);
                        proof {
                            assert(entries@ =~= before.push(e));
                            assert(entries@.subrange(0, before.len() as int) =~= before);
                            assert(e.item.value.wf());
                            assert(entries_model(entries@) == em.push(entry_model(e)));
                            assert(entries_wf(entries@));
                        }
                        Some(entries)
                    },
                    None => None,
                }
            }
        },
    }
}

} // verus!

verus! {

/// The error reports the failure `f`: its message, at its position.
pub open spec fn reports(e: Error, f: Failure) -> bool {
    e.message@ == f.message && e.span == Some(span_of(f.at, f.at))
}

/// Whether `b` is exactly the bytes of `s` from `a` to `e`.
fn same_bytes(b: &Vec<u8>, s: &[u8], a: usize, e: usize) -> (r: bool)
    requires
        a <= e <= s@.len(),
    ensures
        r == (b@ == s@.subrange(a as int, e as int)),
{
    if b.len() != e - a {
        return false;
    }
    let mut k: usize = 0;
    while k < b.len()
        invariant
            a <= e <= s@.len(),
            b@.len() == e - a,
            k <= b@.len(),
            forall|x: int| 0 <= x < k ==> b@[x] == s@[a + x],
        decreases b@.len() - k,
    {
        if b[k] != s[a + k] {
            proof {
                assert(b@[k as int] != s@.subrange(a as int, e as int)[k as int]);
            }
            return false;
        }
        k = k + 1;
    }
    proof {
        assert(b@ =~= s@.subrange(a as int, e as int));
    }
    true
}

/// Where the content of the string of kind `kind` and length `n` at `i`
/// lies: from after its opening delimiter to its closing one.
fn content_range(s: &[u8], i: usize, kind: StringKind, n: usize) -> (r: (usize, usize))
    requires
        string_at(s@, i as int) matches Some((k, _, m)) && k == kind && m == n,
    ensures
        r.0 == content_start(s@, i as int, kind),
        r.1 == content_end(i as int, kind, n as nat),
        r.0 <= r.1 <= s@.len(),
{
    let total = s.len();
    proof {
        lemma_string_content(s@, i as int);
    }
    if kind == StringKind::MultilineBasic || kind == StringKind::MultilineLiteral {
        (i + 3 + newline_at(s, i + 3), i + n - 3)
    } else {
        (i + 1, i + n - 1)
    }
}

/// In UTF-8 input, a string whose text is the input's bytes between its
/// delimiters starts and ends its content on character boundaries, and
/// the closing delimiter is not a continuation byte.
proof fn lemma_verbatim_boundaries(s: Seq<u8>, i: int)
    requires
        valid_utf8(s),
        string_at(s, i) matches Some((kind, b, n)) && verbatim(s, i, kind, b, n) && valid_utf8(b),
    ensures
        ({
            let (kind, b, n) = string_at(s, i).unwrap();
            let a = content_start(s, i, kind);
            let e = content_end(i, kind, n);
            &&& e < s.len()
            &&& is_char_boundary(s, a)
            &&& !is_continuation_byte(s[e])
        }),
{
    let (kind, b, n) = string_at(s, i).unwrap();
    let a = content_start(s, i, kind);
    let e = content_end(i, kind, n);
    lemma_string_content(s, i);
    if a < e {
        assert(is_char_boundary(b, 0));
        is_char_boundary_iff_not_is_continuation_byte(b, 0);
        assert(s[a] == b[0]);
    }
    is_char_boundary_iff_not_is_continuation_byte(s, a);
}

/// The part of `raw` from byte `a` to byte `e`, where `a` is a character
/// boundary and the byte at `e` starts a character.
fn slice_between<'a>(raw: &'a str, a: usize, e: usize) -> (r: &'a str)
    requires
        a <= e < encode_utf8(raw@).len(),
        is_char_boundary(encode_utf8(raw@), a as int),
        !is_continuation_byte(encode_utf8(raw@)[e as int]),
    ensures
        encode_utf8(r@) == encode_utf8(raw@).subrange(a as int, e as int),
        r@ == decode_utf8(encode_utf8(raw@).subrange(a as int, e as int)),
{
    let ghost s = encode_utf8(raw@);
    proof {
        encode_utf8_valid_utf8(raw@);
        valid_utf8_split(s, a as int);
        let rest = s.subrange(a as int, s.len() as int);
        assert(rest[e - a] == s[e as int]);
        is_char_boundary_iff_not_is_continuation_byte(rest, e - a);
    }
    let (_, rest) = raw.split_at(a);
    let (mid, _) = rest.split_at(e - a);
    proof {
        assert(encode_utf8(mid@) =~= s.subrange(a as int, e as int));
        encode_utf8_decode_utf8(mid@);
    }
    mid
}

/// An error at byte `at`.
fn error_at(msg: &str, at: usize) -> (e: Error)
    ensures
        e.message@ == msg@,
        e.span == Some(Span { start: at, end: at }),
{
    Error::custom(String::from_str(msg), Some(Span { start: at, end: at }))
}

/// Reads the value at `i`: the value and its length.
pub fn parse_value<'a>(raw: &'a str, i: usize) -> (res: Result<(TomlValue<'a>, usize), Error>)
    requires
        i <= encode_utf8(raw@).len(),
    ensures
        match value_at(encode_utf8(raw@), i as int) {
            Ok((m, n)) => res matches Ok((v, k)) && v.model() == m && k == n,
            Err(f) => res matches Err(e) && reports(e, f),
        },
        res matches Ok((v, n)) ==> v.wf() && i + n <= encode_utf8(raw@).len(),
        res matches Err(e) ==> e.span matches Some(sp) && sp.start == sp.end && sp.end <= encode_utf8(raw@).len(),
    decreases encode_utf8(raw@).len() - i, 0int,
{
    let s = raw.as_bytes();
    if i >= s.len() {
        return Err(error_at("expected a value", i));
    }
    let c = s[i];
    if c == 0x22 || c == 0x27 {
        match read_string(s, i) {
            Some((kind, b, n)) => {
                let (a, e) = content_range(s, i, kind, n);
                let flat = same_bytes(&b, s, a, e);
                let ghost bytes = b@;
                match make_string_value(kind, b) {
                    Some(TomlValue::String(t)) => {
                        if flat {
                            proof {
                                encode_utf8_valid_utf8(raw@);
                                assert(text_of(bytes) is Some);
                                lemma_verbatim_boundaries(encode_utf8(raw@), i as int);
                            }
                            Ok((TomlValue::String(Text::Borrowed(slice_between(raw, a, e))), n))
                        } else {
                            Ok((TomlValue::String(t), n))
                        }
                    },
                    Some(v) => Ok((v, n)),
                    None => Err(error_at("invalid UTF-8 in string", i)),
                }
            },
            None => Err(error_at("invalid string", i)),
        }
    } else if c == 0x5b {
        match parse_array_items(raw, i + 1) {
            Ok((items, m)) => Ok((TomlValue::Array(items), 1 + m)),
            Err(e) => Err(e),
        }
    } else if c == 0x7b {
        match parse_table_body(raw, i + 1) {
            Ok((entries, m)) => Ok((TomlValue::Table(entries), 1 + m)),
            Err(e) => Err(e),
        }
    } else if c == 0x24 {
        match read_bare_placeholder(s, i) {
            Some((name, default, n)) => {
                let nm = text(name);
                let d = opt_text(default);
                match (nm, d) {
                    (Some(nm), Some(d)) => Ok((TomlValue::EnvVar(EnvVar::new(nm, d)), n)),
                    _ => Err(error_at("invalid UTF-8 in environment variable placeholder", i)),
                }
            },
            None => Err(error_at("invalid environment variable placeholder", i)),
        }
    } else {
        let n = scalar_token_length(s, i);
        if n == 0 {
            return Err(error_at("expected a value", i));
        }
        let t = copy_range(s, i, i + n);
        match make_scalar_value(t.as_slice()) {
            Some(v) => Ok((v, n)),
            None => Err(error_at("invalid value", i)),
        }
    }
}

/// Reads the elements of an array from `start` through the closing `]`.
#[verifier::rlimit(60)]
pub fn parse_array_items<'a>(raw: &'a str, start: usize) -> (res: Result<(Vec<SpannedValue<'a>>, usize), Error>)
    requires
        start <= encode_utf8(raw@).len(),
    ensures
        match array_items(encode_utf8(raw@), start as int) {
            Ok((m, n)) => res matches Ok((v, k)) && items_model(v@) == m && k == n,
            Err(f) => res matches Err(e) && reports(e, f),
        },
        res matches Ok((v, n)) ==> items_wf(v@) && start + n <= encode_utf8(raw@).len(),
        res matches Err(e) ==> e.span matches Some(sp) && sp.start == sp.end && sp.end <= encode_utf8(raw@).len(),
    decreases encode_utf8(raw@).len() - start, 1int,
{
    let s = raw.as_bytes();
    let mut items: Vec<SpannedValue<'a>> = Vec::new();
    let mut j = start;
    let total = s.len();
    loop
        invariant
            start <= j <= total,
            total == s@.len(),
            s@ == encode_utf8(raw@),
            items_wf(items@),
            array_items(s@, start as int) == (match array_items(s@, j as int) {
                Ok((rest, m)) => Ok((items_model(items@) + rest, (j - start + m) as nat)),
                Err(f) => Err(f),
            }),
        decreases total - j,
    {
        let p = j + count_array_space(s, j);
        if p < total && s[p] == 0x5d {
            proof {
                assert(items_model(items@) + seq![] =~= items_model(items@));
            }
            return Ok((items, p - start + 1));
        }
        match parse_value(raw, p) {
            Ok((v, n)) => {
                let e = p + n;
                let q = e + count_array_space(s, e);
                let item = SpannedValue { value: v, span: Span { start: p, end: e } };
                let ghost before = items@;
                if q < total && s[q] == 0x2c {
                    items.push(item);
                    proof {
                        lemma_items_model_push(before, item);
                        match array_items(s@, q + 1) {
                            Ok((rest, m)) => {
                                assert(items_model(before) + (seq![item_model(item)] + rest)
                                    =~= items_model(items@) + rest);
                            },
                            Err(_) => {},
                        }
                    }
                    j = q + 1;
                } else if q < total && s[q] == 0x5d {
                    items.push(item);
                    proof {
                        lemma_items_model_push(before, item);
                        assert(items_model(before) + seq![item_model(item)] =~= items_model(items@));
                    }
                    return Ok((items, q - start + 1));
                } else {
                    return Err(error_at("expected `,` or `]` in array", q));
                }
            },
            Err(e) => {
                return Err(e);
            },
        }
    }
}

/// Reads the key/value pairs of an inline table from `start` through the
/// closing `}`.
#[verifier::rlimit(100)]
pub fn parse_table_body<'a>(raw: &'a str, start: usize) -> (res: Result<(Vec<TableEntry<'a>>, usize), Error>)
    requires
        start <= encode_utf8(raw@).len(),
    ensures
        match table_body(encode_utf8(raw@), start as int, seq![], true) {
            Ok((m, n)) => res matches Ok((v, k)) && entries_model(v@) == m && k == n,
            Err(f) => res matches Err(e) && reports(e, f),
        },
        res matches Ok((v, n)) ==> entries_wf(v@) && start + n <= encode_utf8(raw@).len(),
        res matches Err(e) ==> e.span matches Some(sp) && sp.start == sp.end && sp.end <= encode_utf8(raw@).len(),
    decreases encode_utf8(raw@).len() - start, 1int,
{
    let s = raw.as_bytes();
    let mut entries: Vec<TableEntry<'a>> = Vec::new();
    let mut j = start;
    let mut may_close = true;
    let total = s.len();
    proof {
        assert(entries_model(entries@) =~= Seq::<EntryModel>::empty());
    }
    loop
        invariant
            start <= j <= total,
            total == s@.len(),
            s@ == encode_utf8(raw@),
            entries_wf(entries@),
            table_body(s@, start as int, seq![], true) == (match table_body(s@, j as int, entries_model(entries@), may_close) {
                Ok((all, m)) => Ok((all, (j - start + m) as nat)),
                Err(f) => Err(f),
            }),
        decreases total - j,
    {
        let p = j + count_ws(s, j);
        if may_close && p < total && s[p] == 0x7d {
            return Ok((entries, p - start + 1));
        }
        match read_dotted_key(s, p) {
            Some((path, kn)) => {
                let a = p + kn;
                let q = a + count_ws(s, a);
                if !(q < total && s[q] == 0x3d) {
                    return Err(error_at("expected `=` after key", q));
                }
                let r = q + 1 + count_ws(s, q + 1);
                match parse_value(raw, r) {
                    Ok((v, n)) => {
                        let item = SpannedValue { value: v, span: Span { start: r, end: r + n } };
                        proof {
                            assert(path_model(path@).skip(0) =~= path_model(path@));
                        }
                        match insert_path(entries, &path, 0, item) {
                            Some(e2) => {
                                entries = e2;
                            },
                            None => {
                                return Err(error_at("duplicate key", p));
                            },
                        }
                        let b = r + n;
                        let t = b + count_ws(s, b);
                        if t < total && s[t] == 0x2c {
                            j = t + 1;
                            may_close = false;
                        } else if t < total && s[t] == 0x7d {
                            return Ok((entries, t - start + 1));
                        } else {
                            return Err(error_at("expected `,` or `}` in inline table", t));
                        }
                    },
                    Err(e) => {
                        return Err(e);
                    },
                }
            },
            None => {
                return Err(error_at("expected a key", p));
            },
        }
    }
}

/// Reads a whole input holding one value (spaces and tabs around it are
/// allowed): the value and its span.
pub fn parse_document<'a>(raw: &'a str) -> (res: Result<(TomlValue<'a>, Span), Error>)
    ensures
        match document(encode_utf8(raw@)) {
            Ok((m, sp)) => res matches Ok((v, sp2)) && v.model() == m && sp2 == sp && v.wf(),
            Err(f) => res matches Err(e) && reports(e, f),
        },
        res matches Err(e) ==> e.span matches Some(sp) && sp.start == sp.end && sp.end <= encode_utf8(raw@).len(),
{
    let s = raw.as_bytes();
    let total = s.len();
    let p = count_ws(s, 0);
    match parse_value(raw, p) {
        Ok((v, n)) => {
            let e = p + n;
            let q = e + count_ws(s, e);
            if q == total {
                Ok((v, Span { start: p, end: e }))
            } else {
                Err(error_at("unexpected content after the value", q))
            }
        },
        Err(e) => Err(e),
    }
}

} // verus!
