//! TOML strings: basic and literal, single- and multi-line.
use vstd::prelude::*;
use vstd::utf8::*;
use crate::scalar::{is_hex, hex_value, hex_digit_value};

verus! {

/// A byte that may not appear raw in a string: a control character other
/// than tab.
pub open spec fn is_control(b: u8) -> bool {
    (b < 0x20 && b != 0x09) || b == 0x7f
}

/// The value of `n` hexadecimal digits at `i`, if they are all there.
pub open spec fn hex_number(s: Seq<u8>, i: int, n: nat) -> Option<int>
    decreases n,
{
    if n == 0 {
        Some(0)
    } else if 0 <= i + n - 1 < s.len() && is_hex(s[i + n - 1]) {
        match hex_number(s, i, (n - 1) as nat) {
            Some(v) => Some(v * 16 + hex_value(s[i + n - 1])),
            None => None,
        }
    } else {
        None
    }
}

/// The bytes of the Unicode scalar written with `n` hex digits at `i`.
pub open spec fn unicode_escape(s: Seq<u8>, i: int, n: nat) -> Option<Seq<u8>> {
    match hex_number(s, i, n) {
        Some(v) => if 0 <= v <= u32::MAX && is_scalar(v as u32) {
            Some(encode_scalar(v as u32))
        } else {
            None
        },
        None => None,
    }
}

/// The escape sequence whose letter is at `i` (just after the backslash):
/// the bytes it stands for and the number of bytes after the backslash.
pub open spec fn escape_at(s: Seq<u8>, i: int) -> Option<(Seq<u8>, nat)> {
    if !(0 <= i < s.len()) {
        None
    } else {
        let c = s[i];
        if c == 0x62 {
            Some((seq![0x08u8], 1))
        } else if c == 0x74 {
            Some((seq![0x09u8], 1))
        } else if c == 0x6e {
            Some((seq![0x0au8], 1))
        } else if c == 0x66 {
            Some((seq![0x0cu8], 1))
        } else if c == 0x72 {
            Some((seq![0x0du8], 1))
        } else if c == 0x22 {
            Some((seq![0x22u8], 1))
        } else if c == 0x5c {
            Some((seq![0x5cu8], 1))
        } else if c == 0x75 {
            match unicode_escape(s, i + 1, 4) {
                Some(b) => Some((b, 5)),
                None => None,
            }
        } else if c == 0x55 {
            match unicode_escape(s, i + 1, 8) {
                Some(b) => Some((b, 9)),
                None => None,
            }
        } else {
            None
        }
    }
}

/// The body of a basic string from `i` (after the opening quote): the
/// decoded bytes and the number of bytes up to and including the closing
/// quote.
pub open spec fn basic_body(s: Seq<u8>, i: int) -> Option<(Seq<u8>, nat)>
    decreases s.len() - i,
{
    if !(0 <= i < s.len()) {
        None
    } else {
        let c = s[i];
        if c == 0x22 {
            Some((seq![], 1))
        } else if c == 0x5c {
            match escape_at(s, i + 1) {
                Some((b, k)) => match basic_body(s, i + 1 + k) {
                    Some((r, m)) => Some((b + r, 1 + k + m)),
                    None => None,
                },
                None => None,
            }
        } else if is_control(c) {
            None
        } else {
            match basic_body(s, i + 1) {
                Some((r, m)) => Some((seq![c] + r, 1 + m)),
                None => None,
            }
        }
    }
}

/// The body of a literal string from `i` (after the opening apostrophe).
pub open spec fn literal_body(s: Seq<u8>, i: int) -> Option<(Seq<u8>, nat)>
    decreases s.len() - i,
{
    if !(0 <= i < s.len()) {
        None
    } else {
        let c = s[i];
        if c == 0x27 {
            Some((seq![], 1))
        } else if is_control(c) {
            None
        } else {
            match literal_body(s, i + 1) {
                Some((r, m)) => Some((seq![c] + r, 1 + m)),
                None => None,
            }
        }
    }
}

/// Spaces and tabs from `i` on.
pub open spec fn ws_len(s: Seq<u8>, i: int) -> nat
    decreases s.len() - i,
{
    if 0 <= i < s.len() && (s[i] == 0x20 || s[i] == 0x09) {
        1 + ws_len(s, i + 1)
    } else {
        0
    }
}

/// The length of the newline at `i`: `\n` or `\r\n`; 0 if there is none.
pub open spec fn newline_len(s: Seq<u8>, i: int) -> nat {
    if 0 <= i < s.len() && s[i] == 0x0a {
        1
    } else if 0 <= i && i + 1 < s.len() && s[i] == 0x0d && s[i + 1] == 0x0a {
        2
    } else {
        0
    }
}

/// Spaces, tabs and newlines from `i` on.
pub open spec fn ws_newline_len(s: Seq<u8>, i: int) -> nat
    decreases s.len() - i,
{
    if 0 <= i < s.len() && (s[i] == 0x20 || s[i] == 0x09) {
        1 + ws_newline_len(s, i + 1)
    } else if newline_len(s, i) > 0 {
        newline_len(s, i) + ws_newline_len(s, i + newline_len(s, i))
    } else {
        0
    }
}

/// Whitespace runs stay inside the input.
pub proof fn lemma_ws_len_bound(s: Seq<u8>, i: int)
    requires
        0 <= i <= s.len(),
    ensures
        i + ws_len(s, i) <= s.len(),
    decreases s.len() - i,
{
    if i < s.len() && (s[i] == 0x20 || s[i] == 0x09) {
        lemma_ws_len_bound(s, i + 1);
    }
}

/// Runs of whitespace and newlines stay inside the input.
pub proof fn lemma_ws_newline_len_bound(s: Seq<u8>, i: int)
    requires
        0 <= i <= s.len(),
    ensures
        i + ws_newline_len(s, i) <= s.len(),
    decreases s.len() - i,
{
    if i < s.len() && (s[i] == 0x20 || s[i] == 0x09) {
        lemma_ws_newline_len_bound(s, i + 1);
    } else if newline_len(s, i) > 0 {
        lemma_ws_newline_len_bound(s, i + newline_len(s, i));
    }
}

/// Whether the bytes at `i` are three copies of `q`.
pub open spec fn triple_at(s: Seq<u8>, i: int, q: u8) -> bool {
    0 <= i && i + 2 < s.len() && s[i] == q && s[i + 1] == q && s[i + 2] == q
}

/// The end of a multi-line string at a run of delimiters at `i`: the
/// delimiter characters that belong to the content (up to two) and the
/// number of bytes consumed; six or more delimiters in a row are an error.
pub open spec fn multiline_close(s: Seq<u8>, i: int, q: u8) -> Option<(Seq<u8>, nat)> {
    if i + 3 < s.len() && s[i + 3] == q {
        if i + 4 < s.len() && s[i + 4] == q {
            if i + 5 < s.len() && s[i + 5] == q {
                None
            } else {
                Some((seq![q, q], 5))
            }
        } else {
            Some((seq![q], 4))
        }
    } else {
        Some((seq![], 3))
    }
}

/// The body of a multi-line basic string from `i`, after the opening
/// delimiter and the newline that may follow it.
pub open spec fn ml_basic_body(s: Seq<u8>, i: int) -> Option<(Seq<u8>, nat)>
    decreases s.len() - i,
{
    if !(0 <= i < s.len()) {
        None
    } else {
        let c = s[i];
        if triple_at(s, i, 0x22) {
            multiline_close(s, i, 0x22)
        } else if c == 0x5c {
            let w = ws_len(s, i + 1);
            if newline_len(s, i + 1 + w) > 0 {
                let k: nat = 1 + w + ws_newline_len(s, i + 1 + w);
                proof {
                    lemma_ws_len_bound(s, i + 1);
                    lemma_ws_newline_len_bound(s, i + 1 + w);
                }
                match ml_basic_body(s, i + k) {
                    Some((r, m)) => Some((r, k + m)),
                    None => None,
                }
            } else {
                match escape_at(s, i + 1) {
                    Some((b, k)) => match ml_basic_body(s, i + 1 + k) {
                        Some((r, m)) => Some((b + r, 1 + k + m)),
                        None => None,
                    },
                    None => None,
                }
            }
        } else if newline_len(s, i) > 0 {
            let n = newline_len(s, i);
            match ml_basic_body(s, i + n) {
                Some((r, m)) => Some((s.subrange(i, i + n) + r, n + m)),
                None => None,
            }
        } else if is_control(c) {
            None
        } else {
            match ml_basic_body(s, i + 1) {
                Some((r, m)) => Some((seq![c] + r, 1 + m)),
                None => None,
            }
        }
    }
}

/// The body of a multi-line literal string from `i`, after the opening
/// delimiter and the newline that may follow it.
pub open spec fn ml_literal_body(s: Seq<u8>, i: int) -> Option<(Seq<u8>, nat)>
    decreases s.len() - i,
{
    if !(0 <= i < s.len()) {
        None
    } else {
        let c = s[i];
        if triple_at(s, i, 0x27) {
            multiline_close(s, i, 0x27)
        } else if newline_len(s, i) > 0 {
            let n = newline_len(s, i);
            match ml_literal_body(s, i + n) {
                Some((r, m)) => Some((s.subrange(i, i + n) + r, n + m)),
                None => None,
            }
        } else if is_control(c) {
            None
        } else {
            match ml_literal_body(s, i + 1) {
                Some((r, m)) => Some((seq![c] + r, 1 + m)),
                None => None,
            }
        }
    }
}

/// The kinds of TOML strings.
#[derive(Clone, Copy, Debug, PartialEq, Eq, Structural)]
pub enum StringKind {
    Basic,
    Literal,
    MultilineBasic,
    MultilineLiteral,
}

/// The string starting at `i` (at its opening delimiter): its kind, its
/// decoded bytes and its length in bytes.
pub open spec fn string_at(s: Seq<u8>, i: int) -> Option<(StringKind, Seq<u8>, nat)> {
    if !(0 <= i < s.len()) {
        None
    } else if triple_at(s, i, 0x22) {
        let n = newline_len(s, i + 3);
        match ml_basic_body(s, i + 3 + n) {
            Some((b, m)) => Some((StringKind::MultilineBasic, b, 3 + n + m)),
            None => None,
        }
    } else if triple_at(s, i, 0x27) {
        let n = newline_len(s, i + 3);
        match ml_literal_body(s, i + 3 + n) {
            Some((b, m)) => Some((StringKind::MultilineLiteral, b, 3 + n + m)),
            None => None,
        }
    } else if s[i] == 0x22 {
        match basic_body(s, i + 1) {
            Some((b, m)) => Some((StringKind::Basic, b, 1 + m)),
            None => None,
        }
    } else if s[i] == 0x27 {
        match literal_body(s, i + 1) {
            Some((b, m)) => Some((StringKind::Literal, b, 1 + m)),
            None => None,
        }
    } else {
        None
    }
}

} // verus!

verus! {

/// `16` to the power `k`.
pub open spec fn pow16(k: nat) -> nat
    decreases k,
{
    if k == 0 {
        1
    } else {
        16 * pow16((k - 1) as nat)
    }
}

proof fn lemma_pow16_bound(k: nat)
    requires
        k <= 8,
    ensures
        1 <= pow16(k) <= 0x1_0000_0000,
    decreases k,
{
    reveal_with_fuel(pow16, 9);
    if k > 0 {
        lemma_pow16_bound((k - 1) as nat);
    }
}

/// Once a prefix of the digits is missing or not hexadecimal, so is every
/// longer run.
proof fn lemma_hex_number_none(s: Seq<u8>, i: int, k: nat, n: nat)
    requires
        k <= n,
        hex_number(s, i, k) is None,
    ensures
        hex_number(s, i, n) is None,
    decreases n - k,
{
    if k < n {
        lemma_hex_number_none(s, i, k, (n - 1) as nat);
    }
}

/// The value of `n` hexadecimal digits at `i`.
fn read_hex(s: &[u8], i: usize, n: usize) -> (res: Option<u32>)
    requires
        n <= 8,
    ensures
        res is Some <==> hex_number(s@, i as int, n as nat) is Some,
        res matches Some(v) ==> hex_number(s@, i as int, n as nat) == Some(v as int),
{
    let mut acc: u64 = 0;
    let mut k: usize = 0;
    proof {
        lemma_pow16_bound(0);
    }
    while k < n
        invariant
            k <= n <= 8,
            hex_number(s@, i as int, k as nat) == Some(acc as int),
            acc < pow16(k as nat),
            pow16(k as nat) <= 0x1_0000_0000,
        decreases n - k,
    {
        if i >= s.len() || s.len() - i <= k || !crate::scalar::radix_digit(s[i + k], 16) {
            proof {
                assert(hex_number(s@, i as int, (k + 1) as nat) is None);
                lemma_hex_number_none(s@, i as int, (k + 1) as nat, n as nat);
            }
            return None;
        }
        let d = hex_digit_value(s[i + k]) as u64;
        acc = acc * 16 + d;
        k = k + 1;
        proof {
            lemma_pow16_bound(k as nat);
        }
    }
    Some(acc as u32)
}

/// Appends the UTF-8 encoding of a Unicode scalar.
fn push_scalar(out: &mut Vec<u8>, v: u32)
    requires
        is_scalar(v),
    ensures
        final(out)@ == old(out)@ + encode_scalar(v),
{
    if v <= 0x7f {
        out.push((v & 0x7f) as u8);
    } else if v <= 0x7ff {
        out.push(0xC0 | ((v >> 6) & 0x1F) as u8);
        out.push(0x80 | (v & 0x3F) as u8);
    } else if v <= 0xffff {
        out.push(0xE0 | ((v >> 12) & 0x0F) as u8);
        out.push(0x80 | ((v >> 6) & 0x3F) as u8);
        out.push(0x80 | (v & 0x3F) as u8);
    } else {
        out.push(0xF0 | ((v >> 18) & 0x7) as u8);
        out.push(0x80 | ((v >> 12) & 0x3F) as u8);
        out.push(0x80 | ((v >> 6) & 0x3F) as u8);
        out.push(0x80 | (v & 0x3F) as u8);
    }
    assert(final(out)@ =~= old(out)@ + encode_scalar(v));
}

/// Whether `v` is a Unicode scalar value.
fn scalar_value(v: u32) -> (r: bool)
    ensures
        r == is_scalar(v),
{
    v <= 0xD7FF || (0xE000 <= v && v <= 0x10FFFF)
}

/// Decodes the escape whose letter is at `i`, appending its bytes; returns
/// how many bytes follow the backslash.
fn read_escape(s: &[u8], i: usize, out: &mut Vec<u8>) -> (res: Option<usize>)
    ensures
        res is Some <==> escape_at(s@, i as int) is Some,
        res matches Some(k) ==> ({
            let (b, kk) = escape_at(s@, i as int).unwrap();
            &&& k == kk
            &&& final(out)@ == old(out)@ + b
        }),
{
    if i >= s.len() {
        return None;
    }
    let c = s[i];
    let simple: u8 = if c == 0x62 {
        0x08
    } else if c == 0x74 {
        0x09
    } else if c == 0x6e {
        0x0a
    } else if c == 0x66 {
        0x0c
    } else if c == 0x72 {
        0x0d
    } else if c == 0x22 {
        0x22
    } else if c == 0x5c {
        0x5c
    } else {
        0
    };
    if simple != 0 {
        out.push(simple);
        assert(final(out)@ =~= old(out)@ + seq![simple]);
        return Some(1);
    }
    if c == 0x75 || c == 0x55 {
        let n: usize = if c == 0x75 { 4 } else { 8 };
        if i == usize::MAX {
            return None;
        }
        match read_hex(s, i + 1, n) {
            Some(v) => {
                if scalar_value(v) {
                    push_scalar(out, v);
                    Some(n + 1)
                } else {
                    None
                }
            },
            None => None,
        }
    } else {
        None
    }
}

} // verus!

verus! {

/// The body of a basic string from `start`: decoded bytes and length.
pub fn read_basic_body(s: &[u8], start: usize) -> (res: Option<(Vec<u8>, usize)>)
    requires
        start <= s@.len(),
    ensures
        res is Some <==> basic_body(s@, start as int) is Some,
        res matches Some((v, n)) ==> basic_body(s@, start as int) == Some((v@, n as nat)),
        res matches Some((v, n)) ==> start + n <= s@.len(),
{
    let mut out: Vec<u8> = Vec::new();
    let mut i = start;
    loop
        invariant
            start <= i <= s@.len(),
            basic_body(s@, start as int) == (match basic_body(s@, i as int) {
                Some((r, m)) => Some((out@ + r, (i - start + m) as nat)),
                None => None,
            }),
        decreases s@.len() - i,
    {
        if i >= s.len() {
            return None;
        }
        let c = s[i];
        if c == 0x22 {
            assert(out@ + seq![] =~= out@);
            return Some((out, i - start + 1));
        } else if c == 0x5c {
            let ghost before = out@;
            match read_escape(s, i + 1, &mut out) {
                Some(k) => {
                    proof {
                        let (b, _) = escape_at(s@, i + 1).unwrap();
                        match basic_body(s@, i + 1 + k) {
                            Some((r, m)) => {
                                assert(before + (b + r) =~= out@ + r);
                            },
                            None => {},
                        }
                    }
                    if k >= s.len() - i {
                        proof {
                            assert(basic_body(s@, i + 1 + k) is None);
                        }
                        return None;
                    }
                    i = i + 1 + k;
                },
                None => {
                    return None;
                },
            }
        } else if (c < 0x20 && c != 0x09) || c == 0x7f {
            return None;
        } else {
            proof {
                match basic_body(s@, i + 1) {
                    Some((r, m)) => {
                        assert(out@ + (seq![c] + r) =~= out@.push(c) + r);
                    },
                    None => {},
                }
            }
            out.push(c);
            i = i + 1;
        }
    }
}

/// The body of a literal string from `start`: its bytes and length.
pub fn read_literal_body(s: &[u8], start: usize) -> (res: Option<(Vec<u8>, usize)>)
    requires
        start <= s@.len(),
    ensures
        res is Some <==> literal_body(s@, start as int) is Some,
        res matches Some((v, n)) ==> literal_body(s@, start as int) == Some((v@, n as nat)),
        res matches Some((v, n)) ==> start + n <= s@.len(),
{
    let mut out: Vec<u8> = Vec::new();
    let mut i = start;
    loop
        invariant
            start <= i <= s@.len(),
            literal_body(s@, start as int) == (match literal_body(s@, i as int) {
                Some((r, m)) => Some((out@ + r, (i - start + m) as nat)),
                None => None,
            }),
        decreases s@.len() - i,
    {
        if i >= s.len() {
            return None;
        }
        let c = s[i];
        if c == 0x27 {
            assert(out@ + seq![] =~= out@);
            return Some((out, i - start + 1));
        } else if (c < 0x20 && c != 0x09) || c == 0x7f {
            return None;
        } else {
            proof {
                match literal_body(s@, i + 1) {
                    Some((r, m)) => {
                        assert(out@ + (seq![c] + r) =~= out@.push(c) + r);
                    },
                    None => {},
                }
            }
            out.push(c);
            i = i + 1;
        }
    }
}

} // verus!

verus! {

/// The number of spaces and tabs from `i` on.
pub fn count_ws(s: &[u8], i: usize) -> (n: usize)
    requires
        i <= s@.len(),
    ensures
        n == ws_len(s@, i as int),
        i + n <= s@.len(),
{
    let mut j = i;
    while j < s.len() && (s[j] == 0x20 || s[j] == 0x09)
        invariant
            i <= j <= s@.len(),
            ws_len(s@, i as int) == (j - i) + ws_len(s@, j as int),
        decreases s@.len() - j,
    {
        j = j + 1;
    }
    j - i
}

/// The length of the newline at `i`, or 0.
pub fn newline_at(s: &[u8], i: usize) -> (n: usize)
    ensures
        n == newline_len(s@, i as int),
        n > 0 ==> i + n <= s@.len(),
{
    if i < s.len() && s[i] == 0x0a {
        1
    } else if i < s.len() && s.len() - i > 1 && s[i] == 0x0d && s[i + 1] == 0x0a {
        2
    } else {
        0
    }
}

/// The number of spaces, tabs and newline bytes from `i` on.
pub fn count_ws_newline(s: &[u8], i: usize) -> (n: usize)
    requires
        i <= s@.len(),
    ensures
        n == ws_newline_len(s@, i as int),
        i + n <= s@.len(),
{
    let mut j = i;
    loop
        invariant
            i <= j <= s@.len(),
            ws_newline_len(s@, i as int) == (j - i) + ws_newline_len(s@, j as int),
        decreases s@.len() - j,
    {
        if j < s.len() && (s[j] == 0x20 || s[j] == 0x09) {
            j = j + 1;
        } else {
            let n = newline_at(s, j);
            if n == 0 {
                return j - i;
            }
            j = j + n;
        }
    }
}

/// Whether three copies of `q` start at `i`.
pub fn triple(s: &[u8], i: usize, q: u8) -> (r: bool)
    ensures
        r == triple_at(s@, i as int, q),
{
    i < s.len() && s.len() - i > 2 && s[i] == q && s[i + 1] == q && s[i + 2] == q
}

/// The closing run of a multi-line string at `i` (where three delimiters
/// start): appends the delimiters that belong to the content.
fn close_multiline(s: &[u8], i: usize, q: u8, out: &mut Vec<u8>) -> (res: Option<usize>)
    requires
        triple_at(s@, i as int, q),
    ensures
        res is Some <==> multiline_close(s@, i as int, q) is Some,
        res matches Some(k) ==> i + k <= s@.len(),
        res matches Some(k) ==> ({
            let (b, kk) = multiline_close(s@, i as int, q).unwrap();
            &&& k == kk
            &&& final(out)@ == old(out)@ + b
        }),
{
    if s.len() - i > 3 && s[i + 3] == q {
        if s.len() - i > 4 && s[i + 4] == q {
            if s.len() - i > 5 && s[i + 5] == q {
                None
            } else {
                out.push(q);
                out.push(q);
                assert(final(out)@ =~= old(out)@ + seq![q, q]);
                Some(5)
            }
        } else {
            out.push(q);
            assert(final(out)@ =~= old(out)@ + seq![q]);
            Some(4)
        }
    } else {
        assert(old(out)@ + seq![] =~= old(out)@);
        Some(3)
    }
}

/// The body of a multi-line basic string from `start`.
#[verifier::rlimit(40)]
pub fn read_ml_basic_body(s: &[u8], start: usize) -> (res: Option<(Vec<u8>, usize)>)
    requires
        start <= s@.len(),
    ensures
        res is Some <==> ml_basic_body(s@, start as int) is Some,
        res matches Some((v, n)) ==> ml_basic_body(s@, start as int) == Some((v@, n as nat)),
        res matches Some((v, n)) ==> start + n <= s@.len(),
{
    let mut out: Vec<u8> = Vec::new();
    let mut i = start;
    loop
        invariant
            start <= i <= s@.len(),
            ml_basic_body(s@, start as int) == (match ml_basic_body(s@, i as int) {
                Some((r, m)) => Some((out@ + r, (i - start + m) as nat)),
                None => None,
            }),
        decreases s@.len() - i,
    {
        if i >= s.len() {
            return None;
        }
        let c = s[i];
        if triple(s, i, 0x22) {
            let ghost before = out@;
            match close_multiline(s, i, 0x22, &mut out) {
                Some(k) => {
                    return Some((out, i - start + k));
                },
                None => {
                    return None;
                },
            }
        } else if c == 0x5c {
            let w = count_ws(s, i + 1);
            let nl = newline_at(s, i + 1 + w);
            if nl > 0 {
                let rest = count_ws_newline(s, i + 1 + w);
                proof {
                    match ml_basic_body(s@, i + 1 + w + rest) {
                        Some((r, m)) => {},
                        None => {},
                    }
                }
                i = i + 1 + w + rest;
            } else {
                let ghost before = out@;
                match read_escape(s, i + 1, &mut out) {
                    Some(k) => {
                        proof {
                            let (b, _) = escape_at(s@, i + 1).unwrap();
                            match ml_basic_body(s@, i + 1 + k) {
                                Some((r, m)) => {
                                    assert(before + (b + r) =~= out@ + r);
                                },
                                None => {},
                            }
                        }
                        if k >= s.len() - i {
                            proof {
                                assert(ml_basic_body(s@, i + 1 + k) is None);
                            }
                            return None;
                        }
                        i = i + 1 + k;
                    },
                    None => {
                        return None;
                    },
                }
            }
        } else {
            let nl = newline_at(s, i);
            if nl > 0 {
                proof {
                    match ml_basic_body(s@, i + nl) {
                        Some((r, m)) => {
                            assert(out@ + (s@.subrange(i as int, i + nl) + r) =~= (out@
                                + s@.subrange(i as int, i + nl)) + r);
                        },
                        None => {},
                    }
                }
                let ghost before = out@;
                out.push(s[i]);
                if nl == 2 {
                    out.push(s[i + 1]);
                }
                assert(out@ =~= before + s@.subrange(i as int, i + nl));
                i = i + nl;
            } else if (c < 0x20 && c != 0x09) || c == 0x7f {
                return None;
            } else {
                proof {
                    match ml_basic_body(s@, i + 1) {
                        Some((r, m)) => {
                            assert(out@ + (seq![c] + r) =~= out@.push(c) + r);
                        },
                        None => {},
                    }
                }
                out.push(c);
                i = i + 1;
            }
        }
    }
}

/// The body of a multi-line literal string from `start`.
pub fn read_ml_literal_body(s: &[u8], start: usize) -> (res: Option<(Vec<u8>, usize)>)
    requires
        start <= s@.len(),
    ensures
        res is Some <==> ml_literal_body(s@, start as int) is Some,
        res matches Some((v, n)) ==> ml_literal_body(s@, start as int) == Some((v@, n as nat)),
        res matches Some((v, n)) ==> start + n <= s@.len(),
{
    let mut out: Vec<u8> = Vec::new();
    let mut i = start;
    loop
        invariant
            start <= i <= s@.len(),
            ml_literal_body(s@, start as int) == (match ml_literal_body(s@, i as int) {
                Some((r, m)) => Some((out@ + r, (i - start + m) as nat)),
                None => None,
            }),
        decreases s@.len() - i,
    {
        if i >= s.len() {
            return None;
        }
        let c = s[i];
        if triple(s, i, 0x27) {
            match close_multiline(s, i, 0x27, &mut out) {
                Some(k) => {
                    return Some((out, i - start + k));
                },
                None => {
                    return None;
                },
            }
        } else {
            let nl = newline_at(s, i);
            if nl > 0 {
                proof {
                    match ml_literal_body(s@, i + nl) {
                        Some((r, m)) => {
                            assert(out@ + (s@.subrange(i as int, i + nl) + r) =~= (out@
                                + s@.subrange(i as int, i + nl)) + r);
                        },
                        None => {},
                    }
                }
                let ghost before = out@;
                out.push(s[i]);
                if nl == 2 {
                    out.push(s[i + 1]);
                }
                assert(out@ =~= before + s@.subrange(i as int, i + nl));
                i = i + nl;
            } else if (c < 0x20 && c != 0x09) || c == 0x7f {
                return None;
            } else {
                proof {
                    match ml_literal_body(s@, i + 1) {
                        Some((r, m)) => {
                            assert(out@ + (seq![c] + r) =~= out@.push(c) + r);
                        },
                        None => {},
                    }
                }
                out.push(c);
                i = i + 1;
            }
        }
    }
}

/// Reads the string whose opening delimiter is at `i`.
pub fn read_string(s: &[u8], i: usize) -> (res: Option<(StringKind, Vec<u8>, usize)>)
    requires
        i <= s@.len(),
    ensures
        res is Some <==> string_at(s@, i as int) is Some,
        res matches Some((k, v, n)) ==> string_at(s@, i as int) == Some((k, v@, n as nat)),
        res matches Some((k, v, n)) ==> i + n <= s@.len(),
{
    if i >= s.len() {
        return None;
    }
    if triple(s, i, 0x22) {
        let n = newline_at(s, i + 3);
        match read_ml_basic_body(s, i + 3 + n) {
            Some((b, m)) => Some((StringKind::MultilineBasic, b, 3 + n + m)),
            None => None,
        }
    } else if triple(s, i, 0x27) {
        let n = newline_at(s, i + 3);
        match read_ml_literal_body(s, i + 3 + n) {
            Some((b, m)) => Some((StringKind::MultilineLiteral, b, 3 + n + m)),
            None => None,
        }
    } else if s[i] == 0x22 {
        match read_basic_body(s, i + 1) {
            Some((b, m)) => Some((StringKind::Basic, b, 1 + m)),
            None => None,
        }
    } else if s[i] == 0x27 {
        match read_literal_body(s, i + 1) {
            Some((b, m)) => Some((StringKind::Literal, b, 1 + m)),
            None => None,
        }
    } else {
        None
    }
}

} // verus!
