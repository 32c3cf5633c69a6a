//! Bare scalar tokens: booleans, integers, floats and datetimes.
use vstd::prelude::*;
use crate::integer::TomlInteger;

verus! {

/// An ASCII decimal digit.
pub open spec fn is_digit(b: u8) -> bool {
    0x30 <= b <= 0x39
}

/// An ASCII hexadecimal digit.
pub open spec fn is_hex(b: u8) -> bool {
    is_digit(b) || (0x61 <= b <= 0x66) || (0x41 <= b <= 0x46)
}

/// The value of a hexadecimal digit.
pub open spec fn hex_value(b: u8) -> u8 {
    if is_digit(b) {
        (b - 0x30) as u8
    } else if 0x61 <= b <= 0x66 {
        (b - 0x57) as u8
    } else {
        (b - 0x37) as u8
    }
}

/// A digit of the given radix.
pub open spec fn is_radix_digit(b: u8, radix: int) -> bool {
    is_hex(b) && hex_value(b) < radix
}

/// A byte that can be part of a bare scalar token.
pub open spec fn is_token_byte(b: u8) -> bool {
    is_digit(b) || (0x61 <= b <= 0x7a) || (0x41 <= b <= 0x5a) || b == 0x5f || b == 0x2b
        || b == 0x2d || b == 0x2e || b == 0x3a
}

/// Digits of `radix`, with single underscores allowed between two digits.
pub open spec fn valid_digit_run(t: Seq<u8>, radix: int) -> bool {
    &&& t.len() > 0
    &&& is_radix_digit(t[0], radix)
    &&& forall|k: int|
        0 <= k < t.len() ==> #[trigger] is_radix_digit(t[k], radix) || (t[k] == 0x5f && k + 1
            < t.len() && is_radix_digit(t[k + 1], radix))
}

/// The digit values of a run, underscores dropped.
pub open spec fn run_digits(t: Seq<u8>) -> Seq<u8>
    decreases t.len(),
{
    if t.len() == 0 {
        seq![]
    } else if t.last() == 0x5f {
        run_digits(t.drop_last())
    } else {
        run_digits(t.drop_last()).push(hex_value(t.last()))
    }
}

/// The bytes of a run without its underscores.
pub open spec fn without_underscores(t: Seq<u8>) -> Seq<u8>
    decreases t.len(),
{
    if t.len() == 0 {
        seq![]
    } else if t.last() == 0x5f {
        without_underscores(t.drop_last())
    } else {
        without_underscores(t.drop_last()).push(t.last())
    }
}

/// A decimal run without a superfluous leading zero.
pub open spec fn valid_dec_int(t: Seq<u8>) -> bool {
    valid_digit_run(t, 10) && (t[0] != 0x30 || t.len() == 1)
}

/// The radix announced by a `0x`, `0o` or `0b` prefix.
pub open spec fn prefix_radix(t: Seq<u8>) -> Option<u32> {
    if t.len() >= 2 && t[0] == 0x30 {
        if t[1] == 0x78 {
            Some(16)
        } else if t[1] == 0x6f {
            Some(8)
        } else if t[1] == 0x62 {
            Some(2)
        } else {
            None
        }
    } else {
        None
    }
}

/// The part of a token after an optional sign, and whether the sign was `-`.
pub open spec fn split_sign(t: Seq<u8>) -> (bool, Seq<u8>) {
    if t.len() > 0 && t[0] == 0x2d {
        (true, t.subrange(1, t.len() as int))
    } else if t.len() > 0 && t[0] == 0x2b {
        (false, t.subrange(1, t.len() as int))
    } else {
        (false, t)
    }
}

/// A TOML integer literal: its sign, radix and digit values.
pub open spec fn integer_literal(t: Seq<u8>) -> Option<(bool, u32, Seq<u8>)> {
    match prefix_radix(t) {
        Some(radix) => {
            let rest = t.subrange(2, t.len() as int);
            if valid_digit_run(rest, radix as int) {
                Some((false, radix, run_digits(rest)))
            } else {
                None
            }
        },
        None => {
            let (neg, u) = split_sign(t);
            if valid_dec_int(u) {
                Some((neg, 10, run_digits(u)))
            } else {
                None
            }
        },
    }
}

/// The number of digits and underscores from `i` on.
pub open spec fn digit_run_len(t: Seq<u8>, i: int) -> nat
    decreases t.len() - i,
{
    if 0 <= i < t.len() && (is_digit(t[i]) || t[i] == 0x5f) {
        1 + digit_run_len(t, i + 1)
    } else {
        0
    }
}

/// An exponent: `e` or `E`, an optional sign, then decimal digits.
pub open spec fn valid_exponent(t: Seq<u8>) -> bool {
    t.len() > 0 && (t[0] == 0x65 || t[0] == 0x45) && {
        let (_neg, d) = split_sign(t.subrange(1, t.len() as int));
        valid_digit_run(d, 10)
    }
}

/// The words `inf` and `nan`.
pub open spec fn is_special_float(u: Seq<u8>) -> bool {
    u =~= seq![0x69u8, 0x6eu8, 0x66u8] || u =~= seq![0x6eu8, 0x61u8, 0x6eu8]
}

/// A TOML float literal: an integer part followed by a fraction, an
/// exponent or both, or `inf` / `nan`, each with an optional sign.
pub open spec fn float_literal(t: Seq<u8>) -> bool {
    let u = split_sign(t).1;
    let p = digit_run_len(u, 0) as int;
    let int_part = u.subrange(0, p);
    let rest = u.subrange(p, u.len() as int);
    if is_special_float(u) {
        true
    } else if !valid_dec_int(int_part) || rest.len() == 0 {
        false
    } else if rest[0] == 0x2e {
        let q = 1 + digit_run_len(rest, 1) as int;
        let frac = rest.subrange(1, q);
        let after = rest.subrange(q, rest.len() as int);
        valid_digit_run(frac, 10) && (after.len() == 0 || valid_exponent(after))
    } else {
        valid_exponent(rest)
    }
}

/// The bytes `true`.
pub open spec fn true_word() -> Seq<u8> {
    seq![0x74u8, 0x72u8, 0x75u8, 0x65u8]
}

/// The bytes `false`.
pub open spec fn false_word() -> Seq<u8> {
    seq![0x66u8, 0x61u8, 0x6cu8, 0x73u8, 0x65u8]
}

/// The number of token bytes from `i` on.
pub open spec fn token_run_len(s: Seq<u8>, i: int) -> nat
    decreases s.len() - i,
{
    if 0 <= i < s.len() && is_token_byte(s[i]) {
        1 + token_run_len(s, i + 1)
    } else {
        0
    }
}

/// A full date `YYYY-MM-DD` starting at `i`.
pub open spec fn is_full_date_at(s: Seq<u8>, i: int) -> bool {
    &&& 0 <= i
    &&& i + 10 <= s.len()
    &&& is_digit(s[i]) && is_digit(s[i + 1]) && is_digit(s[i + 2]) && is_digit(s[i + 3])
    &&& s[i + 4] == 0x2d
    &&& is_digit(s[i + 5]) && is_digit(s[i + 6])
    &&& s[i + 7] == 0x2d
    &&& is_digit(s[i + 8]) && is_digit(s[i + 9])
}

/// The length of the bare scalar token at `i`: a run of token bytes, where
/// a date followed by a space and a digit continues with the time.
pub open spec fn scalar_token_len(s: Seq<u8>, i: int) -> nat {
    let n = token_run_len(s, i);
    if n == 10 && is_full_date_at(s, i) && i + 11 < s.len() && s[i + 10] == 0x20 && is_digit(
        s[i + 11],
    ) {
        11 + token_run_len(s, i + 11)
    } else {
        n
    }
}

} // verus!

verus! {

/// Whether `b` is a decimal digit.
pub fn digit(b: u8) -> (r: bool)
    ensures
        r == is_digit(b),
{
    0x30 <= b && b <= 0x39
}

/// Whether `b` is a digit of `radix`.
pub fn radix_digit(b: u8, radix: u32) -> (r: bool)
    ensures
        r == is_radix_digit(b, radix as int),
{
    if 0x30 <= b && b <= 0x39 {
        ((b - 0x30) as u32) < radix
    } else if 0x61 <= b && b <= 0x66 {
        ((b - 0x57) as u32) < radix
    } else if 0x41 <= b && b <= 0x46 {
        ((b - 0x37) as u32) < radix
    } else {
        false
    }
}

/// The value of a hexadecimal digit.
pub fn hex_digit_value(b: u8) -> (r: u8)
    requires
        is_hex(b),
    ensures
        r == hex_value(b),
{
    if 0x30 <= b && b <= 0x39 {
        b - 0x30
    } else if 0x61 <= b && b <= 0x66 {
        b - 0x57
    } else {
        b - 0x37
    }
}

/// Checks that `t[lo..hi]` is a digit run of `radix` and returns its digit
/// values.
pub fn digit_run(t: &[u8], lo: usize, hi: usize, radix: u32) -> (res: Option<Vec<u8>>)
    requires
        lo <= hi <= t@.len(),
    ensures
        res is Some <==> valid_digit_run(t@.subrange(lo as int, hi as int), radix as int),
        res matches Some(v) ==> v@ == run_digits(t@.subrange(lo as int, hi as int)),
{
    let ghost sub = t@.subrange(lo as int, hi as int);
    if lo == hi || !radix_digit(t[lo], radix) {
        return None;
    }
    let mut v: Vec<u8> = Vec::new();
    let mut i = lo;
    while i < hi
        invariant
            lo <= i <= hi <= t@.len(),
            sub == t@.subrange(lo as int, hi as int),
            lo < hi,
            is_radix_digit(t@[lo as int], radix as int),
            forall|k: int|
                #![trigger t@[k]]
                lo <= k < i ==> is_radix_digit(t@[k], radix as int) || (t@[k] == 0x5f && k + 1 < hi
                    && is_radix_digit(t@[k + 1], radix as int)),
            v@ == run_digits(t@.subrange(lo as int, i as int)),
        decreases hi - i,
    {
        let b = t[i];
        proof {
            assert(t@.subrange(lo as int, i + 1).drop_last() =~= t@.subrange(lo as int, i as int));
        }
        if radix_digit(b, radix) {
            v.push(hex_digit_value(b));
        } else if b == 0x5f && i + 1 < hi && radix_digit(t[i + 1], radix) {
        } else {
            proof {
                assert(!(is_radix_digit(sub[i - lo], radix as int) || (sub[i - lo] == 0x5f && (i - lo)
                    + 1 < sub.len() && is_radix_digit(sub[i - lo + 1], radix as int))));
            }
            return None;
        }
        i = i + 1;
    }
    proof {
        assert(t@.subrange(lo as int, i as int) =~= sub);
        assert forall|k: int|
            0 <= k < sub.len() implies #[trigger] is_radix_digit(sub[k], radix as int) || (sub[k]
            == 0x5f && k + 1 < sub.len() && is_radix_digit(sub[k + 1], radix as int)) by {
            assert(sub[k] == t@[lo + k]);
        }
    }
    Some(v)
}

/// The bytes of `t[lo..hi]` without underscores.
pub fn strip_underscores(t: &[u8], lo: usize, hi: usize) -> (res: Vec<u8>)
    requires
        lo <= hi <= t@.len(),
    ensures
        res@ == without_underscores(t@.subrange(lo as int, hi as int)),
{
    let mut v: Vec<u8> = Vec::new();
    let mut i = lo;
    while i < hi
        invariant
            lo <= i <= hi <= t@.len(),
            v@ == without_underscores(t@.subrange(lo as int, i as int)),
        decreases hi - i,
    {
        proof {
            assert(t@.subrange(lo as int, i + 1).drop_last() =~= t@.subrange(lo as int, i as int));
        }
        if t[i] != 0x5f {
            v.push(t[i]);
        }
        i = i + 1;
    }
    v
}

/// The number of digits and underscores in `t` from `i` on.
pub fn count_digit_run(t: &[u8], i: usize) -> (n: usize)
    requires
        i <= t@.len(),
    ensures
        n == digit_run_len(t@, i as int),
        i + n <= t@.len(),
{
    let mut j: usize = i;
    while j < t.len() && (digit(t[j]) || t[j] == 0x5f)
        invariant
            i <= j <= t@.len(),
            digit_run_len(t@, i as int) == (j - i) + digit_run_len(t@, j as int),
        decreases t@.len() - j,
    {
        j = j + 1;
    }
    j - i
}

} // verus!

verus! {

/// A copy of `t[lo..hi]`.
pub fn copy_range(t: &[u8], lo: usize, hi: usize) -> (res: Vec<u8>)
    requires
        lo <= hi <= t@.len(),
    ensures
        res@ == t@.subrange(lo as int, hi as int),
{
    let mut v: Vec<u8> = Vec::new();
    let mut i = lo;
    while i < hi
        invariant
            lo <= i <= hi <= t@.len(),
            v@ == t@.subrange(lo as int, i as int),
        decreases hi - i,
    {
        v.push(t[i]);
        i = i + 1;
        proof {
            assert(v@ =~= t@.subrange(lo as int, i as int));
        }
    }
    v
}

/// Drops an optional leading sign; says whether it was `-`.
pub fn strip_sign(t: &[u8]) -> (res: (bool, Vec<u8>))
    ensures
        res.0 == split_sign(t@).0,
        res.1@ == split_sign(t@).1,
{
    if t.len() > 0 && t[0] == 0x2d {
        (true, copy_range(t, 1, t.len()))
    } else if t.len() > 0 && t[0] == 0x2b {
        (false, copy_range(t, 1, t.len()))
    } else {
        (false, copy_range(t, 0, t.len()))
    }
}

/// Digits of a run that holds only digits of `radix` and underscores are
/// below `radix`.
pub proof fn lemma_run_digits_bound(t: Seq<u8>, radix: int)
    requires
        forall|k: int| 0 <= k < t.len() ==> #[trigger] is_radix_digit(t[k], radix) || t[k] == 0x5f,
    ensures
        forall|j: int| 0 <= j < run_digits(t).len() ==> #[trigger] run_digits(t)[j] < radix,
    decreases t.len(),
{
    if t.len() > 0 {
        let p = t.drop_last();
        assert forall|k: int| 0 <= k < p.len() implies #[trigger] is_radix_digit(p[k], radix) || p[k]
            == 0x5f by {
            assert(p[k] == t[k]);
        }
        lemma_run_digits_bound(p, radix);
        assert(is_radix_digit(t[t.len() - 1], radix) || t[t.len() - 1] == 0x5f);
        let r = run_digits(t);
        assert forall|j: int| 0 <= j < r.len() implies #[trigger] r[j] < radix by {
            if j < run_digits(p).len() {
                assert(r[j] == run_digits(p)[j]);
            }
        }
    }
}

/// Every byte of a valid run is a digit or an underscore.
pub proof fn lemma_valid_run_bytes(t: Seq<u8>, radix: int)
    requires
        valid_digit_run(t, radix),
    ensures
        forall|k: int| 0 <= k < t.len() ==> #[trigger] is_radix_digit(t[k], radix) || t[k] == 0x5f,
{
    assert forall|k: int| 0 <= k < t.len() implies #[trigger] is_radix_digit(t[k], radix) || t[k]
        == 0x5f by {
        assert(is_radix_digit(t[k], radix) || (t[k] == 0x5f && k + 1 < t.len() && is_radix_digit(
            t[k + 1],
            radix,
        )));
    }
}

} // verus!

verus! {

/// Reads an integer literal.
pub fn parse_integer(t: &[u8]) -> (res: Option<TomlInteger>)
    ensures
        res is Some <==> integer_literal(t@) is Some,
        res matches Some(x) ==> {
            &&& x.wf()
            &&& integer_literal(t@) == Some((x.negative, x.radix, x.digits@))
        },
{
    let n = t.len();
    if n >= 2 && t[0] == 0x30 && (t[1] == 0x78 || t[1] == 0x6f || t[1] == 0x62) {
        let radix: u32 = if t[1] == 0x78 {
            16
        } else if t[1] == 0x6f {
            8
        } else {
            2
        };
        match digit_run(t, 2, n, radix) {
            Some(d) => {
                proof {
                    lemma_valid_run_bytes(t@.subrange(2, n as int), radix as int);
                    lemma_run_digits_bound(t@.subrange(2, n as int), radix as int);
                }
                Some(TomlInteger { negative: false, radix, digits: d })
            },
            None => None,
        }
    } else {
        let (neg, u) = strip_sign(t);
        let m = u.len();
        proof {
            assert(u@.subrange(0, m as int) =~= u@);
        }
        match digit_run(u.as_slice(), 0, m, 10) {
            Some(d) => {
                if u[0] == 0x30 && m != 1 {
                    None
                } else {
                    proof {
                        lemma_valid_run_bytes(u@, 10);
                        lemma_run_digits_bound(u@, 10);
                    }
                    Some(TomlInteger { negative: neg, radix: 10, digits: d })
                }
            },
            None => None,
        }
    }
}

/// Whether `d` is decimal digits with single underscores between digits.
fn is_dec_run(d: &[u8]) -> (r: bool)
    ensures
        r == valid_digit_run(d@, 10),
{
    proof {
        assert(d@.subrange(0, d@.len() as int) =~= d@);
    }
    digit_run(d, 0, d.len(), 10).is_some()
}

/// Whether `a` is an exponent part.
fn is_exponent(a: &[u8]) -> (r: bool)
    ensures
        r == valid_exponent(a@),
{
    if a.len() == 0 || !(a[0] == 0x65 || a[0] == 0x45) {
        return false;
    }
    let tail = copy_range(a, 1, a.len());
    let (_neg, d) = strip_sign(tail.as_slice());
    is_dec_run(d.as_slice())
}

/// Whether `t` is a float literal.
pub fn is_float_literal(t: &[u8]) -> (r: bool)
    ensures
        r == float_literal(t@),
{
    let (_neg, u) = strip_sign(t);
    let m = u.len();
    if m == 3 && ((u[0] == 0x69 && u[1] == 0x6e && u[2] == 0x66) || (u[0] == 0x6e && u[1] == 0x61
        && u[2] == 0x6e)) {
        return true;
    }
    proof {
        if is_special_float(u@) {
            assert(u@.len() == 3);
        }
    }
    let p = count_digit_run(u.as_slice(), 0);
    let int_part = copy_range(u.as_slice(), 0, p);
    let rest = copy_range(u.as_slice(), p, m);
    let ip_ok = is_dec_run(int_part.as_slice()) && (int_part[0] != 0x30 || int_part.len() == 1);
    if !ip_ok || rest.len() == 0 {
        return false;
    }
    if rest[0] == 0x2e {
        let q = 1 + count_digit_run(rest.as_slice(), 1);
        let frac = copy_range(rest.as_slice(), 1, q);
        let after = copy_range(rest.as_slice(), q, rest.len());
        is_dec_run(frac.as_slice()) && (after.len() == 0 || is_exponent(after.as_slice()))
    } else {
        is_exponent(rest.as_slice())
    }
}

/// Whether `b` can be part of a bare scalar token.
pub fn token_byte(b: u8) -> (r: bool)
    ensures
        r == is_token_byte(b),
{
    (0x30 <= b && b <= 0x39) || (0x61 <= b && b <= 0x7a) || (0x41 <= b && b <= 0x5a) || b == 0x5f
        || b == 0x2b || b == 0x2d || b == 0x2e || b == 0x3a
}

/// The number of token bytes in `s` from `i` on.
pub fn count_token_run(s: &[u8], i: usize) -> (n: usize)
    requires
        i <= s@.len(),
    ensures
        n == token_run_len(s@, i as int),
        i + n <= s@.len(),
{
    let mut j: usize = i;
    while j < s.len() && token_byte(s[j])
        invariant
            i <= j <= s@.len(),
            token_run_len(s@, i as int) == (j - i) + token_run_len(s@, j as int),
        decreases s@.len() - j,
    {
        j = j + 1;
    }
    j - i
}

/// The length of the bare scalar token at `i`.
pub fn scalar_token_length(s: &[u8], i: usize) -> (n: usize)
    requires
        i <= s@.len(),
    ensures
        n == scalar_token_len(s@, i as int),
        i + n <= s@.len(),
{
    let n = count_token_run(s, i);
    if n == 10 && s.len() - i > 11 && digit(s[i]) && digit(s[i + 1]) && digit(s[i + 2]) && digit(
        s[i + 3],
    ) && s[i + 4] == 0x2d && digit(s[i + 5]) && digit(s[i + 6]) && s[i + 7] == 0x2d && digit(
        s[i + 8],
    ) && digit(s[i + 9]) && s[i + 10] == 0x20 && digit(s[i + 11]) {
        11 + count_token_run(s, i + 11)
    } else {
        n
    }
}

} // verus!
