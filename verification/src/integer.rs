//! TOML integer literals and their conversion to machine integers.
use vstd::prelude::*;

verus! {

/// The value of a sequence of digits (most significant first) in `radix`.
pub open spec fn digits_value(digits: Seq<u8>, radix: int) -> int
    decreases digits.len(),
{
    if digits.len() == 0 {
        0
    } else {
        digits_value(digits.drop_last(), radix) * radix + digits.last()
    }
}

/// Appending digits never lowers the value.
pub proof fn lemma_digits_value_prefix(digits: Seq<u8>, radix: int, i: int, j: int)
    requires
        radix >= 1,
        0 <= i <= j <= digits.len(),
    ensures
        0 <= digits_value(digits.take(i), radix) <= digits_value(digits.take(j), radix),
    decreases j - i,
{
    lemma_digits_value_nonneg(digits.take(i), radix);
    if i < j {
        lemma_digits_value_prefix(digits, radix, i, j - 1);
        let p = digits.take(j - 1);
        let q = digits.take(j);
        assert(q.drop_last() =~= p);
        lemma_digits_value_nonneg(p, radix);
        let x = digits_value(p, radix);
        assert(x * radix >= x) by (nonlinear_arith)
            requires
                x >= 0,
                radix >= 1,
        ;
    }
}

/// The value of digits is never negative.
pub proof fn lemma_digits_value_nonneg(digits: Seq<u8>, radix: int)
    requires
        radix >= 1,
    ensures
        digits_value(digits, radix) >= 0,
    decreases digits.len(),
{
    if digits.len() > 0 {
        lemma_digits_value_nonneg(digits.drop_last(), radix);
        let x = digits_value(digits.drop_last(), radix);
        assert(x * radix >= 0) by (nonlinear_arith)
            requires
                x >= 0,
                radix >= 1,
        ;
    }
}

/// An integer literal: its sign, its radix, and its digit values (most
/// significant first, underscores and prefix removed).
#[derive(Debug)]
pub struct TomlInteger {
    /// Whether the literal was written with a leading `-`.
    pub negative: bool,
    /// 2, 8, 10 or 16.
    pub radix: u32,
    /// The digit values, each below `radix`.
    pub digits: Vec<u8>,
}

impl TomlInteger {
    /// The radix is one of TOML's and every digit is below it.
    pub open spec fn wf(&self) -> bool {
        &&& 2 <= self.radix <= 16
        &&& forall|i: int| 0 <= i < self.digits@.len() ==> self.digits@[i] < self.radix
    }

    /// The magnitude of the literal.
    pub open spec fn magnitude_value(&self) -> int {
        digits_value(self.digits@, self.radix as int)
    }

    /// The mathematical value of the literal.
    pub open spec fn value(&self) -> int {
        if self.negative {
            -self.magnitude_value()
        } else {
            self.magnitude_value()
        }
    }

    /// The magnitude as a `u128`, when it fits.
    pub fn magnitude(&self) -> (res: Option<u128>)
        requires
            self.wf(),
        ensures
            res == (if self.magnitude_value() <= u128::MAX {
                Some(self.magnitude_value() as u128)
            } else {
                None
            }),
    {
        let radix = self.radix as u128;
        let n = self.digits.len();
        let mut acc: u128 = 0;
        let mut i: usize = 0;
        while i < n
            invariant
                n == self.digits@.len(),
                radix == self.radix as u128,
                self.wf(),
                i <= n,
                acc == digits_value(self.digits@.take(i as int), radix as int),
            decreases n - i,
        {
            proof {
                assert(self.digits@.take(i + 1).drop_last() =~= self.digits@.take(i as int));
            }
            let d = self.digits[i] as u128;
            let next = match acc.checked_mul(radix) {
                Some(m) => m.checked_add(d),
                None => None,
            };
            match next {
                Some(v) => {
                    acc = v;
                    i = i + 1;
                },
                None => {
                    proof {
                        lemma_digits_value_prefix(self.digits@, radix as int, i + 1, n as int);
                        assert(self.digits@.take(n as int) =~= self.digits@);
                        assert(acc * radix >= 0) by (nonlinear_arith)
                            requires
                                acc >= 0,
                                radix >= 0,
                        ;
                    }
                    return None;
                },
            }
        }
        proof {
            assert(self.digits@.take(n as int) =~= self.digits@);
        }
        Some(acc)
    }

    /// The value as an `i64`, when it is in range.
    pub fn to_i64(&self) -> (res: Option<i64>)
        requires
            self.wf(),
        ensures
            res == (if i64::MIN <= self.value() <= i64::MAX {
                Some(self.value() as i64)
            } else {
                None
            }),
    {
        proof {
            lemma_digits_value_nonneg(self.digits@, self.radix as int);
        }
        match self.magnitude() {
            None => None,
            Some(m) => {
                if self.negative {
                    if m <= 0x8000_0000_0000_0000u128 {
                        Some((0i128 - m as i128) as i64)
                    } else {
                        None
                    }
                } else {
                    if m <= 0x7fff_ffff_ffff_ffffu128 {
                        Some(m as i64)
                    } else {
                        None
                    }
                }
            },
        }
    }

    /// The value as a `u64`, when it is in range. A literal written with
    /// `-` never converts, not even `-0`.
    pub fn to_u64(&self) -> (res: Option<u64>)
        requires
            self.wf(),
        ensures
            res == (if !self.negative && self.value() <= u64::MAX {
                Some(self.value() as u64)
            } else {
                None
            }),
    {
        proof {
            lemma_digits_value_nonneg(self.digits@, self.radix as int);
        }
        if self.negative {
            return None;
        }
        match self.magnitude() {
            None => None,
            Some(m) => {
                if m <= 0xffff_ffff_ffff_ffffu128 {
                    Some(m as u64)
                } else {
                    None
                }
            },
        }
    }

    /// The value as an `i128`, when it is in range.
    pub fn to_i128(&self) -> (res: Option<i128>)
        requires
            self.wf(),
        ensures
            res == (if i128::MIN <= self.value() <= i128::MAX {
                Some(self.value() as i128)
            } else {
                None
            }),
    {
        proof {
            lemma_digits_value_nonneg(self.digits@, self.radix as int);
        }
        match self.magnitude() {
            None => None,
            Some(m) => {
                if self.negative {
                    if m < 0x8000_0000_0000_0000_0000_0000_0000_0000u128 {
                        Some(0i128 - m as i128)
                    } else if m == 0x8000_0000_0000_0000_0000_0000_0000_0000u128 {
                        Some(i128::MIN)
                    } else {
                        None
                    }
                } else {
                    if m <= 0x7fff_ffff_ffff_ffff_ffff_ffff_ffff_ffffu128 {
                        Some(m as i128)
                    } else {
                        None
                    }
                }
            },
        }
    }

    /// The value as a `u128`, when it is in range. A literal written with
    /// `-` never converts.
    pub fn to_u128(&self) -> (res: Option<u128>)
        requires
            self.wf(),
        ensures
            res == (if !self.negative && self.value() <= u128::MAX {
                Some(self.value() as u128)
            } else {
                None
            }),
    {
        proof {
            lemma_digits_value_nonneg(self.digits@, self.radix as int);
        }
        if self.negative {
            None
        } else {
            self.magnitude()
        }
    }
}

} // verus!
