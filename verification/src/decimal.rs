use vstd::prelude::*;

use crate::error::{DecodeError, ErrorKind};
use crate::scan::{digits_end, digits_val, is_digit, lemma_digits_end, lemma_digits_val_bounds};

verus! {

/// Ten to the `n`.
pub open spec fn pow10(n: nat) -> nat
    decreases n,
{
    if n == 0 {
        1
    } else {
        10 * pow10((n - 1) as nat)
    }
}

pub proof fn lemma_pow10_pos(n: nat)
    ensures
        pow10(n) >= 1,
    decreases n,
{
    if n > 0 {
        lemma_pow10_pos((n - 1) as nat);
    }
}

/// Reading the digit run `[from, to)` and then the run `[mid, to)` in one
/// pass is the same as shifting the first part left by the second's width.
pub proof fn lemma_digits_val_split(s: Seq<u8>, from: int, mid: int, to: int)
    requires
        0 <= from <= mid <= to <= s.len(),
    ensures
        digits_val(s, from, to) == digits_val(s, from, mid) * pow10((to - mid) as nat)
            + digits_val(s, mid, to),
    decreases to - mid,
{
    if to == mid {
        assert(pow10((to - mid) as nat) == 1);
        assert(digits_val(s, mid, to) == 0);
        assert(digits_val(s, from, mid) * 1 == digits_val(s, from, mid)) by (nonlinear_arith);
    } else {
        lemma_digits_val_split(s, from, mid, to - 1);
        let w = (to - 1 - mid) as nat;
        let a = digits_val(s, from, mid);
        let b = digits_val(s, mid, to - 1);
        let d = s[to - 1] - 48;
        assert(pow10(w + 1) == 10 * pow10(w));
        assert(digits_val(s, from, to) == digits_val(s, from, to - 1) * 10 + d);
        assert(digits_val(s, mid, to) == b * 10 + d);
        assert(digits_val(s, from, to - 1) == a * pow10(w) + b);
        assert((a * pow10(w) + b) * 10 + d == a * pow10(w + 1) + (b * 10 + d))
            by (nonlinear_arith)
            requires
                pow10(w + 1) == 10 * pow10(w),
        ;
        assert((to - mid) as nat == w + 1);
        assert(pow10((to - mid) as nat) == pow10(w + 1));
        assert(digits_val(s, from, to) == a * pow10(w + 1) + digits_val(s, mid, to));
    }
}

/// With a nonnegative head, a nonnegative tail, and a positive scale, the
/// combined value is at least the head and at least the tail.
pub proof fn lemma_scaled_sum_lower(a: int, p: int, f: int)
    requires
        a >= 0,
        p >= 1,
        f >= 0,
    ensures
        a * p + f >= a,
        a * p + f >= f,
{
    assert(a * p >= a && a * p >= 0) by (nonlinear_arith)
        requires
            a >= 0,
            p >= 1,
    ;
}

/// Largest fractional-digit count the decoder accepts; it keeps the scale
/// denominator `pow10(frac) * 1024` far inside `u128`.
pub const MAX_FRAC_DIGITS: u32 = 30;

/// An exact decimal number: `(-1 if neg) * mantissa / pow10(frac_digits)`.
/// This is how the decoder holds the header's real-valued fields, so that
/// scale arithmetic stays exact.
#[derive(Clone, Copy, Debug, PartialEq, Eq, Structural)]
pub struct Decimal {
    pub neg: bool,
    pub mantissa: u64,
    pub frac_digits: u32,
}

impl Decimal {
    /// The numerator of the number's exact value `num / den`.
    pub open spec fn num(self) -> int {
        if self.neg {
            -(self.mantissa as int)
        } else {
            self.mantissa as int
        }
    }

    /// The denominator of the number's exact value `num / den`.
    pub open spec fn den(self) -> int {
        pow10(self.frac_digits as nat) as int
    }

    pub open spec fn wf(self) -> bool {
        self.frac_digits <= MAX_FRAC_DIGITS
    }
}

/// The meaning of an exponent suffix at `me` applied to the parsed decimal
/// `(-1 if neg) * mant / pow10(frac)`: `e` or `E`, an optional sign, then
/// exponent digits reaching the end of the span. The exponent shifts the
/// scale exactly: it extends the fractional digits or multiplies the
/// mantissa out, and the result is rejected where the shifted form leaves
/// the mantissa's `u64` range or the fractional-digit cap. A zero mantissa
/// is exact at every exponent.
pub open spec fn spec_apply_exponent(
    s: Seq<u8>,
    me: int,
    neg: bool,
    mant: int,
    frac: int,
) -> Option<Decimal> {
    let es0 = me + 1;
    let esigned = es0 < s.len() && (s[es0] == 45 || s[es0] == 43);
    let eneg = es0 < s.len() && s[es0] == 45;
    let ds2 = if esigned {
        es0 + 1
    } else {
        es0
    };
    let de2 = digits_end(s, ds2);
    if de2 <= ds2 || de2 < s.len() {
        None  // no exponent digits, or a stray byte after them
    } else {
        let ev = digits_val(s, ds2, de2);
        if mant == 0 {
            Some(Decimal { neg, mantissa: 0, frac_digits: 0 })
        } else {
            let dnet = if eneg {
                frac + ev
            } else {
                frac - ev
            };
            if dnet >= 0 {
                if dnet > MAX_FRAC_DIGITS {
                    None
                } else {
                    Some(Decimal { neg, mantissa: mant as u64, frac_digits: dnet as u32 })
                }
            } else {
                let scaled = mant * pow10((-dnet) as nat);
                if scaled > u64::MAX {
                    None
                } else {
                    Some(Decimal { neg, mantissa: scaled as u64, frac_digits: 0 })
                }
            }
        }
    }
}

/// The decimal grammar at `from`: an optional minus sign, integer digits,
/// optionally a dot and fractional digits, and optionally an exponent
/// suffix, reaching the end of the span; at least one mantissa digit in
/// all, the combined digit string inside `u64`, and at most
/// `MAX_FRAC_DIGITS` fractional digits before the exponent is applied.
pub open spec fn spec_parse_decimal(s: Seq<u8>, from: int) -> Option<Decimal> {
    if from < 0 || from > s.len() {
        None
    } else {
        let neg = from < s.len() && s[from] == 45;
        let start = if neg {
            from + 1
        } else {
            from
        };
        let ie = digits_end(s, start);
        let dotted = ie < s.len() && s[ie] == 46;
        let fs = ie + 1;
        let fe = if dotted {
            digits_end(s, fs)
        } else {
            ie
        };
        let frac: int = if dotted {
            fe - fs
        } else {
            0
        };
        let has_exp = fe < s.len() && (s[fe] == 101 || s[fe] == 69);
        if !has_exp && fe < s.len() {
            None  // stray byte after the digits
        } else if ie - start + frac < 1 {
            None  // no digits at all
        } else {
            let mant = digits_val(s, start, ie) * pow10(frac as nat) + (if dotted {
                digits_val(s, fs, fe)
            } else {
                0
            });
            if mant > u64::MAX || frac > MAX_FRAC_DIGITS {
                None
            } else if !has_exp {
                Some(Decimal { neg, mantissa: mant as u64, frac_digits: frac as u32 })
            } else {
                spec_apply_exponent(s, fe, neg, mant, frac)
            }
        }
    }
}

/// Ten to any power of twenty or more exceeds the mantissa range.
proof fn lemma_pow10_over_u64(n: nat)
    requires
        n >= 20,
    ensures
        pow10(n) > u64::MAX,
{
    lemma_pow10_mono(20, n);
    assert(pow10(20) == 100000000000000000000) by {
        reveal_with_fuel(pow10, 22);
    }
}

fn numeric_error() -> (r: DecodeError)
    ensures
        r.kind == ErrorKind::NumericParse,
{
    DecodeError {
        kind: ErrorKind::NumericParse,
        line: 0,
        cluster: None,
        expected: Vec::new(),
        found: Vec::new(),
    }
}

/// Parses the span of `s` from `from` to the end as an exact decimal.
#[verifier::rlimit(80)]
pub fn parse_decimal(s: &Vec<u8>, from: usize) -> (r: Result<Decimal, DecodeError>)
    requires
        from <= s@.len(),
    ensures
        (r is Ok) == (spec_parse_decimal(s@, from as int) is Some),
        r is Ok ==> r->Ok_0 == spec_parse_decimal(s@, from as int)->Some_0,
        r is Ok ==> r->Ok_0.wf(),
        r is Err ==> r->Err_0.kind == ErrorKind::NumericParse,
{
    let neg = from < s.len() && s[from] == 45;
    let start: usize = if neg {
        from + 1
    } else {
        from
    };
    proof {
        lemma_digits_end(s@, start as int);
    }
    let ghost ie = digits_end(s@, start as int);

    // integer digits
    let mut j: usize = start;
    let mut acc: u128 = 0;
    while j < s.len() && s[j] >= 48 && s[j] <= 57
        invariant
            from <= start <= j <= ie <= s@.len(),
            neg == (from < s@.len() && s@[from as int] == 45),
            start == if neg {
                from + 1
            } else {
                from as int
            },
            ie == digits_end(s@, start as int),
            forall|t: int| start <= t < ie ==> is_digit(s@[t]),
            ie < s@.len() ==> !is_digit(s@[ie]),
            acc == digits_val(s@, start as int, j as int),
            acc <= u64::MAX,
        decreases s@.len() - j,
    {
        assert(j < ie) by {
            if j == ie {
                assert(!is_digit(s@[ie]));
            }
        }
        acc = acc * 10 + ((s[j] - 48) as u128);
        j = j + 1;
        if acc > u64::MAX as u128 {
            proof {
                mantissa_overflow_none(s@, from as int, j as int);
            }
            return Err(numeric_error());
        }
    }
    assert(j == ie);
    let ghost int_val = digits_val(s@, start as int, ie);

    let dotted = j < s.len() && s[j] == 46;
    let ghost spec_fe: int = if dotted {
        digits_end(s@, ie + 1)
    } else {
        ie
    };
    let ghost frac_g: int = if dotted {
        spec_fe - (ie + 1)
    } else {
        0
    };
    let ghost mant_g: int = int_val * pow10(frac_g as nat) + (if dotted {
        digits_val(s@, ie + 1, spec_fe)
    } else {
        0int
    });

    let mut frac_count: usize = 0;
    let mut me_pos: usize = j;
    if dotted {
        // fractional digits
        let fs: usize = j + 1;
        proof {
            lemma_digits_end(s@, fs as int);
        }
        let ghost fe = digits_end(s@, fs as int);
        let mut k: usize = fs;
        while k < s.len() && s[k] >= 48 && s[k] <= 57
            invariant
                from <= start <= ie < s@.len(),
                neg == (from < s@.len() && s@[from as int] == 45),
                start == if neg {
                    from + 1
                } else {
                    from as int
                },
                ie == digits_end(s@, start as int),
                s@[ie] == 46,
                fs == ie + 1,
                fs <= k <= fe <= s@.len(),
                fe == digits_end(s@, fs as int),
                forall|t: int| fs <= t < fe ==> is_digit(s@[t]),
                fe < s@.len() ==> !is_digit(s@[fe]),
                int_val == digits_val(s@, start as int, ie),
                acc == int_val * pow10((k - fs) as nat) + digits_val(s@, fs as int, k as int),
                acc <= u64::MAX,
                k - fs <= MAX_FRAC_DIGITS,
            decreases s@.len() - k,
        {
            assert(k < fe) by {
                if k == fe {
                    assert(!is_digit(s@[fe]));
                }
            }
            if k - fs >= MAX_FRAC_DIGITS as usize {
                // more fractional digits than the decoder accepts
                assert(fe - fs > MAX_FRAC_DIGITS);
                assert(spec_parse_decimal(s@, from as int) is None);
                return Err(numeric_error());
            }
            let d = s[k] - 48;
            proof {
                let kk = (k - fs) as nat;
                assert(pow10(kk + 1) == 10 * pow10(kk));
                assert((int_val * pow10(kk) + digits_val(s@, fs as int, k as int)) * 10 + (s@[k
                    as int] - 48) == int_val * pow10(kk + 1) + (digits_val(s@, fs as int, k as int)
                    * 10 + (s@[k as int] - 48))) by (nonlinear_arith)
                    requires
                        pow10(kk + 1) == 10 * pow10(kk),
                ;
            }
            acc = acc * 10 + (d as u128);
            k = k + 1;
            if acc > u64::MAX as u128 {
                proof {
                    mantissa_overflow_frac_none(s@, from as int, k as int, acc as int);
                }
                return Err(numeric_error());
            }
        }
        assert(k == fe);
        if j == start && k == fs {
            // a lone dot with no digits at all
            return Err(numeric_error());
        }
        frac_count = k - fs;
        me_pos = k;
        assert(acc == mant_g && frac_count == frac_g && me_pos == spec_fe);
    } else {
        if j == start {
            // no digits at all
            return Err(numeric_error());
        }
        proof {
            assert(pow10(0) == 1);
            assert(int_val * 1 == int_val) by (nonlinear_arith);
        }
        assert(acc == mant_g && frac_count == frac_g && me_pos == spec_fe);
    }

    // the span may end here, continue with an exponent, or hold a stray byte
    if me_pos == s.len() {
        return Ok(Decimal { neg, mantissa: acc as u64, frac_digits: frac_count as u32 });
    }
    if s[me_pos] != 101 && s[me_pos] != 69 {
        // stray byte after the digits
        return Err(numeric_error());
    }

    // the exponent suffix
    let es0: usize = me_pos + 1;
    let esigned = es0 < s.len() && (s[es0] == 45 || s[es0] == 43);
    let eneg = es0 < s.len() && s[es0] == 45;
    let ds2: usize = if esigned {
        es0 + 1
    } else {
        es0
    };
    proof {
        lemma_digits_end(s@, ds2 as int);
    }
    let ghost de2 = digits_end(s@, ds2 as int);
    let mut j2: usize = ds2;
    let mut ev_acc: u128 = 0;
    let mut ebig = false;
    while j2 < s.len() && s[j2] >= 48 && s[j2] <= 57
        invariant
            ds2 <= j2 <= de2 <= s@.len(),
            de2 == digits_end(s@, ds2 as int),
            forall|t: int| ds2 <= t < de2 ==> is_digit(s@[t]),
            de2 < s@.len() ==> !is_digit(s@[de2]),
            !ebig ==> ev_acc == digits_val(s@, ds2 as int, j2 as int) && ev_acc <= 1000,
            ebig ==> digits_val(s@, ds2 as int, de2) > 1000,
        decreases s@.len() - j2,
    {
        assert(j2 < de2) by {
            if j2 == de2 {
                assert(!is_digit(s@[de2]));
            }
        }
        if !ebig {
            let d = s[j2] - 48;
            ev_acc = ev_acc * 10 + (d as u128);
            if ev_acc > 1000 {
                proof {
                    lemma_digits_val_bounds(s@, ds2 as int, de2);
                    assert(digits_val(s@, ds2 as int, de2) >= digits_val(
                        s@,
                        ds2 as int,
                        j2 + 1,
                    ));
                }
                ebig = true;
            }
        }
        j2 = j2 + 1;
    }
    assert(j2 == de2);
    if j2 == ds2 {
        // no exponent digits
        return Err(numeric_error());
    }
    if j2 < s.len() {
        // stray byte after the exponent digits
        return Err(numeric_error());
    }
    if acc == 0 {
        // an exact zero at any exponent
        return Ok(Decimal { neg, mantissa: 0, frac_digits: 0 });
    }
    let ghost ev_g = digits_val(s@, ds2 as int, de2);
    proof {
        lemma_digits_val_bounds(s@, ds2 as int, de2);
    }
    if ebig {
        // the exponent magnitude alone forces rejection
        proof {
            if !eneg {
                lemma_pow10_over_u64((ev_g - frac_g) as nat);
                assert(mant_g * pow10((ev_g - frac_g) as nat) >= pow10((ev_g - frac_g) as nat))
                    by (nonlinear_arith)
                    requires
                        mant_g >= 1,
                        pow10((ev_g - frac_g) as nat) >= 0,
                ;
            }
            assert(spec_parse_decimal(s@, from as int) is None);
        }
        return Err(numeric_error());
    }
    if eneg {
        // the exponent deepens the fractional scale
        let dnet: u128 = frac_count as u128 + ev_acc;
        if dnet > MAX_FRAC_DIGITS as u128 {
            return Err(numeric_error());
        }
        return Ok(Decimal { neg, mantissa: acc as u64, frac_digits: dnet as u32 });
    }
    if ev_acc <= frac_count as u128 {
        // the exponent cancels part of the fractional scale
        let dnet: usize = frac_count - (ev_acc as usize);
        return Ok(Decimal { neg, mantissa: acc as u64, frac_digits: dnet as u32 });
    }
    // the exponent multiplies the mantissa out
    let up: u128 = ev_acc - frac_count as u128;
    assert(up == ev_g - frac_g);
    if up > 19 {
        proof {
            lemma_pow10_over_u64((ev_g - frac_g) as nat);
            assert(mant_g * pow10((ev_g - frac_g) as nat) >= pow10((ev_g - frac_g) as nat))
                by (nonlinear_arith)
                requires
                    mant_g >= 1,
                    pow10((ev_g - frac_g) as nat) >= 0,
            ;
        }
        return Err(numeric_error());
    }
    let p = pow10_u128(up as u32);
    proof {
        lemma_pow10_mono(up as nat, 19);
        assert(pow10(19) == 10000000000000000000) by {
            reveal_with_fuel(pow10, 21);
        }
        assert(acc * p <= 18446744073709551615 * 10000000000000000000) by (nonlinear_arith)
            requires
                0 <= acc <= 18446744073709551615,
                0 <= p <= 10000000000000000000,
        ;
    }
    let scaled = acc * p;
    assert(scaled == mant_g * pow10((ev_g - frac_g) as nat));
    if scaled > u64::MAX as u128 {
        return Err(numeric_error());
    }
    Ok(Decimal { neg, mantissa: scaled as u64, frac_digits: 0 })
}

/// If a prefix of the integer digits already exceeds `u64::MAX`, the whole
/// mantissa does, so the grammar rejects the span.
proof fn mantissa_overflow_none(s: Seq<u8>, from: int, j: int)
    requires
        0 <= from <= s.len(),
        ({
            let start = if from < s.len() && s[from] == 45 {
                from + 1
            } else {
                from
            };
            start <= j <= digits_end(s, start) && digits_val(s, start, j) > u64::MAX
        }),
    ensures
        spec_parse_decimal(s, from) is None,
{
    let start = if from < s.len() && s[from] == 45 {
        from + 1
    } else {
        from
    };
    let ie = digits_end(s, start);
    lemma_digits_end(s, start);
    lemma_digits_val_bounds(s, start, ie);
    if spec_parse_decimal(s, from) is Some {
        let dotted = ie < s.len() && s[ie] == 46;
        let fs = ie + 1;
        let fe = if dotted {
            digits_end(s, fs)
        } else {
            ie
        };
        let frac: int = if dotted {
            fe - fs
        } else {
            0
        };
        let fval: int = if dotted {
            digits_val(s, fs, fe)
        } else {
            0
        };
        if dotted {
            lemma_digits_end(s, fs);
            lemma_digits_val_bounds(s, fs, fe);
        }
        lemma_pow10_pos(frac as nat);
        lemma_scaled_sum_lower(digits_val(s, start, ie), pow10(frac as nat) as int, fval);
        assert(false);
    }
}

/// If the running mantissa exceeds `u64::MAX` partway through the
/// fractional digits, the whole mantissa does.
proof fn mantissa_overflow_frac_none(s: Seq<u8>, from: int, k: int, partial: int)
    requires
        0 <= from <= s.len(),
        ({
            let start = if from < s.len() && s[from] == 45 {
                from + 1
            } else {
                from
            };
            let ie = digits_end(s, start);
            let fs = ie + 1;
            ie < s.len() && s[ie] == 46 && fs <= k <= digits_end(s, fs) && partial == digits_val(
                s,
                start,
                ie,
            ) * pow10((k - fs) as nat) + digits_val(s, fs, k) && partial > u64::MAX
        }),
    ensures
        spec_parse_decimal(s, from) is None,
{
    let start = if from < s.len() && s[from] == 45 {
        from + 1
    } else {
        from
    };
    let ie = digits_end(s, start);
    let fs = ie + 1;
    let fe = digits_end(s, fs);
    lemma_digits_end(s, start);
    lemma_digits_end(s, fs);
    lemma_digits_val_bounds(s, start, ie);
    lemma_digits_val_bounds(s, fs, fe);
    if spec_parse_decimal(s, from) is Some {
        let frac = fe - fs;
        let mant = digits_val(s, start, ie) * pow10(frac as nat) + digits_val(s, fs, fe);
        // split the full fractional run at k
        lemma_digits_val_split(s, fs, k, fe);
        lemma_pow10_pos((fe - k) as nat);
        lemma_pow10_pos((k - fs) as nat);
        // pow10 over the sum of widths
        lemma_pow10_add((k - fs) as nat, (fe - k) as nat);
        let iv = digits_val(s, start, ie);
        let p1 = pow10((k - fs) as nat) as int;
        let p2 = pow10((fe - k) as nat) as int;
        let dvk = digits_val(s, fs, k);
        let tail = digits_val(s, k, fe);
        lemma_digits_val_bounds(s, k, fe);
        assert(iv * (p1 * p2) + (dvk * p2 + tail) == (iv * p1 + dvk) * p2 + tail)
            by (nonlinear_arith);
        lemma_scaled_sum_lower(partial, p2, tail);
        assert(false);
    }
}

pub proof fn lemma_pow10_mono(a: nat, b: nat)
    requires
        a <= b,
    ensures
        pow10(a) <= pow10(b),
{
    lemma_pow10_add(a, (b - a) as nat);
    lemma_pow10_pos(a);
    lemma_pow10_pos((b - a) as nat);
    assert(pow10(a) * pow10((b - a) as nat) >= pow10(a) * 1) by (nonlinear_arith)
        requires
            pow10(a) >= 1,
            pow10((b - a) as nat) >= 1,
    ;
}

proof fn lemma_pow10_30_value()
    ensures
        pow10(30) == 1000000000000000000000000000000,
{
    assert(pow10(30) == 1000000000000000000000000000000) by {
        reveal_with_fuel(pow10, 32);
    }
}

/// Ten to the `n`, as a machine value.
pub fn pow10_u128(n: u32) -> (r: u128)
    requires
        n <= MAX_FRAC_DIGITS,
    ensures
        r == pow10(n as nat),
{
    proof {
        lemma_pow10_30_value();
    }
    let mut i: u32 = 0;
    let mut acc: u128 = 1;
    while i < n
        invariant
            i <= n <= 30,
            acc == pow10(i as nat),
            pow10(30) == 1000000000000000000000000000000,
        decreases n - i,
    {
        proof {
            lemma_pow10_mono((i + 1) as nat, 30);
        }
        acc = acc * 10;
        i = i + 1;
    }
    acc
}

/// Scales the quantized coordinate `v` by the spatial resolution `res`,
/// exactly: the physical value is the rational `r.0 / r.1`, that is,
/// `v * res / 1024`.
pub fn scaled_position(v: i32, res: &Decimal) -> (r: (i128, u128))
    requires
        res.wf(),
    ensures
        r.0 == v * res.num(),
        r.1 == res.den() * 1024,
        r.1 > 0,
{
    let m = res.mantissa as i128;
    let signed: i128 = if res.neg {
        -m
    } else {
        m
    };
    proof {
        assert((v as i128) * signed <= 2147483648i128 * 18446744073709551615
            && (v as i128) * signed >= -(2147483648i128 * 18446744073709551615))
            by (nonlinear_arith)
            requires
                -2147483648 <= v as i128 <= 2147483647,
                -18446744073709551615i128 <= signed <= 18446744073709551615i128,
        ;
    }
    let numer = (v as i128) * signed;
    proof {
        lemma_pow10_mono(res.frac_digits as nat, 30);
        lemma_pow10_30_value();
        lemma_pow10_pos(res.frac_digits as nat);
    }
    let denom = pow10_u128(res.frac_digits) * 1024;
    (numer, denom)
}

pub proof fn lemma_pow10_add(a: nat, b: nat)
    ensures
        pow10(a + b) == pow10(a) * pow10(b),
    decreases a,
{
    if a == 0 {
        assert(pow10(0 + b) == pow10(b));
        assert(pow10(0) * pow10(b) == 1 * pow10(b));
    } else {
        lemma_pow10_add((a - 1) as nat, b);
        assert(pow10(a + b) == 10 * pow10((a - 1) as nat + b));
        assert(10 * (pow10((a - 1) as nat) * pow10(b)) == (10 * pow10((a - 1) as nat)) * pow10(b))
            by (nonlinear_arith);
    }
}

} // verus!
