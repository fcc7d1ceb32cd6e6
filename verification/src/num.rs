use vstd::prelude::*;
use vstd::arithmetic::div_mod::lemma_div_denominator;
use crate::text::push_char;

verus! {

/// A decimal number in canonical form.
///
/// The value is `(if neg { -1 } else { 1 }) * D * 10^exp`, where `D` is the
/// digit sequence read as an integer.  Canonical means: no leading and no
/// trailing zero digit, and zero itself is the empty digit sequence with
/// `exp == 0` and `neg == false`.  Two canonical decimals are equal as
/// numbers exactly when they are equal structurally.
#[derive(Debug, PartialEq)]
pub struct Decimal {
    neg: bool,
    digits: Vec<u8>,
    exp: i128,
}

/// The mathematical model of a [`Decimal`].
#[verifier::ext_equal]
pub struct DecimalV {
    pub neg: bool,
    pub digits: Seq<u8>,
    pub exp: int,
}

/// Canonical form: digits are decimal digits, the first and last of them are
/// not zero, and zero is represented as the empty sequence with no sign and
/// exponent zero.
pub open spec fn dec_wf(d: DecimalV) -> bool {
    &&& forall|i: int| 0 <= i < d.digits.len() ==> #[trigger] d.digits[i] <= 9
    &&& (d.digits.len() == 0 ==> !d.neg && d.exp == 0)
    &&& (d.digits.len() > 0 ==> d.digits.first() != 0 && d.digits.last() != 0)
}

pub open spec fn pow10(k: nat) -> nat
    decreases k,
{
    if k == 0 {
        1
    } else {
        10 * pow10((k - 1) as nat)
    }
}

proof fn lemma_pow10_pos(k: nat)
    ensures
        pow10(k) >= 1,
    decreases k,
{
    if k > 0 {
        lemma_pow10_pos((k - 1) as nat);
    }
}

/// The decimal digits of `n`, most significant first; `0` has no digits.
pub open spec fn digits_of(n: nat) -> Seq<u8>
    decreases n,
{
    if n == 0 {
        Seq::empty()
    } else {
        digits_of(n / 10).push((n % 10) as u8)
    }
}

/// How many times `10` divides `n` (zero for `n == 0`).
pub open spec fn ten_factors(n: nat) -> nat
    decreases n,
{
    if n > 0 && n % 10 == 0 {
        1 + ten_factors(n / 10)
    } else {
        0
    }
}

/// The canonical decimal holding the integer `i`.
pub open spec fn dec_of_int(i: int) -> DecimalV {
    if i == 0 {
        DecimalV { neg: false, digits: Seq::empty(), exp: 0 }
    } else {
        let m = (if i < 0 { -i } else { i }) as nat;
        let k = ten_factors(m);
        DecimalV { neg: i < 0, digits: digits_of(m / pow10(k)), exp: k as int }
    }
}

proof fn lemma_ten_factors_le(n: nat)
    ensures
        ten_factors(n) <= n,
    decreases n,
{
    if n > 0 && n % 10 == 0 {
        lemma_ten_factors_le(n / 10);
    }
}

proof fn lemma_digits_of_bounds(n: nat)
    ensures
        forall|i: int| 0 <= i < digits_of(n).len() ==> #[trigger] digits_of(n)[i] <= 9,
        n > 0 ==> digits_of(n).len() > 0 && digits_of(n).first() != 0,
        n > 0 && n % 10 != 0 ==> digits_of(n).last() != 0,
    decreases n,
{
    if n > 0 {
        lemma_digits_of_bounds(n / 10);
        let tail = digits_of(n / 10);
        assert(digits_of(n) == tail.push((n % 10) as u8));
        assert forall|i: int| 0 <= i < digits_of(n).len() implies #[trigger] digits_of(n)[i]
            <= 9 by {
            if i < tail.len() {
                assert(digits_of(n)[i] == tail[i]);
            } else {
                assert(digits_of(n)[i] == (n % 10) as u8);
            }
        }
        if n / 10 > 0 {
            assert(digits_of(n).first() == tail.first());
        } else {
            assert(digits_of(n).first() == (n % 10) as u8);
        }
        assert(digits_of(n).last() == (n % 10) as u8);
    }
}

impl Clone for Decimal {
    /// A copy with the same model.
    fn clone(&self) -> (r: Decimal)
        ensures
            r.view() == self.view(),
    {
        let r = Decimal { neg: self.neg, digits: clone_digits(&self.digits), exp: self.exp };
        proof {
            assert(r.view() =~= self.view());
        }
        r
    }
}

/// Elementwise copy of a digit vector.
fn clone_digits(ds: &Vec<u8>) -> (r: Vec<u8>)
    ensures
        r@ == ds@,
{
    let mut r: Vec<u8> = Vec::new();
    let n = ds.len();
    let mut i: usize = 0;
    while i < n
        invariant
            n == ds@.len(),
            i <= n,
            r@.len() == i,
            forall|j: int| 0 <= j < i ==> r@[j] == ds@[j],
        decreases n - i,
    {
        let d = ds[i];
        r.push(d);
        i += 1;
    }
    proof {
        assert(r@ =~= ds@);
    }
    r
}

impl Decimal {
    /// The model of this decimal.
    pub closed spec fn view(&self) -> DecimalV {
        DecimalV { neg: self.neg, digits: self.digits@, exp: self.exp as int }
    }

    /// The canonical decimal for an integer.
    pub fn from_int(v: i64) -> (r: Decimal)
        ensures
            r.view() == dec_of_int(v as int),
            dec_wf(r.view()),
    {
        if v == 0 {
            let r = Decimal { neg: false, digits: Vec::new(), exp: 0 };
            proof {
                assert(r.view() =~= dec_of_int(0));
            }
            r
        } else {
            let m: u64 = if v < 0 {
                ((-(v as i128)) as u64)
            } else {
                (v as u64)
            };
            let (q, k) = strip_tens(m);
            let mut ds: Vec<u8> = Vec::new();
            push_digits(q, &mut ds);
            let r = Decimal { neg: v < 0, digits: ds, exp: k as i128 };
            proof {
                lemma_digits_of_bounds(q as nat);
                assert(q % 10 != 0);
                assert(r.view() =~= dec_of_int(v as int));
            }
            r
        }
    }

    /// Structural equality of decimals; on canonical values this is equality
    /// of the numbers they hold.
    pub fn dec_eq(&self, other: &Decimal) -> (r: bool)
        ensures
            r == (self.view() == other.view()),
    {
        if self.neg != other.neg || self.exp != other.exp
            || self.digits.len() != other.digits.len() {
            proof {
                if self.view() == other.view() {
                    assert(self.view().digits.len() == other.view().digits.len());
                }
            }
            return false;
        }
        let n = self.digits.len();
        let mut i: usize = 0;
        while i < n
            invariant
                n == self.digits.len(),
                n == other.digits.len(),
                i <= n,
                forall|j: int| 0 <= j < i ==> self.digits@[j] == other.digits@[j],
            decreases n - i,
        {
            if self.digits[i] != other.digits[i] {
                proof {
                    if self.view() == other.view() {
                        assert(self.view().digits[i as int] == other.view().digits[i as int]);
                    }
                }
                return false;
            }
            i += 1;
        }
        proof {
            assert(self.digits@ =~= other.digits@);
            assert(self.view() =~= other.view());
        }
        true
    }
}

/// Divide out every factor of ten, returning the quotient and the count.
fn strip_tens(m: u64) -> (r: (u64, u64))
    requires
        m > 0,
    ensures
        r.0 as nat == m as nat / pow10(ten_factors(m as nat)),
        r.1 as nat == ten_factors(m as nat),
        r.0 > 0,
        r.0 % 10 != 0,
    decreases m,
{
    if m % 10 == 0 {
        let (q, k) = strip_tens(m / 10);
        proof {
            let t = ten_factors((m / 10) as nat);
            lemma_ten_factors_le((m / 10) as nat);
            assert(k < u64::MAX);
            lemma_pow10_pos(t);
            lemma_div_denominator(m as int, 10, pow10(t) as int);
            assert(ten_factors(m as nat) == 1 + t);
            assert(pow10((1 + t) as nat) == 10 * pow10(t));
            assert(m as int / 10int / (pow10(t) as int) == m as int / ((10 * pow10(t)) as int));
            assert(q as nat == m as nat / pow10((1 + t) as nat));
            assert((k + 1) as nat == ten_factors(m as nat));
            assert(q as nat == m as nat / pow10(ten_factors(m as nat)));
        }
        (q, k + 1)
    } else {
        proof {
            assert(ten_factors(m as nat) == 0);
            assert(pow10(0) == 1);
            assert(m as nat / pow10(ten_factors(m as nat)) == m as nat);
        }
        (m, 0)
    }
}

/// Append the decimal digits of `n`, most significant first.
fn push_digits(n: u64, ds: &mut Vec<u8>)
    ensures
        final(ds)@ == old(ds)@ + digits_of(n as nat),
    decreases n,
{
    if n == 0 {
        proof {
            assert(ds@ =~= ds@ + digits_of(0));
        }
    } else {
        push_digits(n / 10, ds);
        ds.push((n % 10) as u8);
        proof {
            assert(ds@ =~= old(ds)@ + digits_of(n as nat));
        }
    }
}


// ===================================================================
// Parsing
// ===================================================================

/// Decimal digit characters.
pub open spec fn is_digit(c: char) -> bool {
    48 <= c as u32 <= 57
}

pub open spec fn digit_val(c: char) -> u8 {
    ((c as u32 - 48) as u8)
}

/// The first position at or after `i` that does not hold a digit.
pub open spec fn skip_digits(s: Seq<char>, i: int) -> int
    decreases s.len() - i,
{
    if 0 <= i < s.len() && is_digit(s[i]) {
        skip_digits(s, i + 1)
    } else {
        i
    }
}

proof fn lemma_skip_digits(s: Seq<char>, i: int)
    requires
        0 <= i <= s.len(),
    ensures
        i <= skip_digits(s, i) <= s.len(),
        forall|j: int| i <= j < skip_digits(s, i) ==> is_digit(#[trigger] s[j]),
        skip_digits(s, i) < s.len() ==> !is_digit(s[skip_digits(s, i)]),
    decreases s.len() - i,
{
    if i < s.len() && is_digit(s[i]) {
        lemma_skip_digits(s, i + 1);
    }
}

/// The digit values of `s[i .. j)`.
pub open spec fn digit_seq(s: Seq<char>, i: int, j: int) -> Seq<u8> {
    Seq::new((j - i) as nat, |k: int| digit_val(s[i + k]))
}

/// The saturation bound for exponent literals.
pub open spec fn exp_cap() -> int {
    1000000000000000000
}

/// The value of an exponent digit run, saturated at [`exp_cap`].
pub open spec fn exp_digits_val(s: Seq<char>, i: int, j: int, acc: int) -> int
    decreases j - i,
{
    if i >= j {
        acc
    } else {
        let a = acc * 10 + digit_val(s[i]) as int;
        let a2 = if a > exp_cap() {
            exp_cap()
        } else {
            a
        };
        exp_digits_val(s, i + 1, j, a2)
    }
}

proof fn lemma_exp_digits_val_bounds(s: Seq<char>, i: int, j: int, acc: int)
    requires
        0 <= acc <= exp_cap(),
    ensures
        0 <= exp_digits_val(s, i, j, acc) <= exp_cap(),
    decreases j - i,
{
    if i < j {
        let a = acc * 10 + digit_val(s[i]) as int;
        let a2 = if a > exp_cap() {
            exp_cap()
        } else {
            a
        };
        lemma_exp_digits_val_bounds(s, i + 1, j, a2);
    }
}

/// Drop leading zero digits.
pub open spec fn strip_leading_zeros(ds: Seq<u8>) -> Seq<u8>
    decreases ds,
{
    if ds.len() > 0 && ds.first() == 0 {
        strip_leading_zeros(ds.drop_first())
    } else {
        ds
    }
}

/// How many zero digits end the run.
pub open spec fn trailing_zeros(ds: Seq<u8>) -> int
    decreases ds,
{
    if ds.len() > 0 && ds.last() == 0 {
        1 + trailing_zeros(ds.drop_last())
    } else {
        0
    }
}

/// Bring a raw digit run into canonical form: drop leading zeros, then move
/// trailing zeros into the exponent; an all-zero run is the canonical zero.
pub open spec fn normalize_dec(neg: bool, ds: Seq<u8>, exp: int) -> DecimalV {
    let core = strip_leading_zeros(ds);
    if core.len() == 0 {
        DecimalV { neg: false, digits: Seq::empty(), exp: 0 }
    } else {
        let t = trailing_zeros(core);
        DecimalV { neg, digits: core.take(core.len() - t), exp: exp + t }
    }
}

/// What parsing a decimal number literal yields: an optional sign, integer
/// digits, an optional fraction, an optional exponent, nothing else; the
/// digits may stand on either side of the point but must appear.  The
/// result is in canonical form; an exponent literal beyond [`exp_cap`]
/// saturates.
pub open spec fn parse_dec_spec(s: Seq<char>) -> Option<DecimalV> {
    let n = s.len() as int;
    if n == 0 {
        Option::None
    } else {
        let has_sign = s[0] == '+' || s[0] == '-';
        let neg = s[0] == '-';
        let i0 = if has_sign {
            1int
        } else {
            0int
        };
        let i1 = skip_digits(s, i0);
        let has_dot = i1 < n && s[i1] == '.';
        let fs = if has_dot {
            i1 + 1
        } else {
            i1
        };
        let i2 = skip_digits(s, fs);
        if i1 == i0 && i2 == fs {
            Option::None
        } else {
            let mant = digit_seq(s, i0, i1) + digit_seq(s, fs, i2);
            let frac_len = i2 - fs;
            if i2 == n {
                Option::Some(normalize_dec(neg, mant, -frac_len))
            } else if s[i2] == 'e' || s[i2] == 'E' {
                let j0 = i2 + 1;
                if j0 >= n {
                    Option::None
                } else {
                    let esign = s[j0] == '+' || s[j0] == '-';
                    let eneg = s[j0] == '-';
                    let j1 = if esign {
                        j0 + 1
                    } else {
                        j0
                    };
                    let j2 = skip_digits(s, j1);
                    if j1 == j2 || j2 != n {
                        Option::None
                    } else {
                        let e = exp_digits_val(s, j1, j2, 0);
                        let ee = if eneg {
                            -e
                        } else {
                            e
                        };
                        Option::Some(normalize_dec(neg, mant, ee - frac_len))
                    }
                }
            } else {
                Option::None
            }
        }
    }
}

proof fn lemma_strip_leading_zeros(ds: Seq<u8>, lead: int)
    requires
        0 <= lead <= ds.len(),
        forall|l: int| 0 <= l < lead ==> #[trigger] ds[l] == 0,
        lead < ds.len() ==> ds[lead] != 0,
    ensures
        strip_leading_zeros(ds) =~= ds.skip(lead),
    decreases ds.len(),
{
    if ds.len() > 0 && ds.first() == 0 {
        assert(lead > 0) by {
            if lead == 0 {
                assert(ds[0] != 0);
            }
        }
        assert forall|l: int| 0 <= l < lead - 1 implies #[trigger] ds.drop_first()[l] == 0 by {
            assert(ds.drop_first()[l] == ds[l + 1]);
        }
        assert(lead - 1 < ds.drop_first().len() ==> ds.drop_first()[lead - 1] != 0);
        lemma_strip_leading_zeros(ds.drop_first(), lead - 1);
        assert(ds.drop_first().skip(lead - 1) =~= ds.skip(lead));
    } else {
        if ds.len() > 0 {
            assert(ds[0] != 0);
            assert(lead == 0) by {
                if lead > 0 {
                    assert(ds[0] == 0);
                }
            }
        }
        assert(ds.skip(lead) =~= ds);
    }
}

proof fn lemma_trailing_zeros(ds: Seq<u8>, t: int)
    requires
        0 <= t <= ds.len(),
        forall|l: int| ds.len() - t <= l < ds.len() ==> #[trigger] ds[l] == 0,
        t < ds.len() ==> ds[ds.len() - t - 1] != 0,
    ensures
        trailing_zeros(ds) == t,
    decreases ds.len(),
{
    if ds.len() > 0 && ds.last() == 0 {
        assert(t > 0) by {
            if t == 0 {
                assert(ds[ds.len() - 1] != 0);
            }
        }
        let dd = ds.drop_last();
        assert forall|l: int| dd.len() - (t - 1) <= l < dd.len() implies #[trigger] dd[l] == 0 by {
            assert(dd[l] == ds[l]);
        }
        if t - 1 < dd.len() {
            assert(dd[dd.len() - (t - 1) - 1] == ds[ds.len() - t - 1]);
        }
        lemma_trailing_zeros(dd, t - 1);
    } else {
        if ds.len() > 0 {
            assert(ds[ds.len() - 1] != 0);
            assert(t == 0) by {
                if t > 0 {
                    assert(ds[ds.len() - 1] == 0);
                }
            }
        }
    }
}

/// Canonical form comes out of normalization whenever the digits are in
/// range.
proof fn lemma_normalize_wf(neg: bool, ds: Seq<u8>, exp: int)
    requires
        forall|l: int| 0 <= l < ds.len() ==> #[trigger] ds[l] <= 9,
    ensures
        dec_wf(normalize_dec(neg, ds, exp)),
{
    lemma_strip_bounds(ds);
    let core = strip_leading_zeros(ds);
    if core.len() != 0 {
        lemma_trailing_zeros_bounds(core);
        let t = trailing_zeros(core);
        let kept = core.take(core.len() - t);
        assert(kept.len() > 0);
        assert(kept.first() == core.first());
        assert(kept.last() == core[core.len() - t - 1]);
    }
}

proof fn lemma_strip_bounds(ds: Seq<u8>)
    requires
        forall|l: int| 0 <= l < ds.len() ==> #[trigger] ds[l] <= 9,
    ensures
        strip_leading_zeros(ds).len() <= ds.len(),
        forall|l: int| 0 <= l < strip_leading_zeros(ds).len() ==> #[trigger] strip_leading_zeros(
            ds,
        )[l] <= 9,
        strip_leading_zeros(ds).len() > 0 ==> strip_leading_zeros(ds).first() != 0,
    decreases ds.len(),
{
    if ds.len() > 0 && ds.first() == 0 {
        assert forall|l: int| 0 <= l < ds.drop_first().len() implies #[trigger] ds.drop_first()[l]
            <= 9 by {
            assert(ds.drop_first()[l] == ds[l + 1]);
        }
        lemma_strip_bounds(ds.drop_first());
    }
}

proof fn lemma_trailing_zeros_bounds(ds: Seq<u8>)
    ensures
        0 <= trailing_zeros(ds) <= ds.len(),
        trailing_zeros(ds) < ds.len() ==> ds[ds.len() - trailing_zeros(ds) - 1] != 0,
        forall|l: int| ds.len() - trailing_zeros(ds) <= l < ds.len() ==> #[trigger] ds[l] == 0,
    decreases ds.len(),
{
    if ds.len() > 0 && ds.last() == 0 {
        lemma_trailing_zeros_bounds(ds.drop_last());
        let t = trailing_zeros(ds);
        assert forall|l: int| ds.len() - t <= l < ds.len() implies #[trigger] ds[l] == 0 by {
            if l < ds.len() - 1 {
                assert(ds.drop_last()[l] == ds[l]);
            }
        }
        if t < ds.len() {
            assert(ds.drop_last()[ds.drop_last().len() - (t - 1) - 1] != 0);
        }
    }
}


/// Scan forward over digit characters.
fn scan_digits(s: &str, from: usize, n: usize) -> (r: usize)
    requires
        from <= n,
        n == s@.len(),
    ensures
        r == skip_digits(s@, from as int),
        from <= r <= n,
    decreases n - from,
{
    proof {
        lemma_skip_digits(s@, from as int);
    }
    if from < n {
        let c = s.get_char(from);
        if (c as u32) >= 48 && (c as u32) <= 57 {
            scan_digits(s, from + 1, n)
        } else {
            from
        }
    } else {
        from
    }
}

/// Append the digit values of `s[from .. to)`.
fn push_digit_range(s: &str, from: usize, to: usize, mant: &mut Vec<u8>)
    requires
        from <= to,
        to <= s@.len(),
        forall|j: int| from <= j < to ==> is_digit(#[trigger] s@[j]),
    ensures
        final(mant)@ == old(mant)@ + digit_seq(s@, from as int, to as int),
    decreases to - from,
{
    if from == to {
        proof {
            assert(mant@ =~= mant@ + digit_seq(s@, from as int, to as int));
        }
    } else {
        let c = s.get_char(from);
        proof {
            assert(is_digit(s@[from as int]));
        }
        mant.push(((c as u32) - 48) as u8);
        push_digit_range(s, from + 1, to, mant);
        proof {
            assert(final(mant)@ =~= old(mant)@ + digit_seq(s@, from as int, to as int));
        }
    }
}

/// Accumulate an exponent digit run, saturating at the cap.
fn exp_accum(s: &str, from: usize, to: usize) -> (r: i128)
    requires
        from <= to,
        to <= s@.len(),
        forall|j: int| from <= j < to ==> is_digit(#[trigger] s@[j]),
    ensures
        r == exp_digits_val(s@, from as int, to as int, 0),
        0 <= r <= exp_cap(),
{
    let mut acc: i128 = 0;
    let mut i: usize = from;
    proof {
        lemma_exp_digits_val_bounds(s@, from as int, to as int, 0);
    }
    while i < to
        invariant
            from <= i <= to,
            to <= s@.len(),
            forall|j: int| from <= j < to ==> is_digit(#[trigger] s@[j]),
            0 <= acc <= exp_cap(),
            exp_digits_val(s@, from as int, to as int, 0) == exp_digits_val(
                s@,
                i as int,
                to as int,
                acc as int,
            ),
        decreases to - i,
    {
        let c = s.get_char(i);
        proof {
            assert(is_digit(s@[i as int]));
        }
        let d = ((c as u32) - 48) as u8;
        let a = acc * 10 + d as i128;
        acc = if a > 1000000000000000000i128 {
            1000000000000000000i128
        } else {
            a
        };
        i += 1;
    }
    acc
}

/// Bring a raw digit run into canonical form.
#[verifier::loop_isolation(false)]
fn normalize_exec(neg: bool, ds: Vec<u8>, exp: i128) -> (r: Decimal)
    requires
        forall|l: int| 0 <= l < ds@.len() ==> #[trigger] ds@[l] <= 9,
        -2000000000000000000 - ds@.len() <= exp <= 2000000000000000000,
    ensures
        r.view() == normalize_dec(neg, ds@, exp as int),
        dec_wf(r.view()),
{
    proof {
        lemma_normalize_wf(neg, ds@, exp as int);
    }
    let n = ds.len();
    let mut lead: usize = 0;
    while lead < n && ds[lead] == 0
        invariant
            lead <= n,
            forall|l: int| 0 <= l < lead ==> #[trigger] ds@[l] == 0,
        decreases n - lead,
    {
        lead += 1;
    }
    proof {
        lemma_strip_leading_zeros(ds@, lead as int);
    }
    if lead == n {
        let r = Decimal { neg: false, digits: Vec::new(), exp: 0 };
        proof {
            assert(strip_leading_zeros(ds@).len() == 0);
            assert(r.view() =~= normalize_dec(neg, ds@, exp as int));
        }
        r
    } else {
        let ghost core_full = ds@.skip(lead as int);
        let mut trail: usize = 0;
        while ds[n - 1 - trail] == 0
            invariant
                lead < n,
                ds@[lead as int] != 0,
                trail <= n - 1 - lead,
                forall|l: int| n - trail <= l < n ==> #[trigger] ds@[l] == 0,
            decreases n - trail,
        {
            trail += 1;
        }
        proof {
            assert(core_full.len() == n - lead);
            assert forall|l: int| core_full.len() - trail <= l < core_full.len() implies
                #[trigger] core_full[l] == 0 by {
                assert(core_full[l] == ds@[l + lead]);
            }
            assert(core_full[core_full.len() - trail - 1] == ds@[n - 1 - trail]);
            lemma_trailing_zeros(core_full, trail as int);
        }
        let stop = n - trail;
        let mut core: Vec<u8> = Vec::new();
        let mut k = lead;
        while k < stop
            invariant
                lead <= k <= stop,
                core@.len() == k - lead,
                forall|l: int| 0 <= l < k - lead ==> #[trigger] core@[l] == ds@[l + lead],
            decreases stop - k,
        {
            let d = ds[k];
            core.push(d);
            k += 1;
        }
        let e2 = exp + trail as i128;
        let r = Decimal { neg, digits: core, exp: e2 };
        proof {
            assert(core@ =~= core_full.take(core_full.len() - trail));
            assert(r.view() =~= normalize_dec(neg, ds@, exp as int));
        }
        r
    }
}

impl Decimal {
    /// Parse a decimal number literal; `None` exactly when the characters
    /// do not form one.
    #[verifier::rlimit(80)]
    pub fn parse(s: &str) -> (r: Option<Decimal>)
        ensures
            r is Some <==> parse_dec_spec(s@) is Some,
            r matches Some(d) ==> parse_dec_spec(s@) == Some(d.view()) && dec_wf(d.view()),
    {
        let n = s.unicode_len();
        if n == 0 {
            return Option::None;
        }
        let c0 = s.get_char(0);
        let has_sign = c0 == '+' || c0 == '-';
        let neg = c0 == '-';
        let i0: usize = if has_sign {
            1
        } else {
            0
        };
        let i1 = scan_digits(s, i0, n);
        proof {
            lemma_skip_digits(s@, i0 as int);
        }
        let has_dot = i1 < n && s.get_char(i1) == '.';
        let fs: usize = if has_dot {
            i1 + 1
        } else {
            i1
        };
        let i2 = scan_digits(s, fs, n);
        proof {
            lemma_skip_digits(s@, fs as int);
        }
        if i1 == i0 && i2 == fs {
            return Option::None;
        }
        let mut mant: Vec<u8> = Vec::new();
        push_digit_range(s, i0, i1, &mut mant);
        push_digit_range(s, fs, i2, &mut mant);
        proof {
            assert(mant@ == digit_seq(s@, i0 as int, i1 as int) + digit_seq(
                s@,
                fs as int,
                i2 as int,
            ));
            assert forall|l: int| 0 <= l < mant@.len() implies #[trigger] mant@[l] <= 9 by {
                if l < i1 - i0 {
                    assert(mant@[l] == digit_val(s@[i0 + l]));
                    assert(is_digit(s@[i0 + l]));
                } else {
                    assert(mant@[l] == digit_val(s@[fs + (l - (i1 - i0))]));
                    assert(is_digit(s@[fs + (l - (i1 - i0))]));
                }
            }
        }
        let frac_len = i2 - fs;
        if i2 == n {
            let d = normalize_exec(neg, mant, -(frac_len as i128));
            return Option::Some(d);
        }
        let ce = s.get_char(i2);
        if ce == 'e' || ce == 'E' {
            let j0 = i2 + 1;
            if j0 >= n {
                return Option::None;
            }
            let cj = s.get_char(j0);
            let esign = cj == '+' || cj == '-';
            let eneg = cj == '-';
            let j1: usize = if esign {
                j0 + 1
            } else {
                j0
            };
            let j2 = scan_digits(s, j1, n);
            proof {
                lemma_skip_digits(s@, j1 as int);
            }
            if j1 == j2 || j2 != n {
                return Option::None;
            }
            let e = exp_accum(s, j1, j2);
            let ee: i128 = if eneg {
                -e
            } else {
                e
            };
            let d = normalize_exec(neg, mant, ee - frac_len as i128);
            Option::Some(d)
        } else {
            Option::None
        }
    }
}

// ===================================================================
// Rendering
// ===================================================================

/// The character for one decimal digit; out-of-range bytes fall back to
/// zero so that rendering stays total.
pub open spec fn digit_char(d: u8) -> char {
    if d <= 9 {
        (((48 + d) as u8) as char)
    } else {
        '0'
    }
}

pub open spec fn digit_chars(ds: Seq<u8>) -> Seq<char> {
    Seq::new(ds.len(), |i: int| digit_char(ds[i]))
}

pub open spec fn zero_chars(n: int) -> Seq<char> {
    Seq::new(if n >= 0 { n as nat } else { 0 }, |i: int| '0')
}

/// The plain decimal expansion of a canonical decimal, with no exponent
/// notation: the digits with trailing zeros for a nonnegative exponent, or
/// with the point placed (and zero-padded) for a negative one.
pub open spec fn dec_render_spec(d: DecimalV) -> Seq<char> {
    if d.digits.len() == 0 {
        seq!['0']
    } else {
        let sign: Seq<char> = if d.neg {
            seq!['-']
        } else {
            Seq::empty()
        };
        let body = if d.exp >= 0 {
            digit_chars(d.digits) + zero_chars(d.exp)
        } else if d.digits.len() as int + d.exp > 0 {
            let point = d.digits.len() as int + d.exp;
            digit_chars(d.digits.take(point)) + seq!['.'] + digit_chars(d.digits.skip(point))
        } else {
            seq!['0', '.'] + zero_chars(-d.exp - d.digits.len()) + digit_chars(d.digits)
        };
        sign + body
    }
}

/// Append one digit's character.
fn push_digit_char(out: &mut String, d: u8)
    ensures
        final(out)@ == old(out)@.push(digit_char(d)),
{
    if d <= 9 {
        push_char(out, (48 + d) as char);
    } else {
        push_char(out, '0');
    }
}

/// Append the characters of a digit run.
#[verifier::loop_isolation(false)]
fn push_digit_run(out: &mut String, ds: &Vec<u8>, from: usize, to: usize)
    requires
        from <= to,
        to <= ds@.len(),
    ensures
        final(out)@ == old(out)@ + digit_chars(ds@.subrange(from as int, to as int)),
{
    let ghost base = out@;
    let mut k = from;
    while k < to
        invariant
            from <= k <= to,
            out@ == base + digit_chars(ds@.subrange(from as int, k as int)),
        decreases to - k,
    {
        let d = ds[k];
        push_digit_char(out, d);
        proof {
            assert(out@ =~= base + digit_chars(ds@.subrange(from as int, (k + 1) as int)));
        }
        k += 1;
    }
}

/// Append a run of zero characters.
#[verifier::loop_isolation(false)]
fn push_zero_run(out: &mut String, count: i128)
    requires
        count >= 0,
    ensures
        final(out)@ == old(out)@ + zero_chars(count as int),
{
    let ghost base = out@;
    let mut j: i128 = 0;
    while j < count
        invariant
            0 <= j <= count,
            out@ == base + zero_chars(j as int),
        decreases count - j,
    {
        push_char(out, '0');
        proof {
            assert(out@ =~= base + zero_chars((j + 1) as int));
        }
        j += 1;
    }
}

impl Decimal {
    /// The plain decimal expansion, the way a number prints by default.
    pub fn to_decimal_string(&self) -> (r: String)
        ensures
            r@ == dec_render_spec(self.view()),
    {
        let mut out = String::new();
        if self.digits.len() == 0 {
            push_char(&mut out, '0');
            proof {
                assert(out@ =~= dec_render_spec(self.view()));
            }
            return out;
        }
        if self.neg {
            push_char(&mut out, '-');
        }
        let ghost sign_part = out@;
        let n = self.digits.len();
        if self.exp >= 0 {
            push_digit_run(&mut out, &self.digits, 0, n);
            proof {
                assert(self.digits@.subrange(0, n as int) =~= self.digits@);
            }
            push_zero_run(&mut out, self.exp);
            proof {
                assert(out@ =~= dec_render_spec(self.view()));
            }
            out
        } else if self.exp > -(n as i128) {
            let point = ((n as i128) + self.exp) as usize;
            push_digit_run(&mut out, &self.digits, 0, point);
            push_char(&mut out, '.');
            push_digit_run(&mut out, &self.digits, point, n);
            proof {
                let p = point as int;
                assert(digit_chars(self.digits@.subrange(0, p)) =~= digit_chars(
                    self.digits@.take(p),
                ));
                assert(digit_chars(self.digits@.subrange(p, n as int)) =~= digit_chars(
                    self.digits@.skip(p),
                ));
                assert(out@ =~= dec_render_spec(self.view()));
            }
            out
        } else {
            push_char(&mut out, '0');
            push_char(&mut out, '.');
            let count = -(self.exp + (n as i128));
            push_zero_run(&mut out, count);
            push_digit_run(&mut out, &self.digits, 0, n);
            proof {
                assert(self.digits@.subrange(0, n as int) =~= self.digits@);
                assert(out@ =~= dec_render_spec(self.view()));
            }
            out
        }
    }
}

} // verus!
