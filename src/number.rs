use vstd::prelude::*;
use vstd::string::*;

verus! {

pub open spec fn is_digit(c: char) -> bool {
    '0' <= c && c <= '9'
}

pub open spec fn digit_value(c: char) -> int {
    (c as u32) as int - 48
}

pub open spec fn all_digits(s: Seq<char>) -> bool {
    forall|k: int| 0 <= k < s.len() ==> is_digit(#[trigger] s[k])
}

/// The number a run of decimal digits denotes.
pub open spec fn digits_value(s: Seq<char>) -> int
    decreases s.len(),
{
    if s.len() == 0 {
        0
    } else {
        10 * digits_value(s.drop_last()) + digit_value(s.last())
    }
}

pub open spec fn pow10(n: nat) -> int
    decreases n,
{
    if n == 0 {
        1
    } else {
        10 * pow10((n - 1) as nat)
    }
}

/// Position of the first `.`, or the length where there is none.
pub open spec fn dot_index(u: Seq<char>) -> int
    decreases u.len(),
{
    if u.len() == 0 {
        0
    } else if u[0] == '.' {
        0
    } else {
        1 + dot_index(u.drop_first())
    }
}

pub open spec fn int_digits(u: Seq<char>) -> Seq<char> {
    u.take(dot_index(u))
}

pub open spec fn frac_digits(u: Seq<char>) -> Seq<char> {
    if dot_index(u) < u.len() {
        u.skip(dot_index(u) + 1)
    } else {
        Seq::empty()
    }
}

pub open spec fn unsigned_body(s: Seq<char>) -> Seq<char> {
    if s.len() > 0 && (s[0] == '-' || s[0] == '+') {
        s.drop_first()
    } else {
        s
    }
}

pub open spec fn negative_sign(s: Seq<char>) -> bool {
    s.len() > 0 && s[0] == '-'
}

pub open spec fn is_exp_mark(c: char) -> bool {
    c == 'e' || c == 'E'
}

/// Position of the first `e` or `E`, or the length where there is none.
pub open spec fn exp_index(u: Seq<char>) -> int
    decreases u.len(),
{
    if u.len() == 0 {
        0
    } else if is_exp_mark(u[0]) {
        0
    } else {
        1 + exp_index(u.drop_first())
    }
}

/// What precedes the exponent.
pub open spec fn mantissa(u: Seq<char>) -> Seq<char> {
    u.take(exp_index(u))
}

pub open spec fn has_exponent(u: Seq<char>) -> bool {
    exp_index(u) < u.len()
}

/// What follows the exponent mark, sign included.
pub open spec fn exponent_text(u: Seq<char>) -> Seq<char> {
    u.skip(exp_index(u) + 1)
}

/// An unsigned decimal in the grammar of Rust's float parsing, less `inf`
/// and `NaN`: digits, optionally `.` and digits, at least one digit in all;
/// then optionally `e` or `E`, a sign and at least one digit.
pub open spec fn well_formed(u: Seq<char>) -> bool {
    let m = mantissa(u);
    &&& all_digits(int_digits(m))
    &&& all_digits(frac_digits(m))
    &&& int_digits(m).len() + frac_digits(m).len() > 0
    &&& has_exponent(u) ==> unsigned_body(exponent_text(u)).len() > 0 && all_digits(
        unsigned_body(exponent_text(u)),
    )
}

pub open spec fn exponent_value(u: Seq<char>) -> int {
    if has_exponent(u) {
        let v = digits_value(unsigned_body(exponent_text(u)));
        if negative_sign(exponent_text(u)) {
            -v
        } else {
            v
        }
    } else {
        0
    }
}

/// All digits of the mantissa, the point left out.
pub open spec fn mantissa_digits(u: Seq<char>) -> Seq<char> {
    int_digits(mantissa(u)) + frac_digits(mantissa(u))
}

/// The integer part of the number whose digits are `d` with the point after
/// the first `p` of them.
pub open spec fn shifted(d: Seq<char>, p: int) -> int {
    if p <= 0 {
        0
    } else if p <= d.len() {
        digits_value(d.take(p))
    } else {
        digits_value(d) * pow10((p - d.len()) as nat)
    }
}

/// An unsigned decimal in millionths, digits past the sixth after the point
/// dropped.
pub open spec fn magnitude_micros(u: Seq<char>) -> int {
    shifted(mantissa_digits(u), int_digits(mantissa(u)).len() + 6 + exponent_value(u))
}

/// A decimal number with an optional sign, in millionths, truncated toward
/// zero past one millionth; none where the text is not such a number or the
/// result does not fit in an `i64`.
pub open spec fn decimal_micros(s: Seq<char>) -> Option<int> {
    let u = unsigned_body(s);
    if well_formed(u) {
        let m = magnitude_micros(u);
        let v = if negative_sign(s) {
            -m
        } else {
            m
        };
        if i64::MIN <= v <= i64::MAX {
            Some(v)
        } else {
            None
        }
    } else {
        None
    }
}

/// One more than the largest magnitude an `i64` holds.
pub const MAGNITUDE_CAP: u128 = 0x8000_0000_0000_0001;

/// An exponent at least this large sends any non-zero number out of range.
pub const EXPONENT_CAP: i128 = 0x1_0000_0000_0000_0000_0000;

pub open spec fn min_int(a: int, b: int) -> int {
    if a < b {
        a
    } else {
        b
    }
}

proof fn lemma_dot_index(u: Seq<char>, m: int)
    requires
        0 <= m <= u.len(),
        forall|j: int| 0 <= j < m ==> u[j] != '.',
    ensures
        m <= dot_index(u) <= u.len(),
        m < u.len() && u[m] == '.' ==> dot_index(u) == m,
    decreases m,
{
    if m > 0 {
        lemma_dot_index(u.drop_first(), m - 1);
    } else {
        lemma_dot_index_le(u);
    }
}

proof fn lemma_dot_index_le(u: Seq<char>)
    ensures
        0 <= dot_index(u) <= u.len(),
    decreases u.len(),
{
    if u.len() > 0 {
        lemma_dot_index_le(u.drop_first());
    }
}

proof fn lemma_exp_index(u: Seq<char>, m: int)
    requires
        0 <= m <= u.len(),
        forall|j: int| 0 <= j < m ==> !is_exp_mark(u[j]),
    ensures
        m <= exp_index(u) <= u.len(),
        m < u.len() && is_exp_mark(u[m]) ==> exp_index(u) == m,
    decreases m,
{
    if m > 0 {
        lemma_exp_index(u.drop_first(), m - 1);
    } else {
        lemma_exp_index_le(u);
    }
}

proof fn lemma_exp_index_le(u: Seq<char>)
    ensures
        0 <= exp_index(u) <= u.len(),
    decreases u.len(),
{
    if u.len() > 0 {
        lemma_exp_index_le(u.drop_first());
    }
}

proof fn lemma_pow10_small(k: nat)
    requires
        k <= 19,
    ensures
        1 <= pow10(k) <= 10_000_000_000_000_000_000,
        k <= 18 ==> pow10(k) <= 1_000_000_000_000_000_000,
        k == 19 ==> pow10(k) == 10_000_000_000_000_000_000,
{
    reveal_with_fuel(pow10, 20);
}

proof fn lemma_pow10_large(k: nat)
    requires
        k >= 19,
    ensures
        pow10(k) >= 10_000_000_000_000_000_000,
    decreases k,
{
    if k == 19 {
        lemma_pow10_small(19);
    } else {
        lemma_pow10_large((k - 1) as nat);
    }
}

proof fn lemma_digits_nonneg(s: Seq<char>)
    requires
        all_digits(s),
    ensures
        digits_value(s) >= 0,
    decreases s.len(),
{
    if s.len() > 0 {
        assert(all_digits(s.drop_last())) by {
            assert forall|k: int| 0 <= k < s.drop_last().len() implies is_digit(
                #[trigger] s.drop_last()[k],
            ) by {
                assert(s.drop_last()[k] == s[k]);
            }
        }
        lemma_digits_nonneg(s.drop_last());
        assert(is_digit(s[s.len() - 1]));
    }
}

/// Far enough to the right of the digits, the capped value no longer
/// depends on where the point stands.
proof fn lemma_shift_far(d: Seq<char>, p: int)
    requires
        all_digits(d),
        p >= d.len() + 19,
    ensures
        min_int(shifted(d, p), MAGNITUDE_CAP as int) == if digits_value(d) == 0 {
            0
        } else {
            MAGNITUDE_CAP as int
        },
{
    lemma_digits_nonneg(d);
    let k = (p - d.len()) as nat;
    lemma_pow10_large(k);
    let a = digits_value(d);
    let b = pow10(k);
    if a > 0 {
        assert(a * b >= b) by (nonlinear_arith)
            requires
                a >= 1,
                b >= 0,
        ;
    } else {
        assert(a * b == 0) by (nonlinear_arith)
            requires
                a == 0,
        ;
    }
}

proof fn lemma_digits_push(s: Seq<char>, k: int)
    requires
        0 <= k < s.len(),
    ensures
        digits_value(s.take(k + 1)) == 10 * digits_value(s.take(k)) + digit_value(s[k]),
{
    assert(s.take(k + 1).drop_last() =~= s.take(k));
}

/// The value of the first `k` digits, capped at `MAGNITUDE_CAP`.
fn capped_prefix(d: &Vec<char>, k: usize) -> (r: u128)
    requires
        all_digits(d@),
        k <= d@.len(),
    ensures
        r as int == min_int(digits_value(d@.take(k as int)), MAGNITUDE_CAP as int),
{
    let mut v: u128 = 0;
    let mut j: usize = 0;
    assert(d@.take(0) =~= Seq::<char>::empty());
    while j < k
        invariant
            k <= d@.len(),
            j <= k,
            all_digits(d@),
            v as int == min_int(digits_value(d@.take(j as int)), MAGNITUDE_CAP as int),
        decreases k - j,
    {
        let c = d[j];
        proof {
            lemma_digits_push(d@, j as int);
            assert(is_digit(d@[j as int]));
            assert(all_digits(d@.take(j as int))) by {
                assert forall|t: int| 0 <= t < j implies is_digit(#[trigger] d@.take(j as int)[t]) by {
                    assert(d@.take(j as int)[t] == d@[t]);
                }
            }
            lemma_digits_nonneg(d@.take(j as int));
        }
        let next = v * 10 + (c as u32 - 48) as u128;
        v = if next > MAGNITUDE_CAP {
            MAGNITUDE_CAP
        } else {
            next
        };
        j = j + 1;
    }
    v
}

/// `shifted(d, p)` capped at `MAGNITUDE_CAP`.
fn capped_shift(d: &Vec<char>, p: i128) -> (r: u128)
    requires
        all_digits(d@),
    ensures
        r as int == min_int(shifted(d@, p as int), MAGNITUDE_CAP as int),
{
    let len = d.len();
    if p <= 0 {
        return 0;
    }
    if p <= len as i128 {
        return capped_prefix(d, p as usize);
    }
    let all = capped_prefix(d, len);
    assert(d@.take(len as int) =~= d@);
    proof {
        lemma_digits_nonneg(d@);
    }
    if all == 0 {
        proof {
            let q = pow10((p - len) as nat);
            assert(digits_value(d@) == 0);
            assert(digits_value(d@) * q == 0) by (nonlinear_arith)
                requires
                    digits_value(d@) == 0,
            ;
        }
        return 0;
    }
    if p - len as i128 >= 19 {
        proof {
            lemma_shift_far(d@, p as int);
        }
        return MAGNITUDE_CAP;
    }
    let k = (p - len as i128) as u32;
    let mut m: u128 = all;
    let mut t: u32 = 0;
    assert(pow10(0) == 1);
    while t < k
        invariant
            k < 19,
            t <= k,
            1 <= all <= MAGNITUDE_CAP,
            m as int == all as int * pow10(t as nat),
        decreases k - t,
    {
        proof {
            lemma_pow10_small(t as nat);
            lemma_pow10_small((t + 1) as nat);
            let a = all as int;
            let q = pow10(t as nat);
            assert(pow10((t + 1) as nat) == 10 * q);
            assert(a * (10 * q) == 10 * (a * q)) by (nonlinear_arith);
            assert(a * q <= MAGNITUDE_CAP as int * 1_000_000_000_000_000_000) by (nonlinear_arith)
                requires
                    a <= MAGNITUDE_CAP as int,
                    q <= 1_000_000_000_000_000_000,
                    a >= 0,
                    q >= 0,
            ;
        }
        m = m * 10;
        t = t + 1;
    }
    proof {
        let a = digits_value(d@);
        let q = pow10(k as nat);
        lemma_pow10_small(k as nat);
        if a >= MAGNITUDE_CAP as int {
            assert(a * q >= a) by (nonlinear_arith)
                requires
                    q >= 1,
                    a >= 0,
            ;
            assert(all as int * q >= all as int) by (nonlinear_arith)
                requires
                    q >= 1,
                    all >= 0,
            ;
        }
    }
    if m > MAGNITUDE_CAP {
        MAGNITUDE_CAP
    } else {
        m
    }
}

fn digit_char(c: char) -> (r: bool)
    ensures
        r == is_digit(c),
{
    c >= '0' && c <= '9'
}

/// Reads a number of minutes into millionths of a minute: the text is read
/// as Rust reads a float (an optional sign, digits with an optional point,
/// an optional exponent), digits past one millionth are dropped (the value
/// is truncated toward zero), and the text is refused where it is `inf` or
/// `NaN`, or where the value does not fit in an `i64` of millionths.
#[verifier::rlimit(100)]
pub fn parse_micros(text: &str) -> (r: Option<i64>)
    ensures
        match r {
            Some(v) => decimal_micros(text@) == Some(v as int),
            None => decimal_micros(text@) is None,
        },
{
    let ghost s = text@;
    let n = text.unicode_len();
    let mut start: usize = 0;
    let mut negative = false;
    if n > 0 {
        let c = text.get_char(0);
        if c == '-' {
            negative = true;
            start = 1;
        } else if c == '+' {
            start = 1;
        }
    }
    let ghost u = unsigned_body(s);
    assert(u =~= s.skip(start as int));
    assert(negative == negative_sign(s));
    // Digits before the point.
    let mut digits: Vec<char> = Vec::new();
    let mut i: usize = start;
    assert(digits@ =~= u.take(0));
    while i < n && digit_char(text.get_char(i))
        invariant
            n == s.len(),
            s == text@,
            u == unsigned_body(s),
            u == s.skip(start as int),
            start <= i <= n,
            digits@ == u.take(i - start),
            forall|j: int| 0 <= j < i - start ==> is_digit(#[trigger] u[j]),
        decreases n - i,
    {
        let c = text.get_char(i);
        digits.push(c);
        proof {
            assert(u[i - start] == s[i as int]);
            assert(digits@ =~= u.take(i + 1 - start));
        }
        i = i + 1;
    }
    let int_len: usize = i - start;
    let ghost a = int_len as int;
    proof {
        assert forall|j: int| 0 <= j < a implies u[j] != '.' && !is_exp_mark(u[j]) by {
            assert(is_digit(u[j]));
        }
        if i < n {
            assert(u[a] == s[i as int]);
        }
    }
    // Digits after the point.
    let mut seen_dot = false;
    if i < n && text.get_char(i) == '.' {
        seen_dot = true;
        i = i + 1;
        while i < n && digit_char(text.get_char(i))
            invariant
                n == s.len(),
                s == text@,
                u == unsigned_body(s),
                u == s.skip(start as int),
                start + int_len < i <= n,
                a == int_len,
                u[a] == '.',
                digits@ == u.take(a) + u.subrange(a + 1, i - start),
                forall|j: int| 0 <= j < a ==> is_digit(#[trigger] u[j]),
                forall|j: int| a < j < i - start ==> is_digit(#[trigger] u[j]),
            decreases n - i,
        {
            let c = text.get_char(i);
            digits.push(c);
            proof {
                assert(u[i - start] == s[i as int]);
                assert(digits@ =~= u.take(a) + u.subrange(a + 1, i + 1 - start));
            }
            i = i + 1;
        }
    }
    let ghost x = i - start;
    proof {
        if i < n {
            assert(u[x] == s[i as int]);
        }
        assert forall|j: int| 0 <= j < x && j != a implies is_digit(u[j]) by {
            if j > a {
                assert(seen_dot);
            }
        }
        assert forall|j: int| 0 <= j < x implies !is_exp_mark(#[trigger] u[j]) by {
            if j != a {
                assert(is_digit(u[j]));
            }
        }
        if !seen_dot && x < u.len() {
            assert(u[x] != '.' || !(i < n));
        }
    }
    // Where the mantissa stops: the end, an exponent mark, or a stray character.
    if i < n {
        let c = text.get_char(i);
        if !(c == 'e' || c == 'E') {
            proof {
                lemma_exp_index(u, x + 1);
                let m = mantissa(u);
                assert(m[x] == u[x]);
                if seen_dot {
                    assert forall|j: int| 0 <= j < a implies m[j] != '.' by {
                        assert(m[j] == u[j]);
                    }
                    lemma_dot_index(m, a);
                    assert(frac_digits(m)[x - a - 1] == u[x]);
                } else {
                    assert forall|j: int| 0 <= j < x + 1 implies m[j] != '.' by {
                        assert(m[j] == u[j]);
                        if j < x {
                            assert(is_digit(u[j]));
                        }
                    }
                    lemma_dot_index(m, x + 1);
                    assert(int_digits(m)[x] == u[x]);
                }
                assert(!well_formed(u));
            }
            return None;
        }
    }
    proof {
        lemma_exp_index(u, x);
        assert(exp_index(u) == x);
        let m = mantissa(u);
        assert(m =~= u.take(x));
        if seen_dot {
            assert forall|j: int| 0 <= j < a implies m[j] != '.' by {
                assert(m[j] == u[j]);
            }
            lemma_dot_index(m, a);
            assert(int_digits(m) =~= u.take(a));
            assert(frac_digits(m) =~= u.subrange(a + 1, x));
        } else {
            assert(x == a);
            assert forall|j: int| 0 <= j < x implies m[j] != '.' by {
                assert(m[j] == u[j]);
            }
            lemma_dot_index(m, x);
            assert(int_digits(m) =~= u.take(a));
            assert(frac_digits(m) =~= Seq::<char>::empty());
            assert(digits@ =~= u.take(a) + Seq::<char>::empty());
        }
        assert(mantissa_digits(u) == digits@);
        assert(all_digits(int_digits(m)));
        assert(all_digits(frac_digits(m))) by {
            assert forall|k: int| 0 <= k < frac_digits(m).len() implies is_digit(
                #[trigger] frac_digits(m)[k],
            ) by {
                assert(frac_digits(m)[k] == u[a + 1 + k]);
            }
        }
        assert(all_digits(digits@)) by {
            assert forall|k: int| 0 <= k < digits@.len() implies is_digit(#[trigger] digits@[k]) by {
                if k < a {
                    assert(digits@[k] == int_digits(m)[k]);
                } else {
                    assert(digits@[k] == frac_digits(m)[k - a]);
                }
            }
        }
    }
    if digits.len() == 0 {
        proof {
            assert(int_digits(mantissa(u)).len() + frac_digits(mantissa(u)).len() == 0);
        }
        return None;
    }
    // The exponent.
    let mut exp_negative = false;
    let mut exp_val: i128 = 0;
    if i < n {
        i = i + 1;
        let ghost xt = exponent_text(u);
        assert(xt =~= s.skip(i as int));
        if i < n {
            let c = text.get_char(i);
            if c == '-' {
                exp_negative = true;
                i = i + 1;
            } else if c == '+' {
                i = i + 1;
            }
        }
        let ghost ed = unsigned_body(xt);
        assert(ed =~= s.skip(i as int));
        assert(exp_negative == negative_sign(xt));
        if i == n {
            return None;
        }
        let es = i;
        assert(ed.take(0) =~= Seq::<char>::empty());
        while i < n
            invariant
                n == s.len(),
                s == text@,
                es <= i <= n,
                ed == s.skip(es as int),
                u == unsigned_body(s),
                ed == unsigned_body(exponent_text(u)),
                has_exponent(u),
                exp_negative == negative_sign(exponent_text(u)),
                negative == negative_sign(s),
                all_digits(int_digits(mantissa(u))),
                all_digits(frac_digits(mantissa(u))),
                int_digits(mantissa(u)).len() + frac_digits(mantissa(u)).len() > 0,
                int_digits(mantissa(u)).len() == int_len,
                mantissa_digits(u) == digits@,
                all_digits(digits@),
                forall|j: int| 0 <= j < i - es ==> is_digit(#[trigger] ed[j]),
                0 <= exp_val <= EXPONENT_CAP,
                exp_val as int == min_int(digits_value(ed.take(i - es)), EXPONENT_CAP as int),
            decreases n - i,
        {
            let c = text.get_char(i);
            proof {
                assert(ed[i - es] == s[i as int]);
            }
            if !digit_char(c) {
                assert(!all_digits(ed));
                return None;
            }
            proof {
                lemma_digits_push(ed, i - es);
                assert(all_digits(ed.take(i - es))) by {
                    assert forall|t: int| 0 <= t < i - es implies is_digit(
                        #[trigger] ed.take(i - es)[t],
                    ) by {
                        assert(ed.take(i - es)[t] == ed[t]);
                    }
                }
                lemma_digits_nonneg(ed.take(i - es));
            }
            let next = exp_val * 10 + (c as u32 - 48) as i128;
            exp_val = if next > EXPONENT_CAP {
                EXPONENT_CAP
            } else {
                next
            };
            i = i + 1;
        }
        proof {
            assert(ed.take(n - es) =~= ed);
            assert(all_digits(ed));
            lemma_digits_nonneg(ed);
        }
    } else {
        assert(!has_exponent(u));
    }
    proof {
        assert(well_formed(u));
    }
    // Place the point and read the digits before it.
    let p: i128 = if exp_negative {
        int_len as i128 + 6 - exp_val
    } else {
        int_len as i128 + 6 + exp_val
    };
    let mag = capped_shift(&digits, p);
    proof {
        let pt = a + 6 + exponent_value(u);
        if exp_val < EXPONENT_CAP {
            assert(pt == p);
        } else if exp_negative {
            assert(pt <= p);
            assert(p <= 0);
        } else {
            assert(pt >= p);
            lemma_shift_far(digits@, p as int);
            lemma_shift_far(digits@, pt);
        }
        assert(mag as int == min_int(magnitude_micros(u), MAGNITUDE_CAP as int));
    }
    if mag == MAGNITUDE_CAP {
        return None;
    }
    if negative {
        Some((0 - (mag as i128)) as i64)
    } else if mag <= 0x7fff_ffff_ffff_ffff {
        Some(mag as i64)
    } else {
        None
    }
}

} // verus!
