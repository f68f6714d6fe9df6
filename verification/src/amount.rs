//! Decimal money amounts.
//!
//! Amounts cross the store's boundary as decimal strings and are held
//! internally as a signed count of millionths ("micros"), so every amount
//! the caller sees is a fixed six-decimal-place rendering of the stored
//! value. A string parses when it is an optional sign, digits with at most
//! one decimal point and at least one digit, and its integer part is at
//! most `MAX_UNITS`; the seventh and later fraction digits round the sixth
//! up when they start with five or more (round half away from zero).

use vstd::prelude::*;

verus! {

/// Largest integer part a parsed amount may have; keeps every parsed
/// amount's micros strictly within one quintillion, well inside `i64`.
pub const MAX_UNITS: i64 = 999_999_999_999;

/// Micros of one whole unit.
pub const UNIT_MICROS: i64 = 1_000_000;

pub open spec fn is_digit(c: char) -> bool {
    '0' <= c <= '9'
}

pub open spec fn digit_val(c: char) -> int {
    c as u32 - 48
}

pub open spec fn digit_char(d: int) -> char {
    ((48 + d) as u8) as char
}

/// The string starts with an explicit sign.
pub open spec fn has_sign(s: Seq<char>) -> bool {
    s.len() > 0 && (s[0] == '+' || s[0] == '-')
}

/// The string without its sign, if any.
pub open spec fn body_of(s: Seq<char>) -> Seq<char> {
    if has_sign(s) {
        s.drop_first()
    } else {
        s
    }
}

/// Digits with at most one decimal point and at least one digit.
pub open spec fn body_ok(b: Seq<char>) -> bool {
    &&& b.len() > 0
    &&& forall|i: int| 0 <= i < b.len() ==> is_digit(#[trigger] b[i]) || b[i] == '.'
    &&& forall|i: int, j: int| 0 <= i < j < b.len() ==> !(#[trigger] b[i] == '.' && #[trigger] b[j]
        == '.')
    &&& exists|i: int| 0 <= i < b.len() && is_digit(#[trigger] b[i])
}

/// Index of the decimal point, or the length when there is none.
pub open spec fn dot_pos(b: Seq<char>) -> int
    decreases b.len(),
{
    if b.len() == 0 {
        0
    } else if b[0] == '.' {
        0
    } else {
        1 + dot_pos(b.drop_first())
    }
}

pub open spec fn int_digits(b: Seq<char>) -> Seq<char> {
    b.take(dot_pos(b))
}

pub open spec fn frac_digits(b: Seq<char>) -> Seq<char> {
    if dot_pos(b) < b.len() {
        b.skip(dot_pos(b) + 1)
    } else {
        Seq::empty()
    }
}

/// Value of a digit string read left to right.
pub open spec fn digits_val(s: Seq<char>) -> int
    decreases s.len(),
{
    if s.len() == 0 {
        0
    } else {
        digits_val(s.drop_last()) * 10 + digit_val(s.last())
    }
}

/// What multiplies the value of `k` fraction digits up to micros.
pub open spec fn frac_scale(k: int) -> int {
    if k <= 0 {
        1_000_000
    } else if k == 1 {
        100_000
    } else if k == 2 {
        10_000
    } else if k == 3 {
        1_000
    } else if k == 4 {
        100
    } else if k == 5 {
        10
    } else {
        1
    }
}

/// Fraction digits as micros, rounded half away from zero at six places.
pub open spec fn frac6(fd: Seq<char>) -> int {
    let k = if fd.len() <= 6 {
        fd.len() as int
    } else {
        6
    };
    digits_val(fd.take(k)) * frac_scale(k) + if fd.len() > 6 && digit_val(fd[6]) >= 5 {
        1int
    } else {
        0int
    }
}

/// The string is a decimal amount the store accepts.
pub open spec fn valid_amount(s: Seq<char>) -> bool {
    &&& body_ok(body_of(s))
    &&& digits_val(int_digits(body_of(s))) <= MAX_UNITS
}

/// Magnitude of the amount in micros, before the sign.
pub open spec fn amount_abs_micros(s: Seq<char>) -> int {
    digits_val(int_digits(body_of(s))) * (UNIT_MICROS as int) + frac6(frac_digits(body_of(s)))
}

/// The parsed amount in micros.
pub open spec fn amount_micros(s: Seq<char>) -> int {
    if s.len() > 0 && s[0] == '-' {
        -amount_abs_micros(s)
    } else {
        amount_abs_micros(s)
    }
}

/// Decimal digits of a nonnegative integer, most significant first.
pub open spec fn dec_str(n: int) -> Seq<char>
    decreases n,
{
    if n < 10 {
        seq![digit_char(n)]
    } else {
        dec_str(n / 10).push(digit_char(n % 10))
    }
}

/// A fraction under one million, zero-padded to exactly six digits.
pub open spec fn pad6(f: int) -> Seq<char> {
    seq![
        digit_char(f / 100_000 % 10),
        digit_char(f / 10_000 % 10),
        digit_char(f / 1_000 % 10),
        digit_char(f / 100 % 10),
        digit_char(f / 10 % 10),
        digit_char(f % 10),
    ]
}

/// The six-decimal-place rendering of an amount in micros.
pub open spec fn amount_string(m: int) -> Seq<char> {
    let mag = if m < 0 {
        -m
    } else {
        m
    };
    let sign: Seq<char> = if m < 0 {
        seq!['-']
    } else {
        Seq::empty()
    };
    sign + dec_str(mag / (UNIT_MICROS as int)) + seq!['.'] + pad6(mag % (UNIT_MICROS as int))
}

/// A digit string's value is nonnegative.
pub proof fn lemma_digits_val_nonneg(s: Seq<char>)
    requires
        forall|i: int| 0 <= i < s.len() ==> is_digit(#[trigger] s[i]),
    ensures
        digits_val(s) >= 0,
    decreases s.len(),
{
    if s.len() > 0 {
        lemma_digits_val_nonneg(s.drop_last());
    }
}

/// Reading one more digit multiplies the value by ten and adds the digit.
pub proof fn lemma_digits_val_push(s: Seq<char>, c: char)
    ensures
        digits_val(s.push(c)) == digits_val(s) * 10 + digit_val(c),
{
    assert(s.push(c).drop_last() =~= s);
    assert(s.push(c).last() == c);
}

/// Appends one decimal digit.
fn push_digit(s: &mut String, d: u8)
    requires
        d < 10,
    ensures
        final(s)@ == old(s)@ + seq![digit_char(d as int)],
{
    if d == 0 {
        proof {
            reveal_strlit("0");
            assert("0"@ =~= seq![digit_char(0)]);
        }
        s.append("0");
    } else if d == 1 {
        proof {
            reveal_strlit("1");
            assert("1"@ =~= seq![digit_char(1)]);
        }
        s.append("1");
    } else if d == 2 {
        proof {
            reveal_strlit("2");
            assert("2"@ =~= seq![digit_char(2)]);
        }
        s.append("2");
    } else if d == 3 {
        proof {
            reveal_strlit("3");
            assert("3"@ =~= seq![digit_char(3)]);
        }
        s.append("3");
    } else if d == 4 {
        proof {
            reveal_strlit("4");
            assert("4"@ =~= seq![digit_char(4)]);
        }
        s.append("4");
    } else if d == 5 {
        proof {
            reveal_strlit("5");
            assert("5"@ =~= seq![digit_char(5)]);
        }
        s.append("5");
    } else if d == 6 {
        proof {
            reveal_strlit("6");
            assert("6"@ =~= seq![digit_char(6)]);
        }
        s.append("6");
    } else if d == 7 {
        proof {
            reveal_strlit("7");
            assert("7"@ =~= seq![digit_char(7)]);
        }
        s.append("7");
    } else if d == 8 {
        proof {
            reveal_strlit("8");
            assert("8"@ =~= seq![digit_char(8)]);
        }
        s.append("8");
    } else {
        proof {
            reveal_strlit("9");
            assert("9"@ =~= seq![digit_char(9)]);
        }
        s.append("9");
    }
}

/// Appends the decimal digits of `n`, most significant first.
fn push_dec(s: &mut String, n: u64)
    ensures
        final(s)@ == old(s)@ + dec_str(n as int),
    decreases n,
{
    if n < 10 {
        push_digit(s, n as u8);
    } else {
        push_dec(s, n / 10);
        push_digit(s, (n % 10) as u8);
        proof {
            assert(old(s)@ + dec_str((n / 10) as int) + seq![digit_char((n % 10) as int)] =~= old(
                s,
            )@ + dec_str(n as int));
        }
    }
}

/// Renders an amount held in micros as its six-decimal-place string.
pub fn format_amount(m: i64) -> (r: String)
    ensures
        r@ == amount_string(m as int),
{
    let mag: u64 = if m < 0 {
        (-(m as i128)) as u64
    } else {
        m as u64
    };
    let units: u64 = mag / 1_000_000;
    let frac: u64 = mag % 1_000_000;
    let mut r = String::new();
    if m < 0 {
        proof {
            reveal_strlit("-");
            assert("-"@ =~= seq!['-']);
        }
        r.append("-");
    }
    push_dec(&mut r, units);
    proof {
        reveal_strlit(".");
        assert("."@ =~= seq!['.']);
    }
    r.append(".");
    push_digit(&mut r, (frac / 100_000 % 10) as u8);
    push_digit(&mut r, (frac / 10_000 % 10) as u8);
    push_digit(&mut r, (frac / 1_000 % 10) as u8);
    push_digit(&mut r, (frac / 100 % 10) as u8);
    push_digit(&mut r, (frac / 10 % 10) as u8);
    push_digit(&mut r, (frac % 10) as u8);
    proof {
        assert(r@ =~= amount_string(m as int));
    }
    r
}

/// A digit string's value only grows as more digits follow.
pub proof fn lemma_digits_val_take(s: Seq<char>, j: int)
    requires
        forall|i: int| 0 <= i < s.len() ==> is_digit(#[trigger] s[i]),
        0 <= j <= s.len(),
    ensures
        digits_val(s.take(j)) <= digits_val(s),
    decreases s.len() - j,
{
    if j == s.len() {
        assert(s.take(j) =~= s);
    } else {
        assert(s.take(j + 1) =~= s.take(j).push(s[j]));
        lemma_digits_val_push(s.take(j), s[j]);
        lemma_digits_val_nonneg(s.take(j));
        lemma_digits_val_take(s, j + 1);
    }
}

/// Where no earlier character is a dot, the dot sits exactly at `d`.
pub proof fn lemma_dot_pos_at(b: Seq<char>, d: int)
    requires
        0 <= d <= b.len(),
        forall|k: int| 0 <= k < d ==> #[trigger] b[k] != '.',
        d == b.len() || b[d] == '.',
    ensures
        dot_pos(b) == d,
    decreases d,
{
    if d == 0 {
    } else {
        assert(b[0] != '.');
        let t = b.drop_first();
        assert forall|k: int| 0 <= k < d - 1 implies #[trigger] t[k] != '.' by {
            assert(t[k] == b[k + 1]);
        }
        if d - 1 < t.len() {
            assert(t[d - 1] == b[d]);
        }
        lemma_dot_pos_at(t, d - 1);
    }
}

/// A written digit reads back as its value.
pub proof fn lemma_digit_char_val(d: int)
    requires
        0 <= d <= 9,
    ensures
        is_digit(digit_char(d)),
        digit_val(digit_char(d)) == d,
{
    assert((48 + d) as u8 == 48 + d);
    assert(((48 + d) as u8) as char as u32 == 48 + d);
}

/// `dec_str` writes decimal digits whose value is the number written.
pub proof fn lemma_dec_str(n: int)
    requires
        n >= 0,
    ensures
        dec_str(n).len() >= 1,
        forall|i: int| 0 <= i < dec_str(n).len() ==> is_digit(#[trigger] dec_str(n)[i]),
        digits_val(dec_str(n)) == n,
    decreases n,
{
    if n < 10 {
        lemma_digit_char_val(n);
        let s = dec_str(n);
        assert(s =~= seq![digit_char(n)]);
        assert(s.drop_last() =~= Seq::<char>::empty());
        assert(digits_val(Seq::<char>::empty()) == 0);
        assert(digits_val(s.drop_last()) == 0);
        assert(s.last() == digit_char(n));
        assert(s[0] == digit_char(n));
        assert(digits_val(s) == digit_val(digit_char(n)));
    } else {
        lemma_dec_str(n / 10);
        lemma_digit_char_val(n % 10);
        lemma_digits_val_push(dec_str(n / 10), digit_char(n % 10));
        assert forall|i: int| 0 <= i < dec_str(n).len() implies is_digit(
            #[trigger] dec_str(n)[i],
        ) by {
            if i < dec_str(n / 10).len() {
                assert(dec_str(n)[i] == dec_str(n / 10)[i]);
            }
        }
    }
}

/// `pad6` writes six digits whose value is the fraction written.
pub proof fn lemma_pad6(f: int)
    requires
        0 <= f < 1_000_000,
    ensures
        pad6(f).len() == 6,
        forall|i: int| 0 <= i < 6 ==> is_digit(#[trigger] pad6(f)[i]),
        digits_val(pad6(f)) == f,
{
    let s = pad6(f);
    lemma_digit_char_val(f / 100_000 % 10);
    lemma_digit_char_val(f / 10_000 % 10);
    lemma_digit_char_val(f / 1_000 % 10);
    lemma_digit_char_val(f / 100 % 10);
    lemma_digit_char_val(f / 10 % 10);
    lemma_digit_char_val(f % 10);
    assert(is_digit(s[0]) && is_digit(s[1]) && is_digit(s[2]) && is_digit(s[3]) && is_digit(s[4])
        && is_digit(s[5]));
    let s5 = s.drop_last();
    let s4 = s5.drop_last();
    let s3 = s4.drop_last();
    let s2 = s3.drop_last();
    let s1 = s2.drop_last();
    let s0 = s1.drop_last();
    assert(s0 =~= Seq::<char>::empty());
    assert(digits_val(Seq::<char>::empty()) == 0);
    assert(digits_val(s0) == 0);
    assert(s1.last() == s[0] && s2.last() == s[1] && s3.last() == s[2] && s4.last() == s[3]
        && s5.last() == s[4] && s.last() == s[5]);
    assert(digits_val(s1) == digits_val(s0) * 10 + digit_val(s1.last()));
    assert(digits_val(s1) == f / 100_000 % 10);
    assert(digits_val(s2) == digits_val(s1) * 10 + digit_val(s[1]));
    assert(digits_val(s3) == digits_val(s2) * 10 + digit_val(s[2]));
    assert(digits_val(s4) == digits_val(s3) * 10 + digit_val(s[3]));
    assert(digits_val(s5) == digits_val(s4) * 10 + digit_val(s[4]));
    assert(digits_val(s) == digits_val(s5) * 10 + digit_val(s[5]));
    assert(f / 100_000 % 10 == f / 100_000);
    assert(f / 100_000 * 10 + f / 10_000 % 10 == f / 10_000);
    assert(f / 10_000 * 10 + f / 1_000 % 10 == f / 1_000);
    assert(f / 1_000 * 10 + f / 100 % 10 == f / 100);
    assert(f / 100 * 10 + f / 10 % 10 == f / 10);
    assert(f / 10 * 10 + f % 10 == f);
}

/// The rendering of any amount in micros has a sign only when negative,
/// then digits, one dot, and exactly six fraction digits; within the range
/// the parser accepts it parses back to the same micros.
pub proof fn lemma_amount_string_round_trip(m: int)
    requires
        -1_000_000_000_000_000_000 < m < 1_000_000_000_000_000_000,
    ensures
        valid_amount(amount_string(m)),
        amount_micros(amount_string(m)) == m,
        amount_string(m).len() >= 8,
        amount_string(m)[amount_string(m).len() - 7] == '.',
        forall|i: int|
            amount_string(m).len() - 6 <= i < amount_string(m).len() ==> is_digit(
                #[trigger] amount_string(m)[i],
            ),
{
    let mag = if m < 0 {
        -m
    } else {
        m
    };
    let u = mag / 1_000_000;
    let fr = mag % 1_000_000;
    assert(0 <= u <= MAX_UNITS);
    assert(0 <= fr < 1_000_000);
    lemma_dec_str(u);
    lemma_pad6(fr);
    let ds = dec_str(u);
    let ps = pad6(fr);
    let s = amount_string(m);
    let sl: int = if m < 0 {
        1
    } else {
        0
    };
    let b = body_of(s);
    assert(s.len() == sl + ds.len() + 7);
    if m < 0 {
        assert(s[0] == '-');
        assert(has_sign(s));
        assert(b =~= ds + seq!['.'] + ps);
    } else {
        assert(s[0] == ds[0]);
        assert(is_digit(s[0]));
        assert(!has_sign(s));
        assert(b =~= ds + seq!['.'] + ps);
    }
    let dl = ds.len() as int;
    assert forall|i: int| 0 <= i < b.len() implies is_digit(#[trigger] b[i]) || b[i] == '.' by {
        if i < dl {
            assert(b[i] == ds[i]);
        } else if i == dl {
            assert(b[i] == '.');
        } else {
            assert(b[i] == ps[i - dl - 1]);
        }
    }
    assert forall|p: int, q: int| 0 <= p < q < b.len() implies !(#[trigger] b[p] == '.'
        && #[trigger] b[q] == '.') by {
        if p < dl {
            assert(b[p] == ds[p]);
        } else if p > dl {
            assert(b[p] == ps[p - dl - 1]);
        }
        if q < dl {
            assert(b[q] == ds[q]);
        } else if q > dl {
            assert(b[q] == ps[q - dl - 1]);
        }
    }
    assert(b[0] == ds[0] && is_digit(b[0]));
    assert(body_ok(b));
    assert forall|k: int| 0 <= k < dl implies #[trigger] b[k] != '.' by {
        assert(b[k] == ds[k]);
    }
    assert(b[dl] == '.');
    lemma_dot_pos_at(b, dl);
    assert(int_digits(b) =~= ds);
    assert(valid_amount(s));
    let fd = frac_digits(b);
    assert(fd =~= ps);
    assert(fd.take(6) =~= ps);
    assert(frac6(fd) == fr);
    assert(amount_abs_micros(s) == u * 1_000_000 + fr);
    assert(u * 1_000_000 + fr == mag);
    if m < 0 {
        assert(s[0] == '-');
        assert(amount_micros(s) == -mag);
    } else {
        assert(s[0] != '-');
        assert(amount_micros(s) == mag);
    }
    assert(s.len() - 7 == sl + dl);
    assert(s[sl + dl] == '.');
    assert forall|i: int| s.len() - 6 <= i < s.len() implies is_digit(#[trigger] s[i]) by {
        assert(s[i] == ps[i - (sl + dl + 1)]);
    }
}

/// Scaled digit values stay under one million while at most six digits are
/// read.
proof fn lemma_frac_step(v: int, d: int, sc: int)
    by (nonlinear_arith)
    requires
        v >= 0,
        0 <= d <= 9,
        sc >= 1,
        (v + 1) * (10 * sc) <= 1_000_000,
    ensures
        (v * 10 + d + 1) * sc <= 1_000_000,
        v * 10 + d >= 0,
{
}

/// Distributing one factor over a sum of products.
proof fn lemma_mul_distrib(f: int, sc: int)
    by (nonlinear_arith)
    ensures
        (f + 1) * sc == f * sc + sc,
{
}

/// At most six fraction digits scale to under one million micros.
pub proof fn lemma_digits_val_frac(s: Seq<char>)
    requires
        forall|i: int| 0 <= i < s.len() ==> is_digit(#[trigger] s[i]),
        s.len() <= 6,
    ensures
        digits_val(s) >= 0,
        (digits_val(s) + 1) * frac_scale(s.len() as int) <= 1_000_000,
    decreases s.len(),
{
    if s.len() == 0 {
    } else {
        let p = s.drop_last();
        assert(forall|i: int| 0 <= i < p.len() ==> is_digit(#[trigger] p[i]));
        lemma_digits_val_frac(p);
        let ln = s.len() as int;
        let v = digits_val(p);
        let d = digit_val(s.last());
        assert(frac_scale(ln - 1) == 10 * frac_scale(ln));
        assert((v + 1) * (10 * frac_scale(ln)) <= 1_000_000);
        lemma_frac_step(v, d, frac_scale(ln));
    }
}

/// Parses a decimal amount string into micros; `None` exactly on the
/// strings `valid_amount` rejects.
#[verifier::rlimit(60)]
pub fn parse_amount(s: &str) -> (r: Option<i64>)
    ensures
        match r {
            Some(v) => valid_amount(s@) && v as int == amount_micros(s@),
            None => !valid_amount(s@),
        },
{
    let n = s.unicode_len();
    if n == 0 {
        return None;
    }
    let c0 = s.get_char(0);
    let u0 = c0 as u32;
    let signed: bool = u0 == 43 || u0 == 45;
    let neg: bool = u0 == 45;
    let bs: usize = if signed {
        1
    } else {
        0
    };
    let ghost b = body_of(s@);
    proof {
        assert(has_sign(s@) == signed);
        if signed {
            assert forall|k: int| 0 <= k < b.len() implies #[trigger] b[k] == s@[k + bs] by {}
        } else {
            assert(b == s@);
        }
        assert(b.len() == n - bs);
    }
    if n == bs {
        proof {
            assert(!body_ok(b));
        }
        return None;
    }
    // First pass: every character is a digit or the one decimal point.
    let mut dot: usize = n;
    let mut saw_digit: bool = false;
    let mut i: usize = bs;
    while i < n
        invariant
            bs <= i <= n,
            n == s@.len(),
            bs <= 1,
            n > bs,
            b == body_of(s@),
            b.len() == n - bs,
            forall|k: int| 0 <= k < b.len() ==> #[trigger] b[k] == s@[k + bs],
            dot == n || (bs <= dot < i && s@[dot as int] == '.'),
            forall|k: int| bs <= k < i && k != dot ==> is_digit(#[trigger] s@[k]),
            saw_digit <==> exists|k: int| bs <= k < i && is_digit(#[trigger] s@[k]),
        decreases n - i,
    {
        let c = s.get_char(i);
        let u = c as u32;
        if u == 46 {
            proof {
                assert(c == '.');
            }
            if dot < n {
                proof {
                    assert(b[dot - bs] == '.');
                    assert(b[i - bs] == '.');
                    assert(!body_ok(b));
                }
                return None;
            }
            dot = i;
        } else if 48 <= u && u <= 57 {
            proof {
                assert(is_digit(s@[i as int]));
            }
            saw_digit = true;
        } else {
            proof {
                assert(!is_digit(b[i - bs]) && b[i - bs] != '.');
                assert(!body_ok(b));
            }
            return None;
        }
        i = i + 1;
    }
    if !saw_digit {
        proof {
            assert forall|k: int| 0 <= k < b.len() implies !is_digit(#[trigger] b[k]) by {
                assert(b[k] == s@[k + bs]);
            }
            assert(!body_ok(b));
        }
        return None;
    }
    proof {
        assert(body_ok(b)) by {
            assert forall|k: int| 0 <= k < b.len() implies is_digit(#[trigger] b[k]) || b[k]
                == '.' by {
                assert(b[k] == s@[k + bs]);
            }
            assert forall|p: int, q: int| 0 <= p < q < b.len() implies !(#[trigger] b[p] == '.'
                && #[trigger] b[q] == '.') by {
                assert(b[p] == s@[p + bs]);
                assert(b[q] == s@[q + bs]);
            }
            let kw = choose|k: int| bs <= k < n && is_digit(#[trigger] s@[k]);
            assert(b[kw - bs] == s@[kw]);
            assert(is_digit(b[kw - bs]));
        }
    }
    let ghost dp: int = if dot < n {
        dot - bs
    } else {
        n - bs
    };
    proof {
        assert forall|k: int| 0 <= k < dp implies #[trigger] b[k] != '.' by {
            assert(b[k] == s@[k + bs]);
            assert(is_digit(s@[k + bs]));
        }
        lemma_dot_pos_at(b, dp);
    }
    // Second pass: the integer part, watching the `MAX_UNITS` bound.
    let ie: usize = if dot < n {
        dot
    } else {
        n
    };
    let mut acc: u64 = 0;
    let mut k: usize = bs;
    while k < ie
        invariant
            bs <= k <= ie <= n,
            n == s@.len(),
            bs <= 1,
            b == body_of(s@),
            b.len() == n - bs,
            forall|j: int| 0 <= j < b.len() ==> #[trigger] b[j] == s@[j + bs],
            dp == dot_pos(b),
            dp == ie - bs,
            ie == n || s@[ie as int] == '.',
            body_ok(b),
            forall|j: int| bs <= j < ie ==> is_digit(#[trigger] s@[j]),
            acc <= MAX_UNITS as u64,
            acc as int == digits_val(b.take(k - bs)),
        decreases ie - k,
    {
        let c = s.get_char(k);
        let u = c as u32;
        proof {
            assert(is_digit(s@[k as int]));
            assert(b[k - bs] == s@[k as int]);
        }
        let d: u64 = (u - 48) as u64;
        let acc2: u64 = acc * 10 + d;
        proof {
            assert(b.take(k - bs + 1) =~= b.take(k - bs).push(b[k - bs]));
            lemma_digits_val_push(b.take(k - bs), b[k - bs]);
            assert(acc2 as int == digits_val(b.take(k - bs + 1)));
        }
        if acc2 > MAX_UNITS as u64 {
            proof {
                let idg = int_digits(b);
                assert(idg == b.take(dp));
                assert forall|j: int| 0 <= j < idg.len() implies is_digit(#[trigger] idg[j]) by {
                    assert(idg[j] == b[j]);
                    assert(b[j] == s@[j + bs]);
                }
                assert(idg.take(k - bs + 1) =~= b.take(k - bs + 1));
                lemma_digits_val_take(idg, k - bs + 1);
                assert(digits_val(idg) > MAX_UNITS);
                assert(!valid_amount(s@));
            }
            return None;
        }
        acc = acc2;
        k = k + 1;
    }
    proof {
        assert(b.take(k - bs) =~= int_digits(b));
        assert(acc as int == digits_val(int_digits(b)));
    }
    // Third pass: up to six fraction digits, then the rounding digit.
    let mut fmic: u64 = 0;
    let ghost fd = frac_digits(b);
    if dot < n {
        let fs: usize = dot + 1;
        let flen: usize = n - fs;
        proof {
            assert(fd == b.skip(dp + 1));
            assert(fd.len() == flen);
            assert forall|j: int| 0 <= j < fd.len() implies #[trigger] fd[j] == s@[j + fs] by {
                assert(fd[j] == b[j + dp + 1]);
                assert(b[j + dp + 1] == s@[j + dp + 1 + bs]);
            }
            assert forall|j: int| 0 <= j < fd.len() implies is_digit(#[trigger] fd[j]) by {
                assert(fd[j] == s@[j + fs]);
                assert(is_digit(s@[j + fs]));
            }
        }
        let fl6: usize = if flen < 6 {
            flen
        } else {
            6
        };
        let mut fbase: u64 = 0;
        let mut m: usize = fs;
        while m < fs + fl6
            invariant
                fs <= m <= fs + fl6,
                fs + fl6 <= n,
                n == s@.len(),
                fl6 <= 6,
                fd == frac_digits(b),
                fd.len() == n - fs,
                forall|j: int| 0 <= j < fd.len() ==> #[trigger] fd[j] == s@[j + fs],
                forall|j: int| 0 <= j < fd.len() ==> is_digit(#[trigger] fd[j]),
                fbase as int == digits_val(fd.take(m - fs)),
                (fbase as int + 1) * frac_scale(m - fs) <= 1_000_000,
            decreases fs + fl6 - m,
        {
            let c = s.get_char(m);
            let u = c as u32;
            proof {
                assert(fd[m - fs] == s@[m as int]);
                assert(is_digit(s@[m as int]));
                assert(frac_scale(m - fs) >= 10);
            }
            let d: u64 = (u - 48) as u64;
            proof {
                lemma_frac_step(fbase as int, d as int, frac_scale(m - fs + 1));
                assert(frac_scale(m - fs) == 10 * frac_scale(m - fs + 1));
                assert(fd.take(m - fs + 1) =~= fd.take(m - fs).push(fd[m - fs]));
                lemma_digits_val_push(fd.take(m - fs), fd[m - fs]);
            }
            fbase = fbase * 10 + d;
            m = m + 1;
        }
        let scale: u64 = if fl6 == 0 {
            1_000_000
        } else if fl6 == 1 {
            100_000
        } else if fl6 == 2 {
            10_000
        } else if fl6 == 3 {
            1_000
        } else if fl6 == 4 {
            100
        } else if fl6 == 5 {
            10
        } else {
            1
        };
        proof {
            assert(scale as int == frac_scale(fl6 as int));
            lemma_mul_distrib(fbase as int, scale as int);
            assert(fbase as int * scale as int <= 1_000_000 - scale as int);
        }
        fmic = fbase * scale;
        if flen > 6 {
            let c7 = s.get_char(fs + 6);
            let u7 = c7 as u32;
            proof {
                assert(fd[6] == s@[fs + 6]);
                assert(is_digit(fd[6]));
            }
            if u7 >= 53 {
                fmic = fmic + 1;
            }
        }
        proof {
            assert(fmic as int == frac6(fd));
        }
    } else {
        proof {
            assert(dot_pos(b) == b.len());
            assert(fd =~= Seq::empty());
            assert(fd.take(0) =~= Seq::empty());
            assert(fmic as int == frac6(fd));
        }
    }
    let total: u64 = acc * 1_000_000 + fmic;
    proof {
        assert(acc * 1_000_000 <= 999_999_999_999u64 * 1_000_000) by (nonlinear_arith)
            requires
                acc <= 999_999_999_999u64,
        ;
        assert(valid_amount(s@));
        assert(amount_abs_micros(s@) == total as int);
    }
    if neg {
        let v: i64 = -(total as i64);
        proof {
            assert(s@[0] == '-');
            assert(v as int == amount_micros(s@));
        }
        Some(v)
    } else {
        let v: i64 = total as i64;
        proof {
            assert(!(s@.len() > 0 && s@[0] == '-'));
            assert(v as int == amount_micros(s@));
        }
        Some(v)
    }
}

} // verus!
