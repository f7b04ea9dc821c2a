//! Durations in nanoseconds: decimal numbers of the event protocol scaled to
//! nanoseconds, elapsed wall-clock time, and the precision of the report.

use vstd::prelude::*;
use vstd::string::*;

verus! {

pub open spec fn pow10(k: nat) -> nat
    decreases k,
{
    if k == 0 {
        1
    } else {
        10 * pow10((k - 1) as nat)
    }
}

pub open spec fn is_digit(c: char) -> bool {
    '0' <= c && c <= '9'
}

pub open spec fn digit_value(c: char) -> nat {
    ((c as u32) - ('0' as u32)) as nat
}

pub open spec fn only_digits(s: Seq<char>) -> bool {
    forall|i: int| 0 <= i < s.len() ==> is_digit(#[trigger] s[i])
}

/// The value of a string of decimal digits.
pub open spec fn digits_value(s: Seq<char>) -> nat
    decreases s.len(),
{
    if s.len() == 0 {
        0
    } else {
        digits_value(s.drop_last()) * 10 + digit_value(s.last())
    }
}

/// Index of the first `.` in `s` at or after `i`, or the length of `s`.
pub open spec fn dot_index(s: Seq<char>, i: int) -> int
    decreases s.len() - i,
{
    if i < 0 || i >= s.len() {
        s.len() as int
    } else if s[i] == '.' {
        i
    } else {
        dot_index(s, i + 1)
    }
}

/// Index of the first `e` or `E` in `s` at or after `i`, or the length of `s`.
pub open spec fn exp_index(s: Seq<char>, i: int) -> int
    decreases s.len() - i,
{
    if i < 0 || i >= s.len() {
        s.len() as int
    } else if s[i] == 'e' || s[i] == 'E' {
        i
    } else {
        exp_index(s, i + 1)
    }
}

/// Whether `s` is the lower-case ASCII word `w` in any mix of cases.
pub open spec fn is_word(s: Seq<char>, w: Seq<char>) -> bool {
    s.len() == w.len() && forall|i: int|
        0 <= i < s.len() ==> (#[trigger] s[i] == w[i] || (s[i] as u32) + 32 == w[i] as u32)
}

/// The nearest value of `i64` to `x`, as a conversion from a float saturates.
pub open spec fn clamp_i64(x: int) -> int {
    if x > i64::MAX {
        i64::MAX as int
    } else if x < i64::MIN {
        i64::MIN as int
    } else {
        x
    }
}

/// The value of an exponent: an optional sign and at least one digit.
pub open spec fn exponent_value(x: Seq<char>) -> Option<int> {
    let neg = x.len() > 0 && x[0] == '-';
    let d = if x.len() > 0 && (x[0] == '+' || x[0] == '-') {
        x.drop_first()
    } else {
        x
    };
    if d.len() > 0 && only_digits(d) {
        Some(
            if neg {
                -digits_value(d)
            } else {
                digits_value(d) as int
            },
        )
    } else {
        None
    }
}

/// The magnitude of the number with digits `d` and exponent `shift`,
/// truncated toward zero: `d` scaled up by `10^shift`, or with its last
/// `-shift` digits dropped.
pub open spec fn shifted_value(d: Seq<char>, shift: int) -> nat {
    if shift >= 0 {
        digits_value(d) * pow10(shift as nat)
    } else if d.len() + shift > 0 {
        digits_value(d.subrange(0, d.len() + shift))
    } else {
        0
    }
}

/// The number written in `t`, in the forms that `f64` parsing accepts (an
/// optional sign; `inf`, `infinity` or `nan` in any case; or digits with an
/// optional `.` and an optional exponent `e`/`E`), times `10^k`, truncated
/// toward zero and saturated to `i64` as a float conversion does: infinities
/// saturate and `nan` gives zero. `None` when `t` is no such number.
pub open spec fn scaled_decimal(t: Seq<char>, k: nat) -> Option<int> {
    let neg = t.len() > 0 && t[0] == '-';
    let b = if t.len() > 0 && (t[0] == '+' || t[0] == '-') {
        t.drop_first()
    } else {
        t
    };
    if is_word(b, seq!['i', 'n', 'f']) || is_word(
        b,
        seq!['i', 'n', 'f', 'i', 'n', 'i', 't', 'y'],
    ) {
        Some(
            if neg {
                i64::MIN as int
            } else {
                i64::MAX as int
            },
        )
    } else if is_word(b, seq!['n', 'a', 'n']) {
        Some(0)
    } else {
        let q = exp_index(b, 0);
        let m = b.subrange(0, q);
        let e = if q < b.len() {
            exponent_value(b.subrange(q + 1, b.len() as int))
        } else {
            Some(0)
        };
        let p = dot_index(m, 0);
        let int_part = m.subrange(0, p);
        let frac_part = if p < m.len() {
            m.subrange(p + 1, m.len() as int)
        } else {
            Seq::empty()
        };
        if only_digits(int_part) && only_digits(frac_part) && int_part.len() + frac_part.len() > 0
            && e is Some {
            let mag = shifted_value(int_part + frac_part, k + e->Some_0 - frac_part.len()) as int;
            Some(
                clamp_i64(
                    if neg {
                        -mag
                    } else {
                        mag
                    },
                ),
            )
        } else {
            None
        }
    }
}

/// Beyond this magnitude every value saturates.
pub const SATURATION: u128 = 0x8000_0000_0000_0000;

/// Exponents of this magnitude or more make every nonzero value saturate,
/// and every value vanish when negative.
pub const EXPONENT_CAP: u128 = 0x40_0000_0000_0000_0000;

pub open spec fn capped(x: nat, cap: nat) -> nat {
    if x > cap {
        cap
    } else {
        x
    }
}

proof fn lemma_capped_step(x: nat, d: nat, cap: nat)
    ensures
        capped(capped(x, cap) * 10 + d, cap) == capped(x * 10 + d, cap),
{
    if x > cap {
        assert(x * 10 + d > cap) by (nonlinear_arith)
            requires
                x > cap,
        ;
        assert(cap * 10 + d >= cap) by (nonlinear_arith);
    }
}

proof fn lemma_pow10_positive(k: nat)
    ensures
        pow10(k) >= 1,
    decreases k,
{
    if k > 0 {
        lemma_pow10_positive((k - 1) as nat);
    }
}

proof fn lemma_pow10_mono(a: nat, b: nat)
    requires
        a <= b,
    ensures
        pow10(a) <= pow10(b),
    decreases b,
{
    if a < b {
        lemma_pow10_mono(a, (b - 1) as nat);
        lemma_pow10_positive((b - 1) as nat);
    }
}

proof fn lemma_pow10_large(j: nat)
    requires
        j >= 19,
    ensures
        pow10(j) > SATURATION,
{
    reveal_with_fuel(pow10, 20);
    lemma_pow10_mono(19, j);
}

/// Whether `t[from..to]` is made of digits alone.
fn digits_only(t: &str, from: usize, to: usize) -> (r: bool)
    requires
        from <= to <= t@.len(),
    ensures
        r == only_digits(t@.subrange(from as int, to as int)),
{
    let mut i = from;
    while i < to
        invariant
            from <= i <= to <= t@.len(),
            forall|j: int| from <= j < i ==> is_digit(#[trigger] t@[j]),
        decreases to - i,
    {
        let c = t.get_char(i);
        if !('0' <= c && c <= '9') {
            assert(!is_digit(t@.subrange(from as int, to as int)[i - from]));
            return false;
        }
        i = i + 1;
    }
    assert forall|j: int| 0 <= j < to - from implies is_digit(
        #[trigger] t@.subrange(from as int, to as int)[j],
    ) by {
        assert(t@.subrange(from as int, to as int)[j] == t@[from + j]);
    }
    true
}

/// Appends the digits `t[from..to]` to a number whose digits so far are
/// `pre` and whose value, capped at `cap`, is `acc`.
fn push_digits(t: &str, from: usize, to: usize, acc: u128, cap: u128, Ghost(pre): Ghost<Seq<char>>) -> (r: u128)
    requires
        from <= to <= t@.len(),
        only_digits(t@.subrange(from as int, to as int)),
        cap <= EXPONENT_CAP,
        acc == capped(digits_value(pre), cap as nat),
    ensures
        r == capped(digits_value(pre + t@.subrange(from as int, to as int)), cap as nat),
{
    let mut acc = acc;
    let mut i = from;
    assert(pre + t@.subrange(from as int, from as int) =~= pre);
    while i < to
        invariant
            from <= i <= to <= t@.len(),
            only_digits(t@.subrange(from as int, to as int)),
            cap <= EXPONENT_CAP,
            acc == capped(digits_value(pre + t@.subrange(from as int, i as int)), cap as nat),
        decreases to - i,
    {
        let c = t.get_char(i);
        assert(is_digit(t@.subrange(from as int, to as int)[i - from]));
        let d = (c as u32 - '0' as u32) as u128;
        proof {
            let s = pre + t@.subrange(from as int, i + 1);
            assert(s.drop_last() =~= pre + t@.subrange(from as int, i as int));
            lemma_capped_step(digits_value(pre + t@.subrange(from as int, i as int)), d as nat, cap as nat);
        }
        acc = acc * 10 + d;
        if acc > cap {
            acc = cap;
        }
        i = i + 1;
    }
    acc
}

fn is_mark(c: char, exp: bool) -> (r: bool)
    ensures
        r == if exp {
            c == 'e' || c == 'E'
        } else {
            c == '.'
        },
{
    if exp {
        c == 'e' || c == 'E'
    } else {
        c == '.'
    }
}

/// Index of the first character in `t[from..to]` that `dot` or `exp`
/// selects, or `to`.
fn find_mark(t: &str, from: usize, to: usize, exp: bool) -> (r: usize)
    requires
        from <= to <= t@.len(),
    ensures
        from <= r <= to,
        exp ==> exp_index(t@.subrange(from as int, to as int), 0) == r - from,
        !exp ==> dot_index(t@.subrange(from as int, to as int), 0) == r - from,
{
    let ghost b = t@.subrange(from as int, to as int);
    let mut p = from;
    while p < to && !is_mark(t.get_char(p), exp)
        invariant
            from <= p <= to <= t@.len(),
            b == t@.subrange(from as int, to as int),
            exp ==> exp_index(b, 0) == exp_index(b, p - from),
            !exp ==> dot_index(b, 0) == dot_index(b, p - from),
        decreases to - p,
    {
        p = p + 1;
    }
    p
}

/// Whether `t[from..]` is the word `w`, in any mix of cases.
fn word_is(t: &str, from: usize, w: &str) -> (r: bool)
    requires
        from <= t@.len(),
    ensures
        r == is_word(t@.subrange(from as int, t@.len() as int), w@),
{
    let n = t.unicode_len();
    let m = w.unicode_len();
    let ghost s = t@.subrange(from as int, n as int);
    if n - from != m {
        return false;
    }
    let mut i: usize = 0;
    while i < m
        invariant
            i <= m == w@.len() == s.len(),
            n == t@.len(),
            from + m == n,
            s == t@.subrange(from as int, n as int),
            forall|j: int|
                0 <= j < i ==> (#[trigger] s[j] == w@[j] || (s[j] as u32) + 32 == w@[j] as u32),
        decreases m - i,
    {
        let c = t.get_char(from + i);
        let d = w.get_char(i);
        assert(s[i as int] == c);
        if !(c == d || (c as u32) as u64 + 32 == (d as u32) as u64) {
            return false;
        }
        i = i + 1;
    }
    true
}

/// The magnitude `shifted_value(int_part + frac_part, shift)`, capped at
/// `SATURATION`, where the two parts are `t[start..p]` and `t[fs..q]`.
#[verifier::rlimit(60)]
fn shifted_digits(t: &str, start: usize, p: usize, fs: usize, q: usize, shift: i128) -> (r: u128)
    requires
        start <= p <= fs <= q <= t@.len(),
        only_digits(t@.subrange(start as int, p as int)),
        only_digits(t@.subrange(fs as int, q as int)),
    ensures
        r == capped(
            shifted_value(
                t@.subrange(start as int, p as int) + t@.subrange(fs as int, q as int),
                shift as int,
            ),
            SATURATION as nat,
        ),
{
    let ghost ip = t@.subrange(start as int, p as int);
    let ghost fp = t@.subrange(fs as int, q as int);
    let ghost d = ip + fp;
    let ilen = p - start;
    let flen = q - fs;
    assert(digits_value(Seq::<char>::empty()) == 0);
    if shift >= 0 {
        let a = push_digits(t, start, p, 0, SATURATION, Ghost(Seq::empty()));
        assert(Seq::<char>::empty() + ip =~= ip);
        let mut acc = push_digits(t, fs, q, a, SATURATION, Ghost(ip));
        let mut j: i128 = 0;
        proof {
            reveal_with_fuel(pow10, 1);
            assert(pow10(0) == 1);
            assert(digits_value(d) * 1 == digits_value(d));
            assert(digits_value(d) * pow10(0) == digits_value(d));
        }
        while j < shift && acc != 0 && acc != SATURATION
            invariant
                0 <= j <= shift,
                acc == capped(digits_value(d) * pow10(j as nat), SATURATION as nat),
            decreases shift - j,
        {
            proof {
                let x = digits_value(d) * pow10(j as nat);
                lemma_capped_step(x, 0, SATURATION as nat);
                assert(pow10((j + 1) as nat) == 10 * pow10(j as nat));
                assert(x * 10 == digits_value(d) * pow10((j + 1) as nat)) by (nonlinear_arith)
                    requires
                        x == digits_value(d) * pow10(j as nat),
                        pow10((j + 1) as nat) == 10 * pow10(j as nat),
                ;
            }
            acc = acc * 10;
            if acc > SATURATION {
                acc = SATURATION;
            }
            j = j + 1;
        }
        proof {
            let v = digits_value(d);
            lemma_pow10_positive(j as nat);
            lemma_pow10_mono(j as nat, shift as nat);
            let pj = pow10(j as nat);
            let ps = pow10(shift as nat);
            if acc == 0 {
                assert(v == 0) by (nonlinear_arith)
                    requires
                        v * pj == 0,
                        pj >= 1,
                ;
                assert(v * ps == 0) by (nonlinear_arith)
                    requires
                        v == 0,
                ;
            } else if acc == SATURATION {
                assert(v * ps >= v * pj) by (nonlinear_arith)
                    requires
                        ps >= pj,
                ;
            }
        }
        acc
    } else {
        let l: i128 = ilen as i128 + flen as i128 + shift;
        if l <= 0 {
            0
        } else if l <= ilen as i128 {
            let lu = l as usize;
            proof {
                assert(d.subrange(0, l as int) =~= t@.subrange(start as int, start + lu));
                assert forall|j: int| 0 <= j < lu implies is_digit(
                    #[trigger] t@.subrange(start as int, start + lu)[j],
                ) by {
                    assert(t@.subrange(start as int, start + lu)[j] == ip[j]);
                }
                assert(Seq::<char>::empty() + t@.subrange(start as int, start + lu) =~= t@.subrange(
                    start as int,
                    start + lu,
                ));
            }
            push_digits(t, start, start + lu, 0, SATURATION, Ghost(Seq::empty()))
        } else {
            let extra = (l as usize) - ilen;
            let a = push_digits(t, start, p, 0, SATURATION, Ghost(Seq::empty()));
            proof {
                assert(Seq::<char>::empty() + ip =~= ip);
                assert(d.subrange(0, l as int) =~= ip + t@.subrange(fs as int, fs + extra));
                assert forall|j: int| 0 <= j < extra implies is_digit(
                    #[trigger] t@.subrange(fs as int, fs + extra)[j],
                ) by {
                    assert(t@.subrange(fs as int, fs + extra)[j] == fp[j]);
                }
            }
            push_digits(t, fs, fs + extra, a, SATURATION, Ghost(ip))
        }
    }
}

/// The exponent written in `t[from..]`: whether it is negative, and its
/// magnitude capped at `EXPONENT_CAP`.
fn parse_exponent(t: &str, from: usize) -> (r: Option<(bool, u128)>)
    requires
        from <= t@.len(),
    ensures
        r is None <==> exponent_value(t@.subrange(from as int, t@.len() as int)) is None,
        r matches Some((neg, mag)) ==> {
            let e = exponent_value(t@.subrange(from as int, t@.len() as int))->Some_0;
            &&& mag == capped((if e < 0 { -e } else { e }) as nat, EXPONENT_CAP as nat)
            &&& neg ==> e <= 0
            &&& !neg ==> e >= 0
        },
{
    let n = t.unicode_len();
    let signed = from < n && (t.get_char(from) == '+' || t.get_char(from) == '-');
    let neg = from < n && t.get_char(from) == '-';
    let es = if signed {
        from + 1
    } else {
        from
    };
    proof {
        let x = t@.subrange(from as int, n as int);
        if signed {
            assert(x.drop_first() =~= t@.subrange(es as int, n as int));
        } else {
            assert(x =~= t@.subrange(es as int, n as int));
        }
        assert(Seq::<char>::empty() + t@.subrange(es as int, n as int) =~= t@.subrange(
            es as int,
            n as int,
        ));
        assert(digits_value(Seq::<char>::empty()) == 0);
    }
    if es == n || !digits_only(t, es, n) {
        return None;
    }
    let mag = push_digits(t, es, n, 0, EXPONENT_CAP, Ghost(Seq::empty()));
    Some((neg, mag))
}

/// The magnitude of the number with integer digits `t[start..p]`, fraction
/// digits `t[fs..q]` and exponent `e`, in units of `10^-k`, capped at
/// `SATURATION`.
#[verifier::rlimit(60)]
fn scaled_magnitude(
    t: &str,
    start: usize,
    p: usize,
    fs: usize,
    q: usize,
    k: usize,
    exp_neg: bool,
    exp_mag: u128,
    Ghost(e): Ghost<int>,
) -> (r: u128)
    requires
        start <= p <= fs <= q <= t@.len(),
        k <= 9,
        only_digits(t@.subrange(start as int, p as int)),
        only_digits(t@.subrange(fs as int, q as int)),
        exp_mag == capped((if e < 0 { -e } else { e }) as nat, EXPONENT_CAP as nat),
        exp_neg ==> e <= 0,
        !exp_neg ==> e >= 0,
    ensures
        r == capped(
            shifted_value(
                t@.subrange(start as int, p as int) + t@.subrange(fs as int, q as int),
                k + e - (q - fs),
            ),
            SATURATION as nat,
        ),
{
    let ghost d = t@.subrange(start as int, p as int) + t@.subrange(fs as int, q as int);
    let ghost true_shift = k + e - (q - fs);
    let flen = q - fs;
    if exp_mag == EXPONENT_CAP {
        let v = shifted_digits(t, start, p, fs, q, 0);
        proof {
            reveal_with_fuel(pow10, 1);
            assert(digits_value(d) * 1 == digits_value(d));
        }
        if exp_neg {
            0
        } else {
            proof {
                lemma_pow10_large(true_shift as nat);
                let dv = digits_value(d);
                let ps = pow10(true_shift as nat);
                if dv > 0 {
                    assert(dv * ps >= ps) by (nonlinear_arith)
                        requires
                            dv >= 1,
                    ;
                } else {
                    assert(dv * ps == 0) by (nonlinear_arith)
                        requires
                            dv == 0,
                    ;
                }
            }
            if v == 0 {
                0
            } else {
                SATURATION
            }
        }
    } else {
        let shift: i128 = k as i128 + (if exp_neg {
            -(exp_mag as i128)
        } else {
            exp_mag as i128
        }) - flen as i128;
        shifted_digits(t, start, p, fs, q, shift)
    }
}

/// Reads the number `t` (see `scaled_decimal`) in units of `10^-k`.
#[verifier::rlimit(100)]
pub fn parse_scaled(t: &str, k: usize) -> (r: Option<i64>)
    requires
        k <= 9,
    ensures
        r matches Some(v) ==> scaled_decimal(t@, k as nat) == Some(v as int),
        r is None ==> scaled_decimal(t@, k as nat) is None,
{
    let n = t.unicode_len();
    let c0 = if n > 0 {
        t.get_char(0)
    } else {
        ' '
    };
    let neg = n > 0 && c0 == '-';
    let start: usize = if n > 0 && (c0 == '+' || c0 == '-') {
        1
    } else {
        0
    };
    let ghost b = t@.subrange(start as int, n as int);
    proof {
        if start == 1 {
            assert(b =~= t@.drop_first());
        } else {
            assert(b =~= t@);
        }
        reveal_strlit("inf");
        reveal_strlit("infinity");
        reveal_strlit("nan");
        assert("inf"@ =~= seq!['i', 'n', 'f']);
        assert("infinity"@ =~= seq!['i', 'n', 'f', 'i', 'n', 'i', 't', 'y']);
        assert("nan"@ =~= seq!['n', 'a', 'n']);
    }
    if word_is(t, start, "inf") || word_is(t, start, "infinity") {
        return Some(
            if neg {
                i64::MIN
            } else {
                i64::MAX
            },
        );
    }
    if word_is(t, start, "nan") {
        return Some(0);
    }
    let q = find_mark(t, start, n, true);
    let p = find_mark(t, start, q, false);
    let fs = if p < q {
        p + 1
    } else {
        q
    };
    proof {
        assert(b.subrange(0, q - start) =~= t@.subrange(start as int, q as int));
        let m = t@.subrange(start as int, q as int);
        assert(m.subrange(0, p - start) =~= t@.subrange(start as int, p as int));
        if p < q {
            assert(m.subrange(p - start + 1, m.len() as int) =~= t@.subrange(fs as int, q as int));
        } else {
            assert(t@.subrange(fs as int, q as int) =~= Seq::<char>::empty());
        }
        if q < n {
            assert(b.subrange(q - start + 1, b.len() as int) =~= t@.subrange(q + 1, n as int));
        }
    }
    if !digits_only(t, start, p) || !digits_only(t, fs, q) || (p - start) + (q - fs) == 0 {
        return None;
    }
    let (exp_neg, exp_mag) = if q < n {
        proof {
            assert(b.subrange(q - start + 1, b.len() as int) =~= t@.subrange(q + 1, n as int));
        }
        match parse_exponent(t, q + 1) {
            Some(x) => x,
            None => {
                return None;
            },
        }
    } else {
        (false, 0)
    };
    let ghost e: int = if q < n {
        exponent_value(t@.subrange(q + 1, n as int))->Some_0
    } else {
        0
    };
    let mag = scaled_magnitude(t, start, p, fs, q, k, exp_neg, exp_mag, Ghost(e));
    if neg {
        if mag == SATURATION {
            Some(i64::MIN)
        } else {
            Some(-(mag as i64))
        }
    } else {
        if mag >= SATURATION {
            Some(i64::MAX)
        } else {
            Some(mag as i64)
        }
    }
}

/// A duration of the protocol's `exec_time` string form, `"<seconds>s"`, in
/// nanoseconds; `None` without the suffix or without a number before it.
pub open spec fn exec_time_text(s: Seq<char>) -> Option<int> {
    if s.len() > 0 && s.last() == 's' {
        scaled_decimal(s.drop_last(), 9)
    } else {
        None
    }
}

/// Reads a string exec time such as `"2.5s"` as nanoseconds.
pub fn parse_exec_time(s: &str) -> (r: Option<i64>)
    ensures
        r matches Some(v) ==> exec_time_text(s@) == Some(v as int),
        r is None ==> exec_time_text(s@) is None,
{
    let n = s.unicode_len();
    if n == 0 || s.get_char(n - 1) != 's' {
        return None;
    }
    let body = s.substring_char(0, n - 1);
    proof {
        reveal_with_fuel(pow10, 10);
        assert(body@ =~= s@.drop_last());
    }
    parse_scaled(body, 9)
}

/// Reads a decimal number of seconds as nanoseconds.
pub fn parse_seconds(s: &str) -> (r: Option<i64>)
    ensures
        r matches Some(v) ==> scaled_decimal(s@, 9) == Some(v as int),
        r is None ==> scaled_decimal(s@, 9) is None,
{
    proof {
        reveal_with_fuel(pow10, 10);
    }
    parse_scaled(s, 9)
}

/// Reads a decimal number of milliseconds as nanoseconds.
pub fn parse_millis(s: &str) -> (r: Option<i64>)
    ensures
        r matches Some(v) ==> scaled_decimal(s@, 6) == Some(v as int),
        r is None ==> scaled_decimal(s@, 6) is None,
{
    proof {
        reveal_with_fuel(pow10, 10);
    }
    parse_scaled(s, 6)
}

/// `d` truncated toward zero to a multiple of `unit`.
pub open spec fn trunc_to(d: int, unit: int) -> int {
    if d >= 0 {
        d / unit * unit
    } else {
        -((-d) / unit * unit)
    }
}

/// The granularity of the durations that a report carries.
#[derive(Clone, Copy, Debug, PartialEq, Eq, Structural)]
pub enum DurationPrecision {
    /// Truncated to whole microseconds.
    MilliSeconds,
    /// Truncated to whole seconds.
    LiteralSeconds,
}

impl DurationPrecision {
    /// The unit, in nanoseconds, that durations are truncated to.
    pub open spec fn unit(&self) -> int {
        match self {
            DurationPrecision::MilliSeconds => 1000,
            DurationPrecision::LiteralSeconds => 1_000_000_000,
        }
    }

    /// Truncates a duration in nanoseconds toward zero to this precision.
    pub fn trunc(&self, duration: i64) -> (r: i64)
        ensures
            r == trunc_to(duration as int, self.unit()),
    {
        let unit: u128 = match self {
            DurationPrecision::MilliSeconds => 1000,
            DurationPrecision::LiteralSeconds => 1_000_000_000,
        };
        let d = duration as i128;
        let m: u128 = if d >= 0 {
            d as u128
        } else {
            (-d) as u128
        };
        let t = m / unit * unit;
        proof {
            assert(t <= m) by (nonlinear_arith)
                requires
                    t == m / unit * unit,
                    unit > 0,
            ;
        }
        if d >= 0 {
            t as i64
        } else {
            -(t as i128) as i64
        }
    }
}

/// When a test started, by the wall clock, in nanoseconds since the epoch.
#[derive(Clone, Copy, Debug, PartialEq, Eq, Structural)]
pub struct TestCaseDetail {
    pub start_time: i64,
}

impl TestCaseDetail {
    /// The wall-clock time elapsed from the start until `now`, saturated to
    /// the range of `i64`.
    pub fn get_duration(&self, now: i64) -> (r: i64)
        ensures
            r == clamp_i64(now - self.start_time),
    {
        let d: i128 = now as i128 - self.start_time as i128;
        if d > i64::MAX as i128 {
            i64::MAX
        } else if d < i64::MIN as i128 {
            i64::MIN
        } else {
            d as i64
        }
    }
}

} // verus!
