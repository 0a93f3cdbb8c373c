//! Exact decimal numbers.
//!
//! A JSON number that `serde_json` holds as a double reaches this library as
//! the decimal text that `serde_json` renders for it (the shortest text that
//! reads back as the same double). Such texts, and the integers, are held as
//! `Dec` values `coef * 10^exp`; two of them compare exactly, which orders
//! the doubles that the texts stand for the same way as the doubles do.

use vstd::prelude::*;
use vstd::string::*;
use crate::text::{decimal_text, u64_text};

verus! {

/// `10^n`.
pub open spec fn pow10(n: nat) -> nat
    decreases n,
{
    if n == 0 { 1 } else { 10 * pow10((n - 1) as nat) }
}

/// A decimal number `(-1)^neg * coef * 10^exp`.
#[derive(Clone, Copy, Debug)]
pub struct Dec {
    /// Whether the number carries a minus sign (`-0` is a zero).
    pub neg: bool,
    /// The digits of the number, as an integer.
    pub coef: u64,
    /// The power of ten that `coef` is scaled by.
    pub exp: i64,
}

/// The value of `d` times `10^(d.exp - base)`, as an integer; `base` must
/// not exceed `d.exp`.
pub open spec fn dec_scaled(d: Dec, base: int) -> int
    recommends base <= d.exp,
{
    let m = d.coef * pow10((d.exp - base) as nat);
    if d.neg { -m } else { m }
}

/// The smaller of two exponents.
pub open spec fn min_exp(a: Dec, b: Dec) -> int {
    if a.exp <= b.exp { a.exp as int } else { b.exp as int }
}

/// `a < b`, as numbers.
pub open spec fn dec_lt(a: Dec, b: Dec) -> bool {
    dec_scaled(a, min_exp(a, b)) < dec_scaled(b, min_exp(a, b))
}

/// `a` holds a whole number.
pub open spec fn dec_is_integral(d: Dec) -> bool {
    d.exp >= 0 || (d.coef as nat) % pow10((-d.exp) as nat) == 0
}

proof fn lemma_pow10_pos(n: nat)
    ensures
        pow10(n) >= 1,
    decreases n,
{
    if n > 0 {
        lemma_pow10_pos((n - 1) as nat);
    }
}

proof fn lemma_pow10_mono(a: nat, b: nat)
    requires
        a <= b,
    ensures
        pow10(a) <= pow10(b),
    decreases b,
{
    if a < b {
        lemma_pow10_mono(a, (b - 1) as nat);
        lemma_pow10_pos((b - 1) as nat);
    }
}

proof fn lemma_pow10_19()
    ensures
        pow10(19) == 10_000_000_000_000_000_000nat,
        pow10(20) == 100_000_000_000_000_000_000nat,
{
    reveal_with_fuel(pow10, 21);
}

/// `10^d`, for `d` up to 19.
fn pow10_exec(d: u32) -> (r: u64)
    requires
        d <= 19,
    ensures
        r == pow10(d as nat),
    decreases d,
{
    if d == 0 {
        1
    } else {
        let p = pow10_exec(d - 1);
        proof {
            lemma_pow10_mono(d as nat, 19);
            lemma_pow10_19();
        }
        p * 10
    }
}

/// Compares the magnitudes `ca * 10^ea` and `cb * 10^eb`: the result is
/// negative, zero or positive as the first is smaller, equal or larger.
fn magnitude_order(ca: u64, ea: i64, cb: u64, eb: i64) -> (r: i8)
    ensures
        ({
            let m: int = if ea <= eb { ea as int } else { eb as int };
            let x = ca * pow10((ea - m) as nat);
            let y = cb * pow10((eb - m) as nat);
            (r < 0 <==> x < y) && (r == 0 <==> x == y) && (r > 0 <==> x > y)
        }),
{
    let ghost m: int = if ea <= eb { ea as int } else { eb as int };
    proof {
        lemma_pow10_pos((ea - m) as nat);
        lemma_pow10_pos((eb - m) as nat);
    }
    if ca == 0 && cb == 0 {
        return 0;
    }
    if ca == 0 {
        proof {
            assert(cb * pow10((eb - m) as nat) >= cb) by (nonlinear_arith)
                requires pow10((eb - m) as nat) >= 1;
        }
        return -1;
    }
    if cb == 0 {
        proof {
            assert(ca * pow10((ea - m) as nat) >= ca) by (nonlinear_arith)
                requires pow10((ea - m) as nat) >= 1;
        }
        return 1;
    }
    if ea >= eb {
        let d: i128 = ea as i128 - eb as i128;
        assert(m == eb);
        assert(pow10((eb - m) as nat) == 1);
        if d >= 20 {
            proof {
                lemma_pow10_mono(20, d as nat);
                lemma_pow10_19();
                let p = pow10(d as nat);
                assert(ca * p >= p) by (nonlinear_arith)
                    requires ca >= 1, p >= 1;
            }
            return 1;
        }
        let p = pow10_exec(d as u32);
        proof {
            lemma_pow10_mono(d as nat, 19);
            lemma_pow10_19();
            assert(ca as u128 * p as u128 <= 18446744073709551615u128 * 10_000_000_000_000_000_000u128)
                by (nonlinear_arith)
                requires ca <= 18446744073709551615u64, p <= 10_000_000_000_000_000_000u64;
        }
        let x: u128 = ca as u128 * p as u128;
        if x < cb as u128 {
            -1
        } else if x == cb as u128 {
            0
        } else {
            1
        }
    } else {
        let d: i128 = eb as i128 - ea as i128;
        assert(m == ea);
        assert(pow10((ea - m) as nat) == 1);
        if d >= 20 {
            proof {
                lemma_pow10_mono(20, d as nat);
                lemma_pow10_19();
                let p = pow10(d as nat);
                assert(cb * p >= p) by (nonlinear_arith)
                    requires cb >= 1, p >= 1;
            }
            return -1;
        }
        let p = pow10_exec(d as u32);
        proof {
            lemma_pow10_mono(d as nat, 19);
            lemma_pow10_19();
            assert(cb as u128 * p as u128 <= 18446744073709551615u128 * 10_000_000_000_000_000_000u128)
                by (nonlinear_arith)
                requires cb <= 18446744073709551615u64, p <= 10_000_000_000_000_000_000u64;
        }
        let y: u128 = cb as u128 * p as u128;
        if (ca as u128) < y {
            -1
        } else if ca as u128 == y {
            0
        } else {
            1
        }
    }
}

/// Whether `a < b` as numbers.
pub fn dec_less(a: &Dec, b: &Dec) -> (r: bool)
    ensures
        r == dec_lt(*a, *b),
{
    let c = magnitude_order(a.coef, a.exp, b.coef, b.exp);
    let ghost m = min_exp(*a, *b);
    let ghost x = a.coef * pow10((a.exp - m) as nat);
    let ghost y = b.coef * pow10((b.exp - m) as nat);
    proof {
        lemma_pow10_pos((a.exp - m) as nat);
        lemma_pow10_pos((b.exp - m) as nat);
        assert(x >= 0 && y >= 0) by (nonlinear_arith)
            requires x == a.coef * pow10((a.exp - m) as nat), y == b.coef * pow10((b.exp - m) as nat),
                pow10((a.exp - m) as nat) >= 1, pow10((b.exp - m) as nat) >= 1;
        assert(x == 0 <==> a.coef == 0) by (nonlinear_arith)
            requires x == a.coef * pow10((a.exp - m) as nat), pow10((a.exp - m) as nat) >= 1;
        assert(y == 0 <==> b.coef == 0) by (nonlinear_arith)
            requires y == b.coef * pow10((b.exp - m) as nat), pow10((b.exp - m) as nat) >= 1;
    }
    if a.neg && b.neg {
        c > 0
    } else if a.neg {
        !(a.coef == 0 && b.coef == 0)
    } else if b.neg {
        false
    } else {
        c < 0
    }
}

/// Whether `d` holds a whole number.
pub fn dec_integral(d: &Dec) -> (r: bool)
    ensures
        r == dec_is_integral(*d),
{
    if d.exp >= 0 {
        return true;
    }
    let k: i128 = 0 - d.exp as i128;
    if k > 19 {
        proof {
            lemma_pow10_mono(20, k as nat);
            lemma_pow10_19();
            let p = pow10(k as nat);
            if d.coef != 0 {
                assert((d.coef as nat) % p == d.coef) by (nonlinear_arith)
                    requires d.coef < p, d.coef >= 0;
            }
            assert(0nat % p == 0) by (nonlinear_arith) requires p >= 1;
        }
        return d.coef == 0;
    }
    let p = pow10_exec(k as u32);
    proof { lemma_pow10_pos(k as nat); }
    d.coef % p == 0
}

/// The state of a left-to-right scan of a decimal literal
/// `-?D+(.D+)?([eE][+-]?D+)?`.
#[derive(Clone, Copy)]
pub struct DecScan {
    /// 0 start, 1 after `-`, 2 in the integer digits, 3 after `.`,
    /// 4 in the fraction digits, 5 after `e`, 6 after the exponent's sign,
    /// 7 in the exponent digits, 8 rejected.
    pub phase: u8,
    /// A leading `-` was read.
    pub neg: bool,
    /// The digits read so far, as an integer.
    pub coef: u64,
    /// How many fraction digits were read.
    pub frac: u64,
    /// The exponent carries a `-`.
    pub eneg: bool,
    /// The exponent digits read so far, as an integer.
    pub ev: u64,
}

/// The largest count of fraction digits, and the largest exponent, that a
/// literal may have.
pub open spec fn scan_limit() -> nat { 100_000 }

pub open spec fn is_digit(c: char) -> bool { '0' <= c && c <= '9' }

pub open spec fn digit_value(c: char) -> nat { ((c as int) - ('0' as int)) as nat }

pub open spec fn scan_start() -> DecScan {
    DecScan { phase: 0, neg: false, coef: 0, frac: 0, eneg: false, ev: 0 }
}

pub open spec fn rejected(s: DecScan) -> DecScan {
    DecScan { phase: 8, ..s }
}

/// `s` after reading one more digit into the coefficient.
pub open spec fn with_digit(s: DecScan, c: char, phase: u8, frac: u64) -> DecScan {
    let v = s.coef * 10 + digit_value(c);
    if v <= u64::MAX { DecScan { phase, coef: v as u64, frac, ..s } } else { rejected(s) }
}

/// `s` after reading one more exponent digit.
pub open spec fn with_exp_digit(s: DecScan, c: char) -> DecScan {
    let v = s.ev * 10 + digit_value(c);
    if v <= scan_limit() { DecScan { phase: 7, ev: v as u64, ..s } } else { rejected(s) }
}

/// One step of the scan.
pub open spec fn scan_step(s: DecScan, c: char) -> DecScan {
    if s.phase == 0 {
        if c == '-' { DecScan { phase: 1, neg: true, ..s } }
        else if is_digit(c) { with_digit(s, c, 2, s.frac) }
        else { rejected(s) }
    } else if s.phase == 1 {
        if is_digit(c) { with_digit(s, c, 2, s.frac) } else { rejected(s) }
    } else if s.phase == 2 {
        if is_digit(c) { with_digit(s, c, 2, s.frac) }
        else if c == '.' { DecScan { phase: 3, ..s } }
        else if c == 'e' || c == 'E' { DecScan { phase: 5, ..s } }
        else { rejected(s) }
    } else if s.phase == 3 || s.phase == 4 {
        if is_digit(c) {
            if s.frac < scan_limit() { with_digit(s, c, 4, (s.frac + 1) as u64) } else { rejected(s) }
        } else if s.phase == 4 && (c == 'e' || c == 'E') { DecScan { phase: 5, ..s } }
        else { rejected(s) }
    } else if s.phase == 5 {
        if c == '+' { DecScan { phase: 6, ..s } }
        else if c == '-' { DecScan { phase: 6, eneg: true, ..s } }
        else if is_digit(c) { with_exp_digit(s, c) }
        else { rejected(s) }
    } else if s.phase == 6 {
        if is_digit(c) { with_exp_digit(s, c) } else { rejected(s) }
    } else if s.phase == 7 {
        if is_digit(c) { with_exp_digit(s, c) } else { rejected(s) }
    } else {
        rejected(s)
    }
}

/// The scan state after reading all of `t`.
pub open spec fn scan_text(t: Seq<char>) -> DecScan
    decreases t.len(),
{
    if t.len() == 0 { scan_start() } else { scan_step(scan_text(t.drop_last()), t.last()) }
}

/// The number that a decimal literal `t` denotes, if `t` is one (with at
/// most 20 significant digits and a moderate exponent).
pub open spec fn parse_dec(t: Seq<char>) -> Option<Dec> {
    let s = scan_text(t);
    if s.phase == 2 || s.phase == 4 || s.phase == 7 {
        let e: int = if s.eneg { -(s.ev as int) } else { s.ev as int };
        Some(Dec { neg: s.neg, coef: s.coef, exp: (e - s.frac) as i64 })
    } else {
        None
    }
}

fn digit_of(c: char) -> (r: u64)
    requires
        is_digit(c),
    ensures
        r == digit_value(c),
        r < 10,
{
    (c as u32 - '0' as u32) as u64
}

fn next_with_digit(s: DecScan, c: char, phase: u8, frac: u64) -> (r: DecScan)
    requires
        is_digit(c),
    ensures
        r == with_digit(s, c, phase, frac),
{
    let d = digit_of(c);
    if s.coef <= (u64::MAX - d) / 10 {
        DecScan { phase, coef: s.coef * 10 + d, frac, ..s }
    } else {
        DecScan { phase: 8, ..s }
    }
}

fn next_with_exp_digit(s: DecScan, c: char) -> (r: DecScan)
    requires
        is_digit(c),
    ensures
        r == with_exp_digit(s, c),
{
    let d = digit_of(c);
    if s.ev <= (100_000 - d) / 10 {
        DecScan { phase: 7, ev: s.ev * 10 + d, ..s }
    } else {
        DecScan { phase: 8, ..s }
    }
}

fn next_scan(s: DecScan, c: char) -> (r: DecScan)
    ensures
        r == scan_step(s, c),
{
    let dig = '0' <= c && c <= '9';
    if s.phase == 0 {
        if c == '-' { DecScan { phase: 1, neg: true, ..s } }
        else if dig { next_with_digit(s, c, 2, s.frac) }
        else { DecScan { phase: 8, ..s } }
    } else if s.phase == 1 {
        if dig { next_with_digit(s, c, 2, s.frac) } else { DecScan { phase: 8, ..s } }
    } else if s.phase == 2 {
        if dig { next_with_digit(s, c, 2, s.frac) }
        else if c == '.' { DecScan { phase: 3, ..s } }
        else if c == 'e' || c == 'E' { DecScan { phase: 5, ..s } }
        else { DecScan { phase: 8, ..s } }
    } else if s.phase == 3 || s.phase == 4 {
        if dig {
            if s.frac < 100_000 { next_with_digit(s, c, 4, s.frac + 1) } else { DecScan { phase: 8, ..s } }
        } else if s.phase == 4 && (c == 'e' || c == 'E') { DecScan { phase: 5, ..s } }
        else { DecScan { phase: 8, ..s } }
    } else if s.phase == 5 {
        if c == '+' { DecScan { phase: 6, ..s } }
        else if c == '-' { DecScan { phase: 6, eneg: true, ..s } }
        else if dig { next_with_exp_digit(s, c) }
        else { DecScan { phase: 8, ..s } }
    } else if s.phase == 6 || s.phase == 7 {
        if dig { next_with_exp_digit(s, c) } else { DecScan { phase: 8, ..s } }
    } else {
        DecScan { phase: 8, ..s }
    }
}

/// Reads a decimal literal such as `-12.5e-3`.
pub fn parse_decimal(t: &str) -> (r: Option<Dec>)
    ensures
        r == parse_dec(t@),
{
    let n = t.unicode_len();
    let mut s = DecScan { phase: 0, neg: false, coef: 0, frac: 0, eneg: false, ev: 0 };
    let mut i: usize = 0;
    while i < n
        invariant
            n == t@.len(),
            i <= n,
            s == scan_text(t@.take(i as int)),
            s.ev <= 100_000,
            s.frac <= 100_000,
        decreases n - i,
    {
        let c = t.get_char(i);
        assert(t@.take(i + 1).drop_last() =~= t@.take(i as int));
        s = next_scan(s, c);
        i = i + 1;
    }
    assert(t@.take(n as int) =~= t@);
    if s.phase == 2 || s.phase == 4 || s.phase == 7 {
        let e: i64 = if s.eneg { 0 - s.ev as i64 } else { s.ev as i64 };
        Some(Dec { neg: s.neg, coef: s.coef, exp: e - s.frac as i64 })
    } else {
        None
    }
}

/// `coef * 10^exp` with the trailing zeros of `coef` moved into `exp`.
pub open spec fn strip_zeros(c: nat, e: int) -> (nat, int)
    decreases c,
{
    if c > 0 && c % 10 == 0 { strip_zeros(c / 10, e + 1) } else { (c, e) }
}

/// `n` zeros.
pub open spec fn zeros(n: nat) -> Seq<char> {
    Seq::new(n, |i: int| '0')
}

/// How a double with the value of `d` prints with `{}`: its shortest
/// digits in positional notation, with no exponent, a `-` for negatives
/// (`-0` included) and no trailing `.0`.
pub open spec fn double_display(d: Dec) -> Seq<char> {
    let (c, e) = strip_zeros(d.coef as nat, d.exp as int);
    let ds = decimal_text(c);
    let sign = if d.neg { seq!['-'] } else { Seq::<char>::empty() };
    let body = if c == 0 {
        seq!['0']
    } else if e >= 0 {
        ds + zeros(e as nat)
    } else if ds.len() > -e {
        ds.take(ds.len() + e) + seq!['.'] + ds.skip(ds.len() + e)
    } else {
        seq!['0', '.'] + zeros((-e - ds.len()) as nat) + ds
    };
    sign + body
}

fn push_zeros(out: &mut String, n: u64)
    ensures
        final(out)@ == old(out)@ + zeros(n as nat),
{
    proof { reveal_strlit("0"); }
    assert("0"@ =~= seq!['0']);
    let mut i: u64 = 0;
    while i < n
        invariant
            i <= n,
            out@ == old(out)@ + zeros(i as nat),
        decreases n - i,
    {
        let ghost prev = out@;
        proof { reveal_strlit("0"); }
        assert("0"@ =~= seq!['0']);
        out.append("0");
        assert(zeros((i + 1) as nat) =~= zeros(i as nat) + seq!['0']);
        assert(out@ =~= prev + seq!['0']);
        i = i + 1;
        assert(out@ =~= old(out)@ + zeros(i as nat));
    }
}

/// The text that `{}` gives for a double with the value of `d`.
pub fn double_text(d: &Dec) -> (r: String)
    ensures
        r@ == double_display(*d),
{
    let mut c = d.coef;
    let mut e: i128 = d.exp as i128;
    proof {
        let k = (e - d.exp) as nat;
        assert(k == 0);
        assert(pow10(k) == 1);
        assert(c as nat * pow10(k) == d.coef) by (nonlinear_arith)
            requires pow10(k) == 1, c == d.coef;
    }
    while c > 0 && c % 10 == 0
        invariant
            strip_zeros(c as nat, e as int) == strip_zeros(d.coef as nat, d.exp as int),
            d.exp <= e <= d.exp + 20,
            c <= d.coef,
            c as nat * pow10((e - d.exp) as nat) == d.coef,
        decreases c,
    {
        proof {
            lemma_pow10_pos((e - d.exp) as nat);
            if e - d.exp >= 20 {
                lemma_pow10_mono(20, (e - d.exp) as nat);
                lemma_pow10_19();
                assert(c as nat * pow10((e - d.exp) as nat) >= pow10((e - d.exp) as nat)) by (nonlinear_arith)
                    requires c >= 1, pow10((e - d.exp) as nat) >= 1;
            }
            let k = (e - d.exp) as nat;
            assert(pow10(k + 1) == 10 * pow10(k));
            assert((c / 10) as nat * pow10(k + 1) == c as nat * pow10(k)) by (nonlinear_arith)
                requires c % 10 == 0, pow10(k + 1) == 10 * pow10(k), c >= 0;
        }
        c = c / 10;
        e = e + 1;
    }
    let ds = u64_text(c);
    let mut out = String::new();
    proof {
        reveal_strlit("-");
        reveal_strlit("0");
        reveal_strlit(".");
        reveal_strlit("0.");
    }
    if d.neg {
        out.append("-");
    }
    let ghost sign = out@;
    assert(sign =~= (if d.neg { seq!['-'] } else { Seq::<char>::empty() }));
    if c == 0 {
        out.append("0");
        assert(out@ =~= double_display(*d));
    } else if e >= 0 {
        out.append(ds.as_str());
        push_zeros(&mut out, e as u64);
        assert(out@ =~= double_display(*d));
    } else {
        let len = ds.as_str().unicode_len();
        if (len as i128) > 0 - e {
            let cut = (len as i128 + e) as usize;
            let head = ds.as_str().substring_char(0, cut);
            let tail = ds.as_str().substring_char(cut, len);
            out.append(head);
            out.append(".");
            out.append(tail);
            assert(out@ =~= double_display(*d));
        } else {
            out.append("0.");
            push_zeros(&mut out, (0 - e - len as i128) as u64);
            out.append(ds.as_str());
            assert(out@ =~= double_display(*d));
        }
    }
    out
}

} // verus!
