//! Solving `f(x) = target` in closed form where `f` is written `ax+b`.
use vstd::prelude::*;
use vstd::arithmetic::div_mod::lemma_fundamental_div_mod_converse;
use crate::bignum::{
    add_digits, digits_ok, divide, dval, lemma_dval_bound, lemma_pow10_pos, lemma_push, less, pad,
    pow10, shift, sub_digits,
};
use crate::chars::sub_chars;
use crate::document::{is_blank, skip_blank};
use crate::recognize::is_digit;

verus! {

/// The value of the digit `c`.
pub open spec fn digit_of(c: char) -> int {
    (c as u32) - ('0' as u32)
}

/// The digit values of the characters `s`.
pub open spec fn to_digits(s: Seq<char>) -> Seq<u8> {
    Seq::new(s.len(), |i: int| digit_of(s[i]) as u8)
}

/// Every character of `s` is a digit.
pub open spec fn all_digits(s: Seq<char>) -> bool {
    forall|i: int| 0 <= i < s.len() ==> is_digit(#[trigger] s[i])
}

/// The first index at or after `i` that holds `c`, or the length.
pub open spec fn find_char(s: Seq<char>, c: char, i: int) -> int
    decreases s.len() - i,
{
    if 0 <= i < s.len() && s[i] != c {
        find_char(s, c, i + 1)
    } else {
        i
    }
}

/// The end of `s` without its trailing blanks.
pub open spec fn blank_end(s: Seq<char>) -> int
    decreases s.len(),
{
    if s.len() > 0 && is_blank(s.last()) {
        blank_end(s.drop_last())
    } else {
        s.len() as int
    }
}

/// A number `sign · digits / 10^scale`, its digits most significant first.
#[derive(Clone, Debug, PartialEq, Eq)]
pub struct Decimal {
    pub negative: bool,
    pub digits: Vec<u8>,
    pub scale: usize,
}

/// What a `Decimal` holds.
pub struct Number {
    pub negative: bool,
    pub digits: Seq<u8>,
    pub scale: nat,
}

impl View for Decimal {
    type V = Number;

    open spec fn view(&self) -> Number {
        Number { negative: self.negative, digits: self.digits@, scale: self.scale as nat }
    }
}

impl Decimal {
    /// Every digit is below ten.
    pub open spec fn wf(&self) -> bool {
        digits_ok(self.digits@)
    }
}

impl Number {
    /// The signed numerator over `den`.
    pub open spec fn num(self) -> int {
        if self.negative {
            -dval(self.digits)
        } else {
            dval(self.digits)
        }
    }

    /// The denominator, a power of ten.
    pub open spec fn den(self) -> int {
        pow10(self.scale)
    }
}

/// The unsigned number written in `s`: at least one digit, with at most one
/// point among them; as its digits and its scale.
pub open spec fn unsigned_value(s: Seq<char>) -> Option<(Seq<u8>, nat)> {
    let k = find_char(s, '.', 0);
    let ip = s.subrange(0, k);
    let fp = if k < s.len() {
        s.subrange(k + 1, s.len() as int)
    } else {
        Seq::empty()
    };
    if all_digits(ip) && all_digits(fp) && ip.len() + fp.len() >= 1 {
        Some((to_digits(ip + fp), fp.len()))
    } else {
        None
    }
}

/// The number `s` holds after an optional sign; a bare sign, or nothing,
/// stands for one where `bare_is_one` holds.
pub open spec fn signed_value(s: Seq<char>, bare_is_one: bool) -> Option<Number> {
    let signed = s.len() > 0 && (s[0] == '-' || s[0] == '+');
    let neg = s.len() > 0 && s[0] == '-';
    let rest = if signed {
        s.drop_first()
    } else {
        s
    };
    if rest.len() == 0 && bare_is_one {
        Some(Number { negative: neg, digits: seq![1u8], scale: 0 })
    } else {
        match unsigned_value(rest) {
            Some(v) => Some(Number { negative: neg, digits: v.0, scale: v.1 }),
            None => None,
        }
    }
}

/// The constant term that follows `x`: nothing but blanks stands for zero;
/// else a sign, blanks and a number, and blanks after it.
pub open spec fn constant_value(t: Seq<char>) -> Option<Number> {
    let t1 = t.subrange(0, blank_end(t));
    let t2 = t1.subrange(skip_blank(t1, 0), t1.len() as int);
    if t2.len() == 0 {
        Some(Number { negative: false, digits: seq![0u8], scale: 0 })
    } else if t2[0] == '-' || t2[0] == '+' {
        let r = t2.drop_first();
        let r2 = r.subrange(skip_blank(r, 0), r.len() as int);
        match unsigned_value(r2) {
            Some(v) => Some(Number { negative: t2[0] == '-', digits: v.0, scale: v.1 }),
            None => None,
        }
    } else {
        None
    }
}

/// The slope and intercept of a body written `<coefficient>x <sign><constant>`,
/// where the whole body has that shape.
pub open spec fn linear_form(body: Seq<char>) -> Option<(Number, Number)> {
    let k = find_char(body, 'x', 0);
    if k >= body.len() {
        None
    } else {
        match (
            signed_value(body.subrange(0, k), true),
            constant_value(body.subrange(k + 1, body.len() as int)),
        ) {
            (Some(a), Some(b)) => Some((a, b)),
            _ => None,
        }
    }
}

/// `n / d` rounded to the nearest integer, halves away from zero.
pub open spec fn round_div(n: int, d: int) -> int {
    if n >= 0 {
        (2 * n + d) / (2 * d)
    } else {
        -((-2 * n + d) / (2 * d))
    }
}

/// `(target − intercept) / slope` in hundredths, rounded to the nearest.
pub open spec fn solution_hundredths(a: Number, b: Number, t: Number) -> int {
    let n = (t.num() * b.den() - b.num() * t.den()) * a.den() * 100;
    let d = t.den() * b.den() * a.num();
    if d > 0 {
        round_div(n, d)
    } else {
        round_div(-n, -d)
    }
}

/// The character of the digit `d`.
pub open spec fn digit_char(d: nat) -> char {
    ((d + ('0' as u32)) as u32) as char
}

/// The decimal digits of `n`, most significant first.
pub open spec fn nat_digits(n: nat) -> Seq<char>
    decreases n,
{
    if n < 10 {
        seq![digit_char(n)]
    } else {
        nat_digits(n / 10).push(digit_char(n % 10))
    }
}

/// `q` hundredths written with exactly two digits after the point.
pub open spec fn fixed2(q: int) -> Seq<char> {
    let m: nat = if q < 0 {
        (-q) as nat
    } else {
        q as nat
    };
    (if q < 0 {
        seq!['-']
    } else {
        Seq::empty()
    }) + nat_digits(m / 100) + seq!['.', digit_char((m % 100) / 10), digit_char(m % 10)]
}

/// The characters of the digits `s`.
pub open spec fn digit_chars(s: Seq<u8>) -> Seq<char> {
    Seq::new(s.len(), |i: int| digit_char(s[i] as nat))
}

fn skip_blank_exec(s: &Vec<char>) -> (r: usize)
    ensures
        r == skip_blank(s@, 0),
        r <= s@.len(),
{
    let mut k: usize = 0;
    while k < s.len() && (s[k] == ' ' || s[k] == '\t')
        invariant
            k <= s@.len(),
            skip_blank(s@, k as int) == skip_blank(s@, 0),
        decreases s@.len() - k,
    {
        k = k + 1;
    }
    k
}

fn find_char_exec(s: &Vec<char>, c: char) -> (r: usize)
    ensures
        r == find_char(s@, c, 0),
        r <= s@.len(),
{
    let mut k: usize = 0;
    while k < s.len() && s[k] != c
        invariant
            k <= s@.len(),
            find_char(s@, c, k as int) == find_char(s@, c, 0),
        decreases s@.len() - k,
    {
        k = k + 1;
    }
    k
}

fn blank_end_exec(s: &Vec<char>) -> (r: usize)
    ensures
        r == blank_end(s@),
        r <= s@.len(),
{
    let mut k: usize = s.len();
    assert(s@.subrange(0, k as int) =~= s@);
    while k > 0 && (s[k - 1] == ' ' || s[k - 1] == '\t')
        invariant
            k <= s@.len(),
            blank_end(s@.subrange(0, k as int)) == blank_end(s@),
        decreases k,
    {
        assert(s@.subrange(0, k as int).drop_last() =~= s@.subrange(0, k - 1));
        k = k - 1;
    }
    assert(k > 0 ==> s@.subrange(0, k as int).last() == s@[k - 1]);
    k
}

/// Reads an unsigned number: at least one digit, with at most one point
/// among them. Gives its digits and its scale.
pub fn parse_unsigned(s: &Vec<char>) -> (r: Option<(Vec<u8>, usize)>)
    ensures
        r matches Some(v) ==> unsigned_value(s@) == Some((v.0@, v.1 as nat)) && digits_ok(v.0@),
        r is None <==> unsigned_value(s@) is None,
{
    let n = s.len();
    let k = find_char_exec(s, '.');
    let ip = sub_chars(s, 0, k);
    let fp = if k < n {
        sub_chars(s, k + 1, n)
    } else {
        Vec::new()
    };
    assert(k >= n ==> fp@ =~= Seq::<char>::empty());
    if ip.len() == 0 && fp.len() == 0 {
        return None;
    }
    let ghost all = ip@ + fp@;
    let ghost sfp = if k < s@.len() {
        s@.subrange(k + 1, s@.len() as int)
    } else {
        Seq::<char>::empty()
    };
    assert(sfp == fp@);
    assert(unsigned_value(s@) == if all_digits(ip@) && all_digits(fp@) {
        Some((to_digits(ip@ + fp@), fp@.len()))
    } else {
        None
    });
    assert(ip@.len() + fp@.len() <= n);
    let total = ip.len() + fp.len();
    let mut d: Vec<u8> = Vec::new();
    let mut i: usize = 0;
    while i < total
        invariant
            total == all.len(),
            unsigned_value(s@) == if all_digits(ip@) && all_digits(fp@) {
                Some((to_digits(ip@ + fp@), fp@.len()))
            } else {
                None
            },
            i <= all.len(),
            all == ip@ + fp@,
            ip@.len() + fp@.len() == all.len(),
            all_digits(all.subrange(0, i as int)),
            d@ == to_digits(all.subrange(0, i as int)),
        decreases all.len() - i,
    {
        let c = if i < ip.len() {
            ip[i]
        } else {
            fp[i - ip.len()]
        };
        assert(c == all[i as int]);
        if !('0' <= c && c <= '9') {
            assert(!(all_digits(ip@) && all_digits(fp@))) by {
                if i < ip@.len() {
                    assert(ip@[i as int] == c);
                } else {
                    assert(fp@[i - ip@.len()] == c);
                }
            }
            return None;
        }
        d.push((c as u32 - '0' as u32) as u8);
        i = i + 1;
        assert(all.subrange(0, i as int).drop_last() =~= all.subrange(0, i - 1));
        assert(d@ =~= to_digits(all.subrange(0, i as int)));
    }
    assert(all.subrange(0, all.len() as int) =~= all);
    assert(all_digits(ip@)) by {
        assert forall|j: int| 0 <= j < ip@.len() implies is_digit(#[trigger] ip@[j]) by {
            assert(ip@[j] == all[j]);
        }
    }
    assert(all_digits(fp@)) by {
        assert forall|j: int| 0 <= j < fp@.len() implies is_digit(#[trigger] fp@[j]) by {
            assert(fp@[j] == all[ip@.len() + j]);
        }
    }
    assert(digits_ok(d@)) by {
        assert forall|j: int| 0 <= j < d@.len() implies #[trigger] d@[j] < 10 by {
            assert(is_digit(all[j]));
        }
    }
    Some((d, fp.len()))
}

/// Reads a number after an optional sign. Where `bare_is_one` holds, a
/// bare sign or nothing at all stands for one.
pub fn parse_signed(s: &Vec<char>, bare_is_one: bool) -> (r: Option<Decimal>)
    ensures
        r matches Some(d) ==> signed_value(s@, bare_is_one) == Some(d@) && d.wf(),
        r is None <==> signed_value(s@, bare_is_one) is None,
{
    let n = s.len();
    let signed = n > 0 && (s[0] == '-' || s[0] == '+');
    let neg = n > 0 && s[0] == '-';
    let rest = if signed {
        sub_chars(s, 1, n)
    } else {
        sub_chars(s, 0, n)
    };
    assert(signed ==> rest@ =~= s@.drop_first());
    assert(!signed ==> rest@ =~= s@);
    if rest.len() == 0 && bare_is_one {
        let one = vec![1u8];
        assert(one@ =~= seq![1u8]);
        return Some(Decimal { negative: neg, digits: one, scale: 0 });
    }
    match parse_unsigned(&rest) {
        Some(v) => Some(Decimal { negative: neg, digits: v.0, scale: v.1 }),
        None => None,
    }
}

/// Reads the constant term that follows `x`.
pub fn parse_constant(t: &Vec<char>) -> (r: Option<Decimal>)
    ensures
        r matches Some(d) ==> constant_value(t@) == Some(d@) && d.wf(),
        r is None <==> constant_value(t@) is None,
{
    let e = blank_end_exec(t);
    let t1 = sub_chars(t, 0, e);
    let k = skip_blank_exec(&t1);
    let t2 = sub_chars(&t1, k, t1.len());
    if t2.len() == 0 {
        let zero = vec![0u8];
        assert(zero@ =~= seq![0u8]);
        return Some(Decimal { negative: false, digits: zero, scale: 0 });
    }
    if t2[0] == '-' || t2[0] == '+' {
        let r = sub_chars(&t2, 1, t2.len());
        assert(r@ =~= t2@.drop_first());
        let k2 = skip_blank_exec(&r);
        let r2 = sub_chars(&r, k2, r.len());
        match parse_unsigned(&r2) {
            Some(v) => Some(Decimal { negative: t2[0] == '-', digits: v.0, scale: v.1 }),
            None => None,
        }
    } else {
        None
    }
}

/// The slope and intercept of a body written `<coefficient>x <sign><constant>`.
/// The coefficient is optional and stands for one where it is left out, or
/// is a bare sign; the constant is optional and stands for zero. Anything
/// else, a second `x` or a parenthesis, gives `None`.
pub fn extract_linear_coefficients(body: &Vec<char>) -> (r: Option<(Decimal, Decimal)>)
    ensures
        r matches Some(v) ==> linear_form(body@) == Some((v.0@, v.1@)) && v.0.wf() && v.1.wf(),
        r is None <==> linear_form(body@) is None,
{
    let n = body.len();
    let k = find_char_exec(body, 'x');
    if k >= n {
        return None;
    }
    let coef = sub_chars(body, 0, k);
    let rest = sub_chars(body, k + 1, n);
    match (parse_signed(&coef, true), parse_constant(&rest)) {
        (Some(a), Some(b)) => Some((a, b)),
        _ => None,
    }
}

fn digit_to_char(d: u128) -> (r: char)
    requires
        d < 10,
    ensures
        r == digit_char(d as nat),
{
    ((d as u8) + 48u8) as char
}

proof fn lemma_digit_chars(s: Seq<u8>)
    requires
        digits_ok(s),
        s.len() >= 1,
        s[0] != 0 || s.len() == 1,
    ensures
        dval(s) >= 0,
        nat_digits(dval(s) as nat) == digit_chars(s),
    decreases s.len(),
{
    lemma_dval_bound(s);
    let p = s.drop_last();
    let d = s.last();
    assert(p.push(d) =~= s);
    lemma_push(p, d);
    if s.len() == 1 {
        assert(p =~= Seq::<u8>::empty());
        assert(digit_chars(s) =~= seq![digit_char(d as nat)]);
    } else {
        assert(digits_ok(p)) by {
            assert forall|i: int| 0 <= i < p.len() implies #[trigger] p[i] < 10 by {
                assert(p[i] == s[i]);
            }
        }
        lemma_digit_chars(p);
        let t = p.drop_first();
        assert(digits_ok(t)) by {
            assert forall|i: int| 0 <= i < t.len() implies #[trigger] t[i] < 10 by {
                assert(t[i] == s[i + 1]);
            }
        }
        lemma_dval_bound(t);
        lemma_pow10_pos((p.len() - 1) as nat);
        assert(p[0] as int * pow10((p.len() - 1) as nat) >= 1) by (nonlinear_arith)
            requires
                p[0] >= 1,
                pow10((p.len() - 1) as nat) >= 1,
        ;
        assert(dval(p) >= 1);
        let n = dval(s);
        assert(d < 10);
        lemma_fundamental_div_mod_converse(n, 10, dval(p), d as int);
        assert(digit_chars(s) =~= digit_chars(p).push(digit_char(d as nat)));
    }
}

/// `q` hundredths, signed by `negative`, written with two digits after the point.
fn format_hundredths(negative: bool, q: &Vec<u8>) -> (r: Vec<char>)
    requires
        digits_ok(q@),
        negative ==> dval(q@) > 0,
    ensures
        r@ == fixed2(if negative {
            -dval(q@)
        } else {
            dval(q@)
        }),
{
    let w = if q.len() > 3 {
        q.len()
    } else {
        3
    };
    let p = pad(q, w);
    let mut k: usize = 0;
    assert(p@.subrange(0, w as int) =~= p@);
    while w - k > 3 && p[k] == 0
        invariant
            k + 3 <= w,
            p@.len() == w,
            digits_ok(p@),
            dval(p@.subrange(k as int, w as int)) == dval(p@),
        decreases w - k,
    {
        assert(p@.subrange(k as int, w as int).drop_first() =~= p@.subrange(k + 1, w as int));
        assert(p@.subrange(k as int, w as int)[0] == 0);
        k = k + 1;
    }
    let ghost s = p@.subrange(k as int, w as int);
    let ghost m = dval(q@);
    let ghost ip = s.subrange(0, s.len() - 2);
    proof {
        assert(digits_ok(s)) by {
            assert forall|i: int| 0 <= i < s.len() implies #[trigger] s[i] < 10 by {
                assert(s[i] == p@[k + i]);
            }
        }
        assert(digits_ok(ip)) by {
            assert forall|i: int| 0 <= i < ip.len() implies #[trigger] ip[i] < 10 by {
                assert(ip[i] == s[i]);
            }
        }
        assert(ip[0] == s[0]);
        lemma_digit_chars(ip);
        let d1 = s[s.len() - 2];
        let d0 = s[s.len() - 1];
        assert(ip.push(d1).push(d0) =~= s);
        lemma_push(ip, d1);
        lemma_push(ip.push(d1), d0);
        assert(m == 100 * dval(ip) + (10 * d1 + d0));
        lemma_fundamental_div_mod_converse(m, 100, dval(ip), 10 * d1 + d0);
        lemma_fundamental_div_mod_converse(10 * d1 + d0, 10, d1 as int, d0 as int);
        lemma_fundamental_div_mod_converse(m, 10, 10 * dval(ip) + d1, d0 as int);
    }
    let mut out: Vec<char> = Vec::new();
    if negative {
        out.push('-');
    }
    let ghost start = out@;
    let mut j: usize = k;
    while j < w - 2
        invariant
            k <= j <= w - 2,
            p@.len() == w,
            w >= 3,
            digits_ok(p@),
            s == p@.subrange(k as int, w as int),
            out@ == start + digit_chars(s.subrange(0, j - k)),
        decreases w - 2 - j,
    {
        out.push(digit_to_char(p[j] as u128));
        j = j + 1;
        assert(out@ =~= start + digit_chars(s.subrange(0, j - k)));
    }
    out.push('.');
    out.push(digit_to_char(p[w - 2] as u128));
    out.push(digit_to_char(p[w - 1] as u128));
    let ghost v = if negative {
        -m
    } else {
        m
    };
    assert(out@ =~= fixed2(v));
    out
}

/// Solves `slope · x + intercept = target` for `x`, written with exactly
/// two digits after the point, rounded to the nearest hundredth with halves
/// away from zero. A zero slope has no unique solution: `None`.
pub fn solve(slope: &Decimal, intercept: &Decimal, target: &Decimal) -> (r: Option<Vec<char>>)
    requires
        slope.wf(),
        intercept.wf(),
        target.wf(),
    ensures
        r is None <==> dval(slope.digits@) == 0,
        r matches Some(v) ==> v@ == fixed2(solution_hundredths(slope@, intercept@, target@)),
{
    let zero: Vec<u8> = Vec::new();
    assert(dval(zero@) == 0);
    proof {
        lemma_dval_bound(slope.digits@);
        lemma_dval_bound(intercept.digits@);
        lemma_dval_bound(target.digits@);
        lemma_pow10_pos(slope.scale as nat);
        lemma_pow10_pos(intercept.scale as nat);
        lemma_pow10_pos(target.scale as nat);
    }
    if !less(&zero, &slope.digits) {
        return None;
    }
    let p = shift(&target.digits, intercept.scale);
    let qv = shift(&intercept.digits, target.scale);
    let neg_q = !intercept.negative;
    let ghost pv = dval(p@);
    let ghost qvv = dval(qv@);
    proof {
        lemma_dval_bound(p@);
        lemma_dval_bound(qv@);
    }
    let (vneg, vmag) = if target.negative == neg_q {
        (target.negative, add_digits(&p, &qv))
    } else if less(&p, &qv) {
        (neg_q, sub_digits(&qv, &p))
    } else {
        (target.negative, sub_digits(&p, &qv))
    };
    let ghost vv = (if target.negative {
        -pv
    } else {
        pv
    }) - (if intercept.negative {
        -qvv
    } else {
        qvv
    });
    assert(vv == if vneg {
        -dval(vmag@)
    } else {
        dval(vmag@)
    });
    let nmag = shift(&shift(&vmag, slope.scale), 2);
    let dmag = shift(&shift(&slope.digits, target.scale), intercept.scale);
    let two_n = add_digits(&nmag, &nmag);
    let big = add_digits(&two_n, &dmag);
    let den = add_digits(&dmag, &dmag);
    proof {
        lemma_dval_bound(vmag@);
        lemma_dval_bound(nmag@);
        reveal_with_fuel(pow10, 3);
        let a = slope@;
        let b = intercept@;
        let t = target@;
        let av = dval(a.digits);
        let ad = a.den();
        let bd = b.den();
        let td = t.den();
        let vm = dval(vmag@);
        assert(t.num() * bd - b.num() * td == vv) by (nonlinear_arith)
            requires
                pv == dval(t.digits) * bd,
                qvv == dval(b.digits) * td,
                t.num() == if t.negative { -dval(t.digits) } else { dval(t.digits) },
                b.num() == if b.negative { -dval(b.digits) } else { dval(b.digits) },
                vv == (if t.negative { -pv } else { pv }) - (if b.negative { -qvv } else { qvv }),
        ;
        assert(dval(nmag@) == vm * ad * 100);
        assert(dval(dmag@) == av * td * bd);
        assert(dval(dmag@) > 0) by (nonlinear_arith)
            requires
                dval(dmag@) == av * td * bd,
                av > 0,
                td >= 1,
                bd >= 1,
        ;
        let n = vv * ad * 100;
        let d = td * bd * a.num();
        assert(n == if vneg { -dval(nmag@) } else { dval(nmag@) }) by (nonlinear_arith)
            requires
                vv == if vneg { -vm } else { vm },
                dval(nmag@) == vm * ad * 100,
                n == vv * ad * 100,
        ;
        assert(d == if a.negative { -dval(dmag@) } else { dval(dmag@) }) by (nonlinear_arith)
            requires
                a.num() == if a.negative { -av } else { av },
                dval(dmag@) == av * td * bd,
                d == td * bd * a.num(),
        ;
    }
    let q = divide(&big, &den);
    let neg = vneg != slope.negative && less(&zero, &q);
    proof {
        let n = (target@.num() * intercept@.den() - intercept@.num() * target@.den())
            * slope@.den() * 100;
        let d = target@.den() * intercept@.den() * slope@.num();
        let e = if d > 0 {
            n
        } else {
            -n
        };
        assert(e == if vneg != slope.negative { -dval(nmag@) } else { dval(nmag@) });
        assert(solution_hundredths(slope@, intercept@, target@) == round_div(e, dval(dmag@)));
        lemma_dval_bound(q@);
        let nn = dval(nmag@);
        let dd = dval(dmag@);
        assert(dval(big@) == 2 * nn + dd);
        assert(dval(den@) == 2 * dd);
        assert(dval(q@) == (2 * nn + dd) / (2 * dd));
        if e >= 0 {
            assert(e == nn);
            assert(round_div(e, dd) == dval(q@));
            if vneg != slope.negative {
                assert(nn == 0);
                lemma_fundamental_div_mod_converse(dd, 2 * dd, 0, dd);
                assert(!neg);
            }
        } else {
            assert(e == -nn);
            assert(round_div(e, dd) == -dval(q@));
        }
    }
    Some(format_hundredths(neg, &q))
}

} // verus!
