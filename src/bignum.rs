//! Natural numbers of any size as decimal digits, most significant first.
use vstd::prelude::*;
use vstd::arithmetic::div_mod::lemma_fundamental_div_mod_converse;

verus! {

/// `10` to the power `n`.
pub open spec fn pow10(n: nat) -> int
    decreases n,
{
    if n == 0 {
        1
    } else {
        10 * pow10((n - 1) as nat)
    }
}

/// The value of the digits `s`, most significant first.
pub open spec fn dval(s: Seq<u8>) -> int
    decreases s.len(),
{
    if s.len() == 0 {
        0
    } else {
        s[0] as int * pow10((s.len() - 1) as nat) + dval(s.drop_first())
    }
}

/// Every element of `s` is a decimal digit.
pub open spec fn digits_ok(s: Seq<u8>) -> bool {
    forall|i: int| 0 <= i < s.len() ==> #[trigger] s[i] < 10
}

pub proof fn lemma_pow10_pos(n: nat)
    ensures
        pow10(n) >= 1,
    decreases n,
{
    if n > 0 {
        lemma_pow10_pos((n - 1) as nat);
    }
}

pub proof fn lemma_dval_bound(s: Seq<u8>)
    requires
        digits_ok(s),
    ensures
        0 <= dval(s) < pow10(s.len()),
    decreases s.len(),
{
    if s.len() > 0 {
        let t = s.drop_first();
        assert(digits_ok(t)) by {
            assert forall|i: int| 0 <= i < t.len() implies #[trigger] t[i] < 10 by {
                assert(t[i] == s[i + 1]);
            }
        }
        lemma_dval_bound(t);
        lemma_pow10_pos(t.len());
        let p = pow10(t.len());
        let d = s[0] as int;
        assert(d < 10);
        assert(0 <= d * p + dval(t) < 10 * p) by (nonlinear_arith)
            requires
                0 <= d < 10,
                0 <= dval(t) < p,
        ;
    }
}

pub proof fn lemma_push(s: Seq<u8>, d: u8)
    ensures
        dval(s.push(d)) == 10 * dval(s) + d,
    decreases s.len(),
{
    let t = s.push(d);
    if s.len() > 0 {
        assert(t[0] == s[0]);
        assert(dval(t) == s[0] as int * pow10(s.len() as nat) + dval(t.drop_first()));
        assert(t.drop_first() =~= s.drop_first().push(d));
        lemma_push(s.drop_first(), d);
        let p = pow10((s.len() - 1) as nat);
        assert(pow10(s.len() as nat) == 10 * p);
        assert(s[0] as int * (10 * p) == 10 * (s[0] as int * p)) by (nonlinear_arith);
    } else {
        assert(t.drop_first() =~= Seq::<u8>::empty());
        assert(pow10(0) == 1);
        assert(dval(t) == d as int * pow10(0) + dval(t.drop_first()));
    }
}

proof fn lemma_zeros_front(m: nat, s: Seq<u8>)
    ensures
        dval(Seq::new(m, |i: int| 0u8) + s) == dval(s),
    decreases m,
{
    if m > 0 {
        let z = Seq::new(m, |i: int| 0u8);
        let z2 = Seq::new((m - 1) as nat, |i: int| 0u8);
        assert((z + s).drop_first() =~= z2 + s);
        lemma_zeros_front((m - 1) as nat, s);
    }
}

/// `a` with zeros in front, to length `n`.
pub fn pad(a: &Vec<u8>, n: usize) -> (r: Vec<u8>)
    requires
        a@.len() <= n,
        digits_ok(a@),
    ensures
        r@.len() == n,
        dval(r@) == dval(a@),
        digits_ok(r@),
{
    let m = n - a.len();
    let mut r: Vec<u8> = Vec::new();
    let mut i: usize = 0;
    while i < m
        invariant
            i <= m,
            r@ == Seq::new(i as nat, |k: int| 0u8),
        decreases m - i,
    {
        r.push(0);
        i = i + 1;
        assert(r@ =~= Seq::new(i as nat, |k: int| 0u8));
    }
    let mut j: usize = 0;
    while j < a.len()
        invariant
            j <= a@.len(),
            r@ == Seq::new(m as nat, |k: int| 0u8) + a@.subrange(0, j as int),
        decreases a@.len() - j,
    {
        r.push(a[j]);
        j = j + 1;
        assert(r@ =~= Seq::new(m as nat, |k: int| 0u8) + a@.subrange(0, j as int));
    }
    assert(a@.subrange(0, a@.len() as int) =~= a@);
    proof {
        lemma_zeros_front(m as nat, a@);
    }
    r
}

/// `a` times `10^k`.
pub fn shift(a: &Vec<u8>, k: usize) -> (r: Vec<u8>)
    requires
        digits_ok(a@),
    ensures
        digits_ok(r@),
        dval(r@) == dval(a@) * pow10(k as nat),
{
    let mut r = pad(a, a.len());
    let mut i: usize = 0;
    while i < k
        invariant
            i <= k,
            digits_ok(r@),
            dval(r@) == dval(a@) * pow10(i as nat),
        decreases k - i,
    {
        proof {
            lemma_push(r@, 0);
        }
        r.push(0);
        assert(dval(a@) * pow10((i + 1) as nat) == 10 * (dval(a@) * pow10(i as nat)))
            by (nonlinear_arith)
            requires
                pow10((i + 1) as nat) == 10 * pow10(i as nat),
        ;
        i = i + 1;
    }
    r
}

/// `a + b`.
pub fn add_digits(a: &Vec<u8>, b: &Vec<u8>) -> (r: Vec<u8>)
    requires
        digits_ok(a@),
        digits_ok(b@),
    ensures
        digits_ok(r@),
        dval(r@) == dval(a@) + dval(b@),
{
    let n = if a.len() > b.len() {
        a.len()
    } else {
        b.len()
    };
    let x = pad(a, n);
    let y = pad(b, n);
    let mut r = pad(&x, n);
    let mut carry: u8 = 0;
    let mut k: usize = n;
    assert(x@.subrange(n as int, n as int) =~= Seq::<u8>::empty());
    assert(y@.subrange(n as int, n as int) =~= Seq::<u8>::empty());
    assert(r@.subrange(n as int, n as int) =~= Seq::<u8>::empty());
    while k > 0
        invariant
            k <= n,
            x@.len() == n,
            y@.len() == n,
            r@.len() == n,
            digits_ok(x@),
            digits_ok(y@),
            digits_ok(r@),
            carry <= 1,
            dval(r@.subrange(k as int, n as int)) + carry * pow10((n - k) as nat) == dval(
                x@.subrange(k as int, n as int),
            ) + dval(y@.subrange(k as int, n as int)),
        decreases k,
    {
        let ghost r_old = r@;
        let ghost p = pow10((n - k) as nat);
        let s = x[k - 1] + y[k - 1] + carry;
        r.set(k - 1, s % 10);
        let ghost c_old = carry as int;
        carry = s / 10;
        proof {
            assert(r@.subrange(k - 1, n as int).drop_first() =~= r_old.subrange(k as int, n as int));
            assert(x@.subrange(k - 1, n as int).drop_first() =~= x@.subrange(k as int, n as int));
            assert(y@.subrange(k - 1, n as int).drop_first() =~= y@.subrange(k as int, n as int));
            assert(pow10((n - k + 1) as nat) == 10 * p);
            let sv = s as int;
            assert((sv % 10) * p + (sv / 10) * (10 * p) == sv * p) by (nonlinear_arith)
                requires
                    sv == (sv % 10) + 10 * (sv / 10),
            ;
            assert(sv * p == x[k - 1] as int * p + y[k - 1] as int * p + c_old * p)
                by (nonlinear_arith)
                requires
                    sv == x[k - 1] as int + y[k - 1] as int + c_old,
            ;
        }
        k = k - 1;
    }
    let ghost r_old = r@;
    r.insert(0, carry);
    proof {
        assert(r@.drop_first() =~= r_old);
        assert(r_old.subrange(0, n as int) =~= r_old);
        assert(x@.subrange(0, n as int) =~= x@);
        assert(y@.subrange(0, n as int) =~= y@);
    }
    r
}

/// `a − b` and whether `a < b`; where `a < b` the digits are those of
/// `a − b + 10^n` for the common length `n`.
fn sub_borrow(a: &Vec<u8>, b: &Vec<u8>) -> (r: (Vec<u8>, bool))
    requires
        digits_ok(a@),
        digits_ok(b@),
    ensures
        digits_ok(r.0@),
        r.1 == (dval(a@) < dval(b@)),
        !r.1 ==> dval(r.0@) == dval(a@) - dval(b@),
{
    let n = if a.len() > b.len() {
        a.len()
    } else {
        b.len()
    };
    let x = pad(a, n);
    let y = pad(b, n);
    let mut r = pad(&x, n);
    let mut borrow: u8 = 0;
    let mut k: usize = n;
    assert(x@.subrange(n as int, n as int) =~= Seq::<u8>::empty());
    assert(y@.subrange(n as int, n as int) =~= Seq::<u8>::empty());
    assert(r@.subrange(n as int, n as int) =~= Seq::<u8>::empty());
    while k > 0
        invariant
            k <= n,
            x@.len() == n,
            y@.len() == n,
            r@.len() == n,
            digits_ok(x@),
            digits_ok(y@),
            digits_ok(r@),
            borrow <= 1,
            dval(r@.subrange(k as int, n as int)) - borrow * pow10((n - k) as nat) == dval(
                x@.subrange(k as int, n as int),
            ) - dval(y@.subrange(k as int, n as int)),
        decreases k,
    {
        let ghost r_old = r@;
        let ghost p = pow10((n - k) as nat);
        let xd = x[k - 1];
        let yd = y[k - 1] + borrow;
        let ghost b_old = borrow as int;
        let d: u8 = if xd >= yd {
            borrow = 0;
            xd - yd
        } else {
            borrow = 1;
            xd + 10 - yd
        };
        r.set(k - 1, d);
        proof {
            assert(r@.subrange(k - 1, n as int).drop_first() =~= r_old.subrange(k as int, n as int));
            assert(x@.subrange(k - 1, n as int).drop_first() =~= x@.subrange(k as int, n as int));
            assert(y@.subrange(k - 1, n as int).drop_first() =~= y@.subrange(k as int, n as int));
            assert(pow10((n - k + 1) as nat) == 10 * p);
            let dv = d as int;
            let bw = borrow as int;
            assert(dv * p - bw * (10 * p) == x[k - 1] as int * p - y[k - 1] as int * p - b_old * p)
                by (nonlinear_arith)
                requires
                    dv - 10 * bw == x[k - 1] as int - y[k - 1] as int - b_old,
            ;
        }
        k = k - 1;
    }
    proof {
        assert(r@.subrange(0, n as int) =~= r@);
        assert(x@.subrange(0, n as int) =~= x@);
        assert(y@.subrange(0, n as int) =~= y@);
        lemma_dval_bound(r@);
        lemma_dval_bound(x@);
        lemma_dval_bound(y@);
    }
    (r, borrow == 1)
}

/// `a − b`, for `a` at least `b`.
pub fn sub_digits(a: &Vec<u8>, b: &Vec<u8>) -> (r: Vec<u8>)
    requires
        digits_ok(a@),
        digits_ok(b@),
        dval(a@) >= dval(b@),
    ensures
        digits_ok(r@),
        dval(r@) == dval(a@) - dval(b@),
{
    sub_borrow(a, b).0
}

/// Whether `a < b`.
pub fn less(a: &Vec<u8>, b: &Vec<u8>) -> (r: bool)
    requires
        digits_ok(a@),
        digits_ok(b@),
    ensures
        r == (dval(a@) < dval(b@)),
{
    sub_borrow(a, b).1
}

/// The quotient `a / d`, for `d` above zero.
pub fn divide(a: &Vec<u8>, d: &Vec<u8>) -> (q: Vec<u8>)
    requires
        digits_ok(a@),
        digits_ok(d@),
        dval(d@) > 0,
    ensures
        digits_ok(q@),
        q@.len() == a@.len(),
        dval(q@) == dval(a@) / dval(d@),
{
    let ghost dv = dval(d@);
    let mut q: Vec<u8> = Vec::new();
    let mut rem: Vec<u8> = Vec::new();
    let mut i: usize = 0;
    while i < a.len()
        invariant
            i <= a@.len(),
            q@.len() == i,
            digits_ok(a@),
            digits_ok(q@),
            digits_ok(rem@),
            digits_ok(d@),
            dv == dval(d@),
            dv > 0,
            0 <= dval(rem@) < dv,
            dval(a@.subrange(0, i as int)) == dval(q@) * dv + dval(rem@),
        decreases a@.len() - i,
    {
        let ghost r0 = dval(rem@);
        let ghost ai = a@[i as int] as int;
        assert(ai < 10);
        proof {
            lemma_push(rem@, a[i as int]);
            lemma_push(a@.subrange(0, i as int), a[i as int]);
            assert(a@.subrange(0, i as int).push(a[i as int]) =~= a@.subrange(0, i + 1));
        }
        rem.push(a[i]);
        let mut qd: u8 = 0;
        while !less(&rem, d)
            invariant
                digits_ok(rem@),
                digits_ok(d@),
                dv == dval(d@),
                dv > 0,
                0 <= r0 < dv,
                0 <= dval(rem@),
                qd < 10,
                0 <= ai < 10,
                dval(rem@) + qd * dv == 10 * r0 + ai,
            decreases dval(rem@),
        {
            rem = sub_digits(&rem, d);
            assert(qd + 1 < 10) by (nonlinear_arith)
                requires
                    dval(rem@) + dv + qd * dv == 10 * r0 + ai,
                    0 <= dval(rem@),
                    r0 < dv,
                    ai < 10,
                    dv > 0,
            ;
            qd = qd + 1;
            assert(qd as int * dv == (qd - 1) as int * dv + dv) by (nonlinear_arith);
        }
        proof {
            lemma_push(q@, qd);
            let qo = dval(q@);
            assert(10 * (qo * dv + r0) + ai == (10 * qo + qd) * dv + dval(rem@))
                by (nonlinear_arith)
                requires
                    dval(rem@) + qd * dv == 10 * r0 + ai,
            ;
        }
        q.push(qd);
        i = i + 1;
    }
    proof {
        assert(a@.subrange(0, a@.len() as int) =~= a@);
        lemma_fundamental_div_mod_converse(dval(a@), dv, dval(q@), dval(rem@));
    }
    q
}

} // verus!
