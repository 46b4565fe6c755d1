use vstd::prelude::*;
use crate::math::{div_toward_zero, lemma_tdiv_bounds, narrow, tdiv, wide};

verus! {

/// Scale of the fixed-point numbers of trajectories: `ONE` stands for 1.0.
pub const ONE: i64 = 1_000_000_000;

/// Why an integration was refused or stopped.
#[derive(Clone, Copy, Debug, PartialEq, Eq, Structural)]
pub enum OdeError {
    /// The step count is zero.
    InvalidStepCount,
    /// The interval's end does not lie after its start.
    EmptyInterval,
    /// A derivative had another length than the state.
    DimensionMismatch,
    /// A value left the range of `i64`.
    Overflow,
    /// A pendulum length is zero or negative.
    NonPositiveLength,
}

pub open spec fn in_i64(v: int) -> bool {
    i64::MIN <= v <= i64::MAX
}

pub open spec fn ints(v: Seq<i64>) -> Seq<int> {
    v.map_values(|x: i64| x as int)
}

/// `h * d`, componentwise, in fixed point, saturated.
pub open spec fn scaled(h: int, d: Seq<int>) -> Seq<int> {
    Seq::new(d.len(), |i: int| wide(tdiv(h * d[i], ONE as int)))
}

/// `w + k / div`, componentwise, saturated.
pub open spec fn offset(w: Seq<int>, k: Seq<int>, div: int) -> Seq<int> {
    Seq::new(w.len(), |i: int| wide(w[i] + tdiv(k[i], div)))
}

/// `w + (k1 + 2 k2 + 2 k3 + k4) / 6`, componentwise, saturated.
pub open spec fn combine(
    w: Seq<int>,
    k1: Seq<int>,
    k2: Seq<int>,
    k3: Seq<int>,
    k4: Seq<int>,
) -> Seq<int> {
    Seq::new(w.len(), |i: int| wide(w[i] + tdiv(k1[i] + 2 * k2[i] + 2 * k3[i] + k4[i], 6)))
}

/// `f` returned `d` for state `x` at time `t`.
pub open spec fn derivative_at<F: Fn(i64, &Vec<i64>) -> Vec<i64>>(
    f: F,
    t: int,
    x: Seq<int>,
    d: Seq<int>,
) -> bool {
    exists|xv: Vec<i64>, dv: Vec<i64>|
        ints(xv@) == x && ints(dv@) == d && d.len() == x.len() && #[trigger] f.ensures(
            (t as i64, &xv),
            dv,
        )
}

/// `next` is one classical Runge-Kutta step of size `h` from state `w` at time `t`, where
/// `deriv(t, x, d)` says that `d` is the derivative at time `t` and state `x`.
pub open spec fn rk4_step_by(
    deriv: spec_fn(int, Seq<int>, Seq<int>) -> bool,
    t: int,
    h: int,
    w: Seq<int>,
    next: Seq<int>,
) -> bool {
    exists|d1: Seq<int>, d2: Seq<int>, d3: Seq<int>, d4: Seq<int>|
        #![trigger combine(w, scaled(h, d1), scaled(h, d2), scaled(h, d3), scaled(h, d4))]
        {
            let k1 = scaled(h, d1);
            let k2 = scaled(h, d2);
            let k3 = scaled(h, d3);
            let k4 = scaled(h, d4);
            &&& deriv(t, w, d1)
            &&& deriv(t + tdiv(h, 2), offset(w, k1, 2), d2)
            &&& deriv(t + tdiv(h, 2), offset(w, k2, 2), d3)
            &&& deriv(t + h, offset(w, k3, 1), d4)
            &&& next == combine(w, k1, k2, k3, k4)
        }
}

/// One classical Runge-Kutta step, with the derivatives that `f` returned.
pub open spec fn rk4_step<F: Fn(i64, &Vec<i64>) -> Vec<i64>>(
    f: F,
    t: int,
    h: int,
    w: Seq<int>,
    next: Seq<int>,
) -> bool {
    rk4_step_by(|s: int, x: Seq<int>, d: Seq<int>| derivative_at(f, s, x, d), t, h, w, next)
}

fn eval<F: Fn(i64, &Vec<i64>) -> Vec<i64>>(f: &F, t: i64, x: &Vec<i64>) -> (r: Result<
    Vec<i64>,
    OdeError,
>)
    requires
        forall|s: i64, y: &Vec<i64>| f.requires((s, y)),
    ensures
        r is Ok ==> derivative_at(*f, t as int, ints(x@), ints(r->Ok_0@)) && r->Ok_0@.len() == x@.len(),
        r is Err ==> r == Err::<Vec<i64>, OdeError>(OdeError::DimensionMismatch),
        keeps_length(*f, x@.len()) ==> r is Ok,
{
    let d = f(t, x);
    if d.len() != x.len() {
        proof {
            if keeps_length(*f, x@.len()) {
                assert((*f).ensures((t, x), d));
            }
        }
        return Err(OdeError::DimensionMismatch);
    }
    let ghost xv: Vec<i64> = *x;
    assert((t as int) as i64 == t);
    assert((*f).ensures(((t as int) as i64, &xv), d));
    Ok(d)
}

fn scale_vec(h: i64, d: &Vec<i64>) -> (r: Vec<i64>)
    ensures
        ints(r@) == scaled(h as int, ints(d@)),
        r@.len() == d@.len(),
{
    let mut k: Vec<i64> = Vec::new();
    let mut i: usize = 0;
    while i < d.len()
        invariant
            i <= d@.len(),
            k@.len() == i,
            forall|j: int| 0 <= j < i ==> k@[j] as int == wide(tdiv(h * d@[j], ONE as int)),
        decreases d@.len() - i,
    {
        let a = h as i128;
        let b = d[i] as i128;
        assert(-0x4000_0000_0000_0000_0000_0000_0000_0000 <= a * b <= 0x4000_0000_0000_0000_0000_0000_0000_0000)
            by (nonlinear_arith)
            requires -0x8000_0000_0000_0000 <= a <= 0x8000_0000_0000_0000, -0x8000_0000_0000_0000 <= b <= 0x8000_0000_0000_0000;
        k.push(narrow(div_toward_zero(a * b, ONE as i128)));
        i = i + 1;
    }
    assert(ints(k@) =~= scaled(h as int, ints(d@)));
    k
}

fn offset_vec(w: &Vec<i64>, k: &Vec<i64>, div: i64) -> (r: Vec<i64>)
    requires
        div > 0,
        k@.len() == w@.len(),
    ensures
        ints(r@) == offset(ints(w@), ints(k@), div as int),
        r@.len() == w@.len(),
{
    let mut x: Vec<i64> = Vec::new();
    let mut i: usize = 0;
    while i < w.len()
        invariant
            div > 0,
            k@.len() == w@.len(),
            i <= w@.len(),
            x@.len() == i,
            forall|j: int| 0 <= j < i ==> x@[j] as int == wide(w@[j] + tdiv(k@[j] as int, div as int)),
        decreases w@.len() - i,
    {
        proof {
            lemma_tdiv_bounds(k@[i as int] as int, div as int);
        }
        x.push(narrow(w[i] as i128 + div_toward_zero(k[i] as i128, div as i128)));
        i = i + 1;
    }
    assert(ints(x@) =~= offset(ints(w@), ints(k@), div as int));
    x
}

fn combine_vec(w: &Vec<i64>, k1: &Vec<i64>, k2: &Vec<i64>, k3: &Vec<i64>, k4: &Vec<i64>) -> (r: Vec<
    i64,
>)
    requires
        k1@.len() == w@.len(),
        k2@.len() == w@.len(),
        k3@.len() == w@.len(),
        k4@.len() == w@.len(),
    ensures
        ints(r@) == combine(ints(w@), ints(k1@), ints(k2@), ints(k3@), ints(k4@)),
        r@.len() == w@.len(),
{
    let mut x: Vec<i64> = Vec::new();
    let mut i: usize = 0;
    while i < w.len()
        invariant
            k1@.len() == w@.len(),
            k2@.len() == w@.len(),
            k3@.len() == w@.len(),
            k4@.len() == w@.len(),
            i <= w@.len(),
            x@.len() == i,
            forall|j: int|
                0 <= j < i ==> x@[j] as int == wide(w@[j] + tdiv(
                    k1@[j] + 2 * k2@[j] + 2 * k3@[j] + k4@[j],
                    6,
                )),
        decreases w@.len() - i,
    {
        let s = k1[i] as i128 + 2 * (k2[i] as i128) + 2 * (k3[i] as i128) + k4[i] as i128;
        proof {
            lemma_tdiv_bounds(s as int, 6);
        }
        x.push(narrow(w[i] as i128 + div_toward_zero(s, 6)));
        i = i + 1;
    }
    assert(ints(x@) =~= combine(ints(w@), ints(k1@), ints(k2@), ints(k3@), ints(k4@)));
    x
}

/// Step size of `n` equal steps from `a` to `b`, rounded toward zero; negative when `b < a`.
pub open spec fn step_of(a: int, b: int, n: int) -> int {
    tdiv(b - a, n)
}

/// `j` steps of `tdiv(span, n)` stay between 0 and `span`, for `j` up to `n`.
proof fn lemma_steps_within(span: int, n: int, j: int)
    requires
        n > 0,
        0 <= j <= n,
    ensures
        span >= 0 ==> 0 <= j * tdiv(span, n) <= span,
        span < 0 ==> span <= j * tdiv(span, n) <= 0,
{
    if span >= 0 {
        let h = span / n;
        assert(0 <= j * h <= span) by (nonlinear_arith) requires h == span / n, span >= 0, n > 0, 0 <= j <= n;
    } else {
        let h = (-span) / n;
        assert(0 <= j * h <= -span) by (nonlinear_arith) requires h == (-span) / n, -span > 0, n > 0, 0 <= j <= n;
        assert(j * (-h) == -(j * h)) by (nonlinear_arith);
    }
}

/// The derivative `f` keeps the length `len` of the states it is given.
pub open spec fn keeps_length<F: Fn(i64, &Vec<i64>) -> Vec<i64>>(f: F, len: nat) -> bool {
    forall|s: i64, y: &Vec<i64>, d: Vec<i64>|
        #[trigger] f.ensures((s, y), d) && y@.len() == len ==> d@.len() == len
}

/// Integrates `dw/dt = f(t, w)` from `w(a) = alpha` with `n` classical Runge-Kutta steps of
/// size `h = (b - a) / n` (negative when `b < a`), and returns the `n + 1` sample times
/// `a + i h` with the states. Intermediate values saturate at the range of `i64`.
pub fn rk4<F: Fn(i64, &Vec<i64>) -> Vec<i64>>(a: i64, b: i64, alpha: Vec<i64>, f: F, n: u32) -> (r:
    Result<(Vec<i64>, Vec<Vec<i64>>), OdeError>)
    requires
        forall|s: i64, y: &Vec<i64>| f.requires((s, y)),
    ensures
        (r == Err::<(Vec<i64>, Vec<Vec<i64>>), OdeError>(OdeError::InvalidStepCount)) <==> n == 0,
        (r == Err::<(Vec<i64>, Vec<Vec<i64>>), OdeError>(OdeError::EmptyInterval)) <==> (n > 0 && b
            == a),
        (r == Err::<(Vec<i64>, Vec<Vec<i64>>), OdeError>(OdeError::Overflow)) <==> (n > 0 && b != a
            && !in_i64(step_of(a as int, b as int, n as int))),
        r is Err ==> r->Err_0 != OdeError::NonPositiveLength,
        n > 0 && b != a && in_i64(step_of(a as int, b as int, n as int)) && keeps_length(
            f,
            alpha@.len(),
        ) ==> r is Ok,
        r is Ok ==> {
            let ts = r->Ok_0.0@;
            let ws = r->Ok_0.1@;
            let h = step_of(a as int, b as int, n as int);
            &&& ts.len() == n + 1
            &&& ws.len() == n + 1
            &&& ws[0]@ == alpha@
            &&& forall|i: int| 0 <= i <= n ==> #[trigger] ts[i] == a + i * h
            &&& forall|i: int| 0 <= i <= n ==> (#[trigger] ws[i])@.len() == alpha@.len()
            &&& forall|i: int|
                0 <= i < n ==> rk4_step(f, ts[i] as int, h, ints(ws[i]@), ints(#[trigger] ws[i + 1]@))
        },
{
    if n == 0 {
        return Err(OdeError::InvalidStepCount);
    }
    if b == a {
        return Err(OdeError::EmptyInterval);
    }
    let span = b as i128 - a as i128;
    proof {
        lemma_tdiv_bounds(span as int, n as int);
    }
    let hw = div_toward_zero(span, n as i128);
    if hw > i64::MAX as i128 || hw < i64::MIN as i128 {
        return Err(OdeError::Overflow);
    }
    let h = hw as i64;
    let ghost hs = step_of(a as int, b as int, n as int);
    assert(h == hs);
    let ghost alpha_view = alpha@;
    let ghost kept = keeps_length(f, alpha@.len());
    let dim = alpha.len();
    let mut ts: Vec<i64> = vec![a];
    let mut ws: Vec<Vec<i64>> = Vec::new();
    ws.push(alpha);
    let mut i: u32 = 0;
    while i < n
        invariant
            forall|s: i64, y: &Vec<i64>| f.requires((s, y)),
            0 < n,
            a != b,
            h == hs,
            hs == tdiv(span as int, n as int),
            span == b - a,
            i <= n,
            ts@.len() == i + 1,
            ws@.len() == i + 1,
            ws@[0]@ == alpha_view,
            dim == alpha_view.len(),
            kept == keeps_length(f, dim as nat),
            kept == keeps_length(f, alpha@.len()),
            forall|j: int| 0 <= j <= i ==> #[trigger] ts@[j] == a + j * h,
            forall|j: int| 0 <= j <= i ==> (#[trigger] ws@[j])@.len() == dim,
            forall|j: int|
                0 <= j < i ==> rk4_step(f, ts@[j] as int, h as int, ints(ws@[j]@), ints(#[trigger] ws@[j + 1]@)),
        decreases n - i,
    {
        proof {
            lemma_steps_within(span as int, n as int, i as int);
            lemma_steps_within(span as int, n as int, i + 1);
            assert((i + 1) * h == i * h + h) by (nonlinear_arith);
            lemma_tdiv_bounds(h as int, 2);
        }
        let t = ts[i as usize];
        assert(t == a + i * h);
        let t_mid = t + div_toward_zero(h as i128, 2) as i64;
        let t_end = t + h;
        let next = {
            let cur: &Vec<i64> = &ws[i as usize];
            let d1 = match eval(&f, t, cur) { Ok(d) => d, Err(e) => { return Err(e); } };
            let k1 = scale_vec(h, &d1);
            let x2 = offset_vec(cur, &k1, 2);
            let d2 = match eval(&f, t_mid, &x2) { Ok(d) => d, Err(e) => { return Err(e); } };
            let k2 = scale_vec(h, &d2);
            let x3 = offset_vec(cur, &k2, 2);
            let d3 = match eval(&f, t_mid, &x3) { Ok(d) => d, Err(e) => { return Err(e); } };
            let k3 = scale_vec(h, &d3);
            let x4 = offset_vec(cur, &k3, 1);
            let d4 = match eval(&f, t_end, &x4) { Ok(d) => d, Err(e) => { return Err(e); } };
            let k4 = scale_vec(h, &d4);
            let next = combine_vec(cur, &k1, &k2, &k3, &k4);
            proof {
                let w = ints(cur@);
                let (e1, e2, e3, e4) = (ints(d1@), ints(d2@), ints(d3@), ints(d4@));
                assert(ints(next@) == combine(w, scaled(h as int, e1), scaled(h as int, e2), scaled(h as int, e3), scaled(h as int, e4)));
                let deriv = |s: int, x: Seq<int>, d: Seq<int>| derivative_at(f, s, x, d);
                assert(deriv(t as int, w, e1));
                assert(rk4_step_by(deriv, t as int, h as int, w, ints(next@)));
            }
            next
        };
        ws.push(next);
        ts.push(t_end);
        i = i + 1;
    }
    Ok((ts, ws))
}

/// `d` is the derivative `(fgamma, fomega)` of the angle and rate `x` at time `t`.
pub open spec fn pair_derivative<FG: Fn(i64, i64, i64) -> i64, FO: Fn(i64, i64, i64) -> i64>(
    fgamma: FG,
    fomega: FO,
    t: int,
    x: Seq<int>,
    d: Seq<int>,
) -> bool {
    &&& x.len() == 2
    &&& d.len() == 2
    &&& in_i64(x[0]) && in_i64(x[1]) && in_i64(d[0]) && in_i64(d[1])
    &&& fgamma.ensures((t as i64, x[0] as i64, x[1] as i64), d[0] as i64)
    &&& fomega.ensures((t as i64, x[0] as i64, x[1] as i64), d[1] as i64)
}

/// One Runge-Kutta step of the system `(dγ/dt, dω/dt) = (fgamma, fomega)(t, γ, ω)`.
pub open spec fn rk4_pair_step<FG: Fn(i64, i64, i64) -> i64, FO: Fn(i64, i64, i64) -> i64>(
    fgamma: FG,
    fomega: FO,
    t: int,
    h: int,
    w: Seq<int>,
    next: Seq<int>,
) -> bool {
    rk4_step_by(
        |s: int, x: Seq<int>, d: Seq<int>| pair_derivative(fgamma, fomega, s, x, d),
        t,
        h,
        w,
        next,
    )
}

pub proof fn lemma_step_by_weaken(
    d1: spec_fn(int, Seq<int>, Seq<int>) -> bool,
    d2: spec_fn(int, Seq<int>, Seq<int>) -> bool,
    t: int,
    h: int,
    w: Seq<int>,
    next: Seq<int>,
)
    requires
        rk4_step_by(d1, t, h, w, next),
        forall|s: int, x: Seq<int>, d: Seq<int>| #[trigger] d1(s, x, d) && x.len() == w.len() ==> d2(s, x, d),
    ensures
        rk4_step_by(d2, t, h, w, next),
{
    let (e1, e2, e3, e4) = choose|e1: Seq<int>, e2: Seq<int>, e3: Seq<int>, e4: Seq<int>|
        #![trigger combine(w, scaled(h, e1), scaled(h, e2), scaled(h, e3), scaled(h, e4))]
        {
            let k1 = scaled(h, e1);
            let k2 = scaled(h, e2);
            let k3 = scaled(h, e3);
            let k4 = scaled(h, e4);
            &&& d1(t, w, e1)
            &&& d1(t + tdiv(h, 2), offset(w, k1, 2), e2)
            &&& d1(t + tdiv(h, 2), offset(w, k2, 2), e3)
            &&& d1(t + h, offset(w, k3, 1), e4)
            &&& next == combine(w, k1, k2, k3, k4)
        };
    assert(d2(t, w, e1));
    assert(d2(t + tdiv(h, 2), offset(w, scaled(h, e1), 2), e2));
    assert(d2(t + tdiv(h, 2), offset(w, scaled(h, e2), 2), e3));
    assert(d2(t + h, offset(w, scaled(h, e3), 1), e4));
    assert(next == combine(w, scaled(h, e1), scaled(h, e2), scaled(h, e3), scaled(h, e4)));
}

/// Integrates the angle and rate `(γ, ω)` of `dγ/dt = fgamma(t, γ, ω)`,
/// `dω/dt = fomega(t, γ, ω)` from `(gamma0, omega0)` at `a`, with `n` Runge-Kutta steps
/// from `a` to `b`; returns the sample times, the angles and the rates.
pub fn rk42nd_order<FG: Fn(i64, i64, i64) -> i64, FO: Fn(i64, i64, i64) -> i64>(
    a: i64,
    b: i64,
    gamma0: i64,
    omega0: i64,
    fgamma: FG,
    fomega: FO,
    n: u32,
) -> (r: Result<(Vec<i64>, Vec<i64>, Vec<i64>), OdeError>)
    requires
        forall|t: i64, g: i64, o: i64| fgamma.requires((t, g, o)),
        forall|t: i64, g: i64, o: i64| fomega.requires((t, g, o)),
    ensures
        (r == Err::<(Vec<i64>, Vec<i64>, Vec<i64>), OdeError>(OdeError::InvalidStepCount)) <==> n
            == 0,
        (r == Err::<(Vec<i64>, Vec<i64>, Vec<i64>), OdeError>(OdeError::EmptyInterval)) <==> (n > 0
            && b == a),
        (r == Err::<(Vec<i64>, Vec<i64>, Vec<i64>), OdeError>(OdeError::Overflow)) <==> (n > 0 && b
            != a && !in_i64(step_of(a as int, b as int, n as int))),
        n > 0 && b != a && in_i64(step_of(a as int, b as int, n as int)) ==> r is Ok,
        r is Err ==> r->Err_0 != OdeError::NonPositiveLength,
        r is Ok ==> {
            let ts = r->Ok_0.0@;
            let gs = r->Ok_0.1@;
            let os = r->Ok_0.2@;
            let h = step_of(a as int, b as int, n as int);
            &&& ts.len() == n + 1
            &&& gs.len() == n + 1
            &&& os.len() == n + 1
            &&& gs[0] == gamma0
            &&& os[0] == omega0
            &&& forall|i: int| 0 <= i <= n ==> #[trigger] ts[i] == a + i * h
            &&& forall|i: int|
                0 <= i < n ==> rk4_pair_step(
                    fgamma,
                    fomega,
                    ts[i] as int,
                    h,
                    seq![gs[i] as int, os[i] as int],
                    seq![gs[i + 1] as int, #[trigger] os[i + 1] as int],
                )
        },
{
    let fg = &fgamma;
    let fo = &fomega;
    let pair = |t: i64, w: &Vec<i64>| -> (d: Vec<i64>)
        ensures
            w@.len() == 2 ==> d@.len() == 2 && (*fg).ensures((t, w@[0], w@[1]), d@[0])
                && (*fo).ensures((t, w@[0], w@[1]), d@[1]),
        {
            if w.len() == 2 {
                let dg = fg(t, w[0], w[1]);
                let dw = fo(t, w[0], w[1]);
                vec![dg, dw]
            } else {
                Vec::new()
            }
        };
    assert(keeps_length(pair, 2)) by {
        assert forall|s: i64, y: &Vec<i64>, d: Vec<i64>| #[trigger] pair.ensures((s, y), d) && y@.len() == 2
            implies d@.len() == 2 by {}
    }
    let start = vec![gamma0, omega0];
    assert(start@.len() == 2);
    let sol = rk4(a, b, start, pair, n);
    let (ts, ws) = match sol {
        Ok(p) => p,
        Err(e) => { return Err(e); },
    };
    let ghost h = step_of(a as int, b as int, n as int);
    let mut gs: Vec<i64> = Vec::new();
    let mut os: Vec<i64> = Vec::new();
    let mut i: usize = 0;
    while i < ws.len()
        invariant
            ws@.len() == n + 1,
            i <= ws@.len(),
            gs@.len() == i,
            os@.len() == i,
            forall|j: int| 0 <= j <= n ==> (#[trigger] ws@[j])@.len() == 2,
            forall|j: int| 0 <= j < i ==> #[trigger] gs@[j] == ws@[j]@[0],
            forall|j: int| 0 <= j < i ==> #[trigger] os@[j] == ws@[j]@[1],
        decreases ws@.len() - i,
    {
        gs.push(ws[i][0]);
        os.push(ws[i][1]);
        i = i + 1;
    }
    proof {
        let dp = |s: int, x: Seq<int>, d: Seq<int>| derivative_at(pair, s, x, d);
        let d2 = |s: int, x: Seq<int>, d: Seq<int>| pair_derivative(fgamma, fomega, s, x, d);
        assert forall|s: int, x: Seq<int>, d: Seq<int>| #[trigger] dp(s, x, d) && x.len() == 2 implies d2(s, x, d) by {
            let (xv, dv) = choose|xv: Vec<i64>, dv: Vec<i64>|
                ints(xv@) == x && ints(dv@) == d && d.len() == x.len() && pair.ensures((s as i64, &xv), dv);
            assert(xv@.len() == 2);
            assert(x[0] == xv@[0] as int && x[1] == xv@[1] as int);
            assert(d[0] == dv@[0] as int && d[1] == dv@[1] as int);
        }
        assert forall|j: int| 0 <= j < n implies rk4_pair_step(
            fgamma,
            fomega,
            ts@[j] as int,
            h,
            seq![gs@[j] as int, os@[j] as int],
            seq![gs@[j + 1] as int, #[trigger] os@[j + 1] as int],
        ) by {
            assert(rk4_step(pair, ts@[j] as int, h, ints(ws@[j]@), ints(ws@[j + 1]@)));
            assert(ints(ws@[j]@) =~= seq![gs@[j] as int, os@[j] as int]);
            assert(ints(ws@[j + 1]@) =~= seq![gs@[j + 1] as int, os@[j + 1] as int]);
            lemma_step_by_weaken(dp, d2, ts@[j] as int, h, ints(ws@[j]@), ints(ws@[j + 1]@));
        }
        assert(gs@[0] == ws@[0]@[0]);
    }
    Ok((ts, gs, os))
}

} // verus!
