use particle_sim::engine::{Command, GlobalContext};
use particle_sim::lorenz_attractor::{LorenzAttractor, STEPS};
use particle_sim::ode::{rk4, rk42nd_order, OdeError, ONE};
use particle_sim::pendulum::{Pendulum, THETA0};
use particle_sim::playback::advance_cursor;

fn fixed_sin(x: i64) -> i64 {
    ((x as f64 / ONE as f64).sin() * ONE as f64).round() as i64
}

fn to_real(v: i64) -> f64 {
    v as f64 / ONE as f64
}

#[test]
fn rk4_matches_exponential_decay() {
    let (ts, ws) = rk4(0, ONE, vec![ONE], |_t: i64, w: &Vec<i64>| vec![-w[0]], 1000).unwrap();
    assert_eq!(ts.len(), 1001);
    assert_eq!(ws.len(), 1001);
    assert_eq!(ts[0], 0);
    assert_eq!(ts[1000], ONE);
    assert_eq!(ws[0], vec![ONE]);
    let last = to_real(ws[1000][0]);
    assert!((last - (-1.0f64).exp()).abs() < 1e-4, "got {}", last);
}

#[test]
fn rk4_sample_times_are_uniform() {
    let (ts, _) = rk4(2 * ONE, 3 * ONE, vec![0, 0], |_t: i64, w: &Vec<i64>| vec![w[1], 0], 4).unwrap();
    assert_eq!(ts, vec![2 * ONE, 2 * ONE + ONE / 4, 2 * ONE + ONE / 2, 2 * ONE + 3 * ONE / 4, 3 * ONE]);
}

#[test]
fn rk4_single_step_of_constant_field() {
    // dw/dt = (1, 2): one step of size 1 adds exactly (1, 2)
    let (_, ws) = rk4(0, ONE, vec![5, 7], |_t: i64, _w: &Vec<i64>| vec![ONE, 2 * ONE], 1).unwrap();
    assert_eq!(ws[1], vec![5 + ONE, 7 + 2 * ONE]);
}

#[test]
fn rk4_rejects_zero_steps() {
    let r = rk4(0, ONE, vec![ONE], |_t: i64, w: &Vec<i64>| vec![-w[0]], 0);
    assert_eq!(r.err(), Some(OdeError::InvalidStepCount));
}

#[test]
fn rk4_rejects_empty_interval() {
    let r = rk4(ONE, ONE, vec![ONE], |_t: i64, w: &Vec<i64>| vec![-w[0]], 10);
    assert_eq!(r.err(), Some(OdeError::EmptyInterval));
}

#[test]
fn rk4_integrates_backward_over_reversed_interval() {
    let start = ((-1.0f64).exp() * ONE as f64).round() as i64;
    let (ts, ws) = rk4(ONE, 0, vec![start], |_t: i64, w: &Vec<i64>| vec![-w[0]], 1000).unwrap();
    assert_eq!(ts[0], ONE);
    assert_eq!(ts[1], ONE - ONE / 1000);
    assert_eq!(ts[1000], 0);
    assert!((to_real(ws[1000][0]) - 1.0).abs() < 1e-4);
}

#[test]
fn rk4_integrates_t_exactly_in_one_step() {
    let (ts, ws) = rk4(0, ONE, vec![0, 0, 0], |t: i64, _w: &Vec<i64>| vec![t, t, t], 1).unwrap();
    assert_eq!(ts, vec![0, ONE]);
    assert_eq!(ws[1], vec![ONE / 2, ONE / 2, ONE / 2]);
}

#[test]
fn rk4_constant_field_is_exact() {
    let (ts, ws) = rk4(0, ONE, vec![0, 0, 0], |_t: i64, _w: &Vec<i64>| vec![ONE, 2 * ONE, -ONE], 4).unwrap();
    assert_eq!(ts, vec![0, ONE / 4, ONE / 2, 3 * ONE / 4, ONE]);
    for i in 0..5i64 {
        assert_eq!(ws[i as usize], vec![i * ONE / 4, i * ONE / 2, -i * ONE / 4]);
    }
}

#[test]
fn rk4_saturates_huge_values() {
    let (_, ws) = rk4(0, ONE, vec![ONE], |_t: i64, _w: &Vec<i64>| vec![i64::MAX], 1).unwrap();
    assert_eq!(ws[1], vec![i64::MAX]);
}

#[test]
fn rk4_reports_wrong_derivative_length() {
    let r = rk4(0, ONE, vec![ONE, ONE], |_t: i64, w: &Vec<i64>| vec![-w[0]], 10);
    assert_eq!(r.err(), Some(OdeError::DimensionMismatch));
}

#[test]
fn rk4_reports_step_overflow() {
    let r = rk4(i64::MIN, i64::MAX, vec![ONE], |_t: i64, w: &Vec<i64>| vec![-w[0]], 1);
    assert_eq!(r.err(), Some(OdeError::Overflow));
    let r = rk4(i64::MIN, i64::MAX, vec![ONE], |_t: i64, w: &Vec<i64>| vec![-w[0]], 2);
    assert!(r.is_ok());
}

#[test]
fn rk42nd_order_rejects_bad_configuration() {
    let r = rk42nd_order(0, ONE, 0, 0, |_t: i64, _g: i64, o: i64| o, |_t: i64, g: i64, _o: i64| -g, 0);
    assert_eq!(r.err(), Some(OdeError::InvalidStepCount));
    let r = rk42nd_order(ONE, ONE, 0, 0, |_t: i64, _g: i64, o: i64| o, |_t: i64, g: i64, _o: i64| -g, 5);
    assert_eq!(r.err(), Some(OdeError::EmptyInterval));
    let r = rk42nd_order(i64::MIN, i64::MAX, 0, 0, |_t: i64, _g: i64, o: i64| o, |_t: i64, g: i64, _o: i64| -g, 1);
    assert_eq!(r.err(), Some(OdeError::Overflow));
}

#[test]
fn rk42nd_order_uniform_motion() {
    let (ts, gs, os) =
        rk42nd_order(0, ONE, 0, 2 * ONE, |_t: i64, _g: i64, o: i64| o, |_t: i64, _g: i64, _o: i64| 0, 4).unwrap();
    assert_eq!(ts, vec![0, ONE / 4, ONE / 2, 3 * ONE / 4, ONE]);
    assert_eq!(gs, vec![0, ONE / 2, ONE, 3 * ONE / 2, 2 * ONE]);
    assert_eq!(os, vec![2 * ONE; 5]);
}

#[test]
fn rk42nd_order_constant_acceleration() {
    let (ts, gs, os) =
        rk42nd_order(0, ONE, 0, 0, |_t: i64, _g: i64, o: i64| o, |_t: i64, _g: i64, _o: i64| 2 * ONE, 2).unwrap();
    assert_eq!(ts, vec![0, ONE / 2, ONE]);
    assert_eq!(gs, vec![0, ONE / 4, ONE]);
    assert_eq!(os, vec![0, ONE, 2 * ONE]);
}

#[test]
fn rk42nd_order_harmonic_oscillator() {
    // γ'' = -γ from γ = 1 at rest: γ(1) = cos 1, ω(1) = -sin 1
    let (ts, gs, os) =
        rk42nd_order(0, ONE, ONE, 0, |_t: i64, _g: i64, o: i64| o, |_t: i64, g: i64, _o: i64| -g, 1000)
            .unwrap();
    assert_eq!(ts.len(), 1001);
    assert_eq!(gs[0], ONE);
    assert_eq!(os[0], 0);
    assert!((to_real(gs[1000]) - 1.0f64.cos()).abs() < 1e-5);
    assert!((to_real(os[1000]) + 1.0f64.sin()).abs() < 1e-5);
}

fn downward_crossings(ts: &[i64], gs: &[i64]) -> Vec<f64> {
    let mut out = Vec::new();
    for i in 1..gs.len() {
        if gs[i - 1] > 0 && gs[i] <= 0 {
            let (t0, t1) = (to_real(ts[i - 1]), to_real(ts[i]));
            let (g0, g1) = (gs[i - 1] as f64, gs[i] as f64);
            out.push(t0 + (t1 - t0) * g0 / (g0 - g1));
        }
    }
    out
}

#[test]
fn pendulum_small_angle_period() {
    let p = Pendulum::with_parameters(2 * ONE, 9_800_000_000, fixed_sin).unwrap();
    let (ts, gs, _) = rk42nd_order(
        0,
        20 * ONE,
        10_000_000,
        0,
        |_t: i64, _g: i64, o: i64| o,
        |_t: i64, g: i64, _o: i64| p.domega(fixed_sin(g)),
        20000,
    )
    .unwrap();
    assert!(gs.iter().all(|&g| g.abs() <= 10_100_000));
    assert!(gs.iter().any(|&g| g >= 9_900_000));
    let crossings = downward_crossings(&ts, &gs);
    assert!(crossings.len() >= 5);
    let n = crossings.len() - 1;
    let period = (crossings[n] - crossings[0]) / n as f64;
    let expected = 2.0 * std::f64::consts::PI * (2.0f64 / 9.8).sqrt();
    assert!(((period - expected) / expected).abs() < 0.01, "period {} expected {}", period, expected);
}

#[test]
fn pendulum_torque_restores() {
    let p = Pendulum::with_parameters(2 * ONE, 9_800_000_000, fixed_sin).unwrap();
    // sin θ = 0.5: -(9.8 / 2) * 0.5 = -2.45
    assert_eq!(p.domega(ONE / 2), -2_450_000_000);
    assert_eq!(p.domega(-ONE / 2), 2_450_000_000);
    assert_eq!(p.domega(0), 0);
}

#[test]
fn pendulum_new_solves_from_quarter_turn() {
    let p = Pendulum::new(fixed_sin);
    assert_eq!(p.length, 2 * ONE);
    assert_eq!(p.gravity, 9_800_000_000);
    assert_eq!(p.current_index, 0);
    let (ts, gs, os) = p.solutions.as_ref().unwrap();
    assert_eq!(ts.len(), STEPS as usize + 1);
    assert_eq!(gs[0], THETA0);
    assert_eq!(os[0], 0);
    // released at rest above the lowest point, it swings down
    assert!(gs[10] < THETA0);
    assert!(os[10] < 0);
}

#[test]
fn pendulum_rejects_non_positive_length() {
    assert_eq!(Pendulum::with_parameters(0, 9_800_000_000, fixed_sin).err(), Some(OdeError::NonPositiveLength));
    assert_eq!(Pendulum::with_parameters(-ONE, 9_800_000_000, fixed_sin).err(), Some(OdeError::NonPositiveLength));
}

#[test]
fn pendulum_update_advances_cursor() {
    let mut p = Pendulum::new(fixed_sin);
    let ctx = GlobalContext::new(800, 600);
    p.update(&ctx);
    assert_eq!(p.current_index, 11);
    for _ in 1..910 {
        p.update(&ctx);
    }
    assert_eq!(p.current_index, STEPS as usize);
    p.update(&ctx);
    assert_eq!(p.current_index, STEPS as usize);
}

#[test]
fn lorenz_field_exact_values() {
    let l = LorenzAttractor::new();
    let d = l.lorenz(&vec![ONE, 2 * ONE, 3 * ONE]);
    // (10 (2 - 1), 1 (28 - 3) - 2, 1 * 2 - 2.667 * 3)
    assert_eq!(d, vec![10 * ONE, 23 * ONE, -6_001_000_000]);
}

#[test]
fn lorenz_new_solves_trajectory() {
    let l = LorenzAttractor::new();
    let (ts, ws) = l.solutions.as_ref().unwrap();
    assert_eq!(ts.len(), STEPS as usize + 1);
    assert_eq!(ws.len(), STEPS as usize + 1);
    assert_eq!(ws[0], vec![0, ONE, 1_050_000_000]);
    assert_eq!(ts[STEPS as usize], 50 * ONE);
    // the attractor stays bounded
    for w in ws.iter() {
        assert!(w[0].abs() < 100 * ONE && w[1].abs() < 100 * ONE && w[2].abs() < 100 * ONE);
    }
}

#[test]
fn lorenz_update_and_reset() {
    let mut l = LorenzAttractor::new();
    let mut ctx = GlobalContext::new(800, 600);
    l.update(&ctx);
    assert_eq!(l.current_index, 11);
    l.handle_event(&mut ctx, Command::AdjustSpeed(-15));
    assert_eq!(ctx.simulation_speed, -5);
    l.update(&ctx);
    assert_eq!(l.current_index, 12);
    l.handle_event(&mut ctx, Command::ResetCursor);
    assert_eq!(l.current_index, 0);
    assert!(!l.is_done());
    l.handle_event(&mut ctx, Command::Exit);
    assert!(l.is_done());
}

#[test]
fn cursor_advance_rules() {
    assert_eq!(advance_cursor(0, 10001, 10), 11);
    assert_eq!(advance_cursor(0, 10001, 0), 1);
    assert_eq!(advance_cursor(5, 10001, -10), 6);
    assert_eq!(advance_cursor(9995, 10001, 10), 10000);
    assert_eq!(advance_cursor(10000, 10001, 10), 10000);
    assert_eq!(advance_cursor(0, 1, 3), 0);
}
