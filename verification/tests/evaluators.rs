use fractal_render::basicfractals::{escape_index, InvalidParameter, Julia, Mandelbrot};
use num::complex::Complex64;

fn quad(z: Complex64, c: Complex64) -> Complex64 {
    z * z + c
}

fn escaped(z: &Complex64) -> bool {
    z.norm_sqr() > 4.0
}

fn mandelbrot_index(point: Complex64, budget: u32) -> u32 {
    let zero = Complex64 { re: 0.0, im: 0.0 };
    Mandelbrot::new(budget).unwrap().escape_index(zero, point, quad, escaped)
}

fn mandelbrot_value(fractal: &Mandelbrot, point: Complex64) -> f32 {
    let zero = Complex64 { re: 0.0, im: 0.0 };
    fractal.escape_index(zero, point, quad, escaped) as f32 / fractal.max_iterations() as f32
}

fn julia_value(fractal: &Julia<Complex64>, point: Complex64) -> f32 {
    fractal.escape_index(point, quad, escaped) as f32 / fractal.max_iterations() as f32
}

fn double_plus(z: u64, c: u64) -> u64 {
    z * 2 + c
}

fn over_hundred(z: &u64) -> bool {
    *z > 100
}

#[test]
fn mandelbrot_refuses_a_budget_of_zero() {
    assert_eq!(Mandelbrot::new(0), Err(InvalidParameter::ZeroIterations));
}

#[test]
fn mandelbrot_keeps_its_budget() {
    assert_eq!(Mandelbrot::new(150).unwrap().max_iterations(), 150);
    assert_eq!(Mandelbrot::new(1).unwrap().max_iterations(), 1);
    assert_eq!(Mandelbrot::new(u32::MAX).unwrap().max_iterations(), u32::MAX);
}

#[test]
fn julia_refuses_a_budget_of_zero() {
    let c = Complex64 { re: -0.4, im: 0.6 };
    assert!(matches!(Julia::new(c, 0), Err(InvalidParameter::ZeroIterations)));
}

#[test]
fn julia_keeps_constant_and_budget() {
    let c = Complex64 { re: -0.4, im: 0.6 };
    let j = Julia::new(c, 500).unwrap();
    assert_eq!(j.max_iterations(), 500);
    assert_eq!(j.c(), c);
}

#[test]
fn change_maxiter_applies_the_function() {
    let m = Mandelbrot::new(150).unwrap();
    assert_eq!(m.change_maxiter(|i| i + 10).unwrap().max_iterations(), 160);
    assert_eq!(m.change_maxiter(|i| i / 3).unwrap().max_iterations(), 50);
    let c = Complex64 { re: 0.25, im: -0.5 };
    let j = Julia::new(c, 500).unwrap();
    let more = j.change_maxiter(|i| i * 2).unwrap();
    assert_eq!(more.max_iterations(), 1000);
    assert_eq!(more.c(), c);
}

#[test]
fn change_maxiter_takes_a_borrowed_function() {
    let step = |i: u32| i + 1;
    let m = Mandelbrot::new(9).unwrap();
    assert_eq!(m.change_maxiter(&step).unwrap().max_iterations(), 10);
    assert_eq!(m.change_maxiter(&step).unwrap().max_iterations(), 10);
}

#[test]
fn change_maxiter_leaves_the_evaluator_alone() {
    let m = Mandelbrot::new(150).unwrap();
    let p = Complex64 { re: -0.75, im: 0.3 };
    let before = mandelbrot_value(&m, p);
    let other = m.change_maxiter(|i| i + 100).unwrap();
    assert_eq!(m.max_iterations(), 150);
    assert_eq!(other.max_iterations(), 250);
    assert_eq!(mandelbrot_value(&m, p), before);

    let c = Complex64 { re: -0.4, im: 0.6 };
    let j = Julia::new(c, 500).unwrap();
    let q = Complex64 { re: 0.1, im: 0.1 };
    let before = julia_value(&j, q);
    let _ = j.change_maxiter(|i| i - 1);
    assert_eq!(j.max_iterations(), 500);
    assert_eq!(j.c(), c);
    assert_eq!(julia_value(&j, q), before);
}

#[test]
fn change_maxiter_to_zero_is_refused() {
    let m = Mandelbrot::new(150).unwrap();
    assert_eq!(m.change_maxiter(|_| 0), Err(InvalidParameter::ZeroIterations));
    let j = Julia::new(Complex64 { re: 0.0, im: 0.0 }, 3).unwrap();
    assert!(matches!(j.change_maxiter(|i| i - 3), Err(InvalidParameter::ZeroIterations)));
}

#[test]
fn escape_index_counts_the_steps_before_the_first_escape() {
    // 1, 2, 4, 8, 16, 32, 64, 128: the point in place 7 is the first over 100.
    assert_eq!(escape_index(1u64, 0u64, double_plus, over_hundred, 10), 7);
    assert_eq!(escape_index(1u64, 0u64, double_plus, over_hundred, 8), 7);
    // 0, 3, 9, 21, 45, 93, 189: the constant enters every step.
    assert_eq!(escape_index(0u64, 3u64, double_plus, over_hundred, 10), 6);
}

#[test]
fn escape_index_is_zero_when_the_budget_runs_out() {
    assert_eq!(escape_index(1u64, 0u64, double_plus, over_hundred, 7), 0);
    assert_eq!(escape_index(1u64, 0u64, double_plus, over_hundred, 1), 0);
    assert_eq!(escape_index(5u64, 0u64, |z: u64, _c: u64| z, |_: &u64| false, 1000), 0);
}

#[test]
fn escape_index_is_zero_when_the_start_has_escaped() {
    assert_eq!(escape_index(200u64, 0u64, double_plus, over_hundred, 10), 0);
}

#[test]
fn escape_index_with_no_budget_is_zero() {
    assert_eq!(escape_index(200u64, 0u64, |z: u64, _c: u64| z, |_: &u64| true, 0), 0);
    assert_eq!(escape_index(1u64, 0u64, |z: u64, _c: u64| z, |_: &u64| false, 0), 0);
}

#[test]
fn evaluators_differ_in_start_and_constant() {
    // Mandelbrot: the orbit of zero with the point as constant.
    // 0, 3, 9, 21, 45, 93, 189.
    let m = Mandelbrot::new(10).unwrap();
    assert_eq!(m.escape_index(0u64, 3u64, double_plus, over_hundred), 6);
    // Julia: the orbit of the point with the evaluator's constant.
    // 3, 6, 12, 24, 48, 96, 192 with constant 0; 3, 7, 15, 31, 63, 127 with 1.
    let j = Julia::new(0u64, 10).unwrap();
    assert_eq!(j.escape_index(3u64, double_plus, over_hundred), 6);
    let j = Julia::new(1u64, 10).unwrap();
    assert_eq!(j.escape_index(3u64, double_plus, over_hundred), 5);
    // Within a budget of five neither orbit is seen to escape.
    let j = Julia::new(1u64, 5).unwrap();
    assert_eq!(j.escape_index(3u64, double_plus, over_hundred), 0);
}

#[test]
fn escape_index_stays_below_the_budget() {
    let points = [
        Complex64 { re: 0.0, im: 0.0 },
        Complex64 { re: -0.75, im: 0.1 },
        Complex64 { re: 0.3, im: 0.5 },
        Complex64 { re: 1.0, im: 1.0 },
        Complex64 { re: -2.0, im: 0.0 },
        Complex64 { re: 2.0, im: 2.0 },
    ];
    for budget in [1u32, 2, 3, 10, 150] {
        let m = Mandelbrot::new(budget).unwrap();
        for p in points {
            let i = mandelbrot_index(p, budget);
            assert!(i < budget);
            let v = mandelbrot_value(&m, p);
            assert!(v >= 0.0 && v < 1.0);
            assert!(v <= (budget - 1) as f32 / budget as f32);
        }
    }
}

#[test]
fn mandelbrot_origin_never_escapes() {
    let origin = Complex64 { re: 0.0, im: 0.0 };
    for budget in [1u32, 2, 150, 5000] {
        let m = Mandelbrot::new(budget).unwrap();
        assert_eq!(mandelbrot_index(origin, budget), 0);
        assert_eq!(mandelbrot_value(&m, origin), 0.0);
    }
}

#[test]
fn mandelbrot_far_point_with_a_budget_of_one() {
    // The orbit starts at zero, which has not escaped, and the budget ends
    // there.
    let m = Mandelbrot::new(1).unwrap();
    assert_eq!(mandelbrot_value(&m, Complex64 { re: 2.0, im: 2.0 }), 0.0);
}

#[test]
fn mandelbrot_far_point_escapes_after_one_step() {
    let p = Complex64 { re: 2.0, im: 2.0 };
    assert_eq!(mandelbrot_index(p, 2), 1);
    assert_eq!(mandelbrot_index(p, 150), 1);
    let m = Mandelbrot::new(150).unwrap();
    assert_eq!(mandelbrot_value(&m, p), 1.0f32 / 150.0f32);
}

#[test]
fn mandelbrot_known_escape_counts() {
    // c = 1: 0, 1, 2, 5; |5|^2 = 25 is the first over 4.
    assert_eq!(mandelbrot_index(Complex64 { re: 1.0, im: 0.0 }, 150), 3);
    // c = -2: 0, -2, 2, 2, ...; |z|^2 = 4 is never over 4.
    assert_eq!(mandelbrot_index(Complex64 { re: -2.0, im: 0.0 }, 150), 0);
    // c = i: 0, i, -1 + i, -i, -1 + i, ...; bounded.
    assert_eq!(mandelbrot_index(Complex64 { re: 0.0, im: 1.0 }, 150), 0);
}

#[test]
fn julia_starts_at_the_point() {
    let j = Julia::new(Complex64 { re: 0.0, im: 0.0 }, 10).unwrap();
    // c = 0: z -> z^2. 1.5, 2.25: place 1 is the first with |z|^2 > 4.
    assert_eq!(julia_value(&j, Complex64 { re: 1.5, im: 0.0 }), 0.1);
    // A start outside the circle has escaped at place 0.
    assert_eq!(julia_value(&j, Complex64 { re: 3.0, im: 0.0 }), 0.0);
    // Inside the unit circle the orbit never leaves.
    assert_eq!(julia_value(&j, Complex64 { re: 0.5, im: 0.5 }), 0.0);
}
