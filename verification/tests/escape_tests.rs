use mandelbrot_zoom::color::{Fraction, Rgb};
use mandelbrot_zoom::escape::{advance, begin, Observation, Progress};
use mandelbrot_zoom::palette::{ColorIndex, Palette};

fn three() -> Palette {
    Palette::new(vec![
        Rgb { r: 0, g: 0, b: 0 },
        Rgb { r: 255, g: 255, b: 255 },
        Rgb { r: 200, g: 10, b: 20 },
    ])
    .unwrap()
}

fn at(whole: usize, num: u64, den: u64) -> ColorIndex {
    ColorIndex { whole, frac: Fraction::new(num, den).unwrap() }
}

// Runs the iteration for an orbit that escapes at step `escape` (if any) with
// correction `nu`; returns the final index and the number of steps taken.
fn run(palette: &Palette, iterations: u32, escape: Option<(u32, Fraction)>) -> (ColorIndex, u32) {
    let mut state = begin(palette, iterations);
    let mut taken: u32 = 0;
    loop {
        match state {
            Progress::Finished { index } => return (index, taken),
            Progress::Running { step } => {
                assert_eq!(step, taken);
                let seen = match escape {
                    Some((at_step, nu)) if at_step == step => Observation::Escaped { nu },
                    _ => Observation::Bounded,
                };
                taken += 1;
                state = advance(palette, iterations, step, seen);
            }
        }
    }
}

#[test]
fn no_iterations_is_inside_at_once() {
    let p = three();
    assert_eq!(begin(&p, 0), Progress::Finished { index: at(0, 0, 1) });
    assert_eq!(run(&p, 0, None), (at(0, 0, 1), 0));
}

#[test]
fn begin_starts_at_step_zero() {
    assert_eq!(begin(&three(), 1), Progress::Running { step: 0 });
    assert_eq!(begin(&three(), 500), Progress::Running { step: 0 });
}

#[test]
fn bounded_orbit_runs_to_the_cap() {
    let p = three();
    assert_eq!(run(&p, 500, None), (at(2, 0, 1), 500));
    assert_eq!(run(&p, 50, None), (at(2, 0, 1), 50));
    assert_eq!(run(&p, 1, None), (at(1, 0, 1), 1));
    assert_eq!(run(&p, 3, None), (at(0, 0, 1), 3));
}

#[test]
fn escape_ends_the_iteration() {
    let p = three();
    let nu = Fraction::new(1, 4).unwrap();
    assert_eq!(run(&p, 500, Some((0, nu))), (at(0, 3, 4), 1));
    assert_eq!(run(&p, 500, Some((3, nu))), (at(0, 3, 4), 4));
    assert_eq!(run(&p, 500, Some((4, nu))), (at(1, 3, 4), 5));
    assert_eq!(run(&p, 500, Some((499, nu))), (at(1, 3, 4), 500));
}

#[test]
fn escape_after_the_cap_is_never_seen() {
    let p = three();
    let nu = Fraction::new(1, 4).unwrap();
    assert_eq!(run(&p, 10, Some((10, nu))), (at(1, 0, 1), 10));
}

#[test]
fn advance_on_bounded_step_moves_on() {
    let p = three();
    assert_eq!(advance(&p, 10, 0, Observation::Bounded), Progress::Running { step: 1 });
    assert_eq!(advance(&p, 10, 8, Observation::Bounded), Progress::Running { step: 9 });
}

#[test]
fn advance_on_last_bounded_step_finishes_inside() {
    let p = three();
    assert_eq!(advance(&p, 10, 9, Observation::Bounded), Progress::Finished { index: at(1, 0, 1) });
    assert_eq!(
        advance(&p, 10, u32::MAX, Observation::Bounded),
        Progress::Finished { index: at(1, 0, 1) }
    );
}

#[test]
fn advance_on_escape_gives_smoothed_index() {
    let p = three();
    let seen = Observation::Escaped { nu: Fraction::new(1, 10).unwrap() };
    assert_eq!(advance(&p, 10, 4, seen), Progress::Finished { index: at(1, 9, 10) });
    let exact = Observation::Escaped { nu: Fraction::new(0, 10).unwrap() };
    assert_eq!(advance(&p, 10, 4, exact), Progress::Finished { index: at(2, 0, 10) });
}
