use bermuda::{
    is_near_start, ladder_step, predict, predict_down, predict_up, step_rung, Direction, Factor, Prediction, Price,
};

const UNIT: f64 = 1e9;
const FACTOR_SCALE: f64 = 1e12;

fn position(price: u32, short: f64, long: f64) -> Prediction {
    Prediction { price: Price { num: price, den: 1 }, short: (short * UNIT).round() as u64, long: (long * UNIT).round() as u64 }
}

fn value(p: &Price) -> f64 {
    p.num as f64 / p.den as f64
}

fn factor(from: &Price, to: &Price, exponent: f64) -> Factor {
    let f = (value(from) / value(to)).powf(exponent);
    Factor { num: (f * FACTOR_SCALE).round() as u64, den: FACTOR_SCALE as u64 }
}

fn next(current: &Prediction, base: u32, ladder: u32, dir: Direction, exponent: f64) -> Prediction {
    let first = ladder_step(current.price, base, ladder, dir).unwrap();
    let second = step_rung(first, ladder, dir).unwrap();
    let near = factor(&current.price, &first, exponent);
    let far = factor(&current.price, &second, exponent);
    match dir {
        Direction::Up => predict_up(current, base, ladder, near, far).unwrap(),
        Direction::Down => predict_down(current, base, ladder, near, far).unwrap(),
    }
}

fn legs(p: &Prediction) -> (f64, f64, f64) {
    (value(&p.price), p.short as f64 / UNIT, p.long as f64 / UNIT)
}

#[test]
fn predict_up_tests_up_normal() {
    let current = position(1200, 100.0, 10.0);
    let (price, short, long) = legs(&next(&current, 1000, 2, Direction::Up, 2.6));
    assert_eq!(price, 2000.0);
    assert_eq!(short.round(), 26.0);
    assert_eq!(long.round(), 23.0);
}

#[test]
fn predict_up_tests_up_must_skip() {
    let current = position(1200, 113.221, 6.624);
    let (price, short, long) = legs(&next(&current, 1000, 2, Direction::Up, 2.6));
    assert_eq!(price, 4000.0);
    assert_eq!(short.round(), 4.948_f64.round());
    assert_eq!(long.round(), 45.471_f64.round());
}

#[test]
fn predict_down_tests_down_normal() {
    let current = position(1200, 100.0, 10.0);
    let (price, short, long) = legs(&next(&current, 1000, 2, Direction::Down, 2.6));
    assert_eq!(price, 1000.0);
    assert_eq!(short.round(), 161.0);
    assert_eq!(long.round(), 7.0);
}

// At 2000 the legs stand at a proportion just under two, outside the open
// interval that triggers a further step, so the first rung is kept.
#[test]
fn predict_down_keeps_first_rung_below_two() {
    let current = position(4000, 4.948, 45.471);
    let (price, short, long) = legs(&next(&current, 1000, 2, Direction::Down, 2.6));
    assert_eq!(price, 2000.0);
    assert_eq!(short.round(), 30.0);
    assert_eq!(long.round(), 15.0);
}

// A slightly steeper exponent lifts the proportion at 2000 above two, and
// the search moves on to 1000.
#[test]
fn predict_down_tests_down_must_skip() {
    let current = position(4000, 4.948, 45.471);
    let (price, short, long) = legs(&next(&current, 1000, 2, Direction::Down, 2.6001));
    assert_eq!(price, 1000.0);
    assert_eq!(short.round(), 181.886_f64.round());
    assert_eq!(long.round(), 4.948_f64.round());
}

#[test]
fn identity_at_unchanged_price() {
    let current = position(1873, 12.5, 3.25);
    let p = predict(&current, current.price, Factor { num: 7, den: 7 }).unwrap();
    assert_eq!(p, current);
}

#[test]
fn projection_exact_values() {
    let current = Prediction { price: Price { num: 1200, den: 1 }, short: 100, long: 10 };
    let p = predict(&current, Price { num: 2000, den: 1 }, Factor { num: 1, den: 4 }).unwrap();
    assert_eq!(p.price, Price { num: 2000, den: 1 });
    assert_eq!(p.short, 25);
    // 10 * 1200 / 2000 = 6, then divided by the factor one quarter.
    assert_eq!(p.long, 24);
}

#[test]
fn projection_out_of_range() {
    let current = Prediction { price: Price { num: 1, den: 1 }, short: u64::MAX, long: 1 };
    assert_eq!(predict(&current, Price { num: 1, den: 1 }, Factor { num: 2, den: 1 }), None);
}

#[test]
fn ladder_up_from_above_base() {
    let r = ladder_step(Price { num: 1200, den: 1 }, 1000, 3, Direction::Up).unwrap();
    assert_eq!(r, Price { num: 3000, den: 1 });
}

#[test]
fn ladder_rungs_below_base_are_fractions() {
    let up = ladder_step(Price { num: 100, den: 1 }, 1000, 3, Direction::Up).unwrap();
    assert_eq!(up, Price { num: 1000, den: 9 });
    let down = ladder_step(Price { num: 100, den: 1 }, 1000, 3, Direction::Down).unwrap();
    assert_eq!(down, Price { num: 1000, den: 27 });
}

#[test]
fn ladder_moves_past_a_rung_it_stands_on() {
    let up = ladder_step(Price { num: 3000, den: 1 }, 1000, 3, Direction::Up).unwrap();
    assert_eq!(up, Price { num: 9000, den: 1 });
    let down = ladder_step(Price { num: 3000, den: 1 }, 1000, 3, Direction::Down).unwrap();
    assert_eq!(down, Price { num: 1000, den: 1 });
}

#[test]
fn ladder_results_are_powers_of_the_factor_times_base() {
    let cases: Vec<(u32, u32)> = vec![(1, 1), (999, 1), (1001, 1), (7, 3), (50000, 7), (123456, 1)];
    for (num, den) in cases {
        let p = Price { num, den };
        for dir in [Direction::Up, Direction::Down] {
            let r = ladder_step(p, 1000, 3, dir).unwrap();
            let ratio = value(&r) / 1000.0;
            let k = ratio.log(3.0).round();
            assert!((3f64.powf(k) - ratio).abs() < 1e-9 * ratio.max(1.0));
            match dir {
                Direction::Up => assert!(p.less_than(&r)),
                Direction::Down => assert!(r.less_than(&p)),
            }
        }
    }
}

#[test]
fn ladder_rung_out_of_range() {
    assert_eq!(ladder_step(Price { num: u32::MAX, den: 1 }, 1000, 3, Direction::Up), None);
}

#[test]
fn step_rung_both_ways() {
    assert_eq!(step_rung(Price { num: 1000, den: 9 }, 3, Direction::Up), Some(Price { num: 1000, den: 3 }));
    assert_eq!(step_rung(Price { num: 1000, den: 1 }, 3, Direction::Up), Some(Price { num: 3000, den: 1 }));
    assert_eq!(step_rung(Price { num: 3000, den: 1 }, 3, Direction::Down), Some(Price { num: 1000, den: 1 }));
    assert_eq!(step_rung(Price { num: 1000, den: 1 }, 3, Direction::Down), Some(Price { num: 1000, den: 3 }));
    assert_eq!(step_rung(Price { num: u32::MAX, den: 1 }, 2, Direction::Up), None);
}

#[test]
fn near_start_bounds_are_open() {
    let at = |short: u64, long: u64| Prediction { price: Price { num: 1, den: 1 }, short, long };
    assert!(!is_near_start(&at(20, 10)));
    assert!(is_near_start(&at(21, 10)));
    assert!(is_near_start(&at(49, 10)));
    assert!(!is_near_start(&at(50, 10)));
    assert!(!is_near_start(&at(5, 0)));
}
