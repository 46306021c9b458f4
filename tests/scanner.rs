use bermuda::{band_prices, find_rebalance_down, find_rebalance_up, predict_all, price_grid, standard_bands};
use bermuda::{Band, Factor, Prediction, Price};

fn at(price: u32, short: u64, long: u64) -> Prediction {
    Prediction { price: Price { num: price, den: 1 }, short, long }
}

#[test]
fn band_excludes_or_includes_its_end() {
    assert_eq!(band_prices(Band { start: 500, end: 700, step: 50, inclusive: false }), vec![500, 550, 600, 650]);
    assert_eq!(band_prices(Band { start: 500, end: 700, step: 50, inclusive: true }), vec![500, 550, 600, 650, 700]);
    assert_eq!(band_prices(Band { start: 700, end: 500, step: 50, inclusive: true }), Vec::<u32>::new());
}

#[test]
fn standard_grid() {
    let grid = price_grid(&standard_bands());
    assert_eq!(grid.len(), 10 + 20 + 8 + 10 + 11);
    assert_eq!(grid[0], 500);
    assert_eq!(grid[9], 950);
    assert_eq!(grid[10], 1000);
    assert_eq!(grid[30], 3000);
    assert_eq!(grid[38], 5000);
    assert_eq!(grid[48], 10000);
    assert_eq!(*grid.last().unwrap(), 20000);
    assert!(grid.windows(2).all(|w| w[0] < w[1]));
}

#[test]
fn predict_all_follows_each_factor() {
    let current = at(1000, 100, 100);
    let prices = vec![Price { num: 500, den: 1 }, Price { num: 2000, den: 1 }];
    let factors = vec![Factor { num: 2, den: 1 }, Factor { num: 1, den: 2 }];
    let all = predict_all(&current, &prices, &factors).unwrap();
    assert_eq!(all, vec![at(500, 200, 100), at(2000, 50, 100)]);
    let too_big = vec![Factor { num: u64::MAX, den: 1 }, Factor { num: 1, den: 2 }];
    assert_eq!(predict_all(&current, &prices, &too_big), None);
}

#[test]
fn rebalance_up_is_first_in_scan_order() {
    let ps = vec![at(500, 10, 10), at(600, 10, 60), at(700, 10, 90)];
    assert_eq!(find_rebalance_up(&ps, 6), Some(Price { num: 600, den: 1 }));
    assert_eq!(find_rebalance_up(&ps[..1].to_vec(), 6), None);
}

#[test]
fn rebalance_down_is_last_in_scan_order() {
    let ps = vec![at(500, 720, 10), at(600, 360, 10), at(700, 359, 10)];
    assert_eq!(find_rebalance_down(&ps, 36), Some(Price { num: 600, den: 1 }));
    assert_eq!(find_rebalance_down(&vec![at(500, 359, 10)], 36), None);
    assert_eq!(find_rebalance_down(&Vec::new(), 36), None);
}
