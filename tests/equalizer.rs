use bermuda::{equalize, Config, Currency, EngineError, Loan, Ratio};

const UNIT: u64 = 1_000_000_000;

fn config(target: Ratio, keep: Ratio) -> Config {
    Config::standard(Ratio { num: 47, den: 20 }, target, keep).unwrap()
}

fn eth(x: u64) -> u64 {
    x * UNIT
}

#[test]
fn equalize_scenario_reaches_target() {
    let cfg = config(Ratio { num: 3, den: 2 }, Ratio { num: 1, den: 10 });
    let short = Loan { collateral: eth(120), debt: eth(60) };
    let long = Loan { collateral: eth(80), debt: eth(30) };
    let e = equalize(short, long, 2000, &cfg).unwrap();
    let u = UNIT as i128;
    assert_eq!(e.eth_price, 2000);
    assert_eq!(e.keep_value, 11 * u);
    assert_eq!(e.keep_usd, 11 * u * 2000);
    assert_eq!(e.flash_loan_currency, Currency::Usd);
    assert_eq!(e.short_collateral_delta, 78 * u * 2000);
    assert_eq!(e.short_debt_delta, 72 * u);
    assert_eq!(e.long_collateral_delta, -19 * u);
    assert_eq!(e.long_debt_delta, -36 * u * 2000);
    assert_eq!(e.flash_loan_value, (78 - 36) * u * 2000);
    let sc = short.collateral as i128 + e.short_collateral_delta / 2000;
    let sd = short.debt as i128 + e.short_debt_delta;
    let lc = long.collateral as i128 - e.long_collateral_delta;
    let ld = long.debt as i128 - e.long_debt_delta / 2000;
    assert_eq!(sc * 2, sd * 3);
    assert_eq!(lc * 2, ld * 3);
}

#[test]
fn equalize_eth_branch() {
    let cfg = config(Ratio { num: 3, den: 1 }, Ratio { num: 0, den: 1 });
    let short = Loan { collateral: eth(300), debt: eth(200) };
    let long = Loan { collateral: eth(60), debt: eth(10) };
    let e = equalize(short, long, 1000, &cfg).unwrap();
    let u = UNIT as i128;
    // Net value 150: 100 short, 50 long; at ratio 3 a leg of value v holds
    // 1.5 v of collateral and 0.5 v of debt.
    assert_eq!(e.flash_loan_currency, Currency::Eth);
    assert_eq!(e.keep_value, 0);
    assert_eq!(e.short_collateral_delta, 150 * u * 1000);
    assert_eq!(e.short_debt_delta, 150 * u);
    assert_eq!(e.long_collateral_delta, 15 * u);
    assert_eq!(e.long_debt_delta, 15 * u * 1000);
    assert_eq!(e.flash_loan_value, 165 * u);
}

#[test]
fn equalize_keep_usd_is_keep_times_price() {
    let cfg = config(Ratio { num: 7, den: 4 }, Ratio { num: 1, den: 7 });
    let short = Loan { collateral: 1_234_567, debt: 234_567 };
    let long = Loan { collateral: 765_432, debt: 65_432 };
    let e = equalize(short, long, 1873, &cfg).unwrap();
    assert_eq!(e.keep_value, 1_700_000 / 7);
    assert_eq!(e.keep_usd, e.keep_value * 1873);
}

#[test]
fn equalize_rejects_bad_input() {
    let cfg = config(Ratio { num: 3, den: 2 }, Ratio { num: 1, den: 10 });
    let healthy = Loan { collateral: 10, debt: 5 };
    assert_eq!(equalize(healthy, healthy, 0, &cfg), Err(EngineError::InvalidInput));
    let under = Loan { collateral: 5, debt: 10 };
    assert_eq!(equalize(under, under, 2000, &cfg), Err(EngineError::InvalidInput));
    let flat = Loan { collateral: 5, debt: 5 };
    assert_eq!(equalize(flat, flat, 2000, &cfg), Err(EngineError::InvalidInput));
}

#[test]
fn config_rejects_bad_ratios() {
    let e = Ratio { num: 47, den: 20 };
    let keep = Ratio { num: 1, den: 10 };
    assert_eq!(Config::standard(e, Ratio { num: 1, den: 1 }, keep), Err(EngineError::InvalidConfiguration));
    assert_eq!(Config::standard(e, Ratio { num: 3, den: 2 }, Ratio { num: 1, den: 1 }), Err(EngineError::InvalidConfiguration));
    let ok = Config::standard(e, Ratio { num: 3, den: 2 }, keep).unwrap();
    assert_eq!(ok.ladder, 3);
    assert_eq!(ok.up_threshold, 6);
    assert_eq!(ok.down_threshold, 36);
    assert_eq!(ok.short_share, Ratio { num: 2, den: 3 });
    assert_eq!(Config::new(e, Ratio { num: 3, den: 2 }, keep, Ratio { num: 2, den: 3 }, 1, 6, 36), Err(EngineError::InvalidConfiguration));
}

#[test]
fn blockchain_error_description() {
    let err = bermuda::BlockchainError(String::from("cannot retrieve response from eth_call"));
    assert_eq!(err.description(), "cannot retrieve response from eth_call");
}
