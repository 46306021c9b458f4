//! Projection and equalization engine for a two-leg leveraged position.
//!
//! Quantities are exact integers: ETH amounts in loan units (nano-ETH where
//! they come from chain reads), prices as positive rationals, ratios as
//! fractions of small integers.
//! The power-law factor of a projection is a real power; callers compute it
//! and hand it in as a fraction.
pub mod types;
pub mod ladder;
pub mod predictor;
pub mod scanner;
pub mod equalizer;
pub mod units;
pub mod hex;

pub use crate::types::{BlockchainError, Config, Direction, EngineError, Factor, Loan, Prediction, Price, Ratio};
pub use crate::ladder::{ladder_step, step_rung};
pub use crate::hex::{balance_units, big_endian_u128, payload_bytes, quantity_bytes, storage_bytes};
pub use crate::units::{last_bytes, loan_from_wei, net_value, price_from_answer, stable_in_units, units_from_wei};
pub use crate::equalizer::{equalize, Currency, Equalize};
pub use crate::scanner::{band_prices, find_rebalance_down, find_rebalance_up, predict_all, price_grid, standard_bands, Band};
pub use crate::predictor::{is_near_start, predict, predict_down, predict_next, predict_up};
