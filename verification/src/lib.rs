//! Technical-analysis indicators over fixed-point price series.
//!
//! A price is a signed 32-bit count of ticks; the caller chooses what one tick
//! is worth. Series derived from prices are 64-bit. Positions of an output
//! that lack history are `None`. Dimensionless factors (a band multiplier, an
//! acceleration factor, a threshold) are given in basis points, see
//! [`fixed::SCALE`]; so are ratios and percentages, in which one hundred
//! percent is `SCALE`. Every quotient is rounded towards negative infinity.
//!
//! A quantity that is smoothed before it is divided or multiplied (an average
//! gain, a true range, a standard deviation) is carried in ten-thousandths of
//! a tick, so that rounding stays far below the tick; where a ratio has a
//! bound, the denominator is rounded up and the numerator down, so that the
//! bound survives the rounding.

pub mod error;
pub mod fixed;
pub mod series;
pub mod window;
pub mod smoothing;
pub mod moving_average;
pub mod kagi;
pub mod renko;
pub mod parabolic_sar;
pub mod bollinger_bands;
pub mod relative_strength_index;
pub mod moving_average_convergence_divergence;
pub mod directional_movement_index;
pub mod stochastic_oscillator;
pub mod stochastic_momentum_index;
pub mod ichimoku;
pub mod pivot_points;
pub mod market_data;
pub mod support_resistance;
pub mod trends_meter;
pub mod entry_exit_signals;
pub mod extract_important_levels;
