//! High fidelity time management: durations with nanosecond precision over
//! +/- 32768 centuries, the Gregorian calendar and epoch formats.

pub mod consts;
pub mod datetime;
pub mod display;
pub mod duration;
pub mod efmt;
pub mod epoch;
pub mod epoch_display;
pub mod epoch_scales;
pub mod epoch_str;
pub mod epoch_text;
pub mod epoch_with;
pub mod errors;
pub mod gregorian;
pub mod gregorian_laws;
pub mod leap_seconds;
pub mod numeric;
pub mod parse;
pub mod parts;
pub mod std_duration;
pub mod text;
pub mod text_round_trip;
pub mod timescale;
pub mod unit;
pub mod unit_order;
pub mod ut1;
pub mod weekday;
