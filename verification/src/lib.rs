//! A single-owner Kwork monitor's logic: which Telegram updates are the
//! administrator's commands, what the Kwork mobile API responses hold, which
//! dialogs, orders and kwork statistics deserve a notice, the bounded state
//! that remembers what was announced, and the schedule of the service.

pub mod bot;
mod clock;
pub mod config;
pub mod control;
pub mod kwork;
pub mod properties;
pub mod state;
pub mod text;
pub mod textops;
pub mod util;
