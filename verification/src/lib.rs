//! Fuel price records: parsing of CSV-like lines, a record storage,
//! a small command language (ADD / REM / SAVE) with filter conditions,
//! and the state machine behind the editing screen.

pub mod text;
pub mod number;
pub mod date;
pub mod fuel;
pub mod storage;
pub mod condition;
pub mod command;
pub mod screen;

pub use command::{Command, CommandParser};
pub use condition::{Condition, ConditionField, ConditionOperator};
pub use date::FuelDate;
pub use fuel::{Fuel, RecordFields};
pub use screen::{AppState, Effect, Message};
pub use storage::{FuelParser, FuelStorage};
