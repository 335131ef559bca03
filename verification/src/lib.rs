//! Sensor model and viewport engine of a terminal dashboard for laptop
//! temperature sensors and manual fan control.
//!
//! The crate turns a sensor report into adapters and their temperature
//! inputs, formats the fan status, and maps the readings onto a bounded
//! terminal viewport: which rows are visible, where the scrollbar thumb
//! sits, and how each proportional bar is coloured. Every function states
//! its behaviour in a contract that Verus proves.
//!
//! - [`sensors`] reads a sensor report into adapters; [`json`] is its way
//!   into `serde_json`, and [`literal`] reads the numbers.
//! - [`decimal`] holds temperatures as exact decimal numbers and orders
//!   them.
//! - [`fan`] formats the fan status and spells the fan commands.
//! - [`rows`] flattens the adapters into rows and sorts them; [`viewport`]
//!   picks the rows that are on screen and places the scrollbar thumb;
//!   [`bar`] colours the bars.
//! - [`app`] holds the state of the dashboard, takes keys, and lays out
//!   each frame; [`frame`] holds what a frame is made of.
//! - [`text`], [`rounding`] and [`views`] are helpers.

pub mod app;
pub mod bar;
pub mod decimal;
pub mod fan;
pub mod frame;
pub mod json;
pub mod literal;
pub mod rounding;
pub mod rows;
pub mod sensors;
pub mod text;
pub mod viewport;
pub mod views;
