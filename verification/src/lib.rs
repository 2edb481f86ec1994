//! A real-time scrolling graph of multi-channel samples.
//!
//! The crate keeps a bounded history of timestamped samples in a [`Store`],
//! decides what part of the time axis is on screen with a [`Graph`] and its
//! [`View`], and turns a time/value window into RGBA bytes with
//! [`render_patch`]. Every function carries a contract that Verus proves.

pub mod data;
pub mod graph;
pub mod null_data_source;
pub mod observable_value;
pub mod render;
pub mod signal;
pub mod store;
pub mod sweep;
pub mod test_data_generator;
pub mod view;

pub use data::{default_colors, Color, DataSource, Error, Point, Time, Value};
pub use graph::Graph;
pub use null_data_source::NullDataSource;
pub use render::{render_patch, render_patch_to_bytes, PointStyle};
pub use signal::Signal;
pub use store::Store;
pub use sweep::Sweep;
pub use test_data_generator::TestDataGenerator;
pub use view::{Config, Controls, Patch, View, ViewMode};

