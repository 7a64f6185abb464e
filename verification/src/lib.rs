//! A charting library: maps data domains (categories, numeric ranges) onto
//! pixel coordinates, places axis ticks, stacks bar segments and lays out
//! legends. All coordinates are exact rationals, so every layout rule is
//! stated and proved as arithmetic.

pub mod axis;
pub mod chart;
pub mod colors;
pub mod components;
pub mod legend;
pub mod rational;
pub mod scales;
pub mod views;

pub use rational::Rat;
pub use axis::{Axis, AxisPosition};
pub use chart::Chart;
pub use colors::Color;
pub use components::bar::BarLabelPosition;
pub use components::line::LineSeries;
pub use components::scatter::{MarkerType, PointLabelPosition};
pub use scales::band::ScaleBand;
pub use scales::linear::ScaleLinear;
pub use views::datum::{BarDatum, PointDatum};
