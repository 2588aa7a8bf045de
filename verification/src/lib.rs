//! Core of a personal-information e-ink dashboard: it aggregates data from
//! independent, unreliable sources into a display model, substitutes the model
//! into a vector template (laying out text with its own fixed-width wrap
//! engine), rasterizes the template, and transforms the raster for the
//! physical display.

pub mod calendar;
pub mod compose;
pub mod control;
pub mod layout;
pub mod model;
pub mod raster;
pub mod render;
pub mod sources;
pub mod text;
pub mod timefmt;
pub mod weather;
