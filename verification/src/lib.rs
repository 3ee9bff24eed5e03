//! Turns parametric curves into pen-plotter motion: an adaptive tessellator
//! that samples a curve down to device resolution, and a motion encoder that
//! converts device points into stepper commands for a remote controller.

pub mod circle;
pub mod curve;
pub mod decimal;
pub mod hershey_font;
pub mod motion;
pub mod plottable;
pub mod plotter;
pub mod rectangle;
pub mod remote_plotter;
pub mod signature;
