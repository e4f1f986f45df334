//! Reads an indicator panel from a still image.
//!
//! A marker names a place on the image: a single lamp, or a row of
//! seven-segment digits. The library turns a marker into sample points
//! ([`geometry`]), samples the luminance of the image at those points
//! ([`sampler`]), decodes the samples into a value ([`decoder`], with the
//! glyph table in [`segments`]), and maps the values of all markers to the
//! messages that are published for them ([`messages`]). [`pass`] puts the
//! steps together.
//!
//! Fractions are fixed-point integers throughout. A luminance or a threshold
//! of 1.0 is [`units::FULL_SCALE`]; a coordinate of 1.0, the full width or
//! height of the image, is [`units::UNIT`]. Luminance is exact: the weighted
//! sum of three 8-bit channels is a whole number of units, and so is every
//! threshold that the search of the decoder probes. Positions are rounded
//! down to whole units.

pub mod config;
pub mod decoder;
pub mod geometry;
pub mod messages;
pub mod pass;
pub mod sampler;
pub mod segments;
pub mod text;
pub mod units;
