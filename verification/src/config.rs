//! Markers and the configuration that holds them.

use crate::units::UNIT;
use vstd::prelude::*;

verus! {

/// The most digits that a row of seven-segment cells may have: the value of
/// eighteen decimal digits always fits in an `i64`.
pub const MAX_DIGITS: usize = 18;

/// The threshold of a fresh configuration: 0.4 of full scale.
pub const DEFAULT_THRESHOLD: i64 = 1_044_480_000;

/// A position on the image, each axis in units of which [`UNIT`] make the
/// full width or height.
#[derive(Clone, Copy, Debug, PartialEq, Eq, Structural)]
pub struct Coord {
    pub x: i64,
    pub y: i64,
}

impl Coord {
    /// The position lies on the image.
    pub open spec fn in_unit_square(self) -> bool {
        0 <= self.x <= UNIT && 0 <= self.y <= UNIT
    }

    /// Whether the position lies on the image.
    pub fn is_in_unit_square(&self) -> (yes: bool)
        ensures
            yes == self.in_unit_square(),
    {
        0 <= self.x && self.x <= UNIT && 0 <= self.y && self.y <= UNIT
    }
}

/// A place where the image is sampled. `size` is the side of the square that
/// is drawn for it, as a share of the image; one pixel is read whatever the
/// size is.
#[derive(Clone, Copy, Debug, PartialEq, Eq, Structural)]
pub struct Point {
    pub pos: Coord,
    pub size: i64,
}

/// The shape of a marker.
#[derive(Clone, Copy, Debug, PartialEq, Eq, Structural)]
pub enum MarkerType {
    /// A single lamp.
    Point { pos: Coord, size: i64 },
    /// A row of seven-segment digits. The cells follow one another from
    /// `start` towards `end`, `spacing` apart; `bottom`, seen from `start`,
    /// gives the height of a cell and its slant.
    SevenSegment { start: Coord, end: Coord, bottom: Coord, digits: usize, spacing: i64, size: i64 },
}

impl MarkerType {
    /// The marker lies on the image, and a row has between one and
    /// [`MAX_DIGITS`] cells whose spacing is at most the image's size.
    pub open spec fn well_formed(self) -> bool {
        match self {
            MarkerType::Point { pos, size } => pos.in_unit_square(),
            MarkerType::SevenSegment { start, end, bottom, digits, spacing, size } => {
                &&& start.in_unit_square()
                &&& end.in_unit_square()
                &&& bottom.in_unit_square()
                &&& 1 <= digits <= MAX_DIGITS
                &&& -UNIT <= spacing <= UNIT
            },
        }
    }

    /// Whether the marker is well formed.
    pub fn is_well_formed(&self) -> (yes: bool)
        ensures
            yes == self.well_formed(),
    {
        match self {
            MarkerType::Point { pos, size } => pos.is_in_unit_square(),
            MarkerType::SevenSegment { start, end, bottom, digits, spacing, size } => {
                start.is_in_unit_square() && end.is_in_unit_square() && bottom.is_in_unit_square()
                    && 1 <= *digits && *digits <= MAX_DIGITS && -UNIT <= *spacing && *spacing
                    <= UNIT
            },
        }
    }
}

/// A named place on the image. The name is the key under which the marker's
/// value is published.
pub struct Marker {
    pub name: String,
    pub ty: MarkerType,
}

impl Marker {
    /// A marker of the given shape, with an empty name.
    pub fn new(ty: MarkerType) -> (marker: Self)
        ensures
            marker.name@ == Seq::<char>::empty(),
            marker.ty == ty,
    {
        Self { name: String::new(), ty }
    }
}

/// Where the message bus is reached.
pub struct MqttConfig {
    pub host: String,
    pub port: u16,
    pub username: Option<String>,
    pub password: Option<String>,
}

impl Default for MqttConfig {
    fn default() -> (config: Self)
        ensures
            config.host@ == Seq::<char>::empty(),
            config.port == 0,
            config.username is None,
            config.password is None,
    {
        Self { host: String::new(), port: 0, username: None, password: None }
    }
}

/// Where the image comes from.
pub struct WebcamConfig {
    pub url: String,
    pub username: Option<String>,
    pub password: Option<String>,
}

impl Default for WebcamConfig {
    fn default() -> (config: Self)
        ensures
            config.url@ == Seq::<char>::empty(),
            config.username is None,
            config.password is None,
    {
        Self { url: String::new(), username: None, password: None }
    }
}

/// Everything that is configured: the bus, the image source, the markers and
/// the threshold against which luminance is compared.
pub struct Config {
    pub mqtt: MqttConfig,
    pub webcam: WebcamConfig,
    pub markers: Vec<Marker>,
    pub luminance_threshold: i64,
}

impl Default for Config {
    fn default() -> (config: Self)
        ensures
            config.markers@ == Seq::<Marker>::empty(),
            config.luminance_threshold == DEFAULT_THRESHOLD,
            config.mqtt.host@ == Seq::<char>::empty(),
            config.mqtt.port == 0,
            config.mqtt.username is None,
            config.mqtt.password is None,
            config.webcam.url@ == Seq::<char>::empty(),
            config.webcam.username is None,
            config.webcam.password is None,
    {
        Self {
            mqtt: MqttConfig::default(),
            webcam: WebcamConfig::default(),
            markers: Vec::new(),
            luminance_threshold: DEFAULT_THRESHOLD,
        }
    }
}

} // verus!
