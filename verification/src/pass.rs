//! One pass over an image: every marker is sampled and decoded.
//!
//! A marker that cannot be read is absent; the pass goes on with the next.

use crate::config::{Config, Marker, MarkerType, Point};
use crate::decoder::DecodedValue;
use crate::messages::{
    build_messages, message_views, messages_for, record, Entry, PublishMessage, Readings,
};
use crate::sampler::Srgba;
use vstd::prelude::*;

verus! {

/// The luminance of the image at each point, where every point can be
/// sampled.
pub open spec fn samples_at(
    points: Seq<Point>,
    pixels: Seq<Srgba>,
    width: int,
    height: int,
) -> Option<Seq<i64>> {
    if forall|i: int|
        0 <= i < points.len() ==> (#[trigger] points[i]).in_bounds(
            pixels.len() as int,
            width,
            height,
        ) {
        Some(
            Seq::new(
                points.len(),
                |i: int| pixels[points[i].pixel_index(width, height)].relative_luminance() as i64,
            ),
        )
    } else {
        None
    }
}

/// Samples the luminance of an image at each point, in order. The image is
/// `width` by `height` pixels, row by row. Where one of the points cannot be
/// sampled there are no samples at all.
pub fn sample_points(
    points: &Vec<Point>,
    pixels: &[Srgba],
    width: usize,
    height: usize,
) -> (samples: Option<Vec<i64>>)
    ensures
        match samples {
            Some(levels) => samples_at(points@, pixels@, width as int, height as int) == Some(
                levels@,
            ),
            None => samples_at(points@, pixels@, width as int, height as int) is None,
        },
{
    let mut levels: Vec<i64> = Vec::new();
    let mut i: usize = 0;
    while i < points.len()
        invariant
            i <= points.len(),
            levels@.len() == i,
            forall|j: int|
                0 <= j < i ==> (#[trigger] points@[j]).in_bounds(
                    pixels@.len() as int,
                    width as int,
                    height as int,
                ),
            forall|j: int|
                0 <= j < i ==> #[trigger] levels@[j] == pixels@[points@[j].pixel_index(
                    width as int,
                    height as int,
                )].relative_luminance(),
        decreases points.len() - i,
    {
        match points[i].sample(pixels, width, height) {
            Ok(pixel) => {
                levels.push(pixel.luminance());
            },
            Err(_) => {
                return None;
            },
        }
        i = i + 1;
    }
    assert(levels@ =~= samples_at(points@, pixels@, width as int, height as int)->0);
    Some(levels)
}

impl MarkerType {
    /// What the marker reads as on an image.
    ///
    /// A marker that is not well formed, or one of whose points does not lie
    /// in the image, is absent. Any other is decoded from the luminance at
    /// its points.
    pub open spec fn reading(
        self,
        pixels: Seq<Srgba>,
        width: int,
        height: int,
        threshold: int,
    ) -> DecodedValue {
        if !self.well_formed() {
            DecodedValue::Absent
        } else {
            match samples_at(self.points(), pixels, width, height) {
                Some(samples) => self.decoded(samples, threshold),
                None => DecodedValue::Absent,
            }
        }
    }

    /// Reads the marker on an image of `width` by `height` pixels.
    pub fn read(
        &self,
        pixels: &[Srgba],
        width: usize,
        height: usize,
        threshold: i64,
    ) -> (value: DecodedValue)
        ensures
            value == self.reading(pixels@, width as int, height as int, threshold as int),
    {
        if !self.is_well_formed() {
            return DecodedValue::Absent;
        }
        let points = self.get_points();
        match sample_points(&points, pixels, width, height) {
            Some(samples) => self.value(samples.as_slice(), threshold),
            None => DecodedValue::Absent,
        }
    }
}

/// What each marker reads as on an image, in the order of the markers.
pub open spec fn values_of(
    markers: Seq<Marker>,
    pixels: Seq<Srgba>,
    width: int,
    height: int,
    threshold: int,
) -> Seq<DecodedValue> {
    Seq::new(markers.len(), |i: int| markers[i].ty.reading(pixels, width, height, threshold))
}

/// Reads every marker on an image of `width` by `height` pixels.
pub fn read_values(
    markers: &Vec<Marker>,
    pixels: &[Srgba],
    width: usize,
    height: usize,
    threshold: i64,
) -> (values: Vec<DecodedValue>)
    ensures
        values@ == values_of(markers@, pixels@, width as int, height as int, threshold as int),
{
    let mut values: Vec<DecodedValue> = Vec::new();
    let mut i: usize = 0;
    while i < markers.len()
        invariant
            i <= markers.len(),
            values@.len() == i,
            forall|j: int|
                0 <= j < i ==> #[trigger] values@[j] == markers@[j].ty.reading(
                    pixels@,
                    width as int,
                    height as int,
                    threshold as int,
                ),
        decreases markers.len() - i,
    {
        values.push(markers[i].ty.read(pixels, width, height, threshold));
        i = i + 1;
    }
    values
}

/// The readings after the first `count` markers: the value of each is
/// recorded under the marker's name, so of two markers with one name the
/// value of the later one counts.
pub open spec fn gathered(
    markers: Seq<Marker>,
    values: Seq<DecodedValue>,
    count: nat,
) -> Seq<Entry>
    decreases count,
{
    if count == 0 {
        Seq::empty()
    } else {
        record(
            gathered(markers, values, (count - 1) as nat),
            markers[count - 1].name@,
            values[count - 1],
        )
    }
}

/// The number of markers that have a value: the shorter of the two lengths.
pub open spec fn paired_count(markers: Seq<Marker>, values: Seq<DecodedValue>) -> nat {
    if markers.len() <= values.len() {
        markers.len()
    } else {
        values.len()
    }
}

/// Gathers the values of the markers by name. The first value belongs to the
/// first marker, and so on; what one list has more than the other is left
/// out.
pub fn collect_readings(markers: &Vec<Marker>, values: &Vec<DecodedValue>) -> (readings: Readings)
    ensures
        readings.well_formed(),
        readings@ == gathered(markers@, values@, paired_count(markers@, values@)),
{
    let mut readings = Readings::new();
    let mut i: usize = 0;
    while i < markers.len() && i < values.len()
        invariant
            i <= markers.len(),
            i <= values.len(),
            readings.well_formed(),
            readings@ == gathered(markers@, values@, i as nat),
        decreases markers.len() - i,
    {
        readings.insert(markers[i].name.clone(), values[i]);
        i = i + 1;
    }
    readings
}

/// The messages of one pass over an image of `width` by `height` pixels:
/// every marker of the configuration is read against the configured
/// threshold, the values are gathered by name, and the readings are mapped
/// to messages.
pub fn run_pass(
    config: &Config,
    pixels: &[Srgba],
    width: usize,
    height: usize,
) -> (messages: Vec<PublishMessage>)
    ensures
        message_views(messages@) == messages_for(
            gathered(
                config.markers@,
                values_of(
                    config.markers@,
                    pixels@,
                    width as int,
                    height as int,
                    config.luminance_threshold as int,
                ),
                config.markers@.len(),
            ),
        ),
{
    let values = read_values(&config.markers, pixels, width, height, config.luminance_threshold);
    let readings = collect_readings(&config.markers, &values);
    build_messages(&readings)
}

} // verus!
