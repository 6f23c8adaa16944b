//! Daily quotes and the points that one quote becomes.
//!
//! The library never looks into a price. It carries values of whatever type
//! `V` the caller chose for them, unchanged, from a quote to its points.

use vstd::prelude::*;
use crate::naming::{field_at, series_key_text, Field, KeyScheme, FIELD_COUNT};

verus! {

/// One instrument's prices for one trading day, as the provider reports them.
#[derive(Clone, Copy, Debug, PartialEq)]
pub struct Quote<V> {
    /// The day, in seconds since the epoch.
    pub timestamp: u64,
    pub open: V,
    pub high: V,
    pub low: V,
    pub close: V,
    pub adjclose: V,
}

impl<V> Quote<V> {
    /// The price that the quote has for `field`.
    pub open spec fn value(self, field: Field) -> V {
        match field {
            Field::Open => self.open,
            Field::Close => self.close,
            Field::High => self.high,
            Field::Low => self.low,
            Field::AdjClose => self.adjclose,
        }
    }
}

impl<V: Copy> Quote<V> {
    /// The price that the quote has for `field`.
    pub fn get(&self, field: Field) -> (v: V)
        ensures
            v == self.value(field),
    {
        match field {
            Field::Open => self.open,
            Field::Close => self.close,
            Field::High => self.high,
            Field::Low => self.low,
            Field::AdjClose => self.adjclose,
        }
    }
}

/// Milliseconds in a second.
pub const MILLIS_PER_SECOND: u64 = 1000;

/// A time in seconds, in milliseconds.
pub open spec fn millis_of(seconds: int) -> int {
    seconds * 1000
}

/// Whether a time in seconds can be written as signed 64-bit milliseconds.
pub open spec fn representable(seconds: int) -> bool {
    millis_of(seconds) <= i64::MAX
}

/// Whether the day of `quote` can be written in milliseconds.
pub open spec fn fits<V>(quote: Quote<V>) -> bool {
    representable(quote.timestamp as int)
}

/// A time in seconds, in milliseconds; `None` when the result does not fit.
pub fn to_millis(seconds: u64) -> (millis: Option<i64>)
    ensures
        millis == (if representable(seconds as int) {
            Some(millis_of(seconds as int) as i64)
        } else {
            None
        }),
{
    if seconds <= (i64::MAX as u64) / MILLIS_PER_SECOND {
        Some((seconds * MILLIS_PER_SECOND) as i64)
    } else {
        None
    }
}

/// One value at one time in one series: the unit that is written to the store.
#[derive(Clone, Debug, PartialEq)]
pub struct SeriesPoint<V> {
    /// The key of the series.
    pub key: String,
    /// The time, in milliseconds since the epoch.
    pub timestamp: i64,
    pub value: V,
}

/// A [`SeriesPoint`] with its key as text and its time as an integer.
pub struct PointView<V> {
    pub key: Seq<char>,
    pub timestamp: int,
    pub value: V,
}

impl<V> View for SeriesPoint<V> {
    type V = PointView<V>;

    open spec fn view(&self) -> PointView<V> {
        PointView { key: self.key@, timestamp: self.timestamp as int, value: self.value }
    }
}

/// The point that stands for `field` of `quote`: in the series of that
/// instrument and field, at the quote's day in milliseconds, with the quote's
/// price for the field.
pub open spec fn point_of<V>(
    namespace: Seq<char>,
    instrument: Seq<char>,
    quote: Quote<V>,
    field: Field,
) -> PointView<V> {
    PointView {
        key: series_key_text(namespace, instrument, field),
        timestamp: millis_of(quote.timestamp as int),
        value: quote.value(field),
    }
}

/// The five points of a quote, in write order.
pub open spec fn points_of<V>(namespace: Seq<char>, instrument: Seq<char>, quote: Quote<V>) -> Seq<
    PointView<V>,
> {
    Seq::new(FIELD_COUNT as nat, |k: int| point_of(namespace, instrument, quote, field_at(k)))
}

/// How many of the quotes from index `j` on have a day that can be written
/// in milliseconds.
pub open spec fn fitting_from<V>(quotes: Seq<Quote<V>>, j: nat) -> nat
    decreases quotes.len() - j,
{
    if j >= quotes.len() {
        0
    } else if fits(quotes[j as int]) {
        1 + fitting_from(quotes, j + 1)
    } else {
        fitting_from(quotes, j + 1)
    }
}

/// The points of the quotes from index `j` on, quote by quote, each in write
/// order. A quote whose day cannot be written in milliseconds has none.
pub open spec fn points_from<V>(
    namespace: Seq<char>,
    instrument: Seq<char>,
    quotes: Seq<Quote<V>>,
    j: nat,
) -> Seq<PointView<V>>
    decreases quotes.len() - j,
{
    if j >= quotes.len() {
        Seq::empty()
    } else if fits(quotes[j as int]) {
        points_of(namespace, instrument, quotes[j as int]) + points_from(
            namespace,
            instrument,
            quotes,
            j + 1,
        )
    } else {
        points_from(namespace, instrument, quotes, j + 1)
    }
}

/// There are five points to each quote whose day can be written in
/// milliseconds.
pub proof fn lemma_points_from_len<V>(
    namespace: Seq<char>,
    instrument: Seq<char>,
    quotes: Seq<Quote<V>>,
    j: nat,
)
    ensures
        points_from(namespace, instrument, quotes, j).len() == FIELD_COUNT * fitting_from(
            quotes,
            j,
        ),
    decreases quotes.len() - j,
{
    if j < quotes.len() {
        lemma_points_from_len(namespace, instrument, quotes, j + 1);
    }
}

/// The views of a sequence of points.
pub open spec fn point_views<V>(points: Seq<SeriesPoint<V>>) -> Seq<PointView<V>> {
    points.map_values(|p: SeriesPoint<V>| p@)
}

/// The point that stands for `field` of `quote`; `None` when the quote's day
/// cannot be written in milliseconds.
pub fn series_point<V: Copy>(
    scheme: &KeyScheme,
    instrument: &str,
    quote: &Quote<V>,
    field: Field,
) -> (point: Option<SeriesPoint<V>>)
    ensures
        point is Some <==> representable(quote.timestamp as int),
        point matches Some(p) ==> p@ == point_of(
            scheme.series_namespace@,
            instrument@,
            *quote,
            field,
        ),
{
    match to_millis(quote.timestamp) {
        Some(timestamp) => Some(
            SeriesPoint { key: scheme.series_key(instrument, field), timestamp, value: quote.get(field) },
        ),
        None => None,
    }
}

/// The five points of `quote`, in write order; `None` when the quote's day
/// cannot be written in milliseconds.
pub fn quote_points<V: Copy>(scheme: &KeyScheme, instrument: &str, quote: &Quote<V>) -> (points:
    Option<Vec<SeriesPoint<V>>>)
    ensures
        points is Some <==> representable(quote.timestamp as int),
        points matches Some(ps) ==> point_views(ps@) == points_of(
            scheme.series_namespace@,
            instrument@,
            *quote,
        ),
{
    let mut points: Vec<SeriesPoint<V>> = Vec::new();
    let mut k: usize = 0;
    while k < FIELD_COUNT
        invariant
            k <= FIELD_COUNT,
            points.len() == k,
            k > 0 ==> representable(quote.timestamp as int),
            forall|i: int|
                0 <= i < k ==> (#[trigger] points[i])@ == point_of(
                    scheme.series_namespace@,
                    instrument@,
                    *quote,
                    field_at(i),
                ),
        decreases FIELD_COUNT - k,
    {
        let field = match Field::at(k) {
            Some(field) => field,
            None => { return None; },
        };
        match series_point(scheme, instrument, quote, field) {
            Some(point) => {
                points.push(point);
            },
            None => {
                return None;
            },
        }
        k += 1;
    }
    Some(points)
}

} // verus!
