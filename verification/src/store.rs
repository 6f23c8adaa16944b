//! What the pipeline expects of the time-series store, as a model: every
//! series holds at most one value per time, and a write to a time that
//! already has a value replaces it.
//!
//! The laws below say what writing a quote does to such a store.

use vstd::prelude::*;
use crate::naming::{field_at, lemma_series_key_injective, series_key_text, Field, FIELD_COUNT};
use crate::quote::{fits, millis_of, point_of, points_from, points_of, PointView, Quote};

verus! {

/// A store of series, by key. A key without a series is absent from the map.
#[verifier::ext_equal]
pub struct Store<V> {
    pub series: Map<Seq<char>, Map<int, V>>,
}

impl<V> Store<V> {
    /// The points of the series under `key`; none when there is no such series.
    pub open spec fn points(self, key: Seq<char>) -> Map<int, V> {
        if self.series.dom().contains(key) {
            self.series[key]
        } else {
            Map::empty()
        }
    }

    /// The value that the series under `key` holds at `timestamp`, if any.
    pub open spec fn value_at(self, key: Seq<char>, timestamp: int) -> Option<V> {
        if self.points(key).dom().contains(timestamp) {
            Some(self.points(key)[timestamp])
        } else {
            None
        }
    }

    /// The store after `p` was written: the series is created if it was
    /// missing, and the value at the point's time is the point's value,
    /// whether or not the time had a value before.
    pub open spec fn upsert(self, p: PointView<V>) -> Store<V> {
        Store { series: self.series.insert(p.key, self.points(p.key).insert(p.timestamp, p.value)) }
    }

    /// The store after the first `n` fields of `quote` were written, in write
    /// order.
    pub open spec fn write_fields(
        self,
        namespace: Seq<char>,
        instrument: Seq<char>,
        quote: Quote<V>,
        n: nat,
    ) -> Store<V>
        decreases n,
    {
        if n == 0 {
            self
        } else {
            self.write_fields(namespace, instrument, quote, (n - 1) as nat).upsert(
                point_of(namespace, instrument, quote, field_at(n - 1)),
            )
        }
    }

    /// The store after `points` were written one after the other.
    pub open spec fn upsert_all(self, points: Seq<PointView<V>>) -> Store<V>
        decreases points.len(),
    {
        if points.len() == 0 {
            self
        } else {
            self.upsert_all(points.drop_last()).upsert(points.last())
        }
    }

    /// The store after the quotes from index `j` on were written, one after
    /// the other. A quote whose day cannot be written in milliseconds is not
    /// written.
    pub open spec fn write_quotes_from(
        self,
        namespace: Seq<char>,
        instrument: Seq<char>,
        quotes: Seq<Quote<V>>,
        j: nat,
    ) -> Store<V>
        decreases quotes.len() - j,
    {
        if j >= quotes.len() {
            self
        } else if fits(quotes[j as int]) {
            self.write_quote(namespace, instrument, quotes[j as int]).write_quotes_from(
                namespace,
                instrument,
                quotes,
                j + 1,
            )
        } else {
            self.write_quotes_from(namespace, instrument, quotes, j + 1)
        }
    }

    /// The store after all five fields of `quote` were written.
    pub open spec fn write_quote(
        self,
        namespace: Seq<char>,
        instrument: Seq<char>,
        quote: Quote<V>,
    ) -> Store<V> {
        self.write_fields(namespace, instrument, quote, FIELD_COUNT as nat)
    }
}

/// Whether `key` is the series key of one of the first `n` fields.
pub open spec fn among_first_keys(
    namespace: Seq<char>,
    instrument: Seq<char>,
    n: nat,
    key: Seq<char>,
) -> bool {
    exists|k: int| 0 <= k < n && key == #[trigger] series_key_text(namespace, instrument, field_at(k))
}

/// A written point reads back, and nothing else in the store changes.
pub proof fn lemma_upsert_reads_back<V>(store: Store<V>, p: PointView<V>)
    ensures
        store.upsert(p).value_at(p.key, p.timestamp) == Some(p.value),
        store.upsert(p).points(p.key).dom() == store.points(p.key).dom().insert(p.timestamp),
        forall|key: Seq<char>, timestamp: int|
            key != p.key || timestamp != p.timestamp ==> #[trigger] store.upsert(p).value_at(
                key,
                timestamp,
            ) == store.value_at(key, timestamp),
{
}

/// Of two writes to the same time of the same series only the later one
/// shows: the store is as if the earlier had not happened.
pub proof fn lemma_last_write_wins<V>(store: Store<V>, earlier: PointView<V>, later: PointView<V>)
    requires
        earlier.key == later.key,
        earlier.timestamp == later.timestamp,
    ensures
        store.upsert(earlier).upsert(later) == store.upsert(later),
{
    let a = store.upsert(earlier).upsert(later);
    let b = store.upsert(later);
    assert(a.points(later.key) =~= b.points(later.key));
}

/// What the first `n` writes of a quote do to one series: the series of each
/// of those fields gains the quote's price for the field at the quote's day,
/// and every other series stays as it was.
pub proof fn lemma_write_fields_effect<V>(
    store: Store<V>,
    namespace: Seq<char>,
    instrument: Seq<char>,
    quote: Quote<V>,
    n: nat,
    key: Seq<char>,
)
    requires
        n <= FIELD_COUNT,
    ensures
        forall|k: int|
            0 <= k < n && key == #[trigger] series_key_text(namespace, instrument, field_at(k))
                ==> store.write_fields(namespace, instrument, quote, n).points(key)
                == store.points(key).insert(
                millis_of(quote.timestamp as int),
                quote.value(field_at(k)),
            ),
        !among_first_keys(namespace, instrument, n, key) ==> store.write_fields(
            namespace,
            instrument,
            quote,
            n,
        ).points(key) == store.points(key),
        store.write_fields(namespace, instrument, quote, n).series.dom().contains(key) <==> (
        store.series.dom().contains(key) || among_first_keys(namespace, instrument, n, key)),
    decreases n,
{
    if n > 0 {
        let m = (n - 1) as nat;
        let last_key = series_key_text(namespace, instrument, field_at(m as int));
        lemma_write_fields_effect(store, namespace, instrument, quote, m, key);
        assert forall|k: int|
            0 <= k < n && key == #[trigger] series_key_text(
                namespace,
                instrument,
                field_at(k),
            ) implies store.write_fields(namespace, instrument, quote, n).points(key)
            == store.points(key).insert(
            millis_of(quote.timestamp as int),
            quote.value(field_at(k)),
        ) by {
            if k < m {
                if key == last_key {
                    lemma_series_key_injective(
                        namespace,
                        instrument,
                        field_at(k),
                        instrument,
                        field_at(m as int),
                    );
                }
            } else {
                if among_first_keys(namespace, instrument, m, key) {
                    let j = choose|j: int|
                        0 <= j < m && key == #[trigger] series_key_text(
                            namespace,
                            instrument,
                            field_at(j),
                        );
                    lemma_series_key_injective(
                        namespace,
                        instrument,
                        field_at(j),
                        instrument,
                        field_at(m as int),
                    );
                }
            }
        }
    }
}

/// After a quote was written, each of its five series holds the quote's price
/// for its field at the quote's day in milliseconds.
pub proof fn lemma_write_quote_reads_back<V>(
    store: Store<V>,
    namespace: Seq<char>,
    instrument: Seq<char>,
    quote: Quote<V>,
    field: Field,
)
    ensures
        store.write_quote(namespace, instrument, quote).value_at(
            series_key_text(namespace, instrument, field),
            millis_of(quote.timestamp as int),
        ) == Some(quote.value(field)),
        store.write_quote(namespace, instrument, quote).points(
            series_key_text(namespace, instrument, field),
        ).dom() == store.points(series_key_text(namespace, instrument, field)).dom().insert(
            millis_of(quote.timestamp as int),
        ),
{
    let key = series_key_text(namespace, instrument, field);
    lemma_write_fields_effect(store, namespace, instrument, quote, FIELD_COUNT as nat, key);
    let k = field_index(field);
    assert(key == series_key_text(namespace, instrument, field_at(k)));
}

/// Writing the first `n` points of a quote one after the other is writing
/// its first `n` fields.
pub proof fn lemma_points_write_fields<V>(
    store: Store<V>,
    namespace: Seq<char>,
    instrument: Seq<char>,
    quote: Quote<V>,
    n: nat,
)
    requires
        n <= FIELD_COUNT,
    ensures
        store.upsert_all(points_of(namespace, instrument, quote).take(n as int))
            == store.write_fields(namespace, instrument, quote, n),
    decreases n,
{
    let points = points_of(namespace, instrument, quote);
    if n > 0 {
        lemma_points_write_fields(store, namespace, instrument, quote, (n - 1) as nat);
        assert(points.take(n as int).drop_last() =~= points.take(n - 1));
        assert(points.take(n as int).last() == point_of(
            namespace,
            instrument,
            quote,
            field_at(n - 1),
        ));
    }
}

/// Writing the five points of a quote one after the other is writing the
/// quote.
pub proof fn lemma_points_write_quote<V>(
    store: Store<V>,
    namespace: Seq<char>,
    instrument: Seq<char>,
    quote: Quote<V>,
)
    ensures
        store.upsert_all(points_of(namespace, instrument, quote)) == store.write_quote(
            namespace,
            instrument,
            quote,
        ),
{
    let points = points_of(namespace, instrument, quote);
    lemma_points_write_fields(store, namespace, instrument, quote, FIELD_COUNT as nat);
    assert(points.take(FIELD_COUNT as int) =~= points);
}

/// Writing two runs of points one after the other is writing them as one.
pub proof fn lemma_upsert_all_concat<V>(
    store: Store<V>,
    first: Seq<PointView<V>>,
    second: Seq<PointView<V>>,
)
    ensures
        store.upsert_all(first + second) == store.upsert_all(first).upsert_all(second),
    decreases second.len(),
{
    if second.len() > 0 {
        lemma_upsert_all_concat(store, first, second.drop_last());
        assert((first + second).drop_last() =~= first + second.drop_last());
    }
}

/// Writing the points of a run of quotes one after the other, five to each
/// quote whose day can be written in milliseconds, is writing those quotes
/// one after the other.
pub proof fn lemma_points_write_quotes<V>(
    store: Store<V>,
    namespace: Seq<char>,
    instrument: Seq<char>,
    quotes: Seq<Quote<V>>,
    j: nat,
)
    ensures
        store.upsert_all(points_from(namespace, instrument, quotes, j)) == store.write_quotes_from(
            namespace,
            instrument,
            quotes,
            j,
        ),
    decreases quotes.len() - j,
{
    if j < quotes.len() {
        if fits(quotes[j as int]) {
            let first = points_of(namespace, instrument, quotes[j as int]);
            let rest = points_from(namespace, instrument, quotes, j + 1);
            lemma_upsert_all_concat(store, first, rest);
            lemma_points_write_quote(store, namespace, instrument, quotes[j as int]);
            lemma_points_write_quotes(
                store.write_quote(namespace, instrument, quotes[j as int]),
                namespace,
                instrument,
                quotes,
                j + 1,
            );
        } else {
            lemma_points_write_quotes(store, namespace, instrument, quotes, j + 1);
        }
    }
}

/// Writing quotes of other days leaves what a series holds at a day as it
/// was.
pub proof fn lemma_other_days_keep<V>(
    store: Store<V>,
    namespace: Seq<char>,
    instrument: Seq<char>,
    quotes: Seq<Quote<V>>,
    j: nat,
    day: int,
    key: Seq<char>,
)
    requires
        forall|m: int| j <= m < quotes.len() ==> (#[trigger] quotes[m]).timestamp != day,
    ensures
        store.write_quotes_from(namespace, instrument, quotes, j).value_at(key, millis_of(day))
            == store.value_at(key, millis_of(day)),
    decreases quotes.len() - j,
{
    if j < quotes.len() {
        let quote = quotes[j as int];
        if fits(quote) {
            let written = store.write_quote(namespace, instrument, quote);
            lemma_write_fields_effect(store, namespace, instrument, quote, FIELD_COUNT as nat, key);
            if among_first_keys(namespace, instrument, FIELD_COUNT as nat, key) {
                let k = choose|k: int|
                    0 <= k < FIELD_COUNT && key == #[trigger] series_key_text(
                        namespace,
                        instrument,
                        field_at(k),
                    );
                assert(written.points(key) == store.points(key).insert(
                    millis_of(quote.timestamp as int),
                    quote.value(field_at(k)),
                ));
            }
            lemma_other_days_keep(written, namespace, instrument, quotes, j + 1, day, key);
        } else {
            lemma_other_days_keep(store, namespace, instrument, quotes, j + 1, day, key);
        }
    }
}

/// After a run of quotes was written, each of the five series holds, at a
/// day in milliseconds, the price of the last quote of that day: of the quote
/// at index `k`, when its day can be written in milliseconds and no quote
/// after it is of the same day.
pub proof fn lemma_last_quote_of_a_day_decides<V>(
    store: Store<V>,
    namespace: Seq<char>,
    instrument: Seq<char>,
    quotes: Seq<Quote<V>>,
    j: nat,
    k: int,
    field: Field,
)
    requires
        j <= k < quotes.len(),
        fits(quotes[k]),
        forall|m: int|
            k < m < quotes.len() ==> (#[trigger] quotes[m]).timestamp != quotes[k].timestamp,
    ensures
        store.write_quotes_from(namespace, instrument, quotes, j).value_at(
            series_key_text(namespace, instrument, field),
            millis_of(quotes[k].timestamp as int),
        ) == Some(quotes[k].value(field)),
    decreases k - j,
{
    if j < k {
        if fits(quotes[j as int]) {
            lemma_last_quote_of_a_day_decides(
                store.write_quote(namespace, instrument, quotes[j as int]),
                namespace,
                instrument,
                quotes,
                j + 1,
                k,
                field,
            );
        } else {
            lemma_last_quote_of_a_day_decides(store, namespace, instrument, quotes, j + 1, k, field);
        }
    } else {
        lemma_write_quote_reads_back(store, namespace, instrument, quotes[k], field);
        lemma_other_days_keep(
            store.write_quote(namespace, instrument, quotes[k]),
            namespace,
            instrument,
            quotes,
            (k + 1) as nat,
            quotes[k].timestamp as int,
            series_key_text(namespace, instrument, field),
        );
    }
}

/// The place of a field in write order.
pub open spec fn field_index(field: Field) -> int {
    match field {
        Field::Open => 0,
        Field::Close => 1,
        Field::High => 2,
        Field::Low => 3,
        Field::AdjClose => 4,
    }
}

/// Writing a quote leaves every series but its own five as it was.
pub proof fn lemma_write_quote_frame<V>(
    store: Store<V>,
    namespace: Seq<char>,
    instrument: Seq<char>,
    quote: Quote<V>,
    key: Seq<char>,
)
    requires
        forall|field: Field| key != #[trigger] series_key_text(namespace, instrument, field),
    ensures
        store.write_quote(namespace, instrument, quote).points(key) == store.points(key),
        store.write_quote(namespace, instrument, quote).series.dom().contains(key)
            == store.series.dom().contains(key),
{
    lemma_write_fields_effect(store, namespace, instrument, quote, FIELD_COUNT as nat, key);
}

/// Of two quotes written for the same instrument and day only the later one
/// shows: the store is as if the earlier had not been written.
pub proof fn lemma_later_quote_wins<V>(
    store: Store<V>,
    namespace: Seq<char>,
    instrument: Seq<char>,
    earlier: Quote<V>,
    later: Quote<V>,
)
    requires
        earlier.timestamp == later.timestamp,
    ensures
        store.write_quote(namespace, instrument, earlier).write_quote(namespace, instrument, later)
            == store.write_quote(namespace, instrument, later),
{
    let n = FIELD_COUNT as nat;
    let once = store.write_quote(namespace, instrument, later);
    let first = store.write_quote(namespace, instrument, earlier);
    let twice = first.write_quote(namespace, instrument, later);
    assert forall|key: Seq<char>| #[trigger]
        twice.series.dom().contains(key) == once.series.dom().contains(key) && (
        twice.series.dom().contains(key) ==> twice.series[key] == once.series[key]) by {
        lemma_write_fields_effect(store, namespace, instrument, earlier, n, key);
        lemma_write_fields_effect(store, namespace, instrument, later, n, key);
        lemma_write_fields_effect(first, namespace, instrument, later, n, key);
    }
}

/// Writing the same quote twice leaves the store as writing it once: each of
/// the five series has one point at the quote's day, with the quote's price.
pub proof fn lemma_rewrite_is_idempotent<V>(
    store: Store<V>,
    namespace: Seq<char>,
    instrument: Seq<char>,
    quote: Quote<V>,
)
    ensures
        store.write_quote(namespace, instrument, quote).write_quote(namespace, instrument, quote)
            == store.write_quote(namespace, instrument, quote),
{
    lemma_later_quote_wins(store, namespace, instrument, quote, quote);
}

} // verus!
