//! Whole runs of the machine, and what holds of them whatever the outside
//! world answers.

use vstd::prelude::*;
use crate::naming::{series_key_text, Field, FIELD_COUNT};
use crate::model::{
    daily_interval, failure_reason, lemma_next_keeps_wf, lemma_write_from,
    lemma_write_from_any_phase, PhaseView, PipelineView,
};
use crate::protocol::{CommandView, EventView, ReportView};
use crate::quote::{
    fits, fitting_from, lemma_points_from_len, millis_of, points_from, points_of, PointView, Quote,
};
use crate::registry::{active_sorted, EntryView};
use crate::store::{lemma_last_quote_of_a_day_decides, lemma_points_write_quotes, Store};

verus! {

/// The state after the machine took `events` one after the other.
pub open spec fn run<V>(s: PipelineView<V>, events: Seq<EventView<V>>) -> PipelineView<V>
    decreases events.len(),
{
    if events.len() == 0 {
        s
    } else {
        run(s.next(events[0]).0, events.drop_first())
    }
}

/// The commands that the machine gave in answer to `events`, in order.
pub open spec fn commands<V>(s: PipelineView<V>, events: Seq<EventView<V>>) -> Seq<CommandView<V>>
    decreases events.len(),
{
    if events.len() == 0 {
        Seq::empty()
    } else {
        seq![s.next(events[0]).1.command] + commands(s.next(events[0]).0, events.drop_first())
    }
}

/// The instruments whose quotes `commands` ask for, in order.
pub open spec fn fetches<V>(commands: Seq<CommandView<V>>) -> Seq<Seq<char>>
    decreases commands.len(),
{
    if commands.len() == 0 {
        Seq::empty()
    } else {
        match commands[0] {
            CommandView::Fetch { instrument, .. } => seq![instrument] + fetches(
                commands.drop_first(),
            ),
            _ => fetches(commands.drop_first()),
        }
    }
}

/// The index of the first instrument whose quotes were not asked for yet.
pub open spec fn next_instrument<V>(s: PipelineView<V>) -> nat {
    match s.phase {
        PhaseView::Fetching { instrument } => instrument + 1,
        PhaseView::Writing { instrument, .. } => instrument + 1,
        PhaseView::Done => s.instruments.len(),
        _ => 0,
    }
}

/// How far a run has come: the stage, then the index of the record or the
/// instrument at hand, then the quotes and the fields done with.
pub open spec fn progress<V>(s: PipelineView<V>) -> (nat, nat, nat, nat) {
    match s.phase {
        PhaseView::Idle => (0, 0, 0, 0),
        PhaseView::ListingKeys => (1, 0, 0, 0),
        PhaseView::ReadingStatus => (2, s.entries.len(), 0, 0),
        PhaseView::Fetching { instrument } => (3, instrument, 0, 0),
        PhaseView::Writing { instrument, quote, field } => (3, instrument, quote + 1, field),
        PhaseView::Done => (4, 0, 0, 0),
        PhaseView::Aborted => (4, 0, 0, 0),
    }
}

/// Whether `a` comes before `b`, comparing place by place from the left.
pub open spec fn earlier(a: (nat, nat, nat, nat), b: (nat, nat, nat, nat)) -> bool {
    a.0 < b.0 || (a.0 == b.0 && (a.1 < b.1 || (a.1 == b.1 && (a.2 < b.2 || (a.2 == b.2 && a.3
        < b.3)))))
}

/// While the instruments are worked through, every answer leaves the run at
/// a later point of its instrument, or turns it to the next instrument, or
/// ends it; the instruments stay as they are.
pub proof fn lemma_work_goes_on<V>(s: PipelineView<V>, event: EventView<V>)
    requires
        s.wf(),
        s.phase is Fetching || s.phase is Writing,
    ensures
        ({
            let i = (next_instrument(s) - 1) as nat;
            let (t, step) = s.next(event);
            &&& t.wf()
            &&& t.scheme == s.scheme
            &&& t.period == s.period
            &&& t.keys == s.keys
            &&& t.entries == s.entries
            &&& t.instruments == s.instruments
            &&& match t.phase {
                PhaseView::Writing { instrument, quote, field } => {
                    &&& instrument == i
                    &&& step.command is Upsert
                    &&& earlier(progress(s), progress(t))
                },
                PhaseView::Fetching { instrument } => {
                    &&& instrument == i + 1
                    &&& step.command == (CommandView::<V>::Fetch {
                        instrument: s.instruments[i as int + 1],
                        interval: daily_interval(),
                        period: s.period,
                    })
                },
                PhaseView::Done => i + 1 == s.instruments.len() && step.command is Finish,
                _ => false,
            }
        }),
{
    match s.phase {
        PhaseView::Fetching { instrument } => {
            if let EventView::Quotes(quotes) = event {
                lemma_write_from(PipelineView { quotes, ..s }, instrument, 0, Seq::empty());
            }
        },
        PhaseView::Writing { instrument, quote, field } => {
            lemma_write_from(s, instrument, quote + 1, Seq::empty());
            lemma_write_from(
                s,
                instrument,
                quote + 1,
                seq![
                    ReportView::WriteFailed {
                        instrument: s.instruments[instrument as int],
                        key: s.point(instrument, quote, field).key,
                        timestamp: s.point(instrument, quote, field).timestamp,
                        reason: failure_reason(event),
                    },
                ],
            );
        },
        _ => {},
    }
}

/// Every answer moves a run forward until it has ended: no record is read
/// twice, no instrument asked for twice, no point handed out twice.
pub proof fn lemma_every_step_advances<V>(s: PipelineView<V>, event: EventView<V>)
    requires
        s.wf(),
        !(s.phase is Done),
        !(s.phase is Aborted),
    ensures
        earlier(progress(s), progress(s.next(event).0)),
{
    if s.phase is Fetching || s.phase is Writing {
        lemma_work_goes_on(s, event);
    }
}

/// Whether the registry is behind the run: the instruments are known and
/// being worked through, or all were.
pub open spec fn past_registry(phase: PhaseView) -> bool {
    phase is Fetching || phase is Writing || phase is Done
}

/// Every run leads from a state that a run can reach to another.
pub proof fn lemma_run_keeps_wf<V>(s: PipelineView<V>, events: Seq<EventView<V>>)
    requires
        s.wf(),
    ensures
        run(s, events).wf(),
    decreases events.len(),
{
    if events.len() > 0 {
        lemma_next_keeps_wf(s, events[0]);
        lemma_run_keeps_wf(s.next(events[0]).0, events.drop_first());
    }
}

/// A run that ended for want of the registry stays ended.
pub proof fn lemma_aborted_stays<V>(s: PipelineView<V>, events: Seq<EventView<V>>)
    requires
        s.phase is Aborted,
    ensures
        run(s, events) == s,
    decreases events.len(),
{
    if events.len() > 0 {
        lemma_aborted_stays(s.next(events[0]).0, events.drop_first());
    }
}

/// Once the registry is read, a run keeps its instruments, whatever happens.
pub proof fn lemma_instruments_stay<V>(s: PipelineView<V>, events: Seq<EventView<V>>)
    requires
        s.wf(),
        past_registry(s.phase),
    ensures
        past_registry(run(s, events).phase),
        run(s, events).instruments == s.instruments,
        run(s, events).entries == s.entries,
        run(s, events).scheme == s.scheme,
    decreases events.len(),
{
    if events.len() > 0 {
        lemma_next_keeps_wf(s, events[0]);
        if !(s.phase is Done) {
            lemma_work_goes_on(s, events[0]);
        }
        lemma_instruments_stay(s.next(events[0]).0, events.drop_first());
    }
}

/// The answers that hand over `statuses`, one after the other.
pub open spec fn status_events<V>(statuses: Seq<Seq<char>>) -> Seq<EventView<V>> {
    Seq::new(statuses.len(), |k: int| EventView::Status(statuses[k]))
}

/// The records that pair each key with the status read for it.
pub open spec fn records(keys: Seq<Seq<char>>, statuses: Seq<Seq<char>>) -> Seq<EntryView> {
    Seq::new(statuses.len(), |k: int| EntryView { key: keys[k], status: statuses[k] })
}

/// While statuses come in, each is recorded with the key it was asked for, in
/// the order of the keys; with the last of them the instruments are known.
pub proof fn lemma_statuses_are_recorded<V>(s: PipelineView<V>, statuses: Seq<Seq<char>>)
    requires
        s.wf(),
        s.phase is ReadingStatus,
        s.entries.len() + statuses.len() <= s.keys.len(),
    ensures
        ({
            let t = run(s, status_events(statuses));
            &&& t.keys == s.keys
            &&& t.entries == s.entries + records(s.keys.skip(s.entries.len() as int), statuses)
            &&& if t.entries.len() < s.keys.len() {
                t.phase is ReadingStatus
            } else {
                past_registry(t.phase) && t.instruments == active_sorted(t.entries)
            }
        }),
    decreases statuses.len(),
{
    let events = status_events::<V>(statuses);
    let asked = s.keys.skip(s.entries.len() as int);
    if statuses.len() > 0 {
        let t = s.next(events[0]).0;
        let rest = statuses.drop_first();
        lemma_next_keeps_wf(s, events[0]);
        assert(events.drop_first() =~= status_events::<V>(rest));
        if t.phase is ReadingStatus {
            lemma_statuses_are_recorded(t, rest);
            assert(run(s, events).entries =~= s.entries + records(asked, statuses)) by {
                let later = t.keys.skip(t.entries.len() as int);
                assert forall|k: int| 0 <= k < rest.len() implies records(later, rest)[k] == records(
                    asked,
                    statuses,
                )[k + 1] by {}
            }
        } else {
            lemma_instruments_stay(t, status_events::<V>(rest));
        }
    }
}

/// Once the keys are listed and a status is read for each, the run knows its
/// instruments: the set of those that a record marks active, ascending.
pub proof fn lemma_registry_is_read<V>(
    start: PipelineView<V>,
    first: EventView<V>,
    keys: Seq<Seq<char>>,
    statuses: Seq<Seq<char>>,
)
    requires
        start.phase is Idle,
        statuses.len() == keys.len(),
    ensures
        ({
            let events = seq![first, EventView::Keys(keys)] + status_events(statuses);
            let t = run(start, events);
            &&& past_registry(t.phase)
            &&& t.entries == records(keys, statuses)
            &&& t.instruments == active_sorted(records(keys, statuses))
        }),
{
    let head = seq![first, EventView::<V>::Keys(keys)];
    let listing = start.next(first).0;
    let read = listing.next(EventView::Keys(keys)).0;
    assert(run(start, head) == read) by {
        let tail = head.drop_first();
        assert(run(listing, tail) == run(read, tail.drop_first()));
    }
    lemma_run_concat(start, head, status_events(statuses));
    lemma_next_keeps_wf(start, first);
    lemma_next_keeps_wf(listing, EventView::Keys(keys));
    if keys.len() > 0 {
        lemma_statuses_are_recorded(read, statuses);
    }
}

/// A failed fetch costs one instrument and nothing more: the run reports the
/// failure, writes nothing, and turns to the next instrument, or finishes
/// when there is none.
pub proof fn lemma_failed_fetch_moves_on<V>(s: PipelineView<V>, event: EventView<V>)
    requires
        s.wf(),
        s.phase is Fetching,
        !(event is Quotes),
    ensures
        ({
            let i = s.phase->Fetching_instrument;
            let (t, step) = s.next(event);
            &&& t.instruments == s.instruments
            &&& step.reports[0] == (ReportView::FetchFailed {
                instrument: s.instruments[i as int],
                reason: failure_reason(event),
            })
            &&& if i + 1 < s.instruments.len() {
                &&& t.phase == (PhaseView::Fetching { instrument: i + 1 })
                &&& step.command == (CommandView::<V>::Fetch {
                    instrument: s.instruments[i as int + 1],
                    interval: daily_interval(),
                    period: s.period,
                })
            } else {
                &&& t.phase is Done
                &&& step.command is Finish
            }
        }),
{
}

/// Whatever the provider and the store answer, a run that completes has asked
/// for the quotes of every instrument that was still to come, once each and
/// in ascending order: no failure for one instrument keeps the run from
/// another.
pub proof fn lemma_every_instrument_is_fetched<V>(s: PipelineView<V>, events: Seq<EventView<V>>)
    requires
        s.wf(),
        run(s, events).phase is Done,
    ensures
        fetches(commands(s, events)) == run(s, events).instruments.skip(next_instrument(s) as int),
        run(s, events).instruments == active_sorted(run(s, events).entries),
    decreases events.len(),
{
    let end = run(s, events);
    if events.len() > 0 {
        let event = events[0];
        let rest = events.drop_first();
        let (t, step) = s.next(event);
        lemma_next_keeps_wf(s, event);
        if t.phase is Aborted {
            lemma_aborted_stays(t, rest);
        }
        if s.phase is Fetching || s.phase is Writing {
            lemma_work_goes_on(s, event);
        }
        lemma_every_instrument_is_fetched(t, rest);
        let given = commands(s, events);
        assert(given.drop_first() =~= commands(t, rest));
        if past_registry(t.phase) {
            lemma_instruments_stay(t, rest);
        }
        if step.command is Fetch {
            let i = next_instrument(s) as int;
            assert(end.instruments.skip(i) =~= seq![end.instruments[i]] + end.instruments.skip(
                i + 1,
            ));
        }
    }
}

/// The points that `commands` hand out for writing, in order.
pub open spec fn upserts<V>(commands: Seq<CommandView<V>>) -> Seq<PointView<V>>
    decreases commands.len(),
{
    if commands.len() == 0 {
        Seq::empty()
    } else {
        match commands[0] {
            CommandView::Upsert { point, .. } => seq![point] + upserts(commands.drop_first()),
            _ => upserts(commands.drop_first()),
        }
    }
}

/// `n` successful writes in a row.
pub open spec fn written<V>(n: nat) -> Seq<EventView<V>> {
    Seq::new(n, |k: int| EventView::Written)
}

/// While the writes of a quote succeed, the machine hands out the quote's
/// points one after the other, in write order.
pub proof fn lemma_writes_follow<V>(s: PipelineView<V>, n: nat)
    requires
        s.phase is Writing,
        s.phase->Writing_field + n < FIELD_COUNT,
    ensures
        ({
            let i = s.phase->Writing_instrument;
            let j = s.phase->Writing_quote;
            let f = s.phase->Writing_field;
            &&& run(s, written(n)) == (PipelineView {
                phase: PhaseView::Writing { instrument: i, quote: j, field: f + n },
                ..s
            })
            &&& upserts(commands(s, written(n))) == Seq::new(
                n,
                |k: int| s.point(i, j, (f + 1 + k) as nat),
            )
        }),
    decreases n,
{
    let i = s.phase->Writing_instrument;
    let j = s.phase->Writing_quote;
    let f = s.phase->Writing_field;
    let events = written::<V>(n);
    if n == 0 {
        assert(run(s, events) =~= PipelineView {
            phase: PhaseView::Writing { instrument: i, quote: j, field: f },
            ..s
        });
        assert(upserts(commands(s, events)) =~= Seq::new(
            n,
            |k: int| s.point(i, j, (f + 1 + k) as nat),
        ));
    } else {
        let (t, step) = s.next(events[0]);
        assert(events.drop_first() =~= written::<V>((n - 1) as nat));
        lemma_writes_follow(t, (n - 1) as nat);
        let given = commands(s, events);
        assert(given.drop_first() =~= commands(t, written::<V>((n - 1) as nat)));
        assert(run(s, events) =~= PipelineView {
            phase: PhaseView::Writing { instrument: i, quote: j, field: f + n },
            ..s
        });
    }
}

/// A quote whose day can be written in milliseconds and whose writes all
/// succeed is written in full: the machine hands out its five points in
/// write order, and after the fifth it turns to the quotes that follow.
pub proof fn lemma_quote_is_written_in_full<V>(
    s: PipelineView<V>,
    i: nat,
    j: nat,
    reports: Seq<ReportView>,
)
    requires
        j < s.quotes.len(),
        fits(s.quotes[j as int]),
    ensures
        ({
            let (t, step) = s.write_from(i, j, reports);
            let last = run(t, written((FIELD_COUNT - 1) as nat));
            &&& upserts(seq![step.command] + commands(t, written((FIELD_COUNT - 1) as nat)))
                == points_of(s.scheme.series_namespace, s.instruments[i as int], s.quotes[j as int])
            &&& last.next(EventView::Written) == s.write_from(i, j + 1, Seq::empty())
        }),
{
    let (t, step) = s.write_from(i, j, reports);
    let n = (FIELD_COUNT - 1) as nat;
    lemma_writes_follow(t, n);
    lemma_write_from_any_phase(
        s,
        PhaseView::Writing { instrument: i, quote: j, field: n },
        i,
        j + 1,
        Seq::empty(),
    );
    let given = seq![step.command] + commands(t, written(n));
    assert(given.drop_first() =~= commands(t, written(n)));
    assert(upserts(given) =~= points_of(
        s.scheme.series_namespace,
        s.instruments[i as int],
        s.quotes[j as int],
    ));
}

/// A failed write costs the rest of its quote and nothing more: the run
/// reports the failure, hands out no further point of that quote, and turns
/// to the quotes that follow, or to the next instrument when none of them
/// can be written.
pub proof fn lemma_failed_write_moves_on<V>(s: PipelineView<V>, event: EventView<V>)
    requires
        s.wf(),
        s.phase is Writing,
        !(event is Written),
    ensures
        ({
            let i = s.phase->Writing_instrument;
            let j = s.phase->Writing_quote;
            let f = s.phase->Writing_field;
            let failed = ReportView::WriteFailed {
                instrument: s.instruments[i as int],
                key: s.point(i, j, f).key,
                timestamp: s.point(i, j, f).timestamp,
                reason: failure_reason(event),
            };
            let (t, step) = s.next(event);
            &&& s.next(event) == s.write_from(i, j + 1, seq![failed])
            &&& t.instruments == s.instruments
            &&& step.reports[0] == failed
            &&& match t.phase {
                PhaseView::Writing { instrument, quote, field } => {
                    &&& instrument == i
                    &&& j < quote
                    &&& field == 0
                    &&& step.command == s.upsert(i, quote, 0)
                },
                PhaseView::Fetching { instrument } => instrument == i + 1 && step.command is Fetch,
                PhaseView::Done => step.command is Finish,
                _ => false,
            }
        }),
{
    let i = s.phase->Writing_instrument;
    let j = s.phase->Writing_quote;
    let f = s.phase->Writing_field;
    let failed = ReportView::WriteFailed {
        instrument: s.instruments[i as int],
        key: s.point(i, j, f).key,
        timestamp: s.point(i, j, f).timestamp,
        reason: failure_reason(event),
    };
    lemma_write_from(s, i, j + 1, seq![failed]);
    assert(seq![failed][0] == failed);
}

/// A quote whose day cannot be written in milliseconds costs that quote and
/// nothing more: the run reports it, hands out no point of it, and goes on
/// with the quotes that follow as if it had not come.
pub proof fn lemma_unfit_quote_is_passed_over<V>(
    s: PipelineView<V>,
    i: nat,
    j: nat,
    reports: Seq<ReportView>,
)
    requires
        j < s.quotes.len(),
        !fits(s.quotes[j as int]),
    ensures
        s.write_from(i, j, reports) == s.write_from(
            i,
            j + 1,
            reports.push(
                ReportView::DayOutOfRange {
                    instrument: s.instruments[i as int],
                    day: s.quotes[j as int].timestamp as nat,
                },
            ),
        ),
{
}

/// Taking two runs of events one after the other is taking them as one.
pub proof fn lemma_run_concat<V>(
    s: PipelineView<V>,
    first: Seq<EventView<V>>,
    second: Seq<EventView<V>>,
)
    ensures
        run(s, first + second) == run(run(s, first), second),
        commands(s, first + second) == commands(s, first) + commands(run(s, first), second),
    decreases first.len(),
{
    if first.len() > 0 {
        let t = s.next(first[0]).0;
        assert((first + second).drop_first() =~= first.drop_first() + second);
        lemma_run_concat(t, first.drop_first(), second);
        assert(commands(s, first + second) =~= commands(s, first) + commands(
            run(s, first),
            second,
        ));
    }
}

/// The points of two runs of commands are those of the first, then those of
/// the second.
pub proof fn lemma_upserts_concat<V>(first: Seq<CommandView<V>>, second: Seq<CommandView<V>>)
    ensures
        upserts(first + second) == upserts(first) + upserts(second),
    decreases first.len(),
{
    if first.len() > 0 {
        assert((first + second).drop_first() =~= first.drop_first() + second);
        lemma_upserts_concat(first.drop_first(), second);
    }
}

/// While every write succeeds, the quotes of an instrument from index `j` on
/// whose day can be written in milliseconds are written in full and in order,
/// and then the run turns to the next instrument.
pub proof fn lemma_quotes_are_written_from<V>(
    s: PipelineView<V>,
    i: nat,
    j: nat,
    reports: Seq<ReportView>,
)
    ensures
        ({
            let (t, step) = s.write_from(i, j, reports);
            let events = written::<V>((FIELD_COUNT * fitting_from(s.quotes, j)) as nat);
            &&& upserts(seq![step.command] + commands(t, events)) == points_from(
                s.scheme.series_namespace,
                s.instruments[i as int],
                s.quotes,
                j,
            )
            &&& run(t, events) == s.fetch_from(i + 1, Seq::empty()).0
        }),
    decreases s.quotes.len() - j,
{
    let (t, step) = s.write_from(i, j, reports);
    let events = written::<V>((FIELD_COUNT * fitting_from(s.quotes, j)) as nat);
    let all = seq![step.command] + commands(t, events);
    if j >= s.quotes.len() {
        assert(upserts(all.drop_first()) =~= Seq::empty());
    } else if !fits(s.quotes[j as int]) {
        lemma_quotes_are_written_from(
            s,
            i,
            j + 1,
            reports.push(
                ReportView::DayOutOfRange {
                    instrument: s.instruments[i as int],
                    day: s.quotes[j as int].timestamp as nat,
                },
            ),
        );
    } else {
        let four = written::<V>((FIELD_COUNT - 1) as nat);
        let one = written::<V>(1);
        let rest = written::<V>((FIELD_COUNT * fitting_from(s.quotes, j + 1)) as nat);
        assert(events =~= four + (one + rest));
        lemma_quote_is_written_in_full(s, i, j, reports);
        lemma_quotes_are_written_from(s, i, j + 1, Seq::empty());
        let (t2, step2) = s.write_from(i, j + 1, Seq::empty());
        lemma_run_concat(t, four, one + rest);
        assert((one + rest).drop_first() =~= rest);
        assert(all =~= (seq![step.command] + commands(t, four)) + (seq![step2.command] + commands(
            t2,
            rest,
        )));
        lemma_upserts_concat(
            seq![step.command] + commands(t, four),
            seq![step2.command] + commands(t2, rest),
        );
    }
}

/// The answers to a fetch that brought `quotes` when every write succeeds:
/// the quotes, then one success for each point.
pub open spec fn fetched_and_written<V>(quotes: Seq<Quote<V>>) -> Seq<EventView<V>> {
    seq![EventView::Quotes(quotes)] + written::<V>((FIELD_COUNT * fitting_from(quotes, 0)) as nat)
}

/// When the provider answers with quotes and every write succeeds, the points
/// handed out are exactly those of the quotes whose day can be written in
/// milliseconds, five to each, quote by quote in the provider's order; then
/// the run turns to the next instrument.
pub proof fn lemma_fetched_quotes_are_written<V>(s: PipelineView<V>, quotes: Seq<Quote<V>>)
    requires
        s.phase is Fetching,
    ensures
        ({
            let i = s.phase->Fetching_instrument;
            let events = fetched_and_written(quotes);
            &&& upserts(commands(s, events)) == points_from(
                s.scheme.series_namespace,
                s.instruments[i as int],
                quotes,
                0,
            )
            &&& upserts(commands(s, events)).len() == FIELD_COUNT * fitting_from(quotes, 0)
            &&& run(s, events) == s.fetch_from(i + 1, Seq::empty()).0
        }),
{
    let i = s.phase->Fetching_instrument;
    let writes = written::<V>((FIELD_COUNT * fitting_from(quotes, 0)) as nat);
    let events = fetched_and_written(quotes);
    let loaded = PipelineView { quotes, ..s };
    assert(events.drop_first() =~= writes);
    lemma_quotes_are_written_from(loaded, i, 0, Seq::empty());
    lemma_points_from_len(s.scheme.series_namespace, s.instruments[i as int], quotes, 0);
}

/// When the provider answers with quotes and every write succeeds, a store
/// that takes the points handed out ends as if the quotes whose day can be
/// written in milliseconds had been written to it one after the other, in the
/// provider's order.
pub proof fn lemma_fetched_quotes_reach_the_store<V>(
    s: PipelineView<V>,
    quotes: Seq<Quote<V>>,
    store: Store<V>,
)
    requires
        s.phase is Fetching,
    ensures
        store.upsert_all(upserts(commands(s, fetched_and_written(quotes))))
            == store.write_quotes_from(
            s.scheme.series_namespace,
            s.instruments[s.phase->Fetching_instrument as int],
            quotes,
            0,
        ),
{
    let i = s.phase->Fetching_instrument;
    lemma_fetched_quotes_are_written(s, quotes);
    lemma_points_write_quotes(store, s.scheme.series_namespace, s.instruments[i as int], quotes, 0);
}

/// When the provider answers with quotes and every write succeeds, a store
/// that takes the points handed out holds, in each of the instrument's five
/// series and at each day in milliseconds, the price of the last quote of
/// that day, whatever else the answer held: of the quote at index `k`, when
/// its day can be written in milliseconds and no quote after it is of the
/// same day.
pub proof fn lemma_last_quote_of_a_day_is_stored<V>(
    s: PipelineView<V>,
    quotes: Seq<Quote<V>>,
    store: Store<V>,
    k: int,
    field: Field,
)
    requires
        s.phase is Fetching,
        0 <= k < quotes.len(),
        fits(quotes[k]),
        forall|m: int|
            k < m < quotes.len() ==> (#[trigger] quotes[m]).timestamp != quotes[k].timestamp,
    ensures
        store.upsert_all(upserts(commands(s, fetched_and_written(quotes)))).value_at(
            series_key_text(
                s.scheme.series_namespace,
                s.instruments[s.phase->Fetching_instrument as int],
                field,
            ),
            millis_of(quotes[k].timestamp as int),
        ) == Some(quotes[k].value(field)),
{
    let i = s.phase->Fetching_instrument;
    lemma_fetched_quotes_reach_the_store(s, quotes, store);
    lemma_last_quote_of_a_day_decides(
        store,
        s.scheme.series_namespace,
        s.instruments[i as int],
        quotes,
        0,
        k,
        field,
    );
}

/// A run from the start that completes has asked for the quotes of exactly
/// the active instruments, once each and in ascending order.
pub proof fn lemma_complete_run_fetches_active<V>(
    start: PipelineView<V>,
    events: Seq<EventView<V>>,
)
    requires
        start.phase is Idle,
        run(start, events).phase is Done,
    ensures
        fetches(commands(start, events)) == active_sorted(run(start, events).entries),
{
    lemma_every_instrument_is_fetched(start, events);
}

/// Whatever the provider and the store answer: once the keys are listed and
/// a status is read for each, a run that completes has asked for the quotes
/// of exactly the instruments that a record marks active, once each and in
/// ascending order.
pub proof fn lemma_run_fetches_what_the_registry_marks<V>(
    start: PipelineView<V>,
    first: EventView<V>,
    keys: Seq<Seq<char>>,
    statuses: Seq<Seq<char>>,
    answers: Seq<EventView<V>>,
)
    requires
        start.phase is Idle,
        statuses.len() == keys.len(),
        run(
            start,
            seq![first, EventView::Keys(keys)] + status_events(statuses) + answers,
        ).phase is Done,
    ensures
        fetches(
            commands(start, seq![first, EventView::Keys(keys)] + status_events(statuses) + answers),
        ) == active_sorted(records(keys, statuses)),
{
    let registry = seq![first, EventView::<V>::Keys(keys)] + status_events(statuses);
    lemma_registry_is_read(start, first, keys, statuses);
    lemma_run_concat(start, registry, answers);
    lemma_next_keeps_wf(start, first);
    lemma_run_keeps_wf(start, registry);
    lemma_instruments_stay(run(start, registry), answers);
    lemma_complete_run_fetches_active(start, registry + answers);
}

} // verus!
