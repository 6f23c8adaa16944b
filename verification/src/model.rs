//! The ingestion run as a state machine, in the terms of the contracts.
//!
//! Every answer moves the run on: a failed fetch to the next instrument, a
//! failed write to the next quote. The machine never retries.

use vstd::prelude::*;
use crate::naming::{field_at, metadata_pattern_text, KeySchemeView, FIELD_COUNT};
use crate::protocol::{CommandView, DuplicatePolicy, EventView, ReportView, StepView};
use crate::quote::{fits, point_of, PointView, Quote};
use crate::registry::{active_sorted, EntryView};

verus! {

/// Where a run stands.
#[derive(Clone, Copy, Debug, PartialEq, Eq, Structural)]
pub enum Phase {
    /// Not begun.
    Idle,
    /// Listing the active instruments: the metadata keys were asked for.
    ListingKeys,
    /// Listing the active instruments: the status of one key was asked for.
    ReadingStatus,
    /// The quotes of the instrument at this index were asked for.
    Fetching { instrument: usize },
    /// A point of the instrument at this index was handed out: that of the
    /// field at this index in write order, of the quote at this index.
    Writing { instrument: usize, quote: usize, field: usize },
    /// Every instrument was worked through.
    Done,
    /// The registry could not be read.
    Aborted,
}

/// A [`Phase`] with unbounded indices.
pub enum PhaseView {
    Idle,
    ListingKeys,
    ReadingStatus,
    Fetching { instrument: nat },
    Writing { instrument: nat, quote: nat, field: nat },
    Done,
    Aborted,
}

impl View for Phase {
    type V = PhaseView;

    open spec fn view(&self) -> PhaseView {
        match self {
            Phase::Idle => PhaseView::Idle,
            Phase::ListingKeys => PhaseView::ListingKeys,
            Phase::ReadingStatus => PhaseView::ReadingStatus,
            Phase::Fetching { instrument } => PhaseView::Fetching { instrument: *instrument as nat },
            Phase::Writing { instrument, quote, field } => PhaseView::Writing {
                instrument: *instrument as nat,
                quote: *quote as nat,
                field: *field as nat,
            },
            Phase::Done => PhaseView::Done,
            Phase::Aborted => PhaseView::Aborted,
        }
    }
}

/// The state of a run, as the contracts see it.
#[verifier::ext_equal]
pub struct PipelineView<V> {
    pub scheme: KeySchemeView,
    /// How far back to ask the provider for quotes.
    pub period: Seq<char>,
    pub phase: PhaseView,
    /// The metadata keys that were listed.
    pub keys: Seq<Seq<char>>,
    /// The metadata records read so far, in the order of `keys`.
    pub entries: Seq<EntryView>,
    /// The active instruments, ascending, once the registry is read.
    pub instruments: Seq<Seq<char>>,
    /// The quotes of the instrument at hand.
    pub quotes: Seq<Quote<V>>,
}

/// The interval at which quotes are asked for: one per day.
pub open spec fn daily_interval() -> Seq<char> {
    "1d"@
}

/// Why a command counts as failed: the reason that came with the failure, or
/// that the answer was not the one awaited.
pub open spec fn failure_reason<V>(event: EventView<V>) -> Seq<char> {
    match event {
        EventView::Failed(reason) => reason,
        _ => "unexpected answer"@,
    }
}

impl<V> PipelineView<V> {
    /// The state before a run.
    pub open spec fn initial(scheme: KeySchemeView, period: Seq<char>) -> PipelineView<V> {
        PipelineView {
            scheme,
            period,
            phase: PhaseView::Idle,
            keys: Seq::empty(),
            entries: Seq::empty(),
            instruments: Seq::empty(),
            quotes: Seq::empty(),
        }
    }

    /// Whether the registry was read to its end.
    pub open spec fn registry_read(self) -> bool {
        &&& self.entries.len() == self.keys.len()
        &&& forall|k: int| 0 <= k < self.entries.len() ==> (#[trigger] self.entries[k]).key == self.keys[k]
        &&& self.instruments == active_sorted(self.entries)
    }

    /// What holds of every state that a run can reach.
    pub open spec fn wf(self) -> bool {
        match self.phase {
            PhaseView::Idle => true,
            PhaseView::ListingKeys => true,
            PhaseView::ReadingStatus => {
                &&& self.entries.len() < self.keys.len()
                &&& forall|k: int|
                    0 <= k < self.entries.len() ==> (#[trigger] self.entries[k]).key == self.keys[k]
            },
            PhaseView::Fetching { instrument } => {
                &&& self.registry_read()
                &&& instrument < self.instruments.len()
            },
            PhaseView::Writing { instrument, quote, field } => {
                &&& self.registry_read()
                &&& instrument < self.instruments.len()
                &&& quote < self.quotes.len()
                &&& field < FIELD_COUNT
                &&& fits(self.quotes[quote as int])
            },
            PhaseView::Done => self.registry_read(),
            PhaseView::Aborted => true,
        }
    }

    /// The registry cannot be read: the run ends, and says why.
    pub open spec fn abort(self, event: EventView<V>) -> (PipelineView<V>, StepView<V>) {
        (
            PipelineView { phase: PhaseView::Aborted, ..self },
            StepView {
                reports: seq![ReportView::RegistryFailed { reason: failure_reason(event) }],
                command: CommandView::Abort,
            },
        )
    }

    /// Go on with the registry: read the status of the next key, or, when
    /// every key was read, sort the active instruments and turn to the first.
    pub open spec fn read_on(self) -> (PipelineView<V>, StepView<V>) {
        if self.entries.len() < self.keys.len() {
            (
                PipelineView { phase: PhaseView::ReadingStatus, ..self },
                StepView {
                    reports: Seq::empty(),
                    command: CommandView::ReadStatus {
                        key: self.keys[self.entries.len() as int],
                        attribute: self.scheme.active_attribute,
                    },
                },
            )
        } else {
            PipelineView { instruments: active_sorted(self.entries), ..self }.fetch_from(
                0,
                Seq::empty(),
            )
        }
    }

    /// Turn to the instrument at index `i`: announce it and ask for its
    /// quotes; or finish when there is none.
    pub open spec fn fetch_from(self, i: nat, reports: Seq<ReportView>) -> (
        PipelineView<V>,
        StepView<V>,
    ) {
        if i < self.instruments.len() {
            (
                PipelineView {
                    phase: PhaseView::Fetching { instrument: i },
                    quotes: Seq::empty(),
                    ..self
                },
                StepView {
                    reports: reports.push(
                        ReportView::Progress {
                            index: i,
                            total: self.instruments.len(),
                            instrument: self.instruments[i as int],
                        },
                    ),
                    command: CommandView::Fetch {
                        instrument: self.instruments[i as int],
                        interval: daily_interval(),
                        period: self.period,
                    },
                },
            )
        } else {
            (
                PipelineView { phase: PhaseView::Done, quotes: Seq::empty(), ..self },
                StepView { reports, command: CommandView::Finish },
            )
        }
    }

    /// Turn to the quotes from index `j` on of the instrument at index `i`:
    /// hand out the first point of the first of them whose day can be written
    /// in milliseconds, giving up, with a report, each quote before it whose
    /// day cannot; or turn to the next instrument when no such quote is left.
    pub open spec fn write_from(self, i: nat, j: nat, reports: Seq<ReportView>) -> (
        PipelineView<V>,
        StepView<V>,
    )
        decreases self.quotes.len() - j,
    {
        if j >= self.quotes.len() {
            self.fetch_from(i + 1, reports)
        } else if fits(self.quotes[j as int]) {
            (
                PipelineView { phase: PhaseView::Writing { instrument: i, quote: j, field: 0 }, ..self },
                StepView { reports, command: self.upsert(i, j, 0) },
            )
        } else {
            self.write_from(
                i,
                j + 1,
                reports.push(
                    ReportView::DayOutOfRange {
                        instrument: self.instruments[i as int],
                        day: self.quotes[j as int].timestamp as nat,
                    },
                ),
            )
        }
    }

    /// The point of the field at index `f` of the quote at index `j` of the
    /// instrument at index `i`.
    pub open spec fn point(self, i: nat, j: nat, f: nat) -> PointView<V> {
        point_of(
            self.scheme.series_namespace,
            self.instruments[i as int],
            self.quotes[j as int],
            field_at(f as int),
        )
    }

    /// The command that hands out that point. Every point is written so that
    /// the latest write to a time is the one that stays.
    pub open spec fn upsert(self, i: nat, j: nat, f: nat) -> CommandView<V> {
        CommandView::Upsert { point: self.point(i, j, f), policy: DuplicatePolicy::Last }
    }

    /// The state and the step that follow when `event` answers the last
    /// command.
    ///
    /// Any answer begins an idle run. While the registry is read, anything but
    /// the awaited answer ends the run. While quotes are awaited, anything but
    /// quotes skips the instrument. While a write is awaited, anything but its
    /// success gives up the rest of the quote. A quote whose day cannot be
    /// written in milliseconds is given up, and the quotes after it are still
    /// written. A run that ended stays as it is.
    pub open spec fn next(self, event: EventView<V>) -> (PipelineView<V>, StepView<V>) {
        match self.phase {
            PhaseView::Idle => (
                PipelineView { phase: PhaseView::ListingKeys, ..self },
                StepView {
                    reports: Seq::empty(),
                    command: CommandView::ListKeys {
                        pattern: metadata_pattern_text(self.scheme.metadata_namespace),
                    },
                },
            ),
            PhaseView::ListingKeys => match event {
                EventView::Keys(keys) => PipelineView {
                    keys,
                    entries: Seq::empty(),
                    ..self
                }.read_on(),
                _ => self.abort(event),
            },
            PhaseView::ReadingStatus => match event {
                EventView::Status(status) => PipelineView {
                    entries: self.entries.push(
                        EntryView { key: self.keys[self.entries.len() as int], status },
                    ),
                    ..self
                }.read_on(),
                _ => self.abort(event),
            },
            PhaseView::Fetching { instrument } => match event {
                EventView::Quotes(quotes) => PipelineView { quotes, ..self }.write_from(
                    instrument,
                    0,
                    Seq::empty(),
                ),
                _ => self.fetch_from(
                    instrument + 1,
                    seq![
                        ReportView::FetchFailed {
                            instrument: self.instruments[instrument as int],
                            reason: failure_reason(event),
                        },
                    ],
                ),
            },
            PhaseView::Writing { instrument, quote, field } => match event {
                EventView::Written => {
                    if field + 1 < FIELD_COUNT {
                        (
                            PipelineView {
                                phase: PhaseView::Writing { instrument, quote, field: field + 1 },
                                ..self
                            },
                            StepView {
                                reports: Seq::empty(),
                                command: self.upsert(instrument, quote, field + 1),
                            },
                        )
                    } else {
                        self.write_from(instrument, quote + 1, Seq::empty())
                    }
                },
                _ => self.write_from(
                    instrument,
                    quote + 1,
                    seq![
                        ReportView::WriteFailed {
                            instrument: self.instruments[instrument as int],
                            key: self.point(instrument, quote, field).key,
                            timestamp: self.point(instrument, quote, field).timestamp,
                            reason: failure_reason(event),
                        },
                    ],
                ),
            },
            PhaseView::Done => (
                self,
                StepView { reports: Seq::empty(), command: CommandView::Finish },
            ),
            PhaseView::Aborted => (
                self,
                StepView { reports: Seq::empty(), command: CommandView::Abort },
            ),
        }
    }
}

/// Where turning to the quotes from index `j` on leads: to the first point
/// of a quote at or after `j` whose day can be written in milliseconds, or to
/// the next instrument, or to the end of the run. What was to be reported
/// before is reported first, and nothing that the run knows is lost.
pub proof fn lemma_write_from<V>(s: PipelineView<V>, i: nat, j: nat, reports: Seq<ReportView>)
    requires
        s.registry_read(),
        i < s.instruments.len(),
    ensures
        ({
            let (t, step) = s.write_from(i, j, reports);
            &&& t.wf()
            &&& t.scheme == s.scheme
            &&& t.period == s.period
            &&& t.keys == s.keys
            &&& t.entries == s.entries
            &&& t.instruments == s.instruments
            &&& reports.len() <= step.reports.len()
            &&& forall|k: int| 0 <= k < reports.len() ==> step.reports[k] == reports[k]
            &&& match t.phase {
                PhaseView::Writing { instrument, quote, field } => {
                    &&& instrument == i
                    &&& j <= quote
                    &&& field == 0
                    &&& t.quotes == s.quotes
                    &&& step.command == s.upsert(i, quote, 0)
                },
                PhaseView::Fetching { instrument } => {
                    &&& instrument == i + 1
                    &&& step.command == (CommandView::<V>::Fetch {
                        instrument: s.instruments[i as int + 1],
                        interval: daily_interval(),
                        period: s.period,
                    })
                },
                PhaseView::Done => i + 1 == s.instruments.len() && step.command is Finish,
                _ => false,
            }
        }),
    decreases s.quotes.len() - j,
{
    if j < s.quotes.len() && !fits(s.quotes[j as int]) {
        let told = reports.push(
            ReportView::DayOutOfRange {
                instrument: s.instruments[i as int],
                day: s.quotes[j as int].timestamp as nat,
            },
        );
        lemma_write_from(s, i, j + 1, told);
        assert forall|k: int| 0 <= k < reports.len() implies s.write_from(i, j, reports).1.reports[k]
            == reports[k] by {
            assert(told[k] == reports[k]);
        }
    }
}

/// Turning to the quotes of an instrument goes by what the run holds, not by
/// the phase it is in.
pub proof fn lemma_write_from_any_phase<V>(
    s: PipelineView<V>,
    phase: PhaseView,
    i: nat,
    j: nat,
    reports: Seq<ReportView>,
)
    ensures
        (PipelineView { phase, ..s }).write_from(i, j, reports) == s.write_from(i, j, reports),
    decreases s.quotes.len() - j,
{
    if j < s.quotes.len() && !fits(s.quotes[j as int]) {
        lemma_write_from_any_phase(
            s,
            phase,
            i,
            j + 1,
            reports.push(
                ReportView::DayOutOfRange {
                    instrument: s.instruments[i as int],
                    day: s.quotes[j as int].timestamp as nat,
                },
            ),
        );
    }
}

/// Every step leads from a state that a run can reach to another.
pub proof fn lemma_next_keeps_wf<V>(s: PipelineView<V>, event: EventView<V>)
    requires
        s.wf(),
    ensures
        s.next(event).0.wf(),
{
    match s.phase {
        PhaseView::ReadingStatus => {
            if let EventView::Status(status) = event {
                let grown = s.entries.push(
                    EntryView { key: s.keys[s.entries.len() as int], status },
                );
                assert forall|k: int| 0 <= k < grown.len() implies (#[trigger] grown[k]).key
                    == s.keys[k] by {}
            }
        },
        PhaseView::Fetching { instrument } => {
            if let EventView::Quotes(quotes) = event {
                lemma_write_from(PipelineView { quotes, ..s }, instrument, 0, Seq::empty());
            }
        },
        PhaseView::Writing { instrument, quote, field } => {
            lemma_write_from(s, instrument, quote + 1, Seq::empty());
            lemma_write_from(
                s,
                instrument,
                quote + 1,
                seq![
                    ReportView::WriteFailed {
                        instrument: s.instruments[instrument as int],
                        key: s.point(instrument, quote, field).key,
                        timestamp: s.point(instrument, quote, field).timestamp,
                        reason: failure_reason(event),
                    },
                ],
            );
        },
        _ => {},
    }
}

} // verus!
