//! The ingestion run as a value that a driver steps.
//!
//! The machine decides; its driver acts. Each call of [`Pipeline::step`] takes
//! what the outside world answered to the last command and returns what to
//! report and the next command.

use vstd::prelude::*;
use vstd::string::*;
use crate::model::{failure_reason, lemma_next_keeps_wf, Phase, PhaseView, PipelineView};
use crate::naming::{Field, KeyScheme, FIELD_COUNT};
use crate::protocol::{
    report_views, Command, DuplicatePolicy, Event, Report, ReportView, Step, StepView,
};
use crate::quote::{series_point, to_millis, Quote};
use crate::registry::{active_instruments, active_sorted, entry_views, EntryView, MetadataEntry};
use crate::text::texts;

verus! {

/// Everything a run holds but its phase.
struct Parts<V> {
    scheme: KeyScheme,
    period: String,
    keys: Vec<String>,
    entries: Vec<MetadataEntry>,
    instruments: Vec<String>,
    quotes: Vec<Quote<V>>,
}

impl<V> Parts<V> {
    /// The state that these parts make up in `phase`.
    spec fn in_phase(self, phase: PhaseView) -> PipelineView<V> {
        PipelineView {
            scheme: self.scheme@,
            period: self.period@,
            phase,
            keys: texts(self.keys@),
            entries: entry_views(self.entries@),
            instruments: texts(self.instruments@),
            quotes: self.quotes@,
        }
    }
}

/// One ingestion run.
pub struct Pipeline<V> {
    parts: Parts<V>,
    phase: Phase,
}

impl<V> View for Pipeline<V> {
    type V = PipelineView<V>;

    closed spec fn view(&self) -> PipelineView<V> {
        self.parts.in_phase(self.phase@)
    }
}

/// Why a command counts as failed, given what answered it.
fn failure_text<V>(event: &Event<V>) -> (reason: String)
    ensures
        reason@ == failure_reason(event@),
{
    match event {
        Event::Failed(reason) => reason.clone(),
        _ => "unexpected answer".to_owned(),
    }
}

/// A step without reports.
fn quiet<V>(command: Command<V>) -> (step: Step<V>)
    ensures
        step@ == (StepView { reports: Seq::empty(), command: command@ }),
{
    let step = Step { reports: Vec::new(), command };
    step
}

/// An empty list of reports.
fn no_reports() -> (reports: Vec<Report>)
    ensures
        report_views(reports@) == Seq::<ReportView>::empty(),
{
    let reports: Vec<Report> = Vec::new();
    reports
}

/// A list of one report.
fn one_report(report: Report) -> (reports: Vec<Report>)
    ensures
        report_views(reports@) == seq![report@],
{
    let mut reports: Vec<Report> = Vec::new();
    reports.push(report);
    reports
}

impl<V> Pipeline<V> {
    #[verifier::type_invariant]
    spec fn inv(self) -> bool {
        self@.wf()
    }
}

impl<V: Copy> Pipeline<V> {
    /// A run that has not begun, for the keys of `scheme` and quotes over
    /// `period`.
    pub fn new(scheme: KeyScheme, period: String) -> (run: Pipeline<V>)
        ensures
            run@ == PipelineView::<V>::initial(scheme@, period@),
            run@.wf(),
    {
        let run = Pipeline {
            parts: Parts {
                scheme,
                period,
                keys: Vec::new(),
                entries: Vec::new(),
                instruments: Vec::new(),
                quotes: Vec::new(),
            },
            phase: Phase::Idle,
        };
        run
    }

    /// Where the run stands.
    pub fn phase(&self) -> (phase: Phase)
        ensures
            phase@ == self@.phase,
    {
        self.phase
    }

    /// The active instruments, ascending; empty until the registry is read.
    pub fn instruments(&self) -> (instruments: &Vec<String>)
        ensures
            texts(instruments@) == self@.instruments,
    {
        &self.parts.instruments
    }

    /// The registry cannot be read: end the run, and say why.
    fn abort(parts: Parts<V>, phase: Ghost<PhaseView>, event: &Event<V>) -> (r: (Pipeline<V>, Step<V>))
        ensures
            r.0@ == parts.in_phase(phase@).abort(event@).0,
            r.1@ == parts.in_phase(phase@).abort(event@).1,
    {
        let reports = one_report(Report::RegistryFailed { reason: failure_text(event) });
        (Pipeline { parts, phase: Phase::Aborted }, Step { reports, command: Command::Abort })
    }

    /// Turn to the instrument at index `i`, or finish.
    fn fetch_from(parts: Parts<V>, phase: Ghost<PhaseView>, i: usize, reports: Vec<Report>) -> (r: (
        Pipeline<V>,
        Step<V>,
    ))
        requires
            parts.in_phase(phase@).registry_read(),
        ensures
            r.0@ == parts.in_phase(phase@).fetch_from(i as nat, report_views(reports@)).0,
            r.1@ == parts.in_phase(phase@).fetch_from(i as nat, report_views(reports@)).1,
    {
        let mut parts = parts;
        let mut reports = reports;
        parts.quotes = Vec::new();
        if i < parts.instruments.len() {
            let report = Report::Progress {
                index: i,
                total: parts.instruments.len(),
                instrument: parts.instruments[i].clone(),
            };
            reports.push(report);
            let command = Command::Fetch {
                instrument: parts.instruments[i].clone(),
                interval: "1d".to_owned(),
                period: parts.period.clone(),
            };
            let run = Pipeline { parts, phase: Phase::Fetching { instrument: i } };
            (run, Step { reports, command })
        } else {
            let run = Pipeline { parts, phase: Phase::Done };
            (run, Step { reports, command: Command::Finish })
        }
    }

    /// Turn to the quotes from index `j` on of the instrument at index `i`,
    /// or to the next instrument.
    fn write_from(
        parts: Parts<V>,
        phase: Ghost<PhaseView>,
        i: usize,
        j: usize,
        reports: Vec<Report>,
    ) -> (r: (Pipeline<V>, Step<V>))
        requires
            parts.in_phase(phase@).registry_read(),
            i < parts.instruments.len(),
            j <= parts.quotes.len(),
        ensures
            r.0@ == parts.in_phase(phase@).write_from(i as nat, j as nat, report_views(reports@)).0,
            r.1@ == parts.in_phase(phase@).write_from(i as nat, j as nat, report_views(reports@)).1,
    {
        let ghost before = parts.in_phase(phase@);
        let ghost goal = before.write_from(i as nat, j as nat, report_views(reports@));
        let mut j = j;
        let mut reports = reports;
        while j < parts.quotes.len() && to_millis(parts.quotes[j].timestamp).is_none()
            invariant
                j <= parts.quotes.len(),
                i < parts.instruments.len(),
                before == parts.in_phase(phase@),
                before.write_from(i as nat, j as nat, report_views(reports@)) == goal,
            decreases parts.quotes.len() - j,
        {
            let report = Report::DayOutOfRange {
                instrument: parts.instruments[i].clone(),
                day: parts.quotes[j].timestamp,
            };
            proof {
                assert(report_views(reports@.push(report)) =~= report_views(reports@).push(
                    report@,
                ));
            }
            reports.push(report);
            j += 1;
        }
        if j < parts.quotes.len() {
            let point = series_point(
                &parts.scheme,
                parts.instruments[i].as_str(),
                &parts.quotes[j],
                Field::Open,
            ).unwrap();
            let run = Pipeline { parts, phase: Phase::Writing { instrument: i, quote: j, field: 0 } };
            (run, Step { reports, command: Command::Upsert { point, policy: DuplicatePolicy::Last } })
        } else {
            Self::fetch_from(parts, phase, i + 1, reports)
        }
    }

    /// Go on with the registry: read the next status, or turn to the first
    /// instrument.
    fn read_on(parts: Parts<V>, phase: Ghost<PhaseView>) -> (r: (Pipeline<V>, Step<V>))
        requires
            parts.entries.len() <= parts.keys.len(),
            forall|k: int|
                0 <= k < parts.entries.len() ==> (#[trigger] parts.entries[k])@.key
                    == parts.keys[k]@,
        ensures
            r.0@ == parts.in_phase(phase@).read_on().0,
            r.1@ == parts.in_phase(phase@).read_on().1,
    {
        let ghost before = parts.in_phase(phase@);
        if parts.entries.len() < parts.keys.len() {
            let command = Command::ReadStatus {
                key: parts.keys[parts.entries.len()].clone(),
                attribute: parts.scheme.active_attribute.clone(),
            };
            let run = Pipeline { parts, phase: Phase::ReadingStatus };
            (run, quiet(command))
        } else {
            let mut parts = parts;
            parts.instruments = active_instruments(&parts.entries);
            proof {
                assert(parts.in_phase(phase@) =~= PipelineView {
                    instruments: active_sorted(before.entries),
                    ..before
                });
            }
            Self::fetch_from(parts, phase, 0, no_reports())
        }
    }

    /// Takes what answered the last command and says what comes next.
    pub fn step(self, event: Event<V>) -> (r: (Pipeline<V>, Step<V>))
        ensures
            self@.wf(),
            r.0@ == self@.next(event@).0,
            r.1@ == self@.next(event@).1,
            r.0@.wf(),
    {
        proof {
            use_type_invariant(&self);
            lemma_next_keeps_wf(self@, event@);
        }
        let ghost before = self@;
        let Pipeline { parts, phase } = self;
        match phase {
            Phase::Idle => {
                let command = Command::ListKeys { pattern: parts.scheme.metadata_pattern() };
                let run = Pipeline { parts, phase: Phase::ListingKeys };
                (run, quiet(command))
            },
            Phase::ListingKeys => match event {
                Event::Keys(keys) => {
                    let mut parts = parts;
                    parts.keys = keys;
                    parts.entries = Vec::new();
                    proof {
                        assert(parts.in_phase(phase@) =~= PipelineView {
                            keys: texts(keys@),
                            entries: Seq::empty(),
                            ..before
                        });
                    }
                    Self::read_on(parts, Ghost(phase@))
                },
                other => Self::abort(parts, Ghost(phase@), &other),
            },
            Phase::ReadingStatus => match event {
                Event::Status(status) => {
                    let mut parts = parts;
                    let entry = MetadataEntry { key: parts.keys[parts.entries.len()].clone(), status };
                    proof {
                        assert(entry_views(parts.entries@.push(entry)) =~= before.entries.push(
                            entry@,
                        ));
                        assert forall|k: int| 0 <= k < parts.entries.len() implies (
                        #[trigger] parts.entries[k])@.key == parts.keys[k]@ by {
                            assert(before.entries[k].key == before.keys[k]);
                        }
                    }
                    parts.entries.push(entry);
                    proof {
                        assert(parts.in_phase(phase@) =~= PipelineView {
                            entries: before.entries.push(
                                EntryView {
                                    key: before.keys[before.entries.len() as int],
                                    status: status@,
                                },
                            ),
                            ..before
                        });
                    }
                    Self::read_on(parts, Ghost(phase@))
                },
                other => Self::abort(parts, Ghost(phase@), &other),
            },
            Phase::Fetching { instrument } => {
                assert(instrument < parts.instruments.len());
                match event {
                    Event::Quotes(quotes) => {
                        let mut parts = parts;
                        parts.quotes = quotes;
                        proof {
                            assert(parts.in_phase(phase@) =~= PipelineView {
                                quotes: quotes@,
                                ..before
                            });
                        }
                        Self::write_from(parts, Ghost(phase@), instrument, 0, no_reports())
                    },
                    other => {
                        let reports = one_report(
                            Report::FetchFailed {
                                instrument: parts.instruments[instrument].clone(),
                                reason: failure_text(&other),
                            },
                        );
                        Self::fetch_from(parts, Ghost(phase@), instrument + 1, reports)
                    },
                }
            },
            Phase::Writing { instrument, quote, field } => match event {
                Event::Written => {
                    assert(quote < parts.quotes.len());
                    if field + 1 < FIELD_COUNT {
                        let point = series_point(
                            &parts.scheme,
                            parts.instruments[instrument].as_str(),
                            &parts.quotes[quote],
                            Field::at(field + 1).unwrap(),
                        ).unwrap();
                        let run = Pipeline {
                            parts,
                            phase: Phase::Writing { instrument, quote, field: field + 1 },
                        };
                        (run, quiet(Command::Upsert { point, policy: DuplicatePolicy::Last }))
                    } else {
                        Self::write_from(parts, Ghost(phase@), instrument, quote + 1, no_reports())
                    }
                },
                other => {
                    let point = series_point(
                        &parts.scheme,
                        parts.instruments[instrument].as_str(),
                        &parts.quotes[quote],
                        Field::at(field).unwrap(),
                    ).unwrap();
                    let reports = one_report(
                        Report::WriteFailed {
                            instrument: parts.instruments[instrument].clone(),
                            key: point.key,
                            timestamp: point.timestamp,
                            reason: failure_text(&other),
                        },
                    );
                    Self::write_from(parts, Ghost(phase@), instrument, quote + 1, reports)
                },
            },
            Phase::Done => {
                let run = Pipeline { parts, phase: Phase::Done };
                (run, quiet(Command::Finish))
            },
            Phase::Aborted => {
                let run = Pipeline { parts, phase: Phase::Aborted };
                (run, quiet(Command::Abort))
            },
        }
    }
}

} // verus!
