//! What passes between the machine and its driver: the answers of the
//! outside world that go in, and the commands and reports that come out.

use vstd::prelude::*;
use crate::quote::{PointView, Quote, SeriesPoint};
use crate::text::texts;

verus! {

/// What the outside world answered to the last command.
#[derive(Clone, Debug, PartialEq)]
pub enum Event<V> {
    /// Nothing yet: the run is to begin.
    Start,
    /// The metadata keys that match the pattern.
    Keys(Vec<String>),
    /// The value of the attribute that was read.
    Status(String),
    /// The quotes that the provider returned, in its order.
    Quotes(Vec<Quote<V>>),
    /// The point was written.
    Written,
    /// The command failed, for the reason given.
    Failed(String),
}

/// An [`Event`] with its strings as texts.
#[verifier::ext_equal]
pub enum EventView<V> {
    Start,
    Keys(Seq<Seq<char>>),
    Status(Seq<char>),
    Quotes(Seq<Quote<V>>),
    Written,
    Failed(Seq<char>),
}

impl<V> View for Event<V> {
    type V = EventView<V>;

    open spec fn view(&self) -> EventView<V> {
        match self {
            Event::Start => EventView::Start,
            Event::Keys(keys) => EventView::Keys(texts(keys@)),
            Event::Status(status) => EventView::Status(status@),
            Event::Quotes(quotes) => EventView::Quotes(quotes@),
            Event::Written => EventView::Written,
            Event::Failed(reason) => EventView::Failed(reason@),
        }
    }
}

/// What a series does with a write to a time at which it already has a value.
/// A series keeps the policy that it was created with.
#[derive(Clone, Copy, Debug, PartialEq, Eq, Structural)]
pub enum DuplicatePolicy {
    /// Refuse the write.
    Block,
    /// Keep the value that is there.
    First,
    /// Take the value that comes.
    Last,
    /// Keep the smaller of the two.
    Min,
    /// Keep the larger of the two.
    Max,
    /// Store the sum of the two.
    Sum,
}

/// What the driver is to do next.
#[derive(Clone, Debug, PartialEq)]
pub enum Command<V> {
    /// Enumerate the keys that match `pattern`; answer with [`Event::Keys`].
    ListKeys { pattern: String },
    /// Read `attribute` of the record under `key`; answer with
    /// [`Event::Status`].
    ReadStatus { key: String, attribute: String },
    /// Ask the provider for the quotes of `instrument` at `interval` over
    /// `period`, counted back from today; answer with [`Event::Quotes`].
    Fetch { instrument: String, interval: String, period: String },
    /// Write `point` into its series; if the series is missing, create it
    /// with `policy`. Answer with [`Event::Written`].
    Upsert { point: SeriesPoint<V>, policy: DuplicatePolicy },
    /// The run is complete.
    Finish,
    /// The run cannot go on.
    Abort,
}

/// A [`Command`] with its strings as texts.
#[verifier::ext_equal]
pub enum CommandView<V> {
    ListKeys { pattern: Seq<char> },
    ReadStatus { key: Seq<char>, attribute: Seq<char> },
    Fetch { instrument: Seq<char>, interval: Seq<char>, period: Seq<char> },
    Upsert { point: PointView<V>, policy: DuplicatePolicy },
    Finish,
    Abort,
}

impl<V> View for Command<V> {
    type V = CommandView<V>;

    open spec fn view(&self) -> CommandView<V> {
        match self {
            Command::ListKeys { pattern } => CommandView::ListKeys { pattern: pattern@ },
            Command::ReadStatus { key, attribute } => CommandView::ReadStatus {
                key: key@,
                attribute: attribute@,
            },
            Command::Fetch { instrument, interval, period } => CommandView::Fetch {
                instrument: instrument@,
                interval: interval@,
                period: period@,
            },
            Command::Upsert { point, policy } => CommandView::Upsert {
                point: point@,
                policy: *policy,
            },
            Command::Finish => CommandView::Finish,
            Command::Abort => CommandView::Abort,
        }
    }
}

/// Something for the driver to tell the user.
#[derive(Clone, Debug, PartialEq, Eq)]
pub enum Report {
    /// Work on the instrument at `index` of `total` begins.
    Progress { index: usize, total: usize, instrument: String },
    /// The quotes of `instrument` could not be had; it is skipped.
    FetchFailed { instrument: String, reason: String },
    /// A point of `instrument` could not be written; the rest of its quote is
    /// given up.
    WriteFailed { instrument: String, key: String, timestamp: i64, reason: String },
    /// A quote of `instrument` has a day, in seconds, that cannot be written
    /// in milliseconds; the quote is given up.
    DayOutOfRange { instrument: String, day: u64 },
    /// The registry could not be read; the run ends.
    RegistryFailed { reason: String },
}

/// A [`Report`] with its strings as texts.
#[verifier::ext_equal]
pub enum ReportView {
    Progress { index: nat, total: nat, instrument: Seq<char> },
    FetchFailed { instrument: Seq<char>, reason: Seq<char> },
    WriteFailed { instrument: Seq<char>, key: Seq<char>, timestamp: int, reason: Seq<char> },
    DayOutOfRange { instrument: Seq<char>, day: nat },
    RegistryFailed { reason: Seq<char> },
}

impl View for Report {
    type V = ReportView;

    open spec fn view(&self) -> ReportView {
        match self {
            Report::Progress { index, total, instrument } => ReportView::Progress {
                index: *index as nat,
                total: *total as nat,
                instrument: instrument@,
            },
            Report::FetchFailed { instrument, reason } => ReportView::FetchFailed {
                instrument: instrument@,
                reason: reason@,
            },
            Report::WriteFailed { instrument, key, timestamp, reason } => ReportView::WriteFailed {
                instrument: instrument@,
                key: key@,
                timestamp: *timestamp as int,
                reason: reason@,
            },
            Report::DayOutOfRange { instrument, day } => ReportView::DayOutOfRange {
                instrument: instrument@,
                day: *day as nat,
            },
            Report::RegistryFailed { reason } => ReportView::RegistryFailed { reason: reason@ },
        }
    }
}

/// The views of a sequence of reports.
pub open spec fn report_views(reports: Seq<Report>) -> Seq<ReportView> {
    reports.map_values(|r: Report| r@)
}

/// What one step of the machine hands to its driver.
#[derive(Clone, Debug, PartialEq)]
pub struct Step<V> {
    /// What to tell the user, in order.
    pub reports: Vec<Report>,
    /// What to do next.
    pub command: Command<V>,
}

/// A [`Step`] with its strings as texts.
#[verifier::ext_equal]
pub struct StepView<V> {
    pub reports: Seq<ReportView>,
    pub command: CommandView<V>,
}

impl<V> View for Step<V> {
    type V = StepView<V>;

    open spec fn view(&self) -> StepView<V> {
        StepView { reports: report_views(self.reports@), command: self.command@ }
    }
}

} // verus!
