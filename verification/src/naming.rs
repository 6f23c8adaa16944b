//! How keys are named: one series per instrument and price field, and one
//! metadata record per instrument.

use vstd::prelude::*;
use vstd::string::*;
use crate::text::chars_of;

verus! {

/// The character that separates the segments of a key.
pub open spec fn separator() -> char {
    ':'
}

/// One of the five prices that a daily quote carries.
#[derive(Clone, Copy, Debug, PartialEq, Eq, Structural)]
pub enum Field {
    Open,
    Close,
    High,
    Low,
    AdjClose,
}

/// How many fields a quote has.
pub const FIELD_COUNT: usize = 5;

/// The fields in the order in which a quote's points are written.
pub open spec fn field_at(k: int) -> Field {
    if k == 0 {
        Field::Open
    } else if k == 1 {
        Field::Close
    } else if k == 2 {
        Field::High
    } else if k == 3 {
        Field::Low
    } else {
        Field::AdjClose
    }
}

impl Field {
    /// The name under which the field appears as the last segment of a
    /// series key.
    pub open spec fn name(self) -> Seq<char> {
        match self {
            Field::Open => "open"@,
            Field::Close => "close"@,
            Field::High => "high"@,
            Field::Low => "low"@,
            Field::AdjClose => "adj_close"@,
        }
    }

    /// The field's name as a string.
    pub fn label(self) -> (s: &'static str)
        ensures
            s@ == self.name(),
    {
        match self {
            Field::Open => "open",
            Field::Close => "close",
            Field::High => "high",
            Field::Low => "low",
            Field::AdjClose => "adj_close",
        }
    }

    /// The `k`-th field in write order, if there is one.
    pub fn at(k: usize) -> (f: Option<Field>)
        ensures
            f == (if k < FIELD_COUNT {
                Some(field_at(k as int))
            } else {
                None
            }),
    {
        if k == 0 {
            Some(Field::Open)
        } else if k == 1 {
            Some(Field::Close)
        } else if k == 2 {
            Some(Field::High)
        } else if k == 3 {
            Some(Field::Low)
        } else if k == 4 {
            Some(Field::AdjClose)
        } else {
            None
        }
    }
}

/// Whether `s` holds no separator.
pub open spec fn separator_free(s: Seq<char>) -> bool {
    forall|i: int| 0 <= i < s.len() ==> #[trigger] s[i] != separator()
}

/// Field names hold no separator, and no two fields share a name.
pub proof fn lemma_field_names(f: Field, g: Field)
    ensures
        separator_free(f.name()),
        f.name().len() > 0,
        f.name() == g.name() ==> f == g,
{
    reveal_strlit("open");
    reveal_strlit("close");
    reveal_strlit("high");
    reveal_strlit("low");
    reveal_strlit("adj_close");
    if f.name() == g.name() && f != g {
        assert(f.name()[0] == g.name()[0]);
    }
}

/// Where the last segment of `key` starts: just behind its last separator,
/// or at 0 when it holds none.
pub open spec fn last_segment_start(key: Seq<char>) -> int
    decreases key.len(),
{
    if key.len() == 0 {
        0
    } else if key.last() == separator() {
        key.len() as int
    } else {
        last_segment_start(key.drop_last())
    }
}

/// The last segment of `key`: what follows its last separator, or all of it
/// when it holds none.
pub open spec fn last_segment(key: Seq<char>) -> Seq<char> {
    key.skip(last_segment_start(key))
}

/// The last segment starts inside the key, directly behind a separator unless
/// it starts the key, and holds no separator itself.
pub proof fn lemma_last_segment_start(key: Seq<char>)
    ensures
        0 <= last_segment_start(key) <= key.len(),
        last_segment_start(key) > 0 ==> key[last_segment_start(key) - 1] == separator(),
        forall|i: int| last_segment_start(key) <= i < key.len() ==> #[trigger] key[i] != separator(),
        separator_free(last_segment(key)),
    decreases key.len(),
{
    let start = last_segment_start(key);
    if key.len() > 0 && key.last() != separator() {
        let shorter = key.drop_last();
        lemma_last_segment_start(shorter);
        assert forall|i: int| start <= i < key.len() implies #[trigger] key[i] != separator() by {
            if i < shorter.len() {
                assert(key[i] == shorter[i]);
            }
        }
    }
    assert forall|i: int| 0 <= i < last_segment(key).len() implies #[trigger] last_segment(
        key,
    )[i] != separator() by {}
}

/// The one position that is directly behind a separator, or starts the key,
/// and has no separator at or after it is where the last segment starts.
pub proof fn lemma_last_segment_start_is(key: Seq<char>, p: int)
    requires
        0 <= p <= key.len(),
        p > 0 ==> key[p - 1] == separator(),
        forall|i: int| p <= i < key.len() ==> #[trigger] key[i] != separator(),
    ensures
        last_segment_start(key) == p,
    decreases key.len(),
{
    if key.len() > 0 && key.last() != separator() && p < key.len() {
        lemma_last_segment_start_is(key.drop_last(), p);
    }
}

/// A key made of any prefix, a separator and a separator-free tail has that
/// tail as its last segment.
pub proof fn lemma_last_segment_of_joined(prefix: Seq<char>, tail: Seq<char>)
    requires
        separator_free(tail),
    ensures
        last_segment(prefix.push(separator()) + tail) == tail,
{
    let key = prefix.push(separator()) + tail;
    let p = (prefix.len() + 1) as int;
    assert forall|i: int| p <= i < key.len() implies #[trigger] key[i] != separator() by {}
    lemma_last_segment_start_is(key, p);
}

/// The instrument that a metadata key names: its last segment.
pub fn instrument_of_key(key: &str) -> (id: String)
    ensures
        id@ == last_segment(key@),
{
    let chars = chars_of(key);
    let mut start: usize = chars.len();
    while start > 0 && chars[start - 1] != ':'
        invariant
            start <= chars.len(),
            chars@ == key@,
            forall|i: int| start <= i < chars.len() ==> #[trigger] chars[i] != separator(),
        decreases start,
    {
        start -= 1;
    }
    proof {
        lemma_last_segment_start_is(key@, start as int);
    }
    let tail = key.substring_char(start, chars.len());
    tail.to_owned()
}

/// The namespaces under which keys are formed.
#[derive(Clone, Debug, PartialEq, Eq)]
pub struct KeyScheme {
    /// First segment of every series key.
    pub series_namespace: String,
    /// What precedes the instrument in a metadata key.
    pub metadata_namespace: String,
    /// The attribute of a metadata record that tells whether the instrument
    /// is active.
    pub active_attribute: String,
}

/// What a [`KeyScheme`] holds, as texts.
pub struct KeySchemeView {
    pub series_namespace: Seq<char>,
    pub metadata_namespace: Seq<char>,
    pub active_attribute: Seq<char>,
}

impl View for KeyScheme {
    type V = KeySchemeView;

    open spec fn view(&self) -> KeySchemeView {
        KeySchemeView {
            series_namespace: self.series_namespace@,
            metadata_namespace: self.metadata_namespace@,
            active_attribute: self.active_attribute@,
        }
    }
}

/// The key of the series that holds `field` of `instrument`: the namespace,
/// the instrument and the field's name, joined by separators.
pub open spec fn series_key_text(namespace: Seq<char>, instrument: Seq<char>, field: Field) -> Seq<
    char,
> {
    namespace.push(separator()) + instrument.push(separator()) + field.name()
}

/// The key of the metadata record of `instrument`.
pub open spec fn metadata_key_text(namespace: Seq<char>, instrument: Seq<char>) -> Seq<char> {
    namespace.push(separator()) + instrument
}

/// The pattern that matches the metadata keys of all instruments.
pub open spec fn metadata_pattern_text(namespace: Seq<char>) -> Seq<char> {
    namespace.push(separator()).push('*')
}

impl KeyScheme {
    /// The scheme of the market store: series under `MARKET`, metadata under
    /// `MARKET:METADATA:STOCKS`, activity in the attribute `attivo`.
    pub fn standard() -> (scheme: KeyScheme)
        ensures
            scheme@ == (KeySchemeView {
                series_namespace: "MARKET"@,
                metadata_namespace: "MARKET:METADATA:STOCKS"@,
                active_attribute: "attivo"@,
            }),
    {
        KeyScheme {
            series_namespace: "MARKET".to_owned(),
            metadata_namespace: "MARKET:METADATA:STOCKS".to_owned(),
            active_attribute: "attivo".to_owned(),
        }
    }

    /// The key of the series that holds `field` of `instrument`.
    pub fn series_key(&self, instrument: &str, field: Field) -> (key: String)
        ensures
            key@ == series_key_text(self.series_namespace@, instrument@, field),
    {
        proof {
            reveal_strlit(":");
        }
        let mut key = self.series_namespace.clone();
        key.append(":");
        key.append(instrument);
        key.append(":");
        key.append(field.label());
        key
    }

    /// The pattern that matches the metadata keys of all instruments.
    pub fn metadata_pattern(&self) -> (pattern: String)
        ensures
            pattern@ == metadata_pattern_text(self.metadata_namespace@),
    {
        proof {
            reveal_strlit(":*");
        }
        let mut pattern = self.metadata_namespace.clone();
        pattern.append(":*");
        pattern
    }
}

/// Within one namespace, a series key belongs to one instrument and one
/// field only.
pub proof fn lemma_series_key_injective(
    namespace: Seq<char>,
    instrument: Seq<char>,
    field: Field,
    other_instrument: Seq<char>,
    other_field: Field,
)
    requires
        series_key_text(namespace, instrument, field) == series_key_text(
            namespace,
            other_instrument,
            other_field,
        ),
    ensures
        instrument == other_instrument,
        field == other_field,
{
    let key = series_key_text(namespace, instrument, field);
    let other_key = series_key_text(namespace, other_instrument, other_field);
    lemma_field_names(field, other_field);
    lemma_field_names(other_field, field);
    assert(other_key =~= (namespace.push(separator()) + other_instrument).push(separator())
        + other_field.name());
    lemma_last_segment_of_joined(namespace.push(separator()) + instrument, field.name());
    lemma_last_segment_of_joined(
        namespace.push(separator()) + other_instrument,
        other_field.name(),
    );
    assert forall|i: int| 0 <= i < instrument.len() implies instrument[i] == other_instrument[i] by {
        assert(key[namespace.len() + 1 + i] == instrument[i]);
    }
}

/// The instrument read back from a metadata key is the one the key was made
/// for, as long as the instrument's name holds no separator.
pub proof fn lemma_metadata_key_names_instrument(namespace: Seq<char>, instrument: Seq<char>)
    requires
        separator_free(instrument),
    ensures
        last_segment(metadata_key_text(namespace, instrument)) == instrument,
{
    lemma_last_segment_of_joined(namespace, instrument);
}

} // verus!
