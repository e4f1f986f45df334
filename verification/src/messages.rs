//! From the decoded values of all markers to the messages that are published.

use crate::decoder::DecodedValue;
use crate::text::{decimal, decimal_string, signed_decimal};
use vstd::prelude::*;
use vstd::string::*;

verus! {

/// One message for the bus.
#[derive(Debug)]
pub struct PublishMessage {
    pub topic: String,
    pub payload: String,
}

impl Clone for PublishMessage {
    fn clone(&self) -> (copy: Self)
        ensures
            copy.topic@ == self.topic@,
            copy.payload@ == self.payload@,
    {
        PublishMessage { topic: self.topic.clone(), payload: self.payload.clone() }
    }
}

/// A marker's name with its decoded value, as the contracts see them.
pub type Entry = (Seq<char>, DecodedValue);

/// A topic with its payload, as the contracts see them.
pub type Message = (Seq<char>, Seq<char>);

/// The topic under which a marker is published.
pub open spec fn topic_of(name: Seq<char>) -> Seq<char> {
    "laundry-machine/"@ + name
}

/// The payload of a decoded value: its JSON text.
pub open spec fn payload_of(value: DecodedValue) -> Seq<char> {
    match value {
        DecodedValue::Absent => "null"@,
        DecodedValue::Boolean(true) => "true"@,
        DecodedValue::Boolean(false) => "false"@,
        DecodedValue::Integer(n) => signed_decimal(n as int),
    }
}

/// The index of the first entry with the given name, or the number of
/// entries where there is none.
pub open spec fn position(entries: Seq<Entry>, name: Seq<char>) -> int
    decreases entries.len(),
{
    if entries.len() == 0 {
        0
    } else if entries[0].0 == name {
        0
    } else {
        1 + position(entries.drop_first(), name)
    }
}

/// `position` is the first index at which the name stands: no entry before
/// index `at` has the name, and the entry at `at`, if there is one, has it.
pub proof fn lemma_position(entries: Seq<Entry>, name: Seq<char>, at: int)
    requires
        0 <= at <= entries.len(),
        forall|j: int| 0 <= j < at ==> entries[j].0 != name,
        at < entries.len() ==> entries[at].0 == name,
    ensures
        position(entries, name) == at,
    decreases entries.len(),
{
    if at > 0 {
        let rest = entries.drop_first();
        assert forall|j: int| 0 <= j < at - 1 implies rest[j].0 != name by {
            assert(rest[j] == entries[j + 1]);
        }
        lemma_position(rest, name, at - 1);
    }
}

/// No entry before `position` has the name, and the entry at `position`,
/// if there is one, has it.
pub proof fn lemma_position_first(entries: Seq<Entry>, name: Seq<char>)
    ensures
        0 <= position(entries, name) <= entries.len(),
        forall|j: int| 0 <= j < position(entries, name) ==> (#[trigger] entries[j]).0 != name,
        position(entries, name) < entries.len() ==> entries[position(entries, name)].0 == name,
    decreases entries.len(),
{
    if entries.len() > 0 && entries[0].0 != name {
        let rest = entries.drop_first();
        lemma_position_first(rest, name);
        assert forall|j: int| 0 <= j < position(entries, name) implies (#[trigger] entries[j]).0
            != name by {
            if j > 0 {
                assert(rest[j - 1] == entries[j]);
            }
        }
    }
}

/// The value recorded under a name.
pub open spec fn lookup(entries: Seq<Entry>, name: Seq<char>) -> Option<DecodedValue> {
    let at = position(entries, name);
    if at < entries.len() {
        Some(entries[at].1)
    } else {
        None
    }
}

/// The entries after a value is recorded under a name: the value replaces
/// the one that the name had, or the pair is added at the end.
pub open spec fn record(entries: Seq<Entry>, name: Seq<char>, value: DecodedValue) -> Seq<Entry> {
    let at = position(entries, name);
    if at < entries.len() {
        entries.update(at, (name, value))
    } else {
        entries.push((name, value))
    }
}

/// No name occurs twice.
pub open spec fn distinct_names(entries: Seq<Entry>) -> bool {
    forall|i: int, j: int| 0 <= i < j < entries.len() ==> entries[i].0 != entries[j].0
}

/// After a value is recorded under a name, the name has that value and
/// every other name the value that it had.
pub proof fn lemma_record_lookup(
    entries: Seq<Entry>,
    name: Seq<char>,
    value: DecodedValue,
    other: Seq<char>,
)
    ensures
        lookup(record(entries, name, value), other) == if other == name {
            Some(value)
        } else {
            lookup(entries, other)
        },
{
    let at = position(entries, name);
    let after = record(entries, name, value);
    lemma_position_first(entries, name);
    lemma_position_first(entries, other);
    if other == name {
        lemma_position(after, name, at);
    } else {
        let found = position(entries, other);
        assert forall|j: int| 0 <= j < found implies after[j].0 != other by {
            assert(entries[j].0 != other);
        }
        if found < entries.len() {
            lemma_position(after, other, found);
        } else {
            lemma_position(after, other, after.len() as int);
        }
    }
}

/// Recording a value keeps the names distinct.
pub proof fn lemma_record_distinct(entries: Seq<Entry>, name: Seq<char>, value: DecodedValue)
    requires
        distinct_names(entries),
    ensures
        distinct_names(record(entries, name, value)),
{
    let at = position(entries, name);
    let after = record(entries, name, value);
    lemma_position_first(entries, name);
    assert forall|i: int, j: int| 0 <= i < j < after.len() implies after[i].0 != after[j].0 by {
        if at < entries.len() {
            assert(after[i].0 == entries[i].0);
            assert(after[j].0 == entries[j].0);
        } else if j < entries.len() {
            assert(after[i] == entries[i]);
            assert(after[j] == entries[j]);
        } else {
            assert(after[i] == entries[i]);
        }
    }
}

/// The seconds that remain, where the markers `hour` and `minute` are both
/// present and both read as an integer that is not negative.
pub open spec fn time_remaining(entries: Seq<Entry>) -> Option<int> {
    match (lookup(entries, "hour"@), lookup(entries, "minute"@)) {
        (Some(DecodedValue::Integer(hour)), Some(DecodedValue::Integer(minute))) => {
            if hour >= 0 && minute >= 0 {
                Some((hour * 60 + minute) * 60)
            } else {
                None
            }
        },
        _ => None,
    }
}

/// Whether a name is one of the two that pair up into the time that remains.
pub open spec fn is_time_name(name: Seq<char>) -> bool {
    name == "hour"@ || name == "minute"@
}

/// The message of one marker: its topic and its payload.
pub open spec fn message_of(entry: Entry) -> Message {
    (topic_of(entry.0), payload_of(entry.1))
}

/// The entries but those named `hour` and `minute`, in order.
pub open spec fn untimed(entries: Seq<Entry>) -> Seq<Entry> {
    entries.filter(|entry: Entry| !is_time_name(entry.0))
}

/// One message for each entry, in order.
pub open spec fn marker_messages(entries: Seq<Entry>) -> Seq<Message> {
    entries.map_values(|entry: Entry| message_of(entry))
}

/// The messages of one pass. Where `hour` and `minute` pair up, the time
/// that remains comes first and stands for both of them; every other marker
/// has a message of its own.
pub open spec fn messages_for(entries: Seq<Entry>) -> Seq<Message> {
    match time_remaining(entries) {
        Some(seconds) => seq![("laundry-machine/time-remaining"@, decimal(seconds as nat))]
            + marker_messages(untimed(entries)),
        None => marker_messages(entries),
    }
}

/// An entry at the end is dropped from the untimed entries where it is
/// named `hour` or `minute`, and stays at the end where it is not.
pub proof fn lemma_untimed_push(entries: Seq<Entry>, entry: Entry)
    ensures
        untimed(entries.push(entry)) == if is_time_name(entry.0) {
            untimed(entries)
        } else {
            untimed(entries).push(entry)
        },
{
    reveal(Seq::filter);
    assert(entries.push(entry).drop_last() == entries);
}

/// The untimed entries are those with other names: each of them stands
/// among the entries, and none of them is named `hour` or `minute`.
pub proof fn lemma_untimed_entries(entries: Seq<Entry>, entry: Entry)
    ensures
        untimed(entries).contains(entry) <==> entries.contains(entry) && !is_time_name(entry.0),
    decreases entries.len(),
{
    if entries.len() == 0 {
        reveal(Seq::filter);
    } else {
        let before = entries.drop_last();
        let last = entries.last();
        assert(entries == before.push(last));
        lemma_untimed_push(before, last);
        lemma_untimed_entries(before, entry);
        if entries.contains(entry) {
            let i = choose|i: int| 0 <= i < entries.len() && entries[i] == entry;
            if i < before.len() {
                assert(before[i] == entry);
            }
        }
        if before.contains(entry) {
            let i = choose|i: int| 0 <= i < before.len() && before[i] == entry;
            assert(entries[i] == entry);
        }
        if untimed(before).contains(entry) {
            let i = choose|i: int| 0 <= i < untimed(before).len() && untimed(before)[i] == entry;
            if !is_time_name(last.0) {
                assert(untimed(entries)[i] == entry);
            }
        }
        if untimed(entries).contains(entry) && !is_time_name(last.0) {
            let i = choose|i: int| 0 <= i < untimed(entries).len() && untimed(entries)[i] == entry;
            if i < untimed(before).len() {
                assert(untimed(before)[i] == entry);
            }
        }
        if entry == last {
            assert(entries[entries.len() - 1] == entry);
            if !is_time_name(last.0) {
                assert(untimed(entries)[untimed(before).len() as int] == entry);
            }
        }
    }
}

/// Two markers share a topic only where they share a name.
pub proof fn lemma_topic_names(first: Seq<char>, second: Seq<char>)
    ensures
        topic_of(first) == topic_of(second) <==> first == second,
{
    if topic_of(first) == topic_of(second) {
        let prefix = "laundry-machine/"@;
        assert(first.len() == second.len()) by {
            assert(topic_of(first).len() == prefix.len() + first.len());
            assert(topic_of(second).len() == prefix.len() + second.len());
        }
        assert forall|i: int| 0 <= i < first.len() implies first[i] == second[i] by {
            assert(topic_of(first)[prefix.len() + i] == first[i]);
            assert(topic_of(second)[prefix.len() + i] == second[i]);
        }
        assert(first =~= second);
    }
}

/// Where `hour` and `minute` pair up, the first message carries the time
/// that remains in seconds, the others are those of the other markers in
/// their order, and none of them belongs to `hour` or to `minute`.
pub proof fn lemma_paired_messages(entries: Seq<Entry>, hour: i64, minute: i64)
    requires
        lookup(entries, "hour"@) == Some(DecodedValue::Integer(hour)),
        lookup(entries, "minute"@) == Some(DecodedValue::Integer(minute)),
        hour >= 0,
        minute >= 0,
    ensures
        messages_for(entries).len() == 1 + untimed(entries).len(),
        messages_for(entries)[0] == (
            "laundry-machine/time-remaining"@,
            decimal(((hour * 60 + minute) * 60) as nat),
        ),
        forall|i: int|
            0 <= i < untimed(entries).len() ==> #[trigger] messages_for(entries)[1 + i]
                == message_of(untimed(entries)[i]),
        forall|i: int|
            0 <= i < untimed(entries).len() ==> entries.contains(#[trigger] untimed(entries)[i])
                && !is_time_name(untimed(entries)[i].0),
        forall|i: int|
            1 <= i < messages_for(entries).len() ==> (#[trigger] messages_for(entries)[i]).0
                != topic_of("hour"@) && messages_for(entries)[i].0 != topic_of("minute"@),
{
    let others = untimed(entries);
    assert forall|i: int| 0 <= i < others.len() implies entries.contains(#[trigger] others[i])
        && !is_time_name(others[i].0) by {
        lemma_untimed_entries(entries, others[i]);
        assert(others.contains(others[i]));
    }
    assert forall|i: int| 1 <= i < messages_for(entries).len() implies (#[trigger] messages_for(
        entries,
    )[i]).0 != topic_of("hour"@) && messages_for(entries)[i].0 != topic_of("minute"@) by {
        let entry = others[i - 1];
        assert(messages_for(entries)[i] == message_of(entry));
        lemma_topic_names(entry.0, "hour"@);
        lemma_topic_names(entry.0, "minute"@);
    }
}

/// Where `hour` and `minute` do not pair up, every marker has its own
/// message, `hour` and `minute` too, in the order of the entries.
pub proof fn lemma_unpaired_messages(entries: Seq<Entry>)
    requires
        time_remaining(entries) is None,
    ensures
        messages_for(entries).len() == entries.len(),
        forall|i: int|
            0 <= i < entries.len() ==> #[trigger] messages_for(entries)[i] == message_of(
                entries[i],
            ),
{
}

/// Topic and payload of each message.
pub open spec fn message_views(messages: Seq<PublishMessage>) -> Seq<Message> {
    Seq::new(messages.len(), |i: int| (messages[i].topic@, messages[i].payload@))
}

/// Renders a decoded value with `serde_json::to_string_pretty`.
///
/// The value is handed over as the JSON value that stands for it: `null` for
/// an absent one, a boolean, or a number made from the `i64`. Believed of
/// serde_json: for these three it writes `null`, `true` or `false`, or the
/// integer in decimal with a minus sign where it is negative, with nothing
/// before or after, and writing into memory does not fail.
#[verifier::external_body]
fn json_text(value: &DecodedValue) -> (text: String)
    ensures
        text@ == payload_of(*value),
{
    let json = match *value {
        DecodedValue::Absent => serde_json::Value::Null,
        DecodedValue::Boolean(b) => serde_json::Value::Bool(b),
        DecodedValue::Integer(n) => serde_json::Value::Number(serde_json::Number::from(n)),
    };
    serde_json::to_string_pretty(&json).unwrap_or_default()
}

impl DecodedValue {
    /// The JSON text of the value: `null` for an absent one, `true` or
    /// `false`, or the integer in decimal.
    pub fn json(&self) -> (text: String)
        ensures
            text@ == payload_of(*self),
    {
        json_text(self)
    }
}

/// The decoded values of one pass, by marker name.
///
/// No name occurs twice. The entries keep the order in which their names
/// were first recorded.
pub struct Readings {
    entries: Vec<(String, DecodedValue)>,
}

impl View for Readings {
    type V = Seq<Entry>;

    closed spec fn view(&self) -> Seq<Entry> {
        Seq::new(self.entries@.len(), |i: int| (self.entries@[i].0@, self.entries@[i].1))
    }
}

impl Readings {
    /// No name occurs twice. Every set of readings that `new` and `insert`
    /// make is well formed.
    pub open spec fn well_formed(&self) -> bool {
        distinct_names(self@)
    }

    /// No readings.
    pub fn new() -> (readings: Self)
        ensures
            readings@ == Seq::<Entry>::empty(),
            readings.well_formed(),
    {
        Readings { entries: Vec::new() }
    }

    /// The number of names.
    pub fn len(&self) -> (n: usize)
        ensures
            n == self@.len(),
    {
        self.entries.len()
    }

    /// The name of the entry with the given index.
    pub fn name(&self, index: usize) -> (name: &String)
        requires
            index < self@.len(),
        ensures
            name@ == self@[index as int].0,
    {
        &self.entries[index].0
    }

    /// The value of the entry with the given index.
    pub fn value(&self, index: usize) -> (value: DecodedValue)
        requires
            index < self@.len(),
        ensures
            value == self@[index as int].1,
    {
        self.entries[index].1
    }

    /// The value recorded under a name.
    pub fn get(&self, name: &str) -> (value: Option<DecodedValue>)
        ensures
            value == lookup(self@, name@),
    {
        let wanted = String::from_str(name);
        let mut i: usize = 0;
        while i < self.entries.len()
            invariant
                i <= self.entries.len(),
                wanted@ == name@,
                forall|j: int| 0 <= j < i ==> self@[j].0 != name@,
            decreases self.entries.len() - i,
        {
            if self.entries[i].0 == wanted {
                proof {
                    lemma_position(self@, name@, i as int);
                }
                return Some(self.entries[i].1);
            }
            i += 1;
        }
        proof {
            lemma_position(self@, name@, i as int);
        }
        None
    }

    /// Records a value under a name. A value that the name had before is
    /// replaced.
    pub fn insert(&mut self, name: String, value: DecodedValue)
        requires
            old(self).well_formed(),
        ensures
            final(self)@ == record(old(self)@, name@, value),
            final(self).well_formed(),
    {
        let mut i: usize = 0;
        while i < self.entries.len()
            invariant
                i <= self.entries.len(),
                *self == *old(self),
                self.well_formed(),
                forall|j: int| 0 <= j < i ==> self@[j].0 != name@,
            decreases self.entries.len() - i,
        {
            if self.entries[i].0 == name {
                proof {
                    lemma_position(self@, name@, i as int);
                }
                self.entries.set(i, (name, value));
                assert(self@ == old(self)@.update(i as int, (name@, value)));
                assert forall|a: int, b: int| 0 <= a < b < self@.len() implies self@[a].0
                    != self@[b].0 by {
                    assert(self@[a].0 == old(self)@[a].0);
                    assert(self@[b].0 == old(self)@[b].0);
                }
                return ;
            }
            i += 1;
        }
        proof {
            lemma_position(self@, name@, i as int);
        }
        self.entries.push((name, value));
        assert(self@ == old(self)@.push((name@, value)));
    }
}

/// Whether a name is `hour` or `minute`.
fn names_time(name: &String) -> (yes: bool)
    ensures
        yes == is_time_name(name@),
{
    *name == String::from_str("hour") || *name == String::from_str("minute")
}

/// The seconds that remain, if `hour` and `minute` pair up.
fn seconds_remaining(decoded: &Readings) -> (seconds: Option<u128>)
    ensures
        match seconds {
            Some(s) => time_remaining(decoded@) == Some(s as int),
            None => time_remaining(decoded@) is None,
        },
{
    match (decoded.get("hour"), decoded.get("minute")) {
        (Some(DecodedValue::Integer(hour)), Some(DecodedValue::Integer(minute))) => {
            if hour >= 0 && minute >= 0 {
                Some((hour as u128 * 60 + minute as u128) * 60)
            } else {
                None
            }
        },
        _ => None,
    }
}

/// The message of one marker.
fn marker_message(name: &String, value: &DecodedValue) -> (message: PublishMessage)
    ensures
        message.topic@ == topic_of(name@),
        message.payload@ == payload_of(*value),
{
    let mut topic = String::from_str("laundry-machine/");
    topic.append(name.as_str());
    PublishMessage { topic, payload: value.json() }
}

/// Builds the messages of one pass.
///
/// Where the markers `hour` and `minute` are both present and both read as an
/// integer that is not negative, one message under
/// `laundry-machine/time-remaining` carries `(hour * 60 + minute) * 60` in
/// decimal, and neither of the two has a message of its own. Every other
/// marker is published under `laundry-machine/` and its name, with its value
/// as JSON text. The time that remains comes first; the markers follow in
/// the order of the readings.
pub fn build_messages(decoded: &Readings) -> (messages: Vec<PublishMessage>)
    ensures
        message_views(messages@) == messages_for(decoded@),
{
    let seconds = seconds_remaining(decoded);
    let paired = seconds.is_some();
    let mut messages: Vec<PublishMessage> = Vec::new();
    if let Some(s) = seconds {
        messages.push(
            PublishMessage {
                topic: String::from_str("laundry-machine/time-remaining"),
                payload: decimal_string(s),
            },
        );
    }
    let ghost head = message_views(messages@);
    let mut i: usize = 0;
    while i < decoded.entries.len()
        invariant
            i <= decoded.entries.len(),
            message_views(messages@) == head + marker_messages(
                if paired {
                    untimed(decoded@.take(i as int))
                } else {
                    decoded@.take(i as int)
                },
            ),
        decreases decoded.entries.len() - i,
    {
        proof {
            assert(decoded@.take(i as int + 1) == decoded@.take(i as int).push(decoded@[i as int]));
            lemma_untimed_push(decoded@.take(i as int), decoded@[i as int]);
        }
        let name = &decoded.entries[i].0;
        let value = &decoded.entries[i].1;
        if !(paired && names_time(name)) {
            let ghost before = message_views(messages@);
            let message = marker_message(name, value);
            messages.push(message);
            assert(message_views(messages@) == before.push(message_of(decoded@[i as int])));
        }
        i += 1;
    }
    assert(decoded@.take(i as int) == decoded@);
    messages
}

} // verus!
