//! Events: what a sink receives, and how an event's fields are collected.
use crate::json::{
    bool_value, compact_text, decimal, display, i64_value, into_text, json_of, json_text, map_insert, map_is_empty,
    map_new, members_of, text_value, u64_value, Json,
};
use crate::pairs::{copy_of, find, lemma_first_index, lookup, pairs_of, Pairs};
use vstd::prelude::*;
use vstd::std_specs::iter::IteratorSpec;

verus! {

/// `std::time::SystemTime`, carried through as it is.
#[verifier::external_type_specification]
#[verifier::external_body]
pub struct ExSystemTime(std::time::SystemTime);

/// `tracing::Level`, carried through as it is.
#[verifier::external_type_specification]
#[verifier::external_body]
pub struct ExLevel(tracing::Level);

/// One event, as a sink receives it.
pub struct StructuredEvent<'a> {
    /// When the event was logged.
    pub timestamp: std::time::SystemTime,
    /// The level at which it was logged.
    pub level: tracing::Level,
    /// Its message; empty where it has none.
    pub message: &'a str,
    /// Its fields other than the message.
    pub fields: &'a serde_json::Map<String, serde_json::Value>,
    /// The correlated fields of the spans around it.
    pub correlation: &'a CorrelationFields,
}

impl<'a> StructuredEvent<'a> {
    /// The event's fields, where it has any.
    pub fn payload(&self) -> (payload: Option<&serde_json::Map<String, serde_json::Value>>)
        ensures
            match payload {
                Some(fields) => fields == self.fields && exists|name: Seq<char>|
                    members_of(*self.fields).contains_key(name),
                None => forall|name: Seq<char>| !members_of(*self.fields).contains_key(name),
            },
    {
        if map_is_empty(self.fields) {
            None
        } else {
            proof {
                let members = members_of(*self.fields);
                if forall|name: Seq<char>| !members.contains_key(name) {
                    assert(members == Map::<Seq<char>, Json>::empty());
                }
            }
            Some(self.fields)
        }
    }
}

/// Where events go.
pub trait EventSink: Send + Sync + 'static {
    /// The events that may be handed to the sink: all of them, unless it says otherwise. Who
    /// hands over an event has to show that it is one of these.
    open spec fn admits(&self, event: StructuredEvent<'_>) -> bool {
        true
    }

    /// Takes one event.
    fn emit(&self, event: &StructuredEvent<'_>)
        requires
            self.admits(*event),
    ;
}

/// `sink` has taken `event`: a call of its `emit` with that event has returned. It tells neither
/// when nor how often.
pub open spec fn emitted<K: EventSink>(sink: K, event: StructuredEvent<'_>) -> bool {
    call_ensures(K::emit, (&sink, &event), ())
}

/// The correlated fields of an event, in the order in which its spans gave them.
#[derive(Debug)]
pub struct CorrelationFields {
    /// The names of the fields with their values.
    pub values: Vec<(&'static str, String)>,
}

impl View for CorrelationFields {
    type V = Pairs;

    open spec fn view(&self) -> Pairs {
        pairs_of(self.values@)
    }
}

impl Clone for CorrelationFields {
    fn clone(&self) -> (copy: Self)
        ensures
            copy@ == self@,
            copy.values@.len() == self.values@.len(),
            forall|i: int|
                0 <= i < self.values@.len() ==> (#[trigger] copy.values@[i]).0@ == self.values@[i].0@
                    && copy.values@[i].1@ == self.values@[i].1@,
    {
        CorrelationFields { values: copy_of(&self.values) }
    }
}

impl Default for CorrelationFields {
    fn default() -> (fields: Self)
        ensures
            fields@ == Pairs::empty(),
            fields.values@.len() == 0,
    {
        CorrelationFields { values: Vec::new() }
    }
}

impl CorrelationFields {
    /// The value of the field `name`: the first one, if there are more.
    pub fn get(&self, name: &str) -> (value: Option<&str>)
        ensures
            match value {
                Some(text) => lookup(self@, name@) == Some(text@),
                None => lookup(self@, name@) is None,
            },
            match value {
                Some(text) => exists|at: int|
                    {
                        &&& 0 <= at < self.values@.len()
                        &&& (#[trigger] self.values@[at]).0@ == name@
                        &&& self.values@[at].1@ == text@
                        &&& forall|i: int| 0 <= i < at ==> (#[trigger] self.values@[i]).0@ != name@
                    },
                None => forall|i: int|
                    0 <= i < self.values@.len() ==> (#[trigger] self.values@[i]).0@ != name@,
            },
    {
        let index: usize = find(&self.values, name);
        proof {
            lemma_first_index(self@, name@);
            assert forall|i: int| 0 <= i < index implies (#[trigger] self.values@[i]).0@ != name@ by {
                assert(self@[i].0 != name@);
            }
        }
        if index < self.values.len() {
            Some(self.values[index].1.as_str())
        } else {
            None
        }
    }

    /// The names and values of all fields, in order.
    pub fn iter(&self) -> (fields: std::vec::IntoIter<(&'static str, &str)>)
        ensures
            IteratorSpec::remaining(&fields).len() == self@.len(),
            forall|i: int|
                0 <= i < self@.len() ==> (#[trigger] IteratorSpec::remaining(&fields)[i]).0@
                    == self@[i].0 && IteratorSpec::remaining(&fields)[i].1@ == self@[i].1,
            IteratorSpec::remaining(&fields).len() == self.values@.len(),
            forall|i: int|
                0 <= i < self.values@.len() ==> (#[trigger] IteratorSpec::remaining(&fields)[i]).0@
                    == self.values@[i].0@ && IteratorSpec::remaining(&fields)[i].1@
                    == self.values@[i].1@,
            IteratorSpec::initial_value_relation(&fields, &fields),
            IteratorSpec::decrease(&fields) is Some,
    {
        let mut fields: Vec<(&'static str, &str)> = Vec::new();
        let mut index: usize = 0;
        while index < self.values.len()
            invariant
                index <= self.values@.len(),
                fields@.len() == index,
                forall|i: int|
                    0 <= i < index ==> (#[trigger] fields@[i]).0@ == self.values@[i].0@
                        && fields@[i].1@ == self.values@[i].1@,
            decreases self.values@.len() - index,
        {
            fields.push((self.values[index].0, self.values[index].1.as_str()));
            index = index + 1;
        }
        fields.into_iter()
    }

    /// Whether there are no fields.
    pub fn is_empty(&self) -> (empty: bool)
        ensures
            empty == (self@.len() == 0),
            empty == (self.values@.len() == 0),
    {
        self.values.is_empty()
    }
}

/// What has been collected of an event.
#[verifier::ext_equal]
pub struct Collected {
    /// The message.
    pub message: Seq<char>,
    /// The other fields.
    pub fields: Map<Seq<char>, Json>,
}

/// A value as a message: a string as it is, any other value as JSON text.
pub open spec fn message_text(value: Json) -> Seq<char> {
    match value {
        Json::Text(text) => text,
        _ => json_text(value),
    }
}

/// `event` after the field `name` with `value`: the field `message` becomes the message, any
/// other field is kept under its name.
pub open spec fn collect(event: Collected, name: Seq<char>, value: Json) -> Collected {
    if name == "message"@ {
        Collected { message: message_text(value), fields: event.fields }
    } else {
        Collected { message: event.message, fields: event.fields.insert(name, value) }
    }
}

/// `event` after all of `fields`, one after the other.
pub open spec fn collect_all(event: Collected, fields: Seq<(Seq<char>, Json)>) -> Collected
    decreases fields.len(),
{
    if fields.len() == 0 {
        event
    } else {
        let (name, value) = fields.last();
        collect(collect_all(event, fields.drop_last()), name, value)
    }
}

/// The value that the field `name` has last in `fields`.
pub open spec fn last_json(fields: Seq<(Seq<char>, Json)>, name: Seq<char>) -> Option<Json>
    decreases fields.len(),
{
    if fields.len() == 0 {
        None
    } else if fields.last().0 == name {
        Some(fields.last().1)
    } else {
        last_json(fields.drop_last(), name)
    }
}

/// Collects the fields of an event.
pub struct EventVisitor {
    /// The message so far.
    pub message: String,
    /// The other fields so far.
    pub fields: serde_json::Map<String, serde_json::Value>,
}

impl View for EventVisitor {
    type V = Collected;

    open spec fn view(&self) -> Collected {
        Collected { message: self.message@, fields: members_of(self.fields) }
    }
}

impl EventVisitor {
    /// The message is kept apart from the other fields.
    pub open spec fn wf(&self) -> bool {
        !self@.fields.contains_key("message"@)
    }

    /// A visitor that has collected nothing.
    pub fn new() -> (visitor: Self)
        ensures
            visitor@ == (Collected {
                message: Seq::empty(),
                fields: Map::empty(),
            }),
            visitor.wf(),
            visitor.message@ == Seq::<char>::empty(),
            members_of(visitor.fields) == (Map::<Seq<char>, Json>::empty()),
    {
        EventVisitor { message: String::new(), fields: map_new() }
    }

    /// Collects the field `name`: as the message where that is its name, else as a field.
    pub fn insert(&mut self, name: &str, value: serde_json::Value)
        ensures
            final(self)@ == collect(old(self)@, name@, json_of(value)),
            old(self).wf() ==> final(self).wf(),
            name@ == "message"@ ==> {
                &&& final(self).fields == old(self).fields
                &&& final(self).message@ == match json_of(value) {
                    Json::Text(text) => text,
                    Json::Null => "null"@,
                    Json::Bool(true) => "true"@,
                    Json::Bool(false) => "false"@,
                    Json::Integer(n) => decimal(n),
                    other => compact_text(other),
                }
            },
            name@ != "message"@ ==> {
                &&& final(self).message == old(self).message
                &&& members_of(final(self).fields) == members_of(old(self).fields).insert(
                    name@,
                    json_of(value),
                )
            },
    {
        if *name == *"message" {
            self.message = match into_text(value) {
                Ok(text) => text,
                Err(other) => display(&other),
            };
        } else {
            map_insert(&mut self.fields, name.to_owned(), value);
        }
    }

    /// Collects a field whose value is text.
    pub fn record_str(&mut self, name: &str, value: &str)
        ensures
            final(self)@ == collect(old(self)@, name@, Json::Text(value@)),
            old(self).wf() ==> final(self).wf(),
    {
        self.insert(name, text_value(value.to_owned()));
    }

    /// Collects a field whose value is a signed integer.
    pub fn record_i64(&mut self, name: &str, value: i64)
        ensures
            final(self)@ == collect(old(self)@, name@, Json::Integer(value as int)),
            old(self).wf() ==> final(self).wf(),
    {
        self.insert(name, i64_value(value));
    }

    /// Collects a field whose value is an unsigned integer.
    pub fn record_u64(&mut self, name: &str, value: u64)
        ensures
            final(self)@ == collect(old(self)@, name@, Json::Integer(value as int)),
            old(self).wf() ==> final(self).wf(),
    {
        self.insert(name, u64_value(value));
    }

    /// Collects a field whose value is a truth value.
    pub fn record_bool(&mut self, name: &str, value: bool)
        ensures
            final(self)@ == collect(old(self)@, name@, Json::Bool(value)),
            old(self).wf() ==> final(self).wf(),
    {
        self.insert(name, bool_value(value));
    }

    /// Collects a field whose value is a number in floating point, given as the JSON value that
    /// holds it; a number that JSON cannot hold is given as `None`, and its field is left out.
    pub fn record_f64(&mut self, name: &str, value: Option<serde_json::Value>)
        ensures
            match value {
                Some(number) => final(self)@ == collect(old(self)@, name@, json_of(number)),
                None => *final(self) == *old(self),
            },
            old(self).wf() ==> final(self).wf(),
    {
        if let Some(number) = value {
            self.insert(name, number);
        }
    }

    /// Collects a field by the text with which its value describes itself.
    pub fn record_debug(&mut self, name: &str, description: String)
        ensures
            final(self)@ == collect(old(self)@, name@, Json::Text(description@)),
            old(self).wf() ==> final(self).wf(),
    {
        self.insert(name, text_value(description));
    }
}

/// The last write wins: after any fields, the message is that of the last field `message`, and
/// every other name has the value that it was given last. What no field names stays as it was.
pub proof fn law_last_write_wins(
    event: Collected,
    fields: Seq<(Seq<char>, Json)>,
    name: Seq<char>,
)
    ensures
        collect_all(event, fields).message == (match last_json(fields, "message"@) {
            Some(value) => message_text(value),
            None => event.message,
        }),
        name != "message"@ ==> (match last_json(fields, name) {
            Some(value) => collect_all(event, fields).fields.contains_pair(name, value),
            None => {
                &&& collect_all(event, fields).fields.contains_key(name)
                    == event.fields.contains_key(name)
                &&& collect_all(event, fields).fields[name] == event.fields[name]
            },
        }),
    decreases fields.len(),
{
    if fields.len() > 0 {
        law_last_write_wins(event, fields.drop_last(), name);
    }
}

/// The message is never among the other fields, whatever is collected.
pub proof fn law_message_is_kept_apart(event: Collected, fields: Seq<(Seq<char>, Json)>)
    requires
        !event.fields.contains_key("message"@),
    ensures
        !collect_all(event, fields).fields.contains_key("message"@),
    decreases fields.len(),
{
    if fields.len() > 0 {
        law_message_is_kept_apart(event, fields.drop_last());
    }
}

/// What is seen of correlated fields is all their names and values, in order.
pub proof fn law_correlation_is_what_it_holds(fields: CorrelationFields)
    ensures
        fields@.len() == fields.values@.len(),
        forall|i: int|
            0 <= i < fields.values@.len() ==> (#[trigger] fields@[i]).0 == fields.values@[i].0@
                && fields@[i].1 == fields.values@[i].1@,
{
}

/// What is seen of a visitor is its whole message and all its fields.
pub proof fn law_visitor_is_what_it_holds(visitor: EventVisitor)
    ensures
        visitor@.message == visitor.message@,
        visitor@.fields == members_of(visitor.fields),
        visitor.wf() == !members_of(visitor.fields).contains_key("message"@),
{
}

/// `emitted` means that the sink's own `emit` was called with the event.
pub proof fn law_emitted_means_called<K: EventSink>(sink: K, event: StructuredEvent<'_>)
    ensures
        emitted(sink, event) <==> call_ensures(K::emit, (&sink, &event), ()),
{
}

/// A message that is given as text is kept whole, character for character, and the fields stay.
pub proof fn law_text_messages_are_kept_whole(event: Collected, text: Seq<char>)
    ensures
        collect(event, "message"@, Json::Text(text)).message == text,
        collect(event, "message"@, Json::Text(text)).fields == event.fields,
        message_text(Json::Text(text)) == text,
{
}

/// A message that is given as anything but text is that value's JSON text, and the fields stay.
pub proof fn law_other_messages_are_json_text(event: Collected, value: Json)
    requires
        !(value is Text),
    ensures
        collect(event, "message"@, value).message == match value {
            Json::Null => "null"@,
            Json::Bool(true) => "true"@,
            Json::Bool(false) => "false"@,
            Json::Integer(n) => decimal(n),
            _ => compact_text(value),
        },
        collect(event, "message"@, value).fields == event.fields,
{
}

/// A field that is not the message is kept under its name with its value as it is; the message
/// and every other field stay.
pub proof fn law_fields_are_kept_as_they_are(
    event: Collected,
    name: Seq<char>,
    value: Json,
    other: Seq<char>,
)
    requires
        name != "message"@,
    ensures
        collect(event, name, value).message == event.message,
        collect(event, name, value).fields.contains_pair(name, value),
        other != name ==> {
            &&& collect(event, name, value).fields.contains_key(other)
                == event.fields.contains_key(other)
            &&& collect(event, name, value).fields[other] == event.fields[other]
        },
{
}

/// Collecting no field changes nothing; collecting one field more is collecting it last.
pub proof fn law_fields_are_collected_in_turn(
    event: Collected,
    fields: Seq<(Seq<char>, Json)>,
    name: Seq<char>,
    value: Json,
)
    ensures
        collect_all(event, Seq::empty()) == event,
        collect_all(event, fields.push((name, value))) == collect(
            collect_all(event, fields),
            name,
            value,
        ),
{
    assert(fields.push((name, value)).drop_last() == fields);
}

/// After any fields, the one at `index` is what counts if no later one has its name: its text is
/// the message where it is called `message`, else its value is kept under its name.
pub proof fn law_the_last_field_of_a_name_counts(
    event: Collected,
    fields: Seq<(Seq<char>, Json)>,
    index: int,
)
    requires
        0 <= index < fields.len(),
        forall|i: int| index < i < fields.len() ==> (#[trigger] fields[i]).0 != fields[index].0,
    ensures
        fields[index].0 == "message"@ ==> (fields[index].1 matches Json::Text(text) ==> collect_all(
            event,
            fields,
        ).message == text),
        fields[index].0 != "message"@ ==> collect_all(event, fields).fields.contains_pair(
            fields[index].0,
            fields[index].1,
        ),
    decreases fields.len(),
{
    if index < fields.len() - 1 {
        let before = fields.drop_last();
        assert(fields[fields.len() - 1].0 != fields[index].0);
        assert forall|i: int| index < i < before.len() implies (#[trigger] before[i]).0
            != before[index].0 by {
            assert(fields[i].0 != fields[index].0);
        }
        law_the_last_field_of_a_name_counts(event, before, index);
    }
}

} // verus!
