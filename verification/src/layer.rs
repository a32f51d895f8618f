//! The correlation layer: which span fields are remembered, and how events get them.
use crate::event::{emitted, CorrelationFields, EventSink, EventVisitor, StructuredEvent};
use crate::json::members_of;
use crate::pairs::{
    copy_of, find, first_index, law_upsert_keeps_names, law_upsert_sets_one_name, lemma_first_index,
    lemma_is_first_index, lookup, names_within, pairs_of, texts_of, unique_names, upsert, Pairs,
};
use crate::text::{trim_quotes, unquoted};
use vstd::prelude::*;

verus! {

/// Hands events to a sink together with the correlated fields of the spans around them.
pub struct CorrelationLayer<K> {
    sink: K,
    correlate: Vec<&'static str>,
}

impl<K> CorrelationLayer<K> {
    /// The sink.
    pub closed spec fn sink(&self) -> K {
        self.sink
    }

    /// The names of the correlated fields.
    pub closed spec fn names(&self) -> Seq<Seq<char>> {
        texts_of(self.correlate@)
    }

    /// A layer that correlates no fields.
    pub fn new(sink: K) -> (layer: Self)
        ensures
            layer.sink() == sink,
            layer.names() == Seq::<Seq<char>>::empty(),
    {
        CorrelationLayer { sink, correlate: Vec::new() }
    }

    /// The layer, with the field `name` correlated too.
    pub fn correlate(self, name: &'static str) -> (layer: Self)
        ensures
            layer.sink() == self.sink(),
            layer.names() == self.names().push(name@),
    {
        let mut layer = self;
        layer.correlate.push(name);
        layer
    }

    /// The layer, with each of the fields `names` correlated too.
    pub fn correlate_all(self, names: Vec<&'static str>) -> (layer: Self)
        ensures
            layer.sink() == self.sink(),
            layer.names() == self.names() + texts_of(names@),
    {
        let mut layer = self;
        let mut names = names;
        layer.correlate.append(&mut names);
        layer
    }
}

/// What a span remembers: its correlated fields, in the order in which they first came.
pub struct SpanState {
    /// The names of the fields with their values.
    pub values: Vec<(&'static str, String)>,
}

impl View for SpanState {
    type V = Pairs;

    open spec fn view(&self) -> Pairs {
        pairs_of(self.values@)
    }
}

impl Clone for SpanState {
    fn clone(&self) -> (copy: Self)
        ensures
            copy@ == self@,
            copy.values@.len() == self.values@.len(),
            forall|i: int|
                0 <= i < self.values@.len() ==> (#[trigger] copy.values@[i]).0@ == self.values@[i].0@
                    && copy.values@[i].1@ == self.values@[i].1@,
    {
        SpanState { values: copy_of(&self.values) }
    }
}

impl Default for SpanState {
    fn default() -> (state: Self)
        ensures
            state@ == Pairs::empty(),
            state.values@.len() == 0,
    {
        SpanState { values: Vec::new() }
    }
}

/// `pairs` after the field `name` with `value`: set where the name is one of `wanted`.
pub open spec fn captured(
    wanted: Seq<Seq<char>>,
    pairs: Pairs,
    name: Seq<char>,
    value: Seq<char>,
) -> Pairs {
    if wanted.contains(name) {
        upsert(pairs, name, value)
    } else {
        pairs
    }
}

/// `pairs` after all of `fields`, one after the other.
pub open spec fn captured_all(wanted: Seq<Seq<char>>, pairs: Pairs, fields: Pairs) -> Pairs
    decreases fields.len(),
{
    if fields.len() == 0 {
        pairs
    } else {
        let (name, value) = fields.last();
        captured(wanted, captured_all(wanted, pairs, fields.drop_last()), name, value)
    }
}

/// The value that the field `name` has last in `fields`.
pub open spec fn last_text(fields: Pairs, name: Seq<char>) -> Option<Seq<char>>
    decreases fields.len(),
{
    if fields.len() == 0 {
        None
    } else if fields.last().0 == name {
        Some(fields.last().1)
    } else {
        last_text(fields.drop_last(), name)
    }
}

/// Records the fields of a span in what the span remembers. It works on the same memory from
/// beginning to end: what `out` holds when the visitor is done is what the span keeps.
pub struct CorrelationVisitor<'a> {
    /// The names of the correlated fields.
    pub wanted: &'a [&'static str],
    /// What the span remembers.
    pub out: &'a mut Vec<(&'static str, String)>,
}

impl<'a> View for CorrelationVisitor<'a> {
    type V = Pairs;

    open spec fn view(&self) -> Pairs {
        pairs_of(self.out@)
    }
}

impl<'a> CorrelationVisitor<'a> {
    /// The names of the correlated fields.
    pub open spec fn names(&self) -> Seq<Seq<char>> {
        texts_of(self.wanted@)
    }

    /// Records the field `name` if it is correlated, with the text that `value` gives. A field
    /// that has come before keeps its place. For a field that is not correlated `value` is not
    /// asked.
    pub fn capture<F: FnOnce() -> String>(&mut self, name: &str, value: F)
        requires
            old(self).names().contains(name@) ==> value.requires(()),
        ensures
            final(self).wanted == old(self).wanted,
            *final(final(self).out) == *final(old(self).out),
            if old(self).names().contains(name@) {
                exists|text: String| #[trigger]
                    value.ensures((), text) && final(self)@ == upsert(old(self)@, name@, text@)
            } else {
                final(self).out@ == old(self).out@
            },
    {
        let mut place: usize = 0;
        while place < self.wanted.len() && !(*self.wanted[place] == *name)
            invariant
                place <= self.wanted@.len(),
                forall|i: int| 0 <= i < place ==> #[trigger] self.names()[i] != name@,
            decreases self.wanted@.len() - place,
        {
            place = place + 1;
        }
        if place < self.wanted.len() {
            let key: &'static str = self.wanted[place];
            assert(self.names()[place as int] == name@);
            let text = value();
            let index: usize = find(self.out, key);
            if index < self.out.len() {
                self.out.set(index, (key, text));
            } else {
                self.out.push((key, text));
            }
            assert(value.ensures((), text));
            assert(self@ == upsert(old(self)@, name@, text@));
        }
    }

    /// Records a field whose value is text.
    pub fn record_str(&mut self, name: &str, value: &str)
        ensures
            final(self).wanted == old(self).wanted,
            *final(final(self).out) == *final(old(self).out),
            final(self)@ == captured(old(self).names(), old(self)@, name@, value@),
    {
        let text = || -> (text: String)
            ensures
                text@ == value@,
            { value.to_owned() };
        self.capture(name, text);
    }

    /// Records a field by the text with which its value describes itself, without the double
    /// quotes around it. The value of a field that is not correlated is not asked for its text.
    pub fn record_debug<F: FnOnce() -> String>(&mut self, name: &str, describe: F)
        requires
            old(self).names().contains(name@) ==> describe.requires(()),
        ensures
            final(self).wanted == old(self).wanted,
            *final(final(self).out) == *final(old(self).out),
            if old(self).names().contains(name@) {
                exists|text: String| #[trigger]
                    describe.ensures((), text) && final(self)@ == upsert(
                        old(self)@,
                        name@,
                        unquoted(text@),
                    )
            } else {
                final(self).out@ == old(self).out@
            },
    {
        let text = move || -> (text: String)
            requires
                describe.requires(()),
            ensures
                exists|quoted: String| #[trigger]
                    describe.ensures((), quoted) && text@ == unquoted(quoted@),
            { trim_quotes(describe().as_str()) };
        self.capture(name, text);
    }
}

/// What the spans of `scope` remember.
pub open spec fn spans_of(scope: Seq<Option<SpanState>>) -> Seq<Option<Pairs>> {
    scope.map_values(|state: Option<SpanState>|
        match state {
            Some(state) => Some(state@),
            None => None,
        })
}

/// `pairs` with those fields of a span further in whose names it does not have yet.
pub open spec fn inherited(pairs: Pairs, span: Pairs) -> Pairs
    decreases span.len(),
{
    if span.len() == 0 {
        pairs
    } else {
        let before = inherited(pairs, span.drop_last());
        if lookup(before, span.last().0) is None {
            before.push(span.last())
        } else {
            before
        }
    }
}

/// The correlated fields of an event: those of the spans around it, from the outermost in. A
/// span may remember nothing.
pub open spec fn correlated(spans: Seq<Option<Pairs>>) -> Pairs
    decreases spans.len(),
{
    if spans.len() == 0 {
        Pairs::empty()
    } else {
        match spans.last() {
            Some(span) => inherited(correlated(spans.drop_last()), span),
            None => correlated(spans.drop_last()),
        }
    }
}

impl CorrelationFields {
    /// Adds those fields of `state` whose names are not there yet.
    fn inherit(&mut self, state: &SpanState)
        ensures
            final(self)@ == inherited(old(self)@, state@),
    {
        let mut index: usize = 0;
        assert(state@.take(0) == Pairs::empty());
        while index < state.values.len()
            invariant
                index <= state.values@.len(),
                self@ == inherited(old(self)@, state@.take(index as int)),
            decreases state.values@.len() - index,
        {
            let ghost before = self@;
            if self.get(state.values[index].0).is_none() {
                self.values.push((state.values[index].0, state.values[index].1.clone()));
                assert(self@ == before.push(state@[index as int]));
            }
            index = index + 1;
            assert(state@.take(index as int).drop_last() == state@.take(index - 1));
        }
        assert(state@.take(index as int) == state@);
    }
}

/// Collects the correlated fields of an event from `scope`: what the spans around it remember,
/// the outermost first.
pub fn correlation_of(scope: &[Option<SpanState>]) -> (correlation: CorrelationFields)
    ensures
        correlation@ == correlated(spans_of(scope@)),
{
    let mut correlation = CorrelationFields::default();
    let mut index: usize = 0;
    let ghost spans = spans_of(scope@);
    assert(spans.take(0) == Seq::<Option<Pairs>>::empty());
    while index < scope.len()
        invariant
            index <= scope@.len(),
            spans == spans_of(scope@),
            correlation@ == correlated(spans.take(index as int)),
        decreases scope@.len() - index,
    {
        if let Some(state) = &scope[index] {
            correlation.inherit(state);
        }
        index = index + 1;
        assert(spans.take(index as int).drop_last() == spans.take(index - 1));
    }
    assert(spans.take(index as int) == spans);
    correlation
}

impl<K> CorrelationLayer<K> {
    /// Begins the memory of a new span. The visitor is to be given the span's fields.
    pub fn on_new_span<'a>(&'a self, state: &'a mut SpanState) -> (visitor: CorrelationVisitor<'a>)
        ensures
            visitor.names() == self.names(),
            visitor@ == Pairs::empty(),
            visitor.out@.len() == 0,
            final(state).values == *final(visitor.out),
    {
        *state = SpanState::default();
        self.on_record(state)
    }

    /// Goes on with the memory of a span. The visitor is to be given the fields that come later.
    pub fn on_record<'a>(&'a self, state: &'a mut SpanState) -> (visitor: CorrelationVisitor<'a>)
        ensures
            visitor.names() == self.names(),
            *visitor.out == old(state).values,
            final(state).values == *final(visitor.out),
    {
        CorrelationVisitor { wanted: self.correlate.as_slice(), out: &mut state.values }
    }
}

/// `structured` is the event of this time and level of which `event` was collected, inside the
/// spans of `scope`.
pub open spec fn describes(
    structured: StructuredEvent<'_>,
    timestamp: std::time::SystemTime,
    level: tracing::Level,
    event: EventVisitor,
    scope: Seq<Option<SpanState>>,
) -> bool {
    &&& structured.timestamp == timestamp
    &&& structured.level == level
    &&& structured.message@ == event.message@
    &&& *structured.fields == event.fields
    &&& structured.correlation@ == correlated(spans_of(scope))
}

/// Puts an event together and hands it to `emit`. What `emit` gets is that event and no other,
/// since no other need be one that it takes; and it gets it once, since it can be called but
/// once.
pub fn deliver<F: FnOnce(&StructuredEvent<'_>)>(
    timestamp: std::time::SystemTime,
    level: tracing::Level,
    event: &EventVisitor,
    scope: &[Option<SpanState>],
    emit: F,
)
    requires
        forall|structured: StructuredEvent<'_>|
            describes(structured, timestamp, level, *event, scope@) ==> #[trigger] emit.requires(
                (&structured,),
            ),
    ensures
        exists|structured: StructuredEvent<'_>|
            describes(structured, timestamp, level, *event, scope@) && #[trigger] emit.ensures(
                (&structured,),
                (),
            ),
{
    let correlation = correlation_of(scope);
    let structured = StructuredEvent {
        timestamp,
        level,
        message: event.message.as_str(),
        fields: &event.fields,
        correlation: &correlation,
    };
    assert(describes(structured, timestamp, level, *event, scope@));
    emit(&structured);
    assert(emit.ensures((&structured,), ()));
}

/// Puts an event together and hands it to `emit`, together with `sink`. Both are given away, so
/// that this event is handed over once.
pub fn deliver_to<S, F: FnOnce(S, &StructuredEvent<'_>)>(
    timestamp: std::time::SystemTime,
    level: tracing::Level,
    event: &EventVisitor,
    scope: &[Option<SpanState>],
    sink: S,
    emit: F,
)
    requires
        forall|structured: StructuredEvent<'_>|
            describes(structured, timestamp, level, *event, scope@) ==> #[trigger] emit.requires(
                (sink, &structured),
            ),
    ensures
        exists|structured: StructuredEvent<'_>|
            describes(structured, timestamp, level, *event, scope@) && #[trigger] emit.ensures(
                (sink, &structured),
                (),
            ),
{
    let hand_over = move |structured: &StructuredEvent<'_>|
        requires
            emit.requires((sink, structured)),
        ensures
            emit.ensures((sink, structured), ()),
        { emit(sink, structured) };
    deliver(timestamp, level, event, scope, hand_over);
}

impl<K: EventSink> CorrelationLayer<K> {
    /// Hands an event to the sink: its time and level, what was collected of it, and the
    /// correlated fields of the spans around it. `scope` holds what those spans remember, the
    /// outermost first, and `None` for a span that the layer has not seen. Nothing but this event
    /// is handed to the sink: of no other is it known that the sink admits it. [`deliver_to`]
    /// gets the sink's `emit` and hands the event over, once.
    pub fn on_event(
        &self,
        timestamp: std::time::SystemTime,
        level: tracing::Level,
        event: &EventVisitor,
        scope: &[Option<SpanState>],
    )
        requires
            forall|structured: StructuredEvent<'_>|
                describes(structured, timestamp, level, *event, scope@)
                    ==> #[trigger] self.sink().admits(structured),
        ensures
            exists|structured: StructuredEvent<'_>|
                {
                    &&& describes(structured, timestamp, level, *event, scope@)
                    &&& #[trigger] emitted(self.sink(), structured)
                    &&& call_ensures(K::emit, (&self.sink(), &structured), ())
                },
    {
        deliver_to(timestamp, level, event, scope, &self.sink, K::emit);
        proof {
            let structured = choose|structured: StructuredEvent<'_>|
                describes(structured, timestamp, level, *event, scope@) && #[trigger] call_ensures(
                    K::emit,
                    (&self.sink, &structured),
                    (),
                );
            assert(emitted(self.sink(), structured));
        }
    }
}

/// Within a span the last value wins: after any fields, a correlated name has the value that it
/// was given last, and keeps the one it had where it was given none. A name that is not
/// correlated is not touched.
pub proof fn law_last_recorded_value_wins(
    wanted: Seq<Seq<char>>,
    pairs: Pairs,
    fields: Pairs,
    name: Seq<char>,
)
    ensures
        lookup(captured_all(wanted, pairs, fields), name) == (match last_text(fields, name) {
            Some(value) if wanted.contains(name) => Some(value),
            _ => lookup(pairs, name),
        }),
    decreases fields.len(),
{
    if fields.len() > 0 {
        let before = captured_all(wanted, pairs, fields.drop_last());
        law_last_recorded_value_wins(wanted, pairs, fields.drop_last(), name);
        law_upsert_sets_one_name(before, fields.last().0, fields.last().1, name);
    }
}

/// A span remembers no name twice, and no name that is not correlated.
pub proof fn law_spans_remember_correlated_names_once(
    wanted: Seq<Seq<char>>,
    pairs: Pairs,
    fields: Pairs,
)
    requires
        unique_names(pairs),
        names_within(pairs, wanted),
    ensures
        unique_names(captured_all(wanted, pairs, fields)),
        names_within(captured_all(wanted, pairs, fields), wanted),
    decreases fields.len(),
{
    if fields.len() > 0 {
        let before = captured_all(wanted, pairs, fields.drop_last());
        law_spans_remember_correlated_names_once(wanted, pairs, fields.drop_last());
        if wanted.contains(fields.last().0) {
            law_upsert_keeps_names(before, fields.last().0, fields.last().1, wanted);
        }
    }
}

/// A name keeps the place at which it first came: recording never moves or removes a name.
pub proof fn law_names_keep_their_places(wanted: Seq<Seq<char>>, pairs: Pairs, fields: Pairs)
    ensures
        captured_all(wanted, pairs, fields).len() >= pairs.len(),
        forall|i: int|
            0 <= i < pairs.len() ==> (#[trigger] captured_all(wanted, pairs, fields)[i]).0
                == pairs[i].0,
    decreases fields.len(),
{
    if fields.len() > 0 {
        let before = captured_all(wanted, pairs, fields.drop_last());
        law_names_keep_their_places(wanted, pairs, fields.drop_last());
        lemma_first_index(before, fields.last().0);
    }
}

/// Fields that are recorded later count as if they had come with the span: recording in two
/// parts gives what recording all at once gives.
pub proof fn law_late_fields_count_alike(
    wanted: Seq<Seq<char>>,
    pairs: Pairs,
    early: Pairs,
    late: Pairs,
)
    ensures
        captured_all(wanted, captured_all(wanted, pairs, early), late) == captured_all(
            wanted,
            pairs,
            early + late,
        ),
    decreases late.len(),
{
    if late.len() == 0 {
        assert(early + late == early);
    } else {
        law_late_fields_count_alike(wanted, pairs, early, late.drop_last());
        assert((early + late).drop_last() == early + late.drop_last());
    }
}

/// `names` with each of `more` added at the end, one after the other.
pub open spec fn added_each(names: Seq<Seq<char>>, more: Seq<Seq<char>>) -> Seq<Seq<char>>
    decreases more.len(),
{
    if more.len() == 0 {
        names
    } else {
        added_each(names, more.drop_last()).push(more.last())
    }
}

/// To correlate names all at once is to correlate them one after the other.
pub proof fn law_correlating_all_is_correlating_each(
    names: Seq<Seq<char>>,
    more: Seq<Seq<char>>,
)
    ensures
        added_each(names, more) == names + more,
    decreases more.len(),
{
    if more.len() == 0 {
        assert(names + more == names);
    } else {
        law_correlating_all_is_correlating_each(names, more.drop_last());
        assert((names + more.drop_last()).push(more.last()) == names + more);
    }
}

/// It does not matter in which order, or how often, a name was correlated: what a span
/// remembers depends only on which names were.
pub proof fn law_only_the_set_of_names_counts(
    names: Seq<Seq<char>>,
    others: Seq<Seq<char>>,
    pairs: Pairs,
    fields: Pairs,
)
    requires
        names.to_set() == others.to_set(),
    ensures
        captured_all(names, pairs, fields) == captured_all(others, pairs, fields),
    decreases fields.len(),
{
    if fields.len() > 0 {
        law_only_the_set_of_names_counts(names, others, pairs, fields.drop_last());
        let name = fields.last().0;
        assert(names.to_set().contains(name) == others.to_set().contains(name));
        assert(names.contains(name) == names.to_set().contains(name));
        assert(others.contains(name) == others.to_set().contains(name));
    }
}

/// Fields that are not correlated change nothing: without them a span remembers the same.
pub proof fn law_other_fields_change_nothing(wanted: Seq<Seq<char>>, pairs: Pairs, fields: Pairs)
    ensures
        captured_all(wanted, pairs, fields) == captured_all(
            wanted,
            pairs,
            fields.filter(|field: (Seq<char>, Seq<char>)| wanted.contains(field.0)),
        ),
    decreases fields.len(),
{
    let correlated_field = |field: (Seq<char>, Seq<char>)| wanted.contains(field.0);
    reveal(Seq::filter);
    if fields.len() > 0 {
        law_other_fields_change_nothing(wanted, pairs, fields.drop_last());
        let kept = fields.drop_last().filter(correlated_field);
        if wanted.contains(fields.last().0) {
            assert(kept.push(fields.last()).drop_last() == kept);
        }
    }
}

proof fn lemma_lookup_push(
    pairs: Pairs,
    name: Seq<char>,
    value: Seq<char>,
    other: Seq<char>,
)
    ensures
        lookup(pairs.push((name, value)), other) == (match lookup(pairs, other) {
            Some(first) => Some(first),
            None => if other == name {
                Some(value)
            } else {
                None
            },
        }),
{
    let after = pairs.push((name, value));
    let at = first_index(pairs, other);
    lemma_first_index(pairs, other);
    if at < pairs.len() || other == name {
        lemma_is_first_index(after, other, at);
    } else {
        lemma_is_first_index(after, other, after.len() as int);
    }
}

/// An inner span adds the names that are missing and changes no value that is there.
pub proof fn law_inherited_values(pairs: Pairs, span: Pairs, name: Seq<char>)
    ensures
        lookup(inherited(pairs, span), name) == (match lookup(pairs, name) {
            Some(value) => Some(value),
            None => lookup(span, name),
        }),
    decreases span.len(),
{
    if span.len() > 0 {
        let before = inherited(pairs, span.drop_last());
        let (last_name, last_value) = span.last();
        law_inherited_values(pairs, span.drop_last(), name);
        law_inherited_values(pairs, span.drop_last(), last_name);
        lemma_lookup_push(before, last_name, last_value, name);
        lemma_lookup_push(span.drop_last(), last_name, last_value, name);
        assert(span.drop_last().push(span.last()) == span);
    }
}

/// The fields that an inner span adds stand behind those that are there, in the span's own
/// order.
pub proof fn law_inherited_order(pairs: Pairs, span: Pairs)
    requires
        unique_names(span),
    ensures
        inherited(pairs, span) == pairs + span.filter(
            |field: (Seq<char>, Seq<char>)| lookup(pairs, field.0) is None,
        ),
    decreases span.len(),
{
    let missing = |field: (Seq<char>, Seq<char>)| lookup(pairs, field.0) is None;
    reveal(Seq::filter);
    if span.len() == 0 {
        assert(pairs + span.filter(missing) == pairs);
    } else {
        let (name, value) = span.last();
        law_inherited_order(pairs, span.drop_last());
        law_inherited_values(pairs, span.drop_last(), name);
        lemma_first_index(span.drop_last(), name);
        let added = span.drop_last().filter(missing);
        assert(pairs + added.push(span.last()) == (pairs + added).push(span.last()));
    }
}

/// The outermost span wins: an event's value of a name is that of the first span, from the
/// outermost in, that remembers the name. Where no span remembers it the event has none.
pub proof fn law_outermost_span_wins(spans: Seq<Option<Pairs>>, name: Seq<char>, index: int)
    requires
        0 <= index <= spans.len(),
        forall|i: int|
            0 <= i < index ==> ((#[trigger] spans[i]) matches Some(span) ==> lookup(span, name)
                is None),
        index < spans.len() ==> spans[index] is Some && lookup(spans[index]->Some_0, name) is Some,
    ensures
        lookup(correlated(spans), name) == if index < spans.len() {
            lookup(spans[index]->Some_0, name)
        } else {
            None
        },
    decreases spans.len(),
{
    if spans.len() > 0 {
        let outer = spans.drop_last();
        if index < spans.len() {
            law_outermost_span_wins(outer, name, index);
        } else {
            law_outermost_span_wins(outer, name, index - 1);
        }
        if let Some(span) = spans.last() {
            law_inherited_values(correlated(outer), span, name);
        }
    }
}

proof fn lemma_inherited_names(pairs: Pairs, span: Pairs, names: Seq<Seq<char>>)
    requires
        unique_names(pairs),
    ensures
        unique_names(inherited(pairs, span)),
        names_within(pairs, names) && names_within(span, names) ==> names_within(
            inherited(pairs, span),
            names,
        ),
    decreases span.len(),
{
    if span.len() > 0 {
        let before = inherited(pairs, span.drop_last());
        let name = span.last().0;
        lemma_inherited_names(pairs, span.drop_last(), names);
        lemma_first_index(before, name);
        if names_within(pairs, names) && names_within(span, names) {
            assert forall|i: int| 0 <= i < span.len() - 1 implies names.contains(
                (#[trigger] span.drop_last()[i]).0,
            ) by {
                assert(names.contains(span[i].0));
            }
            assert(names.contains(span[span.len() - 1].0));
        }
    }
}

/// An event has no correlated name twice.
pub proof fn law_events_have_each_name_once(spans: Seq<Option<Pairs>>)
    ensures
        unique_names(correlated(spans)),
    decreases spans.len(),
{
    if spans.len() > 0 {
        law_events_have_each_name_once(spans.drop_last());
        if let Some(span) = spans.last() {
            lemma_inherited_names(correlated(spans.drop_last()), span, Seq::empty());
        }
    }
}

/// Only correlated fields reach an event: where the spans around it remember correlated names
/// alone, it has no others.
pub proof fn law_only_correlated_names_reach_events(
    names: Seq<Seq<char>>,
    spans: Seq<Option<Pairs>>,
)
    requires
        forall|i: int|
            0 <= i < spans.len() ==> ((#[trigger] spans[i]) matches Some(span) ==> names_within(
                span,
                names,
            )),
    ensures
        names_within(correlated(spans), names),
    decreases spans.len(),
{
    if spans.len() > 0 {
        let outer = spans.drop_last();
        assert forall|i: int| 0 <= i < outer.len() implies ((#[trigger] outer[i]) matches Some(span)
            ==> names_within(span, names)) by {
            assert(spans[i] == outer[i]);
        }
        law_only_correlated_names_reach_events(names, outer);
        law_events_have_each_name_once(outer);
        assert(spans[spans.len() - 1] == spans.last());
        if let Some(span) = spans.last() {
            lemma_inherited_names(correlated(outer), span, names);
        }
    }
}

/// What an event gets in the end: for a correlated name, the last value that the outermost span
/// with such a field was given; for any other name, nothing. `fields` holds what each span was
/// given, the outermost first.
pub proof fn law_events_get_the_outermost_last_value(
    names: Seq<Seq<char>>,
    fields: Seq<Pairs>,
    name: Seq<char>,
    index: int,
)
    requires
        0 <= index <= fields.len(),
        forall|i: int| 0 <= i < index ==> last_text(#[trigger] fields[i], name) is None,
        index < fields.len() ==> last_text(fields[index], name) is Some,
    ensures
        lookup(
            correlated(
                fields.map_values(
                    |given: Pairs| Some(captured_all(names, Pairs::empty(), given)),
                ),
            ),
            name,
        ) == if names.contains(name) && index < fields.len() {
            last_text(fields[index], name)
        } else {
            None
        },
{
    let spans = fields.map_values(
        |given: Pairs| Some(captured_all(names, Pairs::empty(), given)),
    );
    assert forall|i: int| 0 <= i < fields.len() implies lookup(
        (#[trigger] spans[i])->Some_0,
        name,
    ) == if names.contains(name) {
        last_text(fields[i], name)
    } else {
        None
    } by {
        law_last_recorded_value_wins(names, Pairs::empty(), fields[i], name);
    }
    law_outermost_span_wins(
        spans,
        name,
        if names.contains(name) {
            index
        } else {
            fields.len() as int
        },
    );
}

/// Every event that is handed to a sink has each correlated name once, and no other names, where
/// the spans around it remember correlated names alone.
pub proof fn law_delivered_events_name_correlated_fields_once(
    structured: StructuredEvent<'_>,
    timestamp: std::time::SystemTime,
    level: tracing::Level,
    event: EventVisitor,
    scope: Seq<Option<SpanState>>,
    names: Seq<Seq<char>>,
)
    requires
        describes(structured, timestamp, level, event, scope),
        forall|i: int|
            0 <= i < scope.len() ==> ((#[trigger] scope[i]) matches Some(state) ==> names_within(
                state@,
                names,
            )),
    ensures
        unique_names(structured.correlation@),
        names_within(structured.correlation@, names),
{
    let spans = spans_of(scope);
    assert forall|i: int| 0 <= i < spans.len() implies ((#[trigger] spans[i]) matches Some(span)
        ==> names_within(span, names)) by {
        assert(scope[i] is Some == spans[i] is Some);
    }
    law_events_have_each_name_once(spans);
    law_only_correlated_names_reach_events(names, spans);
}

/// What is seen of a span's memory is all its names and values, in order.
pub proof fn law_span_is_what_it_holds(state: SpanState)
    ensures
        state@.len() == state.values@.len(),
        forall|i: int|
            0 <= i < state.values@.len() ==> (#[trigger] state@[i]).0 == state.values@[i].0@
                && state@[i].1 == state.values@[i].1@,
{
}

/// What is seen of a visitor is all the names and values that its span remembers, `held`, and all
/// the names that it looks for.
pub proof fn law_span_visitor_is_what_it_holds(
    visitor: CorrelationVisitor<'_>,
    held: Seq<(&'static str, String)>,
)
    requires
        visitor.out@ == held,
    ensures
        visitor@.len() == held.len(),
        forall|i: int|
            0 <= i < held.len() ==> (#[trigger] visitor@[i]).0 == held[i].0@ && visitor@[i].1
                == held[i].1@,
        visitor.names().len() == visitor.wanted@.len(),
        forall|i: int|
            0 <= i < visitor.wanted@.len() ==> #[trigger] visitor.names()[i] == visitor.wanted@[i]@,
{
}

/// What the spans of a scope remember is given for each of them, in order: all that a span with a
/// memory remembers, and nothing for a span without.
pub proof fn law_every_span_of_the_scope_counts(scope: Seq<Option<SpanState>>, index: int)
    requires
        0 <= index < scope.len(),
    ensures
        spans_of(scope).len() == scope.len(),
        scope[index] is None <==> spans_of(scope)[index] is None,
        scope[index] matches Some(state) ==> {
            let span = spans_of(scope)[index]->Some_0;
            &&& span.len() == state.values@.len()
            &&& forall|i: int|
                0 <= i < span.len() ==> (#[trigger] span[i]).0 == state.values@[i].0@ && span[i].1
                    == state.values@[i].1@
        },
{
}

/// A correlated field that is recorded is remembered with the value it is recorded with, once,
/// and nothing else that the span remembers changes. A field that is not correlated changes
/// nothing.
pub proof fn law_recorded_fields_are_remembered(
    wanted: Seq<Seq<char>>,
    pairs: Pairs,
    name: Seq<char>,
    value: Seq<char>,
)
    ensures
        !wanted.contains(name) ==> captured(wanted, pairs, name, value) == pairs,
        wanted.contains(name) ==> exists|at: int|
            {
                &&& 0 <= at < captured(wanted, pairs, name, value).len()
                &&& #[trigger] captured(wanted, pairs, name, value)[at] == (name, value)
                &&& forall|i: int|
                    0 <= i < at ==> (#[trigger] captured(wanted, pairs, name, value)[i]).0 != name
                &&& at < pairs.len() ==> pairs[at].0 == name && captured(wanted, pairs, name, value).len()
                    == pairs.len()
                &&& at >= pairs.len() ==> at == pairs.len() && captured(wanted, pairs, name, value).len()
                    == pairs.len() + 1
                &&& forall|i: int|
                    0 <= i < pairs.len() && i != at ==> #[trigger] captured(wanted, pairs, name, value)[i]
                        == pairs[i]
            },
{
    if wanted.contains(name) {
        let at = first_index(pairs, name);
        let after = captured(wanted, pairs, name, value);
        lemma_first_index(pairs, name);
        assert(after[at] == (name, value));
        assert forall|i: int| 0 <= i < at implies (#[trigger] after[i]).0 != name by {
            assert(pairs[i].0 != name);
        }
    }
}

/// Recording no field changes nothing; recording one field more is recording it last.
pub proof fn law_fields_are_recorded_in_turn(
    wanted: Seq<Seq<char>>,
    pairs: Pairs,
    fields: Pairs,
    name: Seq<char>,
    value: Seq<char>,
)
    ensures
        captured_all(wanted, pairs, Pairs::empty()) == pairs,
        captured_all(wanted, pairs, fields.push((name, value))) == captured(
            wanted,
            captured_all(wanted, pairs, fields),
            name,
            value,
        ),
{
    assert(fields.push((name, value)).drop_last() == fields);
}

proof fn lemma_last_text(fields: Pairs, name: Seq<char>, index: int)
    requires
        -1 <= index < fields.len(),
        index >= 0 ==> fields[index].0 == name,
        forall|i: int| index < i < fields.len() ==> (#[trigger] fields[i]).0 != name,
    ensures
        last_text(fields, name) == if index >= 0 {
            Some(fields[index].1)
        } else {
            None
        },
    decreases fields.len(),
{
    if fields.len() > 0 && index < fields.len() - 1 {
        assert(fields[fields.len() - 1].0 != name);
        assert forall|i: int| index < i < fields.len() - 1 implies (
        #[trigger] fields.drop_last()[i]).0 != name by {
            assert(fields[i].0 != name);
        }
        lemma_last_text(fields.drop_last(), name, index);
    }
}

/// A span further in adds to what the spans outside it give, and takes nothing away: what they
/// give stays where it is.
pub proof fn law_inner_spans_only_add(spans: Seq<Option<Pairs>>, span: Pairs)
    ensures
        correlated(Seq::empty()) == Pairs::empty(),
        correlated(spans.push(None)) == correlated(spans),
        correlated(spans.push(Some(span))).len() >= correlated(spans).len(),
        forall|i: int|
            0 <= i < correlated(spans).len() ==> #[trigger] correlated(spans.push(Some(span)))[i]
                == correlated(spans)[i],
{
    assert(spans.push(None).drop_last() == spans);
    assert(spans.push(Some(span)).drop_last() == spans);
    lemma_inherited_prefix(correlated(spans), span);
}

proof fn lemma_inherited_prefix(pairs: Pairs, span: Pairs)
    ensures
        inherited(pairs, span).len() >= pairs.len(),
        forall|i: int| 0 <= i < pairs.len() ==> #[trigger] inherited(pairs, span)[i] == pairs[i],
    decreases span.len(),
{
    if span.len() > 0 {
        lemma_inherited_prefix(pairs, span.drop_last());
    }
}

/// However deep the spans are nested, the outermost one that remembers a name decides: if span
/// `index` of the scope holds the name, first at `entry`, and no span outside it does, the event
/// has the name once, with the value of that entry.
pub proof fn law_events_get_the_outermost_value(
    scope: Seq<Option<SpanState>>,
    correlation: CorrelationFields,
    name: Seq<char>,
    index: int,
    entry: int,
)
    requires
        correlation@ == correlated(spans_of(scope)),
        0 <= index < scope.len(),
        scope[index] is Some,
        0 <= entry < scope[index]->Some_0.values@.len(),
        scope[index]->Some_0.values@[entry].0@ == name,
        forall|i: int|
            0 <= i < entry ==> (#[trigger] scope[index]->Some_0.values@[i]).0@ != name,
        forall|outer: int, i: int|
            0 <= outer < index && scope[outer] is Some && 0 <= i
                < scope[outer]->Some_0.values@.len() ==> (
            #[trigger] scope[outer]->Some_0.values@[i]).0@ != name,
    ensures
        exists|at: int|
            {
                &&& 0 <= at < correlation.values@.len()
                &&& (#[trigger] correlation.values@[at]).0@ == name
                &&& correlation.values@[at].1@ == scope[index]->Some_0.values@[entry].1@
                &&& forall|i: int|
                    0 <= i < correlation.values@.len() && i != at ==> (
                    #[trigger] correlation.values@[i]).0@ != name
            },
{
    let spans = spans_of(scope);
    let state = scope[index]->Some_0;
    assert(spans[index] == Some(state@));
    assert forall|i: int| 0 <= i < entry implies (#[trigger] state@[i]).0 != name by {
        assert(state.values@[i].0@ != name);
    }
    lemma_is_first_index(state@, name, entry);
    assert forall|outer: int| 0 <= outer < index implies ((#[trigger] spans[outer]) matches Some(
        span,
    ) ==> lookup(span, name) is None) by {
        if let Some(around) = scope[outer] {
            assert forall|i: int| 0 <= i < around@.len() implies (#[trigger] around@[i]).0 != name by {
                assert(scope[outer]->Some_0.values@[i].0@ != name);
            }
            lemma_is_first_index(around@, name, around@.len() as int);
        }
    }
    law_outermost_span_wins(spans, name, index);
    law_events_have_each_name_once(spans);
    lemma_first_index(correlation@, name);
    let at = first_index(correlation@, name);
    assert(correlation@[at].0 == name);
    assert(correlation.values@[at].0@ == name);
    assert forall|i: int| 0 <= i < correlation.values@.len() && i != at implies (
    #[trigger] correlation.values@[i]).0@ != name by {
        assert(correlation@[i].0 != correlation@[at].0);
    }
}

/// An event has no name that no span around it remembers.
pub proof fn law_events_get_nothing_else(
    scope: Seq<Option<SpanState>>,
    correlation: CorrelationFields,
    name: Seq<char>,
)
    requires
        correlation@ == correlated(spans_of(scope)),
        forall|index: int, i: int|
            0 <= index < scope.len() && scope[index] is Some && 0 <= i
                < scope[index]->Some_0.values@.len() ==> (
            #[trigger] scope[index]->Some_0.values@[i]).0@ != name,
    ensures
        forall|i: int|
            0 <= i < correlation.values@.len() ==> (#[trigger] correlation.values@[i]).0@ != name,
{
    let spans = spans_of(scope);
    assert forall|index: int| 0 <= index < spans.len() implies ((
    #[trigger] spans[index]) matches Some(span) ==> lookup(span, name) is None) by {
        if let Some(state) = scope[index] {
            assert forall|i: int| 0 <= i < state@.len() implies (#[trigger] state@[i]).0 != name by {
                assert(scope[index]->Some_0.values@[i].0@ != name);
            }
            lemma_is_first_index(state@, name, state@.len() as int);
        }
    }
    law_outermost_span_wins(spans, name, spans.len() as int);
    lemma_first_index(correlation@, name);
    assert forall|i: int| 0 <= i < correlation.values@.len() implies (
    #[trigger] correlation.values@[i]).0@ != name by {
        assert(correlation@[i].0 != name);
    }
}

/// Whatever the scope, the event that is delivered is the one that was logged: it has its time
/// and level, its whole message and all of its own fields.
pub proof fn law_delivered_events_are_the_logged_ones(
    structured: StructuredEvent<'_>,
    timestamp: std::time::SystemTime,
    level: tracing::Level,
    event: EventVisitor,
    scope: Seq<Option<SpanState>>,
)
    requires
        describes(structured, timestamp, level, event, scope),
    ensures
        structured.timestamp == timestamp,
        structured.level == level,
        structured.message@ == event.message@,
        *structured.fields == event.fields,
        members_of(*structured.fields) == members_of(event.fields),
{
}

/// Whatever the scope, the event that is delivered has each name that a span of the scope
/// remembers, with the value of the outermost such span, and has no other names. The span is
/// `index` of the scope, and `entry` is where it first holds the name.
pub proof fn law_delivered_events_get_the_outermost_value(
    structured: StructuredEvent<'_>,
    timestamp: std::time::SystemTime,
    level: tracing::Level,
    event: EventVisitor,
    scope: Seq<Option<SpanState>>,
    name: Seq<char>,
    index: int,
    entry: int,
)
    requires
        describes(structured, timestamp, level, event, scope),
        0 <= index <= scope.len(),
        index < scope.len() ==> {
            &&& scope[index] is Some
            &&& 0 <= entry < scope[index]->Some_0.values@.len()
            &&& scope[index]->Some_0.values@[entry].0@ == name
            &&& forall|i: int|
                0 <= i < entry ==> (#[trigger] scope[index]->Some_0.values@[i]).0@ != name
        },
        forall|outer: int, i: int|
            0 <= outer < index && scope[outer] is Some && 0 <= i
                < scope[outer]->Some_0.values@.len() ==> (
            #[trigger] scope[outer]->Some_0.values@[i]).0@ != name,
    ensures
        index < scope.len() ==> exists|at: int|
            {
                &&& 0 <= at < structured.correlation.values@.len()
                &&& (#[trigger] structured.correlation.values@[at]).0@ == name
                &&& structured.correlation.values@[at].1@
                    == scope[index]->Some_0.values@[entry].1@
                &&& forall|i: int|
                    0 <= i < structured.correlation.values@.len() && i != at ==> (
                    #[trigger] structured.correlation.values@[i]).0@ != name
            },
        index == scope.len() ==> forall|i: int|
            0 <= i < structured.correlation.values@.len() ==> (
            #[trigger] structured.correlation.values@[i]).0@ != name,
{
    if index < scope.len() {
        law_events_get_the_outermost_value(scope, *structured.correlation, name, index, entry);
    } else {
        law_events_get_nothing_else(scope, *structured.correlation, name);
    }
}

/// From the fields that the spans were given to the event: for a correlated name, an event gets
/// the value of the last field of that name, at `entry`, of the outermost span that was given
/// one, `index`; for a name that is not correlated, or that no span was given, it gets nothing.
pub proof fn law_events_get_the_last_field_of_the_outermost_span(
    names: Seq<Seq<char>>,
    given: Seq<Pairs>,
    name: Seq<char>,
    index: int,
    entry: int,
)
    requires
        0 <= index <= given.len(),
        index < given.len() ==> {
            &&& 0 <= entry < given[index].len()
            &&& given[index][entry].0 == name
            &&& forall|i: int|
                entry < i < given[index].len() ==> (#[trigger] given[index][i]).0 != name
        },
        forall|outer: int, i: int|
            0 <= outer < index && 0 <= i < given[outer].len() ==> (#[trigger] given[outer][i]).0
                != name,
    ensures
        lookup(
            correlated(
                given.map_values(|fields: Pairs| Some(captured_all(names, Pairs::empty(), fields))),
            ),
            name,
        ) == if names.contains(name) && index < given.len() {
            Some(given[index][entry].1)
        } else {
            None
        },
{
    assert forall|outer: int| 0 <= outer < index implies last_text(#[trigger] given[outer], name)
        is None by {
        lemma_last_text(given[outer], name, -1);
    }
    if index < given.len() {
        lemma_last_text(given[index], name, entry);
    }
    law_events_get_the_outermost_last_value(names, given, name, index);
}

} // verus!
