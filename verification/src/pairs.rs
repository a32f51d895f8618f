//! Lists of named values in the order in which the names came.
use vstd::prelude::*;

verus! {

/// Names with their values.
pub type Pairs = Seq<(Seq<char>, Seq<char>)>;

/// What a list of names with values holds, as plain text.
pub open spec fn pairs_of(values: Seq<(&'static str, String)>) -> Pairs {
    values.map_values(|pair: (&'static str, String)| (pair.0@, pair.1@))
}

/// What a list of names holds, as plain text.
pub open spec fn texts_of(names: Seq<&'static str>) -> Seq<Seq<char>> {
    names.map_values(|name: &'static str| name@)
}

/// The first place in `pairs` where `name` stands; the length of `pairs` if it stands nowhere.
pub open spec fn first_index(pairs: Pairs, name: Seq<char>) -> int
    decreases pairs.len(),
{
    if pairs.len() == 0 || pairs.first().0 == name {
        0
    } else {
        1 + first_index(pairs.drop_first(), name)
    }
}

/// The value of `name`: the first one, if the name stands in `pairs` more than once.
pub open spec fn lookup(pairs: Pairs, name: Seq<char>) -> Option<Seq<char>> {
    if first_index(pairs, name) < pairs.len() {
        Some(pairs[first_index(pairs, name)].1)
    } else {
        None
    }
}

/// `pairs` with `value` for `name`: in the place of the name's value, or else at the end.
pub open spec fn upsert(pairs: Pairs, name: Seq<char>, value: Seq<char>) -> Pairs {
    if first_index(pairs, name) < pairs.len() {
        pairs.update(first_index(pairs, name), (name, value))
    } else {
        pairs.push((name, value))
    }
}

/// No name stands in `pairs` twice.
pub open spec fn unique_names(pairs: Pairs) -> bool {
    forall|i: int, j: int| 0 <= i < j < pairs.len() ==> pairs[i].0 != pairs[j].0
}

/// Every name in `pairs` is one of `names`.
pub open spec fn names_within(pairs: Pairs, names: Seq<Seq<char>>) -> bool {
    forall|i: int| 0 <= i < pairs.len() ==> names.contains((#[trigger] pairs[i]).0)
}

/// The first place of a name is where it stands and stands nowhere before.
pub proof fn lemma_first_index(pairs: Pairs, name: Seq<char>)
    ensures
        0 <= first_index(pairs, name) <= pairs.len(),
        first_index(pairs, name) < pairs.len() ==> pairs[first_index(pairs, name)].0 == name,
        forall|i: int| 0 <= i < first_index(pairs, name) ==> (#[trigger] pairs[i]).0 != name,
    decreases pairs.len(),
{
    if pairs.len() > 0 && pairs.first().0 != name {
        lemma_first_index(pairs.drop_first(), name);
        assert forall|i: int| 0 <= i < first_index(pairs, name) implies (
        #[trigger] pairs[i]).0 != name by {
            if i > 0 {
                assert(pairs.drop_first()[i - 1].0 != name);
            }
        }
    }
}

/// Only the first place of a name is where it stands and stands nowhere before.
pub proof fn lemma_is_first_index(pairs: Pairs, name: Seq<char>, index: int)
    requires
        0 <= index <= pairs.len(),
        index < pairs.len() ==> pairs[index].0 == name,
        forall|i: int| 0 <= i < index ==> (#[trigger] pairs[i]).0 != name,
    ensures
        first_index(pairs, name) == index,
{
    lemma_first_index(pairs, name);
}

/// Looks for the first place of `name` in `values`.
pub(crate) fn find(values: &Vec<(&'static str, String)>, name: &str) -> (index: usize)
    ensures
        index == first_index(pairs_of(values@), name@),
        index <= values@.len(),
{
    let mut index: usize = 0;
    while index < values.len()
        invariant
            index <= values@.len(),
            forall|i: int| 0 <= i < index ==> (#[trigger] pairs_of(values@)[i]).0 != name@,
        decreases values@.len() - index,
    {
        if *values[index].0 == *name {
            proof {
                lemma_is_first_index(pairs_of(values@), name@, index as int);
            }
            return index;
        }
        index = index + 1;
    }
    proof {
        lemma_is_first_index(pairs_of(values@), name@, index as int);
    }
    index
}

/// A copy of `values`.
pub(crate) fn copy_of(values: &Vec<(&'static str, String)>) -> (copy: Vec<(&'static str, String)>)
    ensures
        pairs_of(copy@) == pairs_of(values@),
        copy@.len() == values@.len(),
        forall|i: int|
            0 <= i < values@.len() ==> (#[trigger] copy@[i]).0@ == values@[i].0@ && copy@[i].1@
                == values@[i].1@,
{
    let mut copy: Vec<(&'static str, String)> = Vec::new();
    let mut index: usize = 0;
    while index < values.len()
        invariant
            index <= values@.len(),
            copy@.len() == index,
            forall|i: int|
                0 <= i < index ==> (#[trigger] copy@[i]).0@ == values@[i].0@ && copy@[i].1@
                    == values@[i].1@,
        decreases values@.len() - index,
    {
        copy.push((values[index].0, values[index].1.clone()));
        index = index + 1;
    }
    copy
}

/// The list holds every name with its value, and nothing else, in the same order.
pub proof fn law_pairs_are_the_names_and_values(values: Seq<(&'static str, String)>)
    ensures
        pairs_of(values).len() == values.len(),
        forall|i: int|
            0 <= i < values.len() ==> (#[trigger] pairs_of(values)[i]).0 == values[i].0@
                && pairs_of(values)[i].1 == values[i].1@,
{
}

/// The list holds every name, and nothing else, in the same order.
pub proof fn law_texts_are_the_names(names: Seq<&'static str>)
    ensures
        texts_of(names).len() == names.len(),
        forall|i: int| 0 <= i < names.len() ==> #[trigger] texts_of(names)[i] == names[i]@,
{
}

/// The value of a name is that of the first entry with that name; a name has no value if and
/// only if it has no entry.
pub proof fn law_lookup_finds_the_first(pairs: Pairs, name: Seq<char>)
    ensures
        match lookup(pairs, name) {
            Some(value) => exists|index: int|
                {
                    &&& 0 <= index < pairs.len()
                    &&& #[trigger] pairs[index] == (name, value)
                    &&& forall|i: int| 0 <= i < index ==> (#[trigger] pairs[i]).0 != name
                },
            None => forall|i: int| 0 <= i < pairs.len() ==> (#[trigger] pairs[i]).0 != name,
        },
{
    lemma_first_index(pairs, name);
    let index = first_index(pairs, name);
    if index < pairs.len() {
        assert(pairs[index] == (name, pairs[index].1));
    }
}

/// Setting a name's value gives it that value and leaves the value of every other name.
pub proof fn law_upsert_sets_one_name(
    pairs: Pairs,
    name: Seq<char>,
    value: Seq<char>,
    other: Seq<char>,
)
    ensures
        lookup(upsert(pairs, name, value), name) == Some(value),
        other != name ==> lookup(upsert(pairs, name, value), other) == lookup(pairs, other),
{
    let after = upsert(pairs, name, value);
    let at = first_index(pairs, name);
    lemma_first_index(pairs, name);
    lemma_is_first_index(after, name, at);
    if other != name {
        let there = first_index(pairs, other);
        lemma_first_index(pairs, other);
        if there < pairs.len() {
            lemma_is_first_index(after, other, there);
        } else {
            lemma_is_first_index(after, other, after.len() as int);
        }
    }
}

/// Setting the value of a name that stands at `index` first puts the value there and leaves every
/// other entry.
pub proof fn law_upsert_replaces_in_place(
    pairs: Pairs,
    name: Seq<char>,
    value: Seq<char>,
    index: int,
)
    requires
        0 <= index < pairs.len(),
        pairs[index].0 == name,
        forall|i: int| 0 <= i < index ==> (#[trigger] pairs[i]).0 != name,
    ensures
        upsert(pairs, name, value).len() == pairs.len(),
        upsert(pairs, name, value)[index] == (name, value),
        forall|i: int|
            0 <= i < pairs.len() && i != index ==> #[trigger] upsert(pairs, name, value)[i]
                == pairs[i],
{
    lemma_is_first_index(pairs, name, index);
}

/// Setting the value of a name that stands nowhere adds it at the end and leaves every entry.
pub proof fn law_upsert_adds_at_the_end(pairs: Pairs, name: Seq<char>, value: Seq<char>)
    requires
        forall|i: int| 0 <= i < pairs.len() ==> (#[trigger] pairs[i]).0 != name,
    ensures
        upsert(pairs, name, value).len() == pairs.len() + 1,
        upsert(pairs, name, value)[pairs.len() as int] == (name, value),
        forall|i: int|
            0 <= i < pairs.len() ==> #[trigger] upsert(pairs, name, value)[i] == pairs[i],
{
    lemma_is_first_index(pairs, name, pairs.len() as int);
}

/// Setting a name's value never makes a name stand twice, and brings in no other name.
pub proof fn law_upsert_keeps_names(
    pairs: Pairs,
    name: Seq<char>,
    value: Seq<char>,
    names: Seq<Seq<char>>,
)
    requires
        unique_names(pairs),
        names_within(pairs, names),
        names.contains(name),
    ensures
        unique_names(upsert(pairs, name, value)),
        names_within(upsert(pairs, name, value), names),
{
    lemma_first_index(pairs, name);
}

} // verus!
