//! Header fields: names with their values, no name twice, the last value
//! given for a name being the one that stays.

use vstd::prelude::*;
use vstd::string::*;
use crate::text::same_text;

verus! {

/// One header field as mathematics: its name and its value.
pub type Field = (Seq<char>, Seq<char>);

/// The first index at or after `from` whose field is named `name`, or `fields.len()`.
pub open spec fn position_from(fields: Seq<Field>, name: Seq<char>, from: int) -> int
    decreases fields.len() - from,
{
    if from < 0 || from >= fields.len() {
        fields.len() as int
    } else if fields[from].0 == name {
        from
    } else {
        position_from(fields, name, from + 1)
    }
}

/// The index of the field named `name`, or `fields.len()` if there is none.
pub open spec fn position(fields: Seq<Field>, name: Seq<char>) -> int {
    position_from(fields, name, 0)
}

/// The value of the field named `name`, if there is one.
pub open spec fn lookup(fields: Seq<Field>, name: Seq<char>) -> Option<Seq<char>> {
    let i = position(fields, name);
    if i < fields.len() {
        Some(fields[i].1)
    } else {
        None
    }
}

/// The fields after `name` was given `value`: a field of that name keeps its
/// place and takes the new value; a new name goes to the end.
pub open spec fn put(fields: Seq<Field>, name: Seq<char>, value: Seq<char>) -> Seq<Field> {
    let i = position(fields, name);
    if i < fields.len() {
        fields.update(i, (name, value))
    } else {
        fields.push((name, value))
    }
}

/// Whether no two fields share a name.
pub open spec fn distinct_names(fields: Seq<Field>) -> bool {
    forall|i: int, j: int|
        0 <= i < j < fields.len() ==> (#[trigger] fields[i]).0 != (#[trigger] fields[j]).0
}

pub proof fn lemma_position_from(fields: Seq<Field>, name: Seq<char>, from: int)
    requires
        0 <= from <= fields.len(),
    ensures
        from <= position_from(fields, name, from) <= fields.len(),
        position_from(fields, name, from) < fields.len() ==> fields[position_from(
            fields,
            name,
            from,
        )].0 == name,
        forall|k: int|
            from <= k < position_from(fields, name, from) ==> (#[trigger] fields[k]).0 != name,
    decreases fields.len() - from,
{
    if from < fields.len() && fields[from].0 != name {
        lemma_position_from(fields, name, from + 1);
    }
}

/// Where `at` is the first index at or after `from` that holds `name`, the search finds it.
pub proof fn lemma_position_is(fields: Seq<Field>, name: Seq<char>, from: int, at: int)
    requires
        0 <= from <= at <= fields.len(),
        at < fields.len() ==> fields[at].0 == name,
        forall|k: int| from <= k < at ==> (#[trigger] fields[k]).0 != name,
    ensures
        position_from(fields, name, from) == at,
    decreases at - from,
{
    if from < at {
        lemma_position_is(fields, name, from + 1, at);
    }
}

/// A name that was given a value has that value.
pub proof fn lemma_put_then_lookup(fields: Seq<Field>, name: Seq<char>, value: Seq<char>)
    ensures
        lookup(put(fields, name, value), name) == Some(value),
{
    lemma_position_from(fields, name, 0);
    let i = position(fields, name);
    let after = put(fields, name, value);
    assert forall|k: int| 0 <= k < i implies (#[trigger] after[k]).0 != name by {
        assert(after[k] == fields[k]);
    }
    lemma_position_is(after, name, 0, i);
}

/// Giving one name a value leaves the value of every other name as it was.
pub proof fn lemma_put_keeps_others(
    fields: Seq<Field>,
    name: Seq<char>,
    value: Seq<char>,
    other: Seq<char>,
)
    requires
        other != name,
    ensures
        lookup(put(fields, name, value), other) == lookup(fields, other),
{
    lemma_position_from(fields, name, 0);
    lemma_position_from(fields, other, 0);
    let i = position(fields, name);
    let j = position(fields, other);
    let after = put(fields, name, value);
    assert forall|k: int| 0 <= k < j implies (#[trigger] after[k]).0 != other by {
        if k != i {
            assert(after[k] == fields[k]);
        }
    }
    if j < fields.len() {
        assert(after[j] == fields[j]);
        lemma_position_is(after, other, 0, j);
    } else {
        assert(after[after.len() - 1].0 != other);
        lemma_position_is(after, other, 0, after.len() as int);
    }
}

/// Giving a name a value never makes a name occur twice.
pub proof fn lemma_put_keeps_distinct(fields: Seq<Field>, name: Seq<char>, value: Seq<char>)
    requires
        distinct_names(fields),
    ensures
        distinct_names(put(fields, name, value)),
{
    lemma_position_from(fields, name, 0);
    let i = position(fields, name);
    let after = put(fields, name, value);
    assert forall|a: int, b: int| 0 <= a < b < after.len() implies (#[trigger] after[a]).0 != (
    #[trigger] after[b]).0 by {
        if i < fields.len() {
            assert(after[a].0 == fields[a].0);
            assert(after[b].0 == fields[b].0);
        } else {
            if b == fields.len() {
                assert(after[a] == fields[a]);
            } else {
                assert(after[a] == fields[a]);
                assert(after[b] == fields[b]);
            }
        }
    }
}

/// A set of header fields in which no name occurs twice.
#[derive(Debug)]
pub struct Headers {
    fields: Vec<(String, String)>,
}

impl View for Headers {
    type V = Seq<Field>;

    /// The fields, in the order in which their names first came in.
    closed spec fn view(&self) -> Seq<Field> {
        Seq::new(self.fields.len() as nat, |i: int| (self.fields[i].0@, self.fields[i].1@))
    }
}

impl Headers {
    /// What holds of every set built by the functions below: no name occurs twice.
    pub open spec fn well_formed(&self) -> bool {
        distinct_names(self@)
    }

    /// The value that goes with `name`, if the name is held.
    pub open spec fn value_of(&self, name: Seq<char>) -> Option<Seq<char>> {
        lookup(self@, name)
    }

    /// A set with no field.
    pub fn new() -> (h: Headers)
        ensures
            h@ == Seq::<Field>::empty(),
            h.well_formed(),
    {
        let h = Headers { fields: Vec::new() };
        assert(h@ =~= Seq::<Field>::empty());
        h
    }

    /// The number of fields.
    pub fn len(&self) -> (n: usize)
        ensures
            n == self@.len(),
    {
        self.fields.len()
    }

    /// Whether there is no field.
    pub fn is_empty(&self) -> (b: bool)
        ensures
            b == (self@.len() == 0),
    {
        self.fields.len() == 0
    }

    /// The name of the field at `index`.
    pub fn name_at(&self, index: usize) -> (name: &str)
        requires
            index < self@.len(),
        ensures
            name@ == self@[index as int].0,
    {
        self.fields[index].0.as_str()
    }

    /// The value of the field at `index`.
    pub fn value_at(&self, index: usize) -> (value: &str)
        requires
            index < self@.len(),
        ensures
            value@ == self@[index as int].1,
    {
        self.fields[index].1.as_str()
    }

    /// The index of the field named `name`, or `len()` if there is none.
    pub fn index_of(&self, name: &str) -> (at: usize)
        ensures
            at == position(self@, name@),
            at <= self@.len(),
    {
        let mut i: usize = 0;
        while i < self.fields.len()
            invariant
                i <= self.fields.len(),
                self@.len() == self.fields.len(),
                position(self@, name@) == position_from(self@, name@, i as int),
            decreases self.fields.len() - i,
        {
            if same_text(self.fields[i].0.as_str(), name) {
                return i;
            }
            i += 1;
        }
        i
    }

    /// The value that goes with `name`.
    pub fn get(&self, name: &str) -> (value: Option<&str>)
        ensures
            match value {
                Some(v) => self.value_of(name@) == Some(v@),
                None => self.value_of(name@) is None,
            },
    {
        let i = self.index_of(name);
        if i < self.fields.len() {
            Some(self.fields[i].1.as_str())
        } else {
            None
        }
    }

    /// Whether `name` is held.
    pub fn contains_key(&self, name: &str) -> (b: bool)
        ensures
            b == self.value_of(name@).is_some(),
    {
        self.index_of(name) < self.fields.len()
    }

    /// Gives `name` the value `value`. A value that `name` had before is lost.
    pub fn insert(&mut self, name: String, value: String)
        ensures
            final(self)@ == put(old(self)@, name@, value@),
            old(self).well_formed() ==> final(self).well_formed(),
    {
        proof {
            if self.well_formed() {
                lemma_put_keeps_distinct(self@, name@, value@);
            }
        }
        let i = self.index_of(name.as_str());
        if i < self.fields.len() {
            self.fields[i] = (name, value);
        } else {
            self.fields.push((name, value));
        }
        assert(self@ =~= put(old(self)@, name@, value@));
    }

    /// A copy that holds the same fields in the same order.
    pub fn duplicate(&self) -> (h: Headers)
        ensures
            h@ == self@,
    {
        let mut fields: Vec<(String, String)> = Vec::new();
        let mut i: usize = 0;
        while i < self.fields.len()
            invariant
                i <= self.fields.len(),
                fields.len() == i,
                forall|k: int|
                    0 <= k < i ==> (#[trigger] fields[k]).0@ == self.fields[k].0@ && fields[k].1@
                        == self.fields[k].1@,
            decreases self.fields.len() - i,
        {
            fields.push((self.fields[i].0.clone(), self.fields[i].1.clone()));
            i += 1;
        }
        let h = Headers { fields };
        assert(h@ =~= self@);
        h
    }
}

impl Clone for Headers {
    fn clone(&self) -> (h: Headers)
        ensures
            h@ == self@,
    {
        self.duplicate()
    }
}

} // verus!
