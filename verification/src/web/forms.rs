//! Form fields, as a browser sends them.

use vstd::prelude::*;

use crate::text;

verus! {

/// The fields of a form, by name. Where a name occurs more than once, the last one counts.
#[derive(Debug, PartialEq, Eq)]
pub struct Fields {
    pub fields: Vec<Field>,
}

#[derive(Debug, PartialEq, Eq)]
pub struct Field {
    pub name: String,
    pub value: String,
}

/// The value of a field, among the first `n`.
pub open spec fn field_upto(fields: Seq<Field>, name: Seq<char>, n: int) -> Option<Seq<char>>
    decreases n,
{
    if n <= 0 {
        None
    } else if fields[n - 1].name@ == name {
        Some(fields[n - 1].value@)
    } else {
        field_upto(fields, name, n - 1)
    }
}

impl Fields {
    pub open spec fn get_spec(self, name: Seq<char>) -> Option<Seq<char>> {
        field_upto(self.fields@, name, self.fields@.len() as int)
    }

    /// The value of a field; nothing where it is missing.
    pub open spec fn value(self, name: Seq<char>) -> Seq<char> {
        match self.get_spec(name) {
            Some(value) => value,
            None => seq![],
        }
    }

    pub fn new() -> (r: Fields)
        ensures
            r.fields@ == Seq::<Field>::empty(),
    {
        Fields { fields: Vec::new() }
    }

    pub fn insert(&mut self, name: String, value: String)
        ensures
            final(self).fields@ == old(self).fields@.push(Field { name, value }),
    {
        self.fields.push(Field { name, value });
    }

    pub fn get(&self, name: &str) -> (r: Option<&String>)
        ensures
            match (r, self.get_spec(name@)) {
                (Some(value), Some(shown)) => value@ == shown,
                (None, None) => true,
                _ => false,
            },
    {
        let mut i: usize = self.fields.len();
        while i > 0
            invariant
                i <= self.fields@.len(),
                self.get_spec(name@) == field_upto(self.fields@, name@, i as int),
            decreases i,
        {
            if text::same(self.fields[i - 1].name.as_str(), name) {
                return Some(&self.fields[i - 1].value);
            }
            i -= 1;
        }
        None
    }

    pub fn has(&self, name: &str) -> (r: bool)
        ensures
            r == (self.get_spec(name@) is Some),
    {
        self.get(name).is_some()
    }

    /// The value of a field; nothing where it is missing.
    pub fn text(&self, name: &str) -> (r: String)
        ensures
            r@ == self.value(name@),
    {
        match self.get(name) {
            Some(value) => value.clone(),
            None => {
                let none = String::new();
                assert(none@ =~= seq![]);
                none
            },
        }
    }

    /// The value of a field without the white space around it.
    pub fn trimmed(&self, name: &str) -> (r: String)
        ensures
            r@ == text::trim(self.value(name@)),
    {
        text::trim_str(self.text(name).as_str())
    }
}

/// A field that was filled in later replaces the earlier one.
pub proof fn the_last_value_counts(fields: Fields, later: Fields, name: String, value: String)
    requires
        later.fields@ == fields.fields@.push(Field { name, value }),
    ensures
        later.get_spec(name@) == Some(value@),
        forall|other: Seq<char>|
            other != name@ ==> #[trigger] later.get_spec(other) == fields.get_spec(other),
{
    assert forall|other: Seq<char>| other != name@ implies #[trigger] later.get_spec(other)
        == fields.get_spec(other) by {
        lemma_field_upto(fields.fields@, later.fields@, other, fields.fields@.len() as int);
    }
}

proof fn lemma_field_upto(a: Seq<Field>, b: Seq<Field>, name: Seq<char>, n: int)
    requires
        n <= a.len(),
        n <= b.len(),
        forall|i: int| 0 <= i < n ==> #[trigger] a[i] == b[i],
    ensures
        field_upto(a, name, n) == field_upto(b, name, n),
    decreases n,
{
    if n > 0 {
        assert(a[n - 1] == b[n - 1]);
        lemma_field_upto(a, b, name, n - 1);
    }
}

/// A choice in a list.
#[derive(Debug, PartialEq, Eq)]
pub struct Choice {
    pub value: String,
    pub name: String,
    pub selected: bool,
}

impl Choice {
    pub open spec fn is(self, value: Seq<char>, name: Seq<char>, selected: bool) -> bool {
        self.value@ == value && self.name@ == name && self.selected == selected
    }
}

/// Names to choose from, with the wanted one selected.
pub open spec fn are_names(choices: Seq<Choice>, names: Seq<Seq<char>>, wanted: Seq<char>) -> bool {
    choices.len() == names.len() && forall|i: int|
        0 <= i < choices.len() ==> (#[trigger] choices[i]).is(
            names[i],
            names[i],
            names[i] == wanted,
        )
}

pub fn name_choices(names: &Vec<String>, wanted: &str) -> (r: Vec<Choice>)
    ensures
        are_names(r@, text::views(names@), wanted@),
{
    let mut out: Vec<Choice> = Vec::new();
    let mut i: usize = 0;
    while i < names.len()
        invariant
            i <= names@.len(),
            out@.len() == i,
            forall|k: int|
                0 <= k < i ==> (#[trigger] out@[k]).is(
                    names@[k]@,
                    names@[k]@,
                    names@[k]@ == wanted@,
                ),
        decreases names.len() - i,
    {
        let name = &names[i];
        out.push(
            Choice {
                value: name.clone(),
                name: name.clone(),
                selected: text::same(name.as_str(), wanted),
            },
        );
        i += 1;
    }
    out
}

} // verus!
