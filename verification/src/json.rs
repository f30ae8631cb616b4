//! JSON values.

use vstd::prelude::*;

use crate::decimal::Decimal;
use crate::text;

verus! {

#[derive(Debug, PartialEq, Eq)]
pub enum Json {
    Null,
    Bool(bool),
    /// A whole number that is not negative.
    Unsigned(u64),
    /// A whole number below zero.
    Negative(i64),
    /// Any other number.
    Real(Decimal),
    Text(String),
    List(Vec<Json>),
    /// Every key once.
    Object(Vec<(String, Json)>),
}

/// What a JSON value says.
pub ghost enum Value {
    Null,
    Bool(bool),
    Unsigned(u64),
    Negative(i64),
    Real(Decimal),
    Text(Seq<char>),
    List(Seq<Value>),
    Object(Seq<(Seq<char>, Value)>),
}

impl Json {
    pub open spec fn value(self) -> Value
        decreases self,
    {
        match self {
            Json::Null => Value::Null,
            Json::Bool(b) => Value::Bool(b),
            Json::Unsigned(n) => Value::Unsigned(n),
            Json::Negative(n) => Value::Negative(n),
            Json::Real(n) => Value::Real(n),
            Json::Text(s) => Value::Text(s@),
            Json::List(items) => Value::List(items_value(items@)),
            Json::Object(members) => Value::Object(members_value(members@)),
        }
    }
}

pub open spec fn items_value(items: Seq<Json>) -> Seq<Value>
    decreases items,
{
    if items.len() == 0 {
        seq![]
    } else {
        items_value(items.drop_last()).push(items.last().value())
    }
}

pub open spec fn members_value(members: Seq<(String, Json)>) -> Seq<(Seq<char>, Value)>
    decreases members,
{
    if members.len() == 0 {
        seq![]
    } else {
        members_value(members.drop_last()).push((members.last().0@, members.last().1.value()))
    }
}

/// The first member from position `i` on with the given key, or the number of members.
pub open spec fn member_at(members: Seq<(Seq<char>, Value)>, key: Seq<char>, i: int) -> int
    decreases members.len() - i,
{
    if i >= members.len() {
        members.len() as int
    } else if members[i].0 == key {
        i
    } else {
        member_at(members, key, i + 1)
    }
}

impl Value {
    /// The member of an object with the given key.
    pub open spec fn get(self, key: Seq<char>) -> Option<Value> {
        match self {
            Value::Object(members) => {
                let i = member_at(members, key, 0);
                if i < members.len() {
                    Some(members[i].1)
                } else {
                    None
                }
            },
            _ => None,
        }
    }
}

/// Objects merge member by member; anything else, lists too, replaces the previous value.
pub open spec fn merged(base: Value, delta: Value) -> Value
    decreases delta,
{
    match (base, delta) {
        (Value::Object(members), Value::Object(changes)) => Value::Object(
            merged_members(members, changes),
        ),
        _ => delta,
    }
}

pub open spec fn merged_members(
    members: Seq<(Seq<char>, Value)>,
    changes: Seq<(Seq<char>, Value)>,
) -> Seq<(Seq<char>, Value)>
    decreases changes,
{
    if changes.len() == 0 {
        members
    } else {
        let before = merged_members(members, changes.drop_last());
        let (key, value) = changes.last();
        let i = member_at(before, key, 0);
        if i < before.len() {
            before.update(i, (key, merged(before[i].1, value)))
        } else {
            before.push((key, value))
        }
    }
}

pub proof fn lemma_items_value(items: Seq<Json>)
    ensures
        items_value(items).len() == items.len(),
        forall|i: int| 0 <= i < items.len() ==> #[trigger] items_value(items)[i] == items[i].value(),
    decreases items.len(),
{
    if items.len() > 0 {
        lemma_items_value(items.drop_last());
    }
}

pub proof fn lemma_members_value(members: Seq<(String, Json)>)
    ensures
        members_value(members).len() == members.len(),
        forall|i: int|
            0 <= i < members.len() ==> #[trigger] members_value(members)[i] == (
                members[i].0@,
                members[i].1.value(),
            ),
    decreases members.len(),
{
    if members.len() > 0 {
        lemma_members_value(members.drop_last());
    }
}

pub proof fn lemma_member_at(members: Seq<(Seq<char>, Value)>, key: Seq<char>, i: int)
    requires
        0 <= i <= members.len(),
    ensures
        i <= member_at(members, key, i) <= members.len(),
        member_at(members, key, i) < members.len() ==> members[member_at(members, key, i)].0 == key,
        forall|k: int| i <= k < member_at(members, key, i) ==> members[k].0 != key,
    decreases members.len() - i,
{
    if i < members.len() && members[i].0 != key {
        lemma_member_at(members, key, i + 1);
    }
}

fn find_member(members: &Vec<(String, Json)>, key: &str) -> (r: usize)
    ensures
        r == member_at(members_value(members@), key@, 0),
        r <= members@.len(),
{
    proof {
        lemma_members_value(members@);
    }
    let mut i: usize = 0;
    while i < members.len()
        invariant
            i <= members@.len(),
            members_value(members@).len() == members@.len(),
            forall|k: int|
                0 <= k < members@.len() ==> #[trigger] members_value(members@)[k] == (
                    members@[k].0@,
                    members@[k].1.value(),
                ),
            member_at(members_value(members@), key@, 0) == member_at(
                members_value(members@),
                key@,
                i as int,
            ),
        decreases members.len() - i,
    {
        if text::same(members[i].0.as_str(), key) {
            return i;
        }
        i += 1;
    }
    i
}

impl Json {
    pub fn get(&self, key: &str) -> (r: Option<&Json>)
        ensures
            match r {
                Some(json) => self.value().get(key@) == Some(json.value()),
                None => self.value().get(key@) is None,
            },
    {
        match self {
            Json::Object(members) => {
                proof {
                    lemma_members_value(members@);
                }
                let i = find_member(members, key);
                if i < members.len() {
                    Some(&members[i].1)
                } else {
                    None
                }
            },
            _ => None,
        }
    }

    pub fn is_object(&self) -> (r: bool)
        ensures
            r == (self is Object),
            r == (self.value() is Object),
    {
        match self {
            Json::Object(_) => true,
            _ => false,
        }
    }

    pub fn as_u64(&self) -> (r: Option<u64>)
        ensures
            r == number_u64(self.value()),
    {
        match self {
            Json::Unsigned(n) => Some(*n),
            _ => None,
        }
    }

    pub fn as_i64(&self) -> (r: Option<i64>)
        ensures
            r == number_i64(self.value()),
    {
        match self {
            Json::Unsigned(n) if *n <= 0x7fff_ffff_ffff_ffff => Some(*n as i64),
            Json::Negative(n) => Some(*n),
            _ => None,
        }
    }

    pub fn as_str(&self) -> (r: Option<&str>)
        ensures
            match r {
                Some(s) => self.value() == Value::Text(s@),
                None => !(self.value() is Text),
            },
    {
        match self {
            Json::Text(s) => Some(s.as_str()),
            _ => None,
        }
    }
}

pub open spec fn number_u64(value: Value) -> Option<u64> {
    match value {
        Value::Unsigned(n) => Some(n),
        _ => None,
    }
}

pub open spec fn number_i64(value: Value) -> Option<i64> {
    match value {
        Value::Unsigned(n) if n <= i64::MAX => Some(n as i64),
        Value::Negative(n) => Some(n),
        _ => None,
    }
}

/// Merges `delta` into `base` in place. Objects merge key by key; anything else, arrays
/// included, replaces the previous value.
pub fn deep_merge(base: &mut Json, delta: Json)
    ensures
        final(base).value() == merged(old(base).value(), delta.value()),
    decreases delta,
{
    let both = base.is_object() && delta.is_object();
    if !both {
        *base = delta;
        return;
    }
    let changes = match delta {
        Json::Object(changes) => changes,
        _ => {
            return;
        },
    };
    match base {
        Json::Object(members) => {
            merge_members(members, changes);
        },
        _ => {},
    }
}

proof fn lemma_members_update(members: Seq<(String, Json)>, i: int, changed: (String, Json))
    requires
        0 <= i < members.len(),
    ensures
        members_value(members.update(i, changed)) == members_value(members).update(
            i,
            (changed.0@, changed.1.value()),
        ),
{
    lemma_members_value(members);
    lemma_members_value(members.update(i, changed));
    assert(members_value(members.update(i, changed)) =~= members_value(members).update(
        i,
        (changed.0@, changed.1.value()),
    ));
}

fn merge_members(members: &mut Vec<(String, Json)>, changes: Vec<(String, Json)>)
    ensures
        members_value(final(members)@) == merged_members(
            members_value(old(members)@),
            members_value(changes@),
        ),
    decreases changes,
{
    let ghost start = members_value(members@);
    let ghost all = changes@;
    let mut kept: Vec<(String, Json)> = Vec::new();
    std::mem::swap(&mut kept, members);
    proof {
        assert(all.take(0) =~= seq![]);
    }
    for change in it: changes
        invariant
            it.seq() == all,
            members_value(kept@) == merged_members(
                start,
                members_value(all.take(it.index() as int)),
            ),
    {
        let ghost n = it.index() as int;
        let ghost before = kept@;
        let (key, value) = change;
        let ghost v = value.value();
        proof {
            assert(all.take(n + 1).drop_last() =~= all.take(n));
            assert(all.take(n + 1).last() == all[n]);
            lemma_members_value(before);
            assert(members_value(all.take(n + 1)) == members_value(all.take(n)).push((key@, v)));
            assert(members_value(all.take(n + 1)).drop_last() =~= members_value(all.take(n)));
            lemma_member_at(members_value(before), key@, 0);
        }
        let i = find_member(&kept, key.as_str());
        if i < kept.len() {
            deep_merge(&mut kept[i].1, value);
            proof {
                lemma_members_update(before, i as int, kept@[i as int]);
                assert(kept@ =~= before.update(i as int, kept@[i as int]));
            }
        } else {
            kept.push((key, value));
            proof {
                assert(kept@.drop_last() =~= before);
            }
        }
    }
    proof {
        assert(all.take(all.len() as int) =~= all);
    }
    *members = kept;
}

// ---------------------------------------------------------------------------------------------
// Laws
// ---------------------------------------------------------------------------------------------

proof fn lemma_member_is(members: Seq<(Seq<char>, Value)>, key: Seq<char>, i: int, at: int)
    requires
        0 <= i <= at <= members.len(),
        at < members.len() ==> members[at].0 == key,
        forall|k: int| i <= k < at ==> (#[trigger] members[k]).0 != key,
    ensures
        member_at(members, key, i) == at,
    decreases at - i,
{
    if i < at {
        assert(members[i].0 != key);
        lemma_member_is(members, key, i + 1, at);
    }
}

/// What one member of the delta does to the members of the base.
proof fn lemma_merge_step(
    before: Seq<(Seq<char>, Value)>,
    changes: Seq<(Seq<char>, Value)>,
    members: Seq<(Seq<char>, Value)>,
    key: Seq<char>,
)
    requires
        changes.len() > 0,
        before == merged_members(members, changes.drop_last()),
    ensures
        ({
            let after = Value::Object(merged_members(members, changes));
            let (changed, value) = changes.last();
            &&& key != changed ==> after.get(key) == Value::Object(before).get(key)
            &&& key == changed ==> after.get(key) == Some(
                match Value::Object(before).get(key) {
                    Some(old) => merged(old, value),
                    None => value,
                },
            )
        }),
{
    let after = merged_members(members, changes);
    let (changed, value) = changes.last();
    lemma_member_at(before, changed, 0);
    lemma_member_at(before, key, 0);
    let i = member_at(before, changed, 0);
    let at = member_at(before, key, 0);
    assert forall|k: int| 0 <= k < before.len() implies (#[trigger] after[k]).0 == before[k].0 by {}
    if key == changed || at < before.len() {
        lemma_member_is(after, key, 0, at);
    } else {
        lemma_member_is(after, key, 0, after.len() as int);
    }
}

/// Merging leaves alone what the delta does not mention.
pub proof fn merging_keeps_the_rest(
    members: Seq<(Seq<char>, Value)>,
    changes: Seq<(Seq<char>, Value)>,
    key: Seq<char>,
)
    requires
        Value::Object(changes).get(key) is None,
    ensures
        merged(Value::Object(members), Value::Object(changes)).get(key) == Value::Object(
            members,
        ).get(key),
    decreases changes.len(),
{
    if changes.len() > 0 {
        lemma_member_at(changes, key, 0);
        assert(changes[changes.len() - 1].0 != key);
        let front = changes.drop_last();
        lemma_member_is(front, key, 0, front.len() as int);
        merging_keeps_the_rest(members, front, key);
        lemma_merge_step(merged_members(members, front), changes, members, key);
    }
}

pub open spec fn keys_differ(members: Seq<(Seq<char>, Value)>) -> bool {
    forall|i: int, j: int|
        0 <= i < j < members.len() ==> (#[trigger] members[i]).0 != (#[trigger] members[j]).0
}

/// What the delta mentions is merged with what was there, or taken over where nothing was.
pub proof fn merging_applies_every_change(
    members: Seq<(Seq<char>, Value)>,
    changes: Seq<(Seq<char>, Value)>,
    j: int,
)
    requires
        keys_differ(changes),
        0 <= j < changes.len(),
    ensures
        merged(Value::Object(members), Value::Object(changes)).get(changes[j].0) == Some(
            match Value::Object(members).get(changes[j].0) {
                Some(old) => merged(old, changes[j].1),
                None => changes[j].1,
            },
        ),
    decreases changes.len(),
{
    let front = changes.drop_last();
    let key = changes[j].0;
    let last = changes.len() - 1;
    assert(keys_differ(front)) by {
        assert forall|a: int, b: int| 0 <= a < b < front.len() implies (#[trigger] front[a]).0 != (
        #[trigger] front[b]).0 by {
            assert(front[a] == changes[a] && front[b] == changes[b]);
        }
    }
    lemma_merge_step(merged_members(members, front), changes, members, key);
    if j < last {
        assert(front[j] == changes[j]);
        merging_applies_every_change(members, front, j);
        assert(changes[last].0 != key);
    } else {
        assert forall|k: int| 0 <= k < front.len() implies (#[trigger] front[k]).0 != key by {
            assert(front[k] == changes[k] && changes[k].0 != changes[last].0);
        }
        lemma_member_is(front, key, 0, front.len() as int);
        merging_keeps_the_rest(members, front, key);
    }
}

/// An object has every key once, and so have the objects in it.
pub open spec fn well_keyed(value: Value) -> bool
    decreases value,
{
    match value {
        Value::Object(members) => keys_differ(members) && members_well_keyed(members),
        _ => true,
    }
}

pub open spec fn members_well_keyed(members: Seq<(Seq<char>, Value)>) -> bool
    decreases members,
{
    members.len() == 0 || (well_keyed(members.last().1) && members_well_keyed(members.drop_last()))
}

proof fn lemma_member_is_well_keyed(members: Seq<(Seq<char>, Value)>, j: int)
    requires
        members_well_keyed(members),
        0 <= j < members.len(),
    ensures
        well_keyed(members[j].1),
    decreases members.len(),
{
    if j < members.len() - 1 {
        lemma_member_is_well_keyed(members.drop_last(), j);
    }
}

/// A member of a delta changes nothing of an object.
pub open spec fn is_old(members: Seq<(Seq<char>, Value)>, change: (Seq<char>, Value)) -> bool {
    match Value::Object(members).get(change.0) {
        Some(old) => merged(old, change.1) == old,
        None => false,
    }
}

/// A delta that changes none of the members it mentions changes nothing.
proof fn lemma_nothing_new(
    members: Seq<(Seq<char>, Value)>,
    changes: Seq<(Seq<char>, Value)>,
)
    requires
        forall|j: int|
            0 <= j < changes.len() ==> is_old(members, #[trigger] changes[j]),
    ensures
        merged_members(members, changes) == members,
    decreases changes.len(),
{
    if changes.len() > 0 {
        let front = changes.drop_last();
        assert forall|j: int| 0 <= j < front.len() implies is_old(members, #[trigger] front[j]) by {
            assert(front[j] == changes[j]);
        }
        lemma_nothing_new(members, front);
        let last = changes[changes.len() - 1];
        lemma_member_at(members, last.0, 0);
        assert(merged_members(members, changes) =~= members);
    }
}

proof fn lemma_merged_with_itself(value: Value)
    requires
        well_keyed(value),
    ensures
        merged(value, value) == value,
    decreases value,
{
    if let Value::Object(members) = value {
        assert forall|j: int| 0 <= j < members.len() implies is_old(members, #[trigger] members[j]) by {
            lemma_member_is_well_keyed(members, j);
            lemma_merged_with_itself(members[j].1);
            lemma_member_is(members, members[j].0, 0, j);
        }
        lemma_nothing_new(members, members);
    }
}

/// Merging the same delta a second time changes nothing more.
pub proof fn merging_twice_is_merging_once(base: Value, delta: Value)
    requires
        well_keyed(delta),
    ensures
        merged(merged(base, delta), delta) == merged(base, delta),
    decreases delta,
{
    match (base, delta) {
        (Value::Object(members), Value::Object(changes)) => {
            let after = merged_members(members, changes);
            assert forall|j: int| 0 <= j < changes.len() implies is_old(after, #[trigger] changes[j]) by {
                let (key, value) = changes[j];
                merging_applies_every_change(members, changes, j);
                lemma_member_is_well_keyed(changes, j);
                match Value::Object(members).get(key) {
                    Some(old) => merging_twice_is_merging_once(old, value),
                    None => lemma_merged_with_itself(value),
                }
            }
            lemma_nothing_new(after, changes);
        },
        _ => {
            lemma_merged_with_itself(delta);
        },
    }
}

/// Merging with an empty object changes nothing.
pub proof fn merging_nothing_changes_nothing(members: Seq<(Seq<char>, Value)>)
    ensures
        merged(Value::Object(members), Value::Object(seq![])) == Value::Object(members),
{
}

impl Json {
    /// The same value once more.
    pub fn duplicate(&self) -> (r: Json)
        ensures
            r.value() == self.value(),
        decreases self,
    {
        match self {
            Json::Null => Json::Null,
            Json::Bool(b) => Json::Bool(*b),
            Json::Unsigned(n) => Json::Unsigned(*n),
            Json::Negative(n) => Json::Negative(*n),
            Json::Real(n) => Json::Real(*n),
            Json::Text(s) => Json::Text(s.clone()),
            Json::List(items) => Json::List(duplicate_items(items)),
            Json::Object(members) => Json::Object(duplicate_members(members)),
        }
    }
}

fn duplicate_items(items: &Vec<Json>) -> (r: Vec<Json>)
    ensures
        items_value(r@) == items_value(items@),
    decreases items,
{
    let mut out: Vec<Json> = Vec::new();
    let mut i: usize = 0;
    while i < items.len()
        invariant
            i <= items@.len(),
            out@.len() == i,
            forall|k: int| 0 <= k < i ==> (#[trigger] out@[k]).value() == items@[k].value(),
        decreases items.len() - i,
    {
        assert(decreases_to!(items => items@));
        out.push(items[i].duplicate());
        i += 1;
    }
    proof {
        lemma_items_value(items@);
        lemma_items_value(out@);
        assert(items_value(out@) =~= items_value(items@));
    }
    out
}

fn duplicate_members(members: &Vec<(String, Json)>) -> (r: Vec<(String, Json)>)
    ensures
        members_value(r@) == members_value(members@),
    decreases members,
{
    let mut out: Vec<(String, Json)> = Vec::new();
    let mut i: usize = 0;
    while i < members.len()
        invariant
            i <= members@.len(),
            out@.len() == i,
            forall|k: int|
                0 <= k < i ==> (#[trigger] out@[k]).0@ == members@[k].0@ && out@[k].1.value()
                    == members@[k].1.value(),
        decreases members.len() - i,
    {
        assert(decreases_to!(members => members@));
        assert(decreases_to!(members@ => members@[i as int]));
        out.push((members[i].0.clone(), members[i].1.duplicate()));
        i += 1;
    }
    proof {
        lemma_members_value(members@);
        lemma_members_value(out@);
        assert(members_value(out@) =~= members_value(members@));
    }
    out
}

// ---------------------------------------------------------------------------------------------
// Writing values
// ---------------------------------------------------------------------------------------------

/// An object with one member.
pub open spec fn single(key: Seq<char>, value: Value) -> Value {
    Value::Object(seq![(key, value)])
}

/// Adds a member at the end.
pub fn put(members: &mut Vec<(String, Json)>, key: &str, value: Json)
    ensures
        members_value(final(members)@) == members_value(old(members)@).push((key@, value.value())),
{
    let ghost before = members@;
    members.push((key.to_string(), value));
    assert(members@.drop_last() =~= before);
}

pub fn put_text(members: &mut Vec<(String, Json)>, key: &str, value: &str)
    ensures
        members_value(final(members)@) == members_value(old(members)@).push(
            (key@, Value::Text(value@)),
        ),
{
    put(members, key, Json::Text(value.to_string()));
}

/// A whole number, as JSON has it.
pub open spec fn whole(n: int) -> Value {
    if n >= 0 {
        Value::Unsigned(n as u64)
    } else {
        Value::Negative(n as i64)
    }
}

pub fn whole_number(n: i64) -> (r: Json)
    ensures
        r.value() == whole(n as int),
{
    if n >= 0 {
        Json::Unsigned(n as u64)
    } else {
        Json::Negative(n)
    }
}

pub fn single_object(key: &str, value: Json) -> (r: Json)
    ensures
        r.value() == single(key@, value.value()),
{
    let mut members: Vec<(String, Json)> = Vec::new();
    put(&mut members, key, value);
    assert(members_value(members@) =~= seq![(key@, value.value())]);
    Json::Object(members)
}

pub fn duplicate_list(items: &Vec<Json>) -> (r: Vec<Json>)
    ensures
        items_value(r@) == items_value(items@),
{
    duplicate_items(items)
}

/// The members with one of them set, in its place or at the end.
pub open spec fn with_member(
    members: Seq<(Seq<char>, Value)>,
    key: Seq<char>,
    value: Value,
) -> Seq<(Seq<char>, Value)> {
    let i = member_at(members, key, 0);
    if i < members.len() {
        members.update(i, (key, value))
    } else {
        members.push((key, value))
    }
}

/// Sets a member, in its place or at the end.
pub fn set(members: &mut Vec<(String, Json)>, key: &str, value: Json)
    ensures
        members_value(final(members)@) == with_member(
            members_value(old(members)@),
            key@,
            value.value(),
        ),
{
    let ghost before = members@;
    proof {
        lemma_members_value(before);
    }
    let i = find_member(members, key);
    if i < members.len() {
        members[i] = (key.to_string(), value);
        proof {
            lemma_members_update(before, i as int, members@[i as int]);
            assert(members@ =~= before.update(i as int, members@[i as int]));
        }
        return;
    }
    put(members, key, value);
}

/// The first member with a key.
pub fn find<'a>(members: &'a Vec<(String, Json)>, key: &str) -> (r: Option<&'a Json>)
    ensures
        match r {
            Some(json) => Value::Object(members_value(members@)).get(key@) == Some(json.value()),
            None => Value::Object(members_value(members@)).get(key@) is None,
        },
{
    proof {
        lemma_members_value(members@);
    }
    let i = find_member(members, key);
    if i < members.len() {
        assert(members_value(members@)[i as int] == (
            members@[i as int].0@,
            members@[i as int].1.value(),
        ));
        Some(&members[i].1)
    } else {
        None
    }
}

pub fn has(members: &Vec<(String, Json)>, key: &str) -> (r: bool)
    ensures
        r == (member_at(members_value(members@), key@, 0) < members_value(members@).len()),
{
    proof {
        lemma_members_value(members@);
    }
    find_member(members, key) < members.len()
}

/// A member more is found where none with its key was there before.
pub proof fn lemma_get_push(
    members: Seq<(Seq<char>, Value)>,
    member: (Seq<char>, Value),
    key: Seq<char>,
)
    ensures
        Value::Object(members.push(member)).get(key) == match Value::Object(members).get(key) {
            Some(value) => Some(value),
            None => if member.0 == key {
                Some(member.1)
            } else {
                None
            },
        },
{
    let after = members.push(member);
    lemma_member_at(members, key, 0);
    let at = member_at(members, key, 0);
    assert forall|k: int| 0 <= k < members.len() implies #[trigger] after[k] == members[k] by {}
    if at < members.len() {
        lemma_member_is(after, key, 0, at);
    } else if member.0 == key {
        lemma_member_is(after, key, 0, members.len() as int);
    } else {
        lemma_member_is(after, key, 0, after.len() as int);
    }
}

/// Setting a member sets that member and leaves the others.
pub proof fn setting_a_member_leaves_the_others(
    members: Seq<(Seq<char>, Value)>,
    key: Seq<char>,
    value: Value,
    other: Seq<char>,
)
    ensures
        Value::Object(with_member(members, key, value)).get(key) == Some(value),
        other != key ==> Value::Object(with_member(members, key, value)).get(other)
            == Value::Object(members).get(other),
{
    let after = with_member(members, key, value);
    lemma_member_at(members, key, 0);
    lemma_member_at(members, other, 0);
    let i = member_at(members, key, 0);
    if i < members.len() {
        assert forall|k: int| 0 <= k < members.len() implies (#[trigger] after[k]).0
            == members[k].0 by {}
        lemma_member_is(after, key, 0, i);
        lemma_member_is(after, other, 0, member_at(members, other, 0));
    } else {
        lemma_get_push(members, (key, value), key);
        lemma_get_push(members, (key, value), other);
    }
}

} // verus!
