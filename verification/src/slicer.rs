//! Server-side slicing with the OrcaSlicer CLI and the Elegoo Centauri Carbon 2 profiles it
//! ships.
//!
//! The CLI loads profile files as they are and ignores `inherits` (only the GUI resolves it),
//! so a bundled leaf profile slices with defaults for everything its parents set. Each profile
//! is therefore flattened here. They are written back marked `from: system` because the CLI
//! only accepts a process as compatible when its `compatible_printers` names the machine, and
//! it takes a machine's own `name` for that comparison only from a system profile.

use vstd::prelude::*;

use crate::config::{self, Nozzle};
use crate::jobs;
use crate::json::{self, Json, Value};
use crate::num;
use crate::order;
use crate::preview;
use crate::text;

verus! {

/// Deeper than any bundled chain (four levels in 2.4.2); anything past it is a loop.
pub const MAX_INHERITANCE: usize = 16;

pub const OUTPUT_LINES: usize = 20;

/// One percent of a model's own size. Scales are finer than any two floats between one percent
/// and a hundred lie apart.
pub const SCALE_PERCENT: u64 = 10_000_000_000_000_000;

/// The smallest scale that a model is sliced at: one percent.
pub const SCALE_MIN: u64 = 10_000_000_000_000_000;

/// The largest scale: the CLI crashes on anything above the model's own size.
pub const SCALE_MAX: u64 = 1_000_000_000_000_000_000;

#[derive(Debug, PartialEq, Eq)]
pub enum SliceError {
    UnknownProfile(String),
    InheritanceLoop(String),
    Profiles { path: String, source: String },
    Io(String),
    /// In seconds.
    Timeout(u64),
    Failed { status: String, output: String },
    NoOutput,
}

impl SliceError {
    pub open spec fn text(self) -> Seq<char> {
        match self {
            SliceError::UnknownProfile(name) => "unknown slicer profile "@ + config::quoted(name@),
            SliceError::InheritanceLoop(name) => "slicer profile "@ + config::quoted(name@)
                + " inherits in a loop"@,
            SliceError::Profiles { path, source } => "reading slicer profiles in "@ + path@ + ": "@
                + source@,
            SliceError::Io(source) => source@,
            SliceError::Timeout(seconds) => "slicing took longer than "@ + text::decimal(
                seconds as nat / 60,
            ) + " minutes"@,
            SliceError::Failed { status, output } => "the slicer failed ("@ + status@ + "): "@
                + output@,
            SliceError::NoOutput => "the slicer finished without writing G-code"@,
        }
    }

    pub fn message(&self) -> (r: String)
        ensures
            r@ == self.text(),
    {
        match self {
            SliceError::UnknownProfile(name) => {
                let mut out = "unknown slicer profile ".to_string();
                out.append(config::quote(name.as_str()).as_str());
                out
            },
            SliceError::InheritanceLoop(name) => {
                let mut out = "slicer profile ".to_string();
                out.append(config::quote(name.as_str()).as_str());
                out.append(" inherits in a loop");
                out
            },
            SliceError::Profiles { path, source } => {
                let mut out = "reading slicer profiles in ".to_string();
                out.append(path.as_str());
                out.append(": ");
                out.append(source.as_str());
                out
            },
            SliceError::Io(source) => source.clone(),
            SliceError::Timeout(seconds) => {
                let mut out = "slicing took longer than ".to_string();
                text::push_decimal(&mut out, *seconds / 60);
                out.append(" minutes");
                out
            },
            SliceError::Failed { status, output } => {
                let mut out = "the slicer failed (".to_string();
                out.append(status.as_str());
                out.append("): ");
                out.append(output.as_str());
                out
            },
            SliceError::NoOutput => "the slicer finished without writing G-code".to_string(),
        }
    }
}

// ---------------------------------------------------------------------------------------------
// Profiles
// ---------------------------------------------------------------------------------------------

pub type Members = Seq<(Seq<char>, Value)>;

/// A profile by its name.
#[derive(Debug)]
pub struct Profile {
    pub name: String,
    pub members: Vec<(String, Json)>,
}

impl Profile {
    pub open spec fn shown(self) -> (Seq<char>, Members) {
        (self.name@, json::members_value(self.members@))
    }
}

/// Every profile of one vendor, by `name`.
#[derive(Debug)]
pub struct ProfileLibrary {
    pub profiles: Vec<Profile>,
}

pub open spec fn profile_at(profiles: Seq<(Seq<char>, Members)>, name: Seq<char>, i: int) -> int
    decreases profiles.len() - i,
{
    if i >= profiles.len() {
        profiles.len() as int
    } else if profiles[i].0 == name {
        i
    } else {
        profile_at(profiles, name, i + 1)
    }
}

/// The profiles with one more; it takes the place of one with the same name.
pub open spec fn with_profile(
    profiles: Seq<(Seq<char>, Members)>,
    name: Seq<char>,
    members: Members,
) -> Seq<(Seq<char>, Members)> {
    let i = profile_at(profiles, name, 0);
    if i < profiles.len() {
        profiles.update(i, (name, members))
    } else {
        profiles.push((name, members))
    }
}

/// The members of a child, and those of its parent that it lacks.
pub open spec fn filled(members: Members, parent: Members) -> Members
    decreases parent.len(),
{
    if parent.len() == 0 {
        members
    } else {
        let before = filled(members, parent.drop_last());
        let key = parent.last().0;
        if json::member_at(before, key, 0) < before.len() {
            before
        } else {
            before.push(parent.last())
        }
    }
}

/// The profile that a profile inherits from.
pub open spec fn parent_name(members: Members) -> Option<Seq<char>> {
    match Value::Object(members).get("inherits"@) {
        Some(Value::Text(parent)) if parent.len() > 0 => Some(parent),
        _ => None,
    }
}

pub open spec fn is_key(key: Seq<char>) -> spec_fn((Seq<char>, Value)) -> bool {
    |member: (Seq<char>, Value)| member.0 != key
}

/// Why a profile cannot be flattened.
pub ghost enum FlattenProblem {
    Unknown(Seq<char>),
    Loop,
}

/// What a profile holds with what it inherits, when `members` are known already and `next` comes
/// next, at most `left` steps on.
pub open spec fn flattened(
    profiles: Seq<(Seq<char>, Members)>,
    members: Members,
    next: Option<Seq<char>>,
    left: nat,
) -> Result<Members, FlattenProblem>
    decreases left,
{
    match next {
        None => Ok(members.filter(is_key("inherits"@))),
        Some(_) if left == 0 => Err(FlattenProblem::Loop),
        Some(name) => {
            let i = profile_at(profiles, name, 0);
            if i >= profiles.len() {
                Err(FlattenProblem::Unknown(name))
            } else {
                flattened(
                    profiles,
                    filled(members, profiles[i].1),
                    parent_name(profiles[i].1),
                    (left - 1) as nat,
                )
            }
        },
    }
}

/// The profile with every inherited setting filled in, `inherits` removed.
pub open spec fn flat(profiles: Seq<(Seq<char>, Members)>, name: Seq<char>) -> Result<
    Members,
    FlattenProblem,
> {
    flattened(profiles, seq![], Some(name), MAX_INHERITANCE as nat)
}

pub open spec fn lists_machine(members: Members, machine: Seq<char>) -> bool {
    match Value::Object(members).get("compatible_printers"@) {
        Some(Value::List(printers)) => printers.contains(Value::Text(machine)),
        _ => false,
    }
}

/// Whether a profile of a kind can be chosen for a machine.
pub open spec fn selectable(
    profiles: Seq<(Seq<char>, Members)>,
    i: int,
    kind: Seq<char>,
    machine: Seq<char>,
) -> bool {
    let own = Value::Object(profiles[i].1);
    &&& own.get("type"@) == Some(Value::Text(kind))
    &&& own.get("instantiation"@) == Some(Value::Text("true"@))
    &&& flat(profiles, profiles[i].0) matches Ok(members) && lists_machine(members, machine)
}

/// The names of the first `n` profiles, where they can be chosen.
pub open spec fn selectable_names(
    profiles: Seq<(Seq<char>, Members)>,
    kind: Seq<char>,
    machine: Seq<char>,
    n: int,
) -> Seq<Seq<char>>
    decreases n,
{
    if n <= 0 {
        seq![]
    } else {
        let before = selectable_names(profiles, kind, machine, n - 1);
        if selectable(profiles, n - 1, kind, machine) {
            before.push(profiles[n - 1].0)
        } else {
            before
        }
    }
}

pub open spec fn name_order() -> spec_fn(Seq<char>, Seq<char>) -> bool {
    |a: Seq<char>, b: Seq<char>| text::at_or_before(a, b)
}

spec fn string_order() -> spec_fn(String, String) -> bool {
    |a: String, b: String| text::at_or_before(a@, b@)
}

/// The names of the profiles of a kind that can be chosen for a machine, sorted.
pub open spec fn compatible_names(
    profiles: Seq<(Seq<char>, Members)>,
    kind: Seq<char>,
    machine: Seq<char>,
) -> Seq<Seq<char>> {
    order::sorted(
        selectable_names(profiles, kind, machine, profiles.len() as int),
        name_order(),
    )
}

fn fill(members: &mut Vec<(String, Json)>, parent: &Vec<(String, Json)>)
    ensures
        json::members_value(final(members)@) == filled(
            json::members_value(old(members)@),
            json::members_value(parent@),
        ),
{
    let ghost before = json::members_value(members@);
    let ghost from = json::members_value(parent@);
    proof {
        json::lemma_members_value(parent@);
    }
    let mut i: usize = 0;
    assert(from.take(0) =~= seq![]);
    while i < parent.len()
        invariant
            i <= parent@.len(),
            from == json::members_value(parent@),
            from.len() == parent@.len(),
            forall|k: int|
                0 <= k < parent@.len() ==> #[trigger] from[k] == (
                    parent@[k].0@,
                    parent@[k].1.value(),
                ),
            json::members_value(members@) == filled(before, from.take(i as int)),
        decreases parent.len() - i,
    {
        assert(from.take(i + 1).drop_last() =~= from.take(i as int));
        assert(from.take(i + 1).last() == from[i as int]);
        if !json::has(members, parent[i].0.as_str()) {
            json::put(members, parent[i].0.as_str(), parent[i].1.duplicate());
        }
        i += 1;
    }
    assert(from.take(i as int) =~= from);
}

fn without_inherits(members: Vec<(String, Json)>) -> (r: Vec<(String, Json)>)
    ensures
        json::members_value(r@) == json::members_value(members@).filter(is_key("inherits"@)),
{
    let ghost all = json::members_value(members@);
    let ghost p = is_key("inherits"@);
    let mut out: Vec<(String, Json)> = Vec::new();
    proof {
        json::lemma_members_value(members@);
        crate::lists::lemma_filter_ends(all, p);
    }
    let mut i: usize = 0;
    while i < members.len()
        invariant
            i <= members@.len(),
            all == json::members_value(members@),
            all.len() == members@.len(),
            p == is_key("inherits"@),
            forall|k: int|
                0 <= k < members@.len() ==> #[trigger] all[k] == (
                    members@[k].0@,
                    members@[k].1.value(),
                ),
            json::members_value(out@) == all.take(i as int).filter(p),
        decreases members.len() - i,
    {
        proof {
            crate::lists::lemma_filter_step(all, p, i as int);
        }
        assert(all[i as int] == (members@[i as int].0@, members@[i as int].1.value()));
        if !text::same(members[i].0.as_str(), "inherits") {
            json::put(&mut out, members[i].0.as_str(), members[i].1.duplicate());
        }
        i += 1;
    }
    out
}

fn parent_of(members: &Vec<(String, Json)>) -> (r: Option<String>)
    ensures
        text::opt_view(r) == parent_name(json::members_value(members@)),
{
    match json::find(members, "inherits") {
        Some(Json::Text(parent)) if !parent.as_str().is_empty() => Some(parent.clone()),
        _ => None,
    }
}

impl ProfileLibrary {
    pub open spec fn shown(self) -> Seq<(Seq<char>, Members)> {
        self.profiles@.map_values(|profile: Profile| profile.shown())
    }

    pub fn new() -> (r: ProfileLibrary)
        ensures
            r.shown() == Seq::<(Seq<char>, Members)>::empty(),
    {
        let r = ProfileLibrary { profiles: Vec::new() };
        assert(r.shown() =~= seq![]);
        r
    }

    fn find(&self, name: &str) -> (r: usize)
        ensures
            r == profile_at(self.shown(), name@, 0),
            r <= self.profiles@.len(),
    {
        let mut i: usize = 0;
        while i < self.profiles.len()
            invariant
                i <= self.profiles@.len(),
                profile_at(self.shown(), name@, 0) == profile_at(self.shown(), name@, i as int),
            decreases self.profiles.len() - i,
        {
            assert(self.shown()[i as int] == self.profiles@[i as int].shown());
            if text::same(self.profiles[i].name.as_str(), name) {
                return i;
            }
            i += 1;
        }
        i
    }

    /// Takes in what one file holds. What has no name is no profile.
    pub fn insert(&mut self, profile: Json)
        ensures
            final(self).shown() == match (
                profile.value(),
                profile.value().get("name"@),
            ) {
                (Value::Object(members), Some(Value::Text(name))) => with_profile(
                    old(self).shown(),
                    name,
                    members,
                ),
                _ => old(self).shown(),
            },
    {
        let ghost before = self.shown();
        let name = match profile.get("name") {
            Some(Json::Text(name)) => name.clone(),
            _ => {
                return;
            },
        };
        if let Json::Object(members) = profile {
            let at = self.find(name.as_str());
            let ghost new = (name@, json::members_value(members@));
            if at < self.profiles.len() {
                self.profiles[at] = Profile { name, members };
                assert(self.shown() =~= before.update(at as int, new));
            } else {
                self.profiles.push(Profile { name, members });
                assert(self.shown() =~= before.push(new));
            }
        }
    }

    /// The profile with every inherited setting filled in, `inherits` removed.
    pub fn flatten(&self, name: &str) -> (r: Result<Vec<(String, Json)>, SliceError>)
        ensures
            match (r, flat(self.shown(), name@)) {
                (Ok(members), Ok(shown)) => json::members_value(members@) == shown,
                (
                    Err(SliceError::UnknownProfile(missing)),
                    Err(FlattenProblem::Unknown(shown)),
                ) => missing@ == shown,
                (Err(SliceError::InheritanceLoop(looping)), Err(FlattenProblem::Loop)) => looping@
                    == name@,
                _ => false,
            },
    {
        let ghost all = self.shown();
        let mut members: Vec<(String, Json)> = Vec::new();
        let mut next: Option<String> = Some(name.to_string());
        let mut left: usize = MAX_INHERITANCE;
        assert(json::members_value(members@) =~= seq![]);
        loop
            invariant
                all == self.shown(),
                flat(all, name@) == flattened(
                    all,
                    json::members_value(members@),
                    text::opt_view(next),
                    left as nat,
                ),
            decreases left,
        {
            match next {
                None => {
                    return Ok(without_inherits(members));
                },
                Some(current) => {
                    if left == 0 {
                        return Err(SliceError::InheritanceLoop(name.to_string()));
                    }
                    let at = self.find(current.as_str());
                    if at >= self.profiles.len() {
                        return Err(SliceError::UnknownProfile(current));
                    }
                    let profile = &self.profiles[at];
                    assert(all[at as int] == profile.shown());
                    fill(&mut members, &profile.members);
                    next = parent_of(&profile.members);
                },
            }
            left -= 1;
        }
    }

    fn is_selectable(&self, i: usize, kind: &str, machine: &str) -> (r: bool)
        requires
            i < self.profiles@.len(),
        ensures
            r == selectable(self.shown(), i as int, kind@, machine@),
    {
        let profile = &self.profiles[i];
        assert(self.shown()[i as int] == profile.shown());
        let typed = match json::find(&profile.members, "type") {
            Some(Json::Text(own)) => text::same(own.as_str(), kind),
            _ => false,
        };
        let marked = match json::find(&profile.members, "instantiation") {
            Some(Json::Text(own)) => text::same(own.as_str(), "true"),
            _ => false,
        };
        if !typed || !marked {
            return false;
        }
        match self.flatten(profile.name.as_str()) {
            Err(_) => false,
            Ok(members) => match json::find(&members, "compatible_printers") {
                Some(Json::List(printers)) => holds_text(printers, machine),
                _ => false,
            },
        }
    }

    /// Selectable profiles of `kind` (`process` or `filament`) that name `machine` as
    /// compatible, sorted by name.
    ///
    /// `compatible_printers` counts when inherited: Elegoo's Fine and Draft processes take it
    /// from Standard. `instantiation` is read from the profile's own file, because parents are
    /// marked `false`. Profiles that cannot be flattened are left out.
    pub fn compatible(&self, kind: &str, machine: &str) -> (r: Vec<String>)
        ensures
            text::views(r@) == compatible_names(self.shown(), kind@, machine@),
    {
        let ghost all = self.shown();
        let mut names: Vec<String> = Vec::new();
        let mut i: usize = 0;
        assert(text::views(names@) =~= seq![]);
        while i < self.profiles.len()
            invariant
                i <= self.profiles@.len(),
                all == self.shown(),
                text::views(names@) == selectable_names(all, kind@, machine@, i as int),
            decreases self.profiles.len() - i,
        {
            assert(all[i as int] == self.profiles@[i as int].shown());
            if self.is_selectable(i, kind, machine) {
                let ghost before = text::views(names@);
                let name = self.profiles[i].name.clone();
                names.push(name);
                assert(text::views(names@) =~= before.push(name@));
            }
            i += 1;
        }
        let ghost found = names@;
        let before = |a: &String, b: &String| -> (r: bool)
            ensures
                r == string_order()(*a, *b),
            {
                text::slice_at_or_before(
                    text::chars(a.as_str()).as_slice(),
                    text::chars(b.as_str()).as_slice(),
                )
            };
        let sorted = order::sort_by(names, before, Ghost(string_order()));
        proof {
            order::sorting_a_view(found, string_order(), |s: String| s@, name_order());
            assert(text::views(found) =~= found.map_values(|s: String| s@));
            assert(text::views(sorted@) =~= sorted@.map_values(|s: String| s@));
        }
        sorted
    }
}

fn holds_text(items: &Vec<Json>, wanted: &str) -> (r: bool)
    ensures
        r == json::items_value(items@).contains(Value::Text(wanted@)),
{
    let ghost all = json::items_value(items@);
    proof {
        json::lemma_items_value(items@);
    }
    let mut i: usize = 0;
    while i < items.len()
        invariant
            i <= items@.len(),
            all == json::items_value(items@),
            all.len() == items@.len(),
            forall|k: int| 0 <= k < items@.len() ==> #[trigger] all[k] == items@[k].value(),
            forall|k: int| 0 <= k < i ==> #[trigger] all[k] != Value::Text(wanted@),
        decreases items.len() - i,
    {
        assert(all[i as int] == items@[i as int].value());
        if let Json::Text(own) = &items[i] {
            if text::same(own.as_str(), wanted) {
                assert(all[i as int] == Value::Text(wanted@));
                return true;
            }
        }
        i += 1;
    }
    false
}

proof fn lemma_filled(members: Members, parent: Members, key: Seq<char>)
    ensures
        filled(members, parent).len() >= members.len(),
        forall|k: int|
            0 <= k < members.len() ==> #[trigger] filled(members, parent)[k] == members[k],
        Value::Object(members).get(key) is Some ==> Value::Object(filled(members, parent)).get(
            key,
        ) == Value::Object(members).get(key),
    decreases parent.len(),
{
    if parent.len() > 0 {
        lemma_filled(members, parent.drop_last(), key);
    }
    if Value::Object(members).get(key) is Some {
        let at = json::member_at(members, key, 0);
        json::lemma_member_at(members, key, 0);
        let all = filled(members, parent);
        json::lemma_member_at(all, key, 0);
        assert(all[at].0 == key);
        let other = json::member_at(all, key, 0);
        assert(other <= at);
        assert(all[other] == members[other]);
    }
}

/// What a profile sets itself, its parents do not change.
pub proof fn nearer_profiles_win(members: Members, parent: Members, key: Seq<char>)
    requires
        Value::Object(members).get(key) is Some,
    ensures
        Value::Object(filled(members, parent)).get(key) == Value::Object(members).get(key),
{
    lemma_filled(members, parent, key);
}

proof fn lemma_flattened_has_no_parent(
    profiles: Seq<(Seq<char>, Members)>,
    members: Members,
    next: Option<Seq<char>>,
    left: nat,
)
    requires
        flattened(profiles, members, next, left) is Ok,
    ensures
        Value::Object(flattened(profiles, members, next, left)->Ok_0).get("inherits"@) is None,
    decreases left,
{
    match next {
        None => {
            let kept = members.filter(is_key("inherits"@));
            crate::lists::lemma_filter_positions(members, is_key("inherits"@));
            json::lemma_member_at(kept, "inherits"@, 0);
            let at = json::member_at(kept, "inherits"@, 0);
            if at < kept.len() {
                assert(is_key("inherits"@)(kept[at]));
            }
        },
        Some(name) => {
            let i = profile_at(profiles, name, 0);
            lemma_flattened_has_no_parent(
                profiles,
                filled(members, profiles[i].1),
                parent_name(profiles[i].1),
                (left - 1) as nat,
            );
        },
    }
}

/// A flattened profile inherits from nothing.
pub proof fn flattened_profiles_stand_alone(profiles: Seq<(Seq<char>, Members)>, name: Seq<char>)
    requires
        flat(profiles, name) is Ok,
    ensures
        Value::Object(flat(profiles, name)->Ok_0).get("inherits"@) is None,
{
    lemma_flattened_has_no_parent(profiles, seq![], Some(name), MAX_INHERITANCE as nat);
}

/// A profile that inherits from itself is never flattened.
pub proof fn loops_are_refused(profiles: Seq<(Seq<char>, Members)>, name: Seq<char>)
    requires
        profile_at(profiles, name, 0) < profiles.len(),
        parent_name(profiles[profile_at(profiles, name, 0)].1) == Some(name),
    ensures
        flat(profiles, name) == Err::<Members, FlattenProblem>(FlattenProblem::Loop),
{
    lemma_loop(profiles, seq![], name, MAX_INHERITANCE as nat);
}

proof fn lemma_loop(
    profiles: Seq<(Seq<char>, Members)>,
    members: Members,
    name: Seq<char>,
    left: nat,
)
    requires
        profile_at(profiles, name, 0) < profiles.len(),
        parent_name(profiles[profile_at(profiles, name, 0)].1) == Some(name),
    ensures
        flattened(profiles, members, Some(name), left) == Err::<Members, FlattenProblem>(
            FlattenProblem::Loop,
        ),
    decreases left,
{
    if left > 0 {
        let i = profile_at(profiles, name, 0);
        lemma_loop(profiles, filled(members, profiles[i].1), name, (left - 1) as nat);
    }
}

// ---------------------------------------------------------------------------------------------
// Settings
// ---------------------------------------------------------------------------------------------

/// A build plate the Centauri Carbon 2 takes. Filament profiles set a bed temperature per plate
/// type, and the CLI slices for OrcaSlicer's Cool Plate unless told otherwise.
#[derive(Debug, Clone, Copy, PartialEq, Eq, Structural)]
pub enum Plate {
    TexturedPei,
    HighTemp,
}

impl Plate {
    /// The plates, in the order in which they are offered.
    pub const ALL: [Plate; 2] = [Plate::TexturedPei, Plate::HighTemp];

    pub open spec fn name(self) -> Seq<char> {
        match self {
            Plate::TexturedPei => "Textured PEI Plate"@,
            Plate::HighTemp => "High Temp Plate"@,
        }
    }

    pub open spec fn named(raw: Seq<char>) -> Option<Plate> {
        if raw == Plate::TexturedPei.name() {
            Some(Plate::TexturedPei)
        } else if raw == Plate::HighTemp.name() {
            Some(Plate::HighTemp)
        } else {
            None
        }
    }

    /// OrcaSlicer's name for the plate type, as `curr_bed_type` takes it and G-code records it.
    pub fn as_str(self) -> (r: &'static str)
        ensures
            r@ == self.name(),
    {
        match self {
            Plate::TexturedPei => "Textured PEI Plate",
            Plate::HighTemp => "High Temp Plate",
        }
    }

    pub fn parse(raw: &str) -> (r: Option<Plate>)
        ensures
            r == Plate::named(raw@),
    {
        if text::same(raw, "Textured PEI Plate") {
            Some(Plate::TexturedPei)
        } else if text::same(raw, "High Temp Plate") {
            Some(Plate::HighTemp)
        } else {
            None
        }
    }
}

/// A plate is read back from its name, and from nothing else.
pub proof fn plate_names_round_trip(plate: Plate, raw: Seq<char>)
    ensures
        Plate::named(plate.name()) == Some(plate),
        Plate::named(raw) == Some(plate) ==> raw == plate.name(),
{
    reveal_strlit("Textured PEI Plate");
    reveal_strlit("High Temp Plate");
    assert("Textured PEI Plate"@.len() != "High Temp Plate"@.len());
}

#[derive(Debug, PartialEq, Eq)]
pub struct SliceSettings {
    pub nozzle: Nozzle,
    pub plate: Plate,
    pub process: String,
    pub filament: String,
    /// `#RRGGBB`. Recorded in the G-code, where the printer's own screen shows it.
    pub color_hex: String,
    pub supports: bool,
    pub infill_percent: u8,
}

pub open spec fn machine_title(nozzle: Nozzle) -> Seq<char> {
    "Elegoo Centauri Carbon 2 "@ + nozzle.name() + " nozzle"@
}

pub fn machine_name(nozzle: Nozzle) -> (r: String)
    ensures
        r@ == machine_title(nozzle),
{
    let mut out = "Elegoo Centauri Carbon 2 ".to_string();
    out.append(nozzle.as_str());
    out.append(" nozzle");
    out
}

/// Half the nozzle's diameter.
pub open spec fn layer_height(nozzle: Nozzle) -> Seq<char> {
    match nozzle {
        Nozzle::Mm02 => "0.10"@,
        Nozzle::Mm04 => "0.20"@,
        Nozzle::Mm06 => "0.30"@,
        Nozzle::Mm08 => "0.40"@,
    }
}

pub open spec fn standard_process(nozzle: Nozzle) -> Seq<char> {
    layer_height(nozzle) + "mm Standard @Elegoo CC2 "@ + nozzle.name() + " nozzle"@
}

/// The process the upload form preselects: the bundled "Standard" one, whose layer height is
/// half the nozzle diameter.
pub fn default_process(nozzle: Nozzle) -> (r: String)
    ensures
        r@ == standard_process(nozzle),
{
    let mut out = match nozzle {
        Nozzle::Mm02 => "0.10".to_string(),
        Nozzle::Mm04 => "0.20".to_string(),
        Nozzle::Mm06 => "0.30".to_string(),
        Nozzle::Mm08 => "0.40".to_string(),
    };
    out.append("mm Standard @Elegoo CC2 ");
    out.append(nozzle.as_str());
    out.append(" nozzle");
    out
}

// ---------------------------------------------------------------------------------------------
// Slicing
// ---------------------------------------------------------------------------------------------

/// Holds every nozzle's profiles: the mounted nozzle can change while the server runs.
#[derive(Debug)]
pub struct Slicer {
    pub binary: String,
    pub library: ProfileLibrary,
    /// In seconds.
    pub timeout: u64,
}

/// What a run of the CLI needs: directories that exist, files to write, and arguments. The G-code
/// it writes is then at `gcode`.
#[derive(Debug)]
pub struct SlicePlan {
    pub dirs: Vec<String>,
    pub files: Vec<(String, Json)>,
    pub args: Vec<String>,
    pub gcode: String,
}

pub open spec fn percent_text(infill: u8) -> Seq<char> {
    text::decimal(
        if infill < 100 {
            infill as nat
        } else {
            100
        },
    ) + "%"@
}

/// A profile as the CLI takes it.
pub open spec fn as_system(members: Members) -> Value {
    Value::Object(json::with_member(members, "from"@, Value::Text("system"@)))
}

/// A process with what was chosen for this print.
pub open spec fn with_choices(members: Members, settings: SliceSettings) -> Members {
    json::with_member(
        json::with_member(
            json::with_member(members, "curr_bed_type"@, Value::Text(settings.plate.name())),
            "enable_support"@,
            Value::Text(
                if settings.supports {
                    "1"@
                } else {
                    "0"@
                },
            ),
        ),
        "sparse_infill_density"@,
        Value::Text(percent_text(settings.infill_percent)),
    )
}

pub open spec fn with_color(members: Members, settings: SliceSettings) -> Members {
    json::with_member(
        members,
        "filament_colour"@,
        Value::List(seq![Value::Text(settings.color_hex@)]),
    )
}

/// The first of the three profiles of a print that cannot be flattened.
pub open spec fn slice_problem(
    profiles: Seq<(Seq<char>, Members)>,
    settings: SliceSettings,
) -> Option<(Seq<char>, FlattenProblem)> {
    let machine = machine_title(settings.nozzle);
    match (
        flat(profiles, machine),
        flat(profiles, settings.process@),
        flat(profiles, settings.filament@),
    ) {
        (Err(problem), _, _) => Some((machine, problem)),
        (_, Err(problem), _) => Some((settings.process@, problem)),
        (_, _, Err(problem)) => Some((settings.filament@, problem)),
        _ => None,
    }
}

pub open spec fn is_slice_error(error: SliceError, name: Seq<char>, problem: FlattenProblem) -> bool {
    match (error, problem) {
        (SliceError::UnknownProfile(missing), FlattenProblem::Unknown(shown)) => missing@ == shown,
        (SliceError::InheritanceLoop(looping), FlattenProblem::Loop) => looping@ == name,
        _ => false,
    }
}

/// The arguments of the CLI.
pub open spec fn slice_args(workdir: Seq<char>, model: Seq<char>) -> Seq<Seq<char>> {
    let profiles = jobs::below(workdir, "profiles"@);
    seq![
        "--datadir"@,
        jobs::below(workdir, "orca-data"@),
        "--slice"@,
        "1"@,
        "--load-settings"@,
        jobs::below(profiles, "machine.json"@) + ";"@ + jobs::below(profiles, "process.json"@),
        "--load-filaments"@,
        jobs::below(profiles, "filament.json"@),
        "--outputdir"@,
        jobs::below(workdir, "out"@),
        model,
    ]
}

impl SlicePlan {
    pub open spec fn is(
        self,
        profiles: Seq<(Seq<char>, Members)>,
        workdir: Seq<char>,
        model: Seq<char>,
        settings: SliceSettings,
    ) -> bool {
        let dir = jobs::below(workdir, "profiles"@);
        &&& text::views(self.dirs@) == seq![
            dir,
            jobs::below(workdir, "out"@),
            jobs::below(workdir, "orca-data"@),
        ]
        &&& json::members_value(self.files@) == seq![
            (
                jobs::below(dir, "machine.json"@),
                as_system(flat(profiles, machine_title(settings.nozzle))->Ok_0),
            ),
            (
                jobs::below(dir, "process.json"@),
                as_system(with_choices(flat(profiles, settings.process@)->Ok_0, settings)),
            ),
            (
                jobs::below(dir, "filament.json"@),
                as_system(with_color(flat(profiles, settings.filament@)->Ok_0, settings)),
            ),
        ]
        &&& text::views(self.args@) == slice_args(workdir, model)
        &&& self.gcode@ == jobs::below(jobs::below(workdir, "out"@), "plate_1.gcode"@)
    }
}

fn as_system_profile(members: Vec<(String, Json)>) -> (r: Json)
    ensures
        r.value() == as_system(json::members_value(members@)),
{
    let mut members = members;
    json::set(&mut members, "from", Json::Text("system".to_string()));
    Json::Object(members)
}

fn push_text(list: &mut Vec<String>, item: String)
    ensures
        text::views(final(list)@) == text::views(old(list)@).push(item@),
{
    let ghost before = text::views(list@);
    list.push(item);
    assert(text::views(list@) =~= before.push(item@));
}

impl Slicer {
    pub fn processes(&self, nozzle: Nozzle) -> (r: Vec<String>)
        ensures
            text::views(r@) == compatible_names(
                self.library.shown(),
                "process"@,
                machine_title(nozzle),
            ),
    {
        let machine = machine_name(nozzle);
        self.library.compatible("process", machine.as_str())
    }

    pub fn filaments(&self, nozzle: Nozzle) -> (r: Vec<String>)
        ensures
            text::views(r@) == compatible_names(
                self.library.shown(),
                "filament"@,
                machine_title(nozzle),
            ),
    {
        let machine = machine_name(nozzle);
        self.library.compatible("filament", machine.as_str())
    }

    /// What slicing `model` inside `workdir` takes.
    pub fn slice(&self, model: &str, workdir: &str, settings: &SliceSettings) -> (r: Result<
        SlicePlan,
        SliceError,
    >)
        ensures
            match (r, slice_problem(self.library.shown(), *settings)) {
                (Ok(plan), None) => plan.is(self.library.shown(), workdir@, model@, *settings),
                (Err(error), Some((name, problem))) => is_slice_error(error, name, problem),
                _ => false,
            },
    {
        let title = machine_name(settings.nozzle);
        let machine = match self.library.flatten(title.as_str()) {
            Err(error) => {
                return Err(error);
            },
            Ok(machine) => machine,
        };
        let mut process = match self.library.flatten(settings.process.as_str()) {
            Err(error) => {
                return Err(error);
            },
            Ok(process) => process,
        };
        let mut filament = match self.library.flatten(settings.filament.as_str()) {
            Err(error) => {
                return Err(error);
            },
            Ok(filament) => filament,
        };
        json::set(
            &mut process,
            "curr_bed_type",
            Json::Text(settings.plate.as_str().to_string()),
        );
        let supports = if settings.supports {
            "1"
        } else {
            "0"
        };
        json::set(&mut process, "enable_support", Json::Text(supports.to_string()));
        let infill: u64 = if settings.infill_percent < 100 {
            settings.infill_percent as u64
        } else {
            100
        };
        let mut density = text::decimal_string(infill);
        density.append("%");
        json::set(&mut process, "sparse_infill_density", Json::Text(density));
        let mut colors: Vec<Json> = Vec::new();
        colors.push(Json::Text(settings.color_hex.clone()));
        proof {
            json::lemma_items_value(colors@);
            assert(json::items_value(colors@) =~= seq![Value::Text(settings.color_hex@)]);
        }
        json::set(&mut filament, "filament_colour", Json::List(colors));

        let profiles = jobs::join_path(workdir, "profiles");
        let output = jobs::join_path(workdir, "out");
        let datadir = jobs::join_path(workdir, "orca-data");
        let machine_path = jobs::join_path(profiles.as_str(), "machine.json");
        let process_path = jobs::join_path(profiles.as_str(), "process.json");
        let filament_path = jobs::join_path(profiles.as_str(), "filament.json");
        let gcode = jobs::join_path(output.as_str(), "plate_1.gcode");

        let mut files: Vec<(String, Json)> = Vec::new();
        assert(json::members_value(files@) =~= seq![]);
        json::put(&mut files, machine_path.as_str(), as_system_profile(machine));
        json::put(&mut files, process_path.as_str(), as_system_profile(process));
        json::put(&mut files, filament_path.as_str(), as_system_profile(filament));

        // `--load-settings` takes one argument with the files separated by `;`.
        let mut both = machine_path;
        both.append(";");
        both.append(process_path.as_str());
        let mut args: Vec<String> = Vec::new();
        assert(text::views(args@) =~= seq![]);
        push_text(&mut args, "--datadir".to_string());
        push_text(&mut args, datadir.clone());
        push_text(&mut args, "--slice".to_string());
        push_text(&mut args, "1".to_string());
        push_text(&mut args, "--load-settings".to_string());
        push_text(&mut args, both);
        push_text(&mut args, "--load-filaments".to_string());
        push_text(&mut args, filament_path);
        push_text(&mut args, "--outputdir".to_string());
        push_text(&mut args, output.clone());
        push_text(&mut args, model.to_string());
        assert(text::views(args@) =~= slice_args(workdir@, model@));

        let mut dirs: Vec<String> = Vec::new();
        assert(text::views(dirs@) =~= seq![]);
        push_text(&mut dirs, profiles);
        push_text(&mut dirs, output);
        push_text(&mut dirs, datadir);
        let plan = SlicePlan { dirs, files, args, gcode };
        proof {
            let all = self.library.shown();
            let dir = jobs::below(workdir@, "profiles"@);
            assert(text::views(plan.dirs@) =~= seq![
                dir,
                jobs::below(workdir@, "out"@),
                jobs::below(workdir@, "orca-data"@),
            ]);
            assert(json::members_value(plan.files@) =~= seq![
                (
                    jobs::below(dir, "machine.json"@),
                    as_system(flat(all, machine_title(settings.nozzle))->Ok_0),
                ),
                (
                    jobs::below(dir, "process.json"@),
                    as_system(with_choices(flat(all, settings.process@)->Ok_0, *settings)),
                ),
                (
                    jobs::below(dir, "filament.json"@),
                    as_system(with_color(flat(all, settings.filament@)->Ok_0, *settings)),
                ),
            ]);
        }
        Ok(plan)
    }

    /// What came of a run of the CLI that ended in time.
    pub fn finished(
        &self,
        plan: SlicePlan,
        success: bool,
        status: String,
        stdout: &[u8],
        stderr: &[u8],
        written: bool,
    ) -> (r: Result<String, SliceError>)
        ensures
            match r {
                Ok(gcode) => success && written && gcode@ == plan.gcode@,
                Err(SliceError::Failed { status: shown, output }) => !success && shown@ == status@
                    && output@ == output_end(stdout@, stderr@),
                Err(SliceError::NoOutput) => success && !written,
                Err(_) => false,
            },
    {
        if !success {
            Err(SliceError::Failed { status, output: last_lines(stdout, stderr) })
        } else if !written {
            Err(SliceError::NoOutput)
        } else {
            Ok(plan.gcode)
        }
    }

    /// What a run of the CLI that did not end in time comes to.
    pub fn timed_out(&self) -> (r: SliceError)
        ensures
            r == SliceError::Timeout(self.timeout),
    {
        SliceError::Timeout(self.timeout)
    }
}

/// A scale as a factor, such as `0.5`.
pub open spec fn factor_text(scale: nat) -> Seq<char> {
    num::fixed_text(scale, SCALE_MAX as nat, 18)
}

/// How the CLI takes a scale and a request to lay the model flat.
pub open spec fn placement(scale: nat, auto_orient: bool) -> Seq<Seq<char>> {
    let scaled = if scale == SCALE_MAX {
        seq![]
    } else {
        seq!["--scale"@, factor_text(scale)]
    };
    if auto_orient {
        scaled + seq!["--orient"@, "1"@]
    } else {
        scaled
    }
}

/// The arguments that place a model: nothing for one at its own size that stays as it is.
pub fn placement_args(scale: u64, auto_orient: bool) -> (r: Vec<String>)
    ensures
        text::views(r@) == placement(scale as nat, auto_orient),
{
    let mut args: Vec<String> = Vec::new();
    assert(text::views(args@) =~= seq![]);
    if scale != SCALE_MAX {
        let mut factor = String::new();
        num::push_fixed(&mut factor, scale, SCALE_MAX, 18);
        assert(factor@ =~= factor_text(scale as nat));
        push_text(&mut args, "--scale".to_string());
        push_text(&mut args, factor);
    }
    let ghost scaled = text::views(args@);
    if auto_orient {
        push_text(&mut args, "--orient".to_string());
        push_text(&mut args, "1".to_string());
        assert(text::views(args@) =~= scaled + seq!["--orient"@, "1"@]);
    }
    args
}

pub open spec fn says_something() -> spec_fn(Seq<char>) -> bool {
    |line: Seq<char>| text::trim(line).len() > 0
}

/// The end of what the CLI printed: the last lines that are not blank.
pub open spec fn output_end(stdout: Seq<u8>, stderr: Seq<u8>) -> Seq<char> {
    let lines = text::lines(preview::lossy(stdout) + preview::lossy(stderr)).filter(
        says_something(),
    );
    let from = if lines.len() > OUTPUT_LINES {
        lines.len() - OUTPUT_LINES
    } else {
        0
    };
    text::join(lines.skip(from as int), "\n"@)
}

/// The CLI reports most refusals on stdout, crashes on stderr.
pub fn last_lines(stdout: &[u8], stderr: &[u8]) -> (r: String)
    ensures
        r@ == output_end(stdout@, stderr@),
{
    let mut all = preview::read_lossy(stdout);
    all.append(preview::read_lossy(stderr).as_str());
    let chars = text::chars(all.as_str());
    let lines = text::split_lines(chars.as_slice());
    let ghost shown = text::views(lines@);
    let ghost p = says_something();
    proof {
        crate::lists::lemma_filter_ends(shown, p);
    }
    let mut kept: Vec<String> = Vec::new();
    let mut i: usize = 0;
    assert(text::views(kept@) =~= seq![]);
    while i < lines.len()
        invariant
            i <= lines@.len(),
            shown == text::views(lines@),
            p == says_something(),
            text::views(kept@) == shown.take(i as int).filter(p),
        decreases lines.len() - i,
    {
        proof {
            crate::lists::lemma_filter_step(shown, p, i as int);
        }
        if !text::trim_str(lines[i].as_str()).as_str().is_empty() {
            push_text(&mut kept, lines[i].clone());
        }
        i += 1;
    }
    assert(shown.take(i as int) =~= shown);
    let from: usize = if kept.len() > OUTPUT_LINES {
        kept.len() - OUTPUT_LINES
    } else {
        0
    };
    let mut last: Vec<String> = Vec::new();
    let mut k: usize = from;
    let ghost all_kept = text::views(kept@);
    assert(text::views(last@) =~= all_kept.subrange(from as int, from as int));
    while k < kept.len()
        invariant
            from <= k <= kept@.len(),
            all_kept == text::views(kept@),
            text::views(last@) == all_kept.subrange(from as int, k as int),
        decreases kept.len() - k,
    {
        push_text(&mut last, kept[k].clone());
        assert(text::views(last@) =~= all_kept.subrange(from as int, k + 1));
        k += 1;
    }
    assert(text::views(last@) =~= all_kept.skip(from as int));
    text::join_strings(&last, "\n")
}

// ---------------------------------------------------------------------------------------------
// A cube
// ---------------------------------------------------------------------------------------------

/// The corners of the twelve triangles of a cube; a corner's three bits say on which side of
/// each axis it lies.
pub const FACES: [(u8, u8, u8); 12] = [
    (0, 1, 3),
    (0, 3, 2),
    (4, 6, 7),
    (4, 7, 5),
    (0, 4, 5),
    (0, 5, 1),
    (2, 3, 7),
    (2, 7, 6),
    (0, 2, 6),
    (0, 6, 4),
    (1, 5, 7),
    (1, 7, 3),
];

/// Where a corner lies along an axis.
pub open spec fn side_text(corner: u8, axis: int, size: u32) -> Seq<char> {
    text::decimal(
        if (corner as int / axis) % 2 == 1 {
            size as nat
        } else {
            0
        },
    )
}

pub open spec fn vertex_text(corner: u8, size: u32) -> Seq<char> {
    "   vertex "@ + side_text(corner, 4, size) + " "@ + side_text(corner, 2, size) + " "@
        + side_text(corner, 1, size) + "\n"@
}

pub open spec fn facet_text(face: (u8, u8, u8), size: u32) -> Seq<char> {
    " facet normal 0 0 0\n  outer loop\n"@ + vertex_text(face.0, size) + vertex_text(face.1, size)
        + vertex_text(face.2, size) + "  endloop\n endfacet\n"@
}

pub open spec fn facets_text(faces: Seq<(u8, u8, u8)>, size: u32) -> Seq<char>
    decreases faces.len(),
{
    if faces.len() == 0 {
        seq![]
    } else {
        facets_text(faces.drop_last(), size) + facet_text(faces.last(), size)
    }
}

pub open spec fn cube_text(size: u32) -> Seq<char> {
    "solid cube\n"@ + facets_text(FACES@, size) + "endsolid cube\n"@
}

fn push_side(out: &mut String, corner: u8, axis: u8, size: u32)
    requires
        axis > 0,
    ensures
        final(out)@ == old(out)@ + side_text(corner, axis as int, size),
{
    if (corner / axis) % 2 == 1 {
        text::push_decimal(out, size as u64);
    } else {
        text::push_decimal(out, 0);
    }
}

fn push_vertex(out: &mut String, corner: u8, size: u32)
    ensures
        final(out)@ == old(out)@ + vertex_text(corner, size),
{
    out.append("   vertex ");
    push_side(out, corner, 4, size);
    out.append(" ");
    push_side(out, corner, 2, size);
    out.append(" ");
    push_side(out, corner, 1, size);
    out.append("\n");
    assert(out@ =~= old(out)@ + vertex_text(corner, size));
}

/// An ASCII STL of a cube with `size` mm sides, for `slice-selftest` and the real-slicer test.
#[verifier::rlimit(60)]
pub fn cube_stl(size: u32) -> (r: String)
    ensures
        r@ == cube_text(size),
{
    let mut stl = "solid cube\n".to_string();
    let ghost head = stl@;
    let mut i: usize = 0;
    assert(FACES@.take(0) =~= seq![]);
    assert(stl@ =~= head + facets_text(FACES@.take(0), size));
    while i < 12
        invariant
            i <= 12,
            stl@ == head + facets_text(FACES@.take(i as int), size),
        decreases 12 - i,
    {
        let (a, b, c) = FACES[i];
        let ghost before = stl@;
        stl.append(" facet normal 0 0 0\n  outer loop\n");
        push_vertex(&mut stl, a, size);
        push_vertex(&mut stl, b, size);
        push_vertex(&mut stl, c, size);
        stl.append("  endloop\n endfacet\n");
        proof {
            assert(FACES@.take(i + 1).drop_last() =~= FACES@.take(i as int));
            assert(FACES@.take(i + 1).last() == (a, b, c));
            assert(stl@ =~= before + facet_text((a, b, c), size));
            assert(stl@ =~= head + facets_text(FACES@.take(i + 1), size));
        }
        i += 1;
    }
    assert(FACES@.take(12) =~= FACES@);
    stl.append("endsolid cube\n");
    stl
}

// ---------------------------------------------------------------------------------------------
// Laws
// ---------------------------------------------------------------------------------------------

/// What a profile does not set itself it has from its parent.
pub proof fn parents_fill_what_is_missing(members: Members, parent: Members, key: Seq<char>)
    ensures
        Value::Object(filled(members, parent)).get(key) == match Value::Object(members).get(key) {
            Some(value) => Some(value),
            None => Value::Object(parent).get(key),
        },
    decreases parent.len(),
{
    if parent.len() > 0 {
        let front = parent.drop_last();
        let last = parent.last();
        parents_fill_what_is_missing(members, front, key);
        parents_fill_what_is_missing(members, front, last.0);
        let before = filled(members, front);
        assert(front.push(last) =~= parent);
        json::lemma_get_push(front, last, key);
        json::lemma_get_push(front, last, last.0);
        json::lemma_get_push(before, last, key);
        json::lemma_member_at(before, last.0, 0);
    }
}

proof fn lemma_get_without(members: Members, gone: Seq<char>, key: Seq<char>)
    requires
        key != gone,
    ensures
        Value::Object(members.filter(is_key(gone))).get(key) == Value::Object(members).get(key),
    decreases members.len(),
{
    reveal(Seq::filter);
    if members.len() > 0 {
        let front = members.drop_last();
        lemma_get_without(front, gone, key);
        assert(front.push(members.last()) =~= members);
        json::lemma_get_push(front, members.last(), key);
        json::lemma_get_push(front.filter(is_key(gone)), members.last(), key);
    }
}

proof fn lemma_flattened_same(
    profiles: Seq<(Seq<char>, Members)>,
    a: Members,
    b: Members,
    next: Option<Seq<char>>,
    m: nat,
    n: nat,
    key: Seq<char>,
)
    requires
        flattened(profiles, a, next, m) is Ok,
        flattened(profiles, b, next, n) is Ok,
        Value::Object(a).get(key) == Value::Object(b).get(key),
        key != "inherits"@,
    ensures
        Value::Object(flattened(profiles, a, next, m)->Ok_0).get(key) == Value::Object(
            flattened(profiles, b, next, n)->Ok_0,
        ).get(key),
    decreases m,
{
    match next {
        None => {
            lemma_get_without(a, "inherits"@, key);
            lemma_get_without(b, "inherits"@, key);
        },
        Some(name) => {
            let i = profile_at(profiles, name, 0);
            let own = profiles[i].1;
            parents_fill_what_is_missing(a, own, key);
            parents_fill_what_is_missing(b, own, key);
            lemma_flattened_same(
                profiles,
                filled(a, own),
                filled(b, own),
                parent_name(own),
                (m - 1) as nat,
                (n - 1) as nat,
                key,
            );
        },
    }
}

proof fn lemma_flattened_keeps(
    profiles: Seq<(Seq<char>, Members)>,
    members: Members,
    next: Option<Seq<char>>,
    left: nat,
    key: Seq<char>,
)
    requires
        flattened(profiles, members, next, left) is Ok,
        Value::Object(members).get(key) is Some,
        key != "inherits"@,
    ensures
        Value::Object(flattened(profiles, members, next, left)->Ok_0).get(key) == Value::Object(
            members,
        ).get(key),
    decreases left,
{
    match next {
        None => {
            lemma_get_without(members, "inherits"@, key);
        },
        Some(name) => {
            let own = profiles[profile_at(profiles, name, 0)].1;
            parents_fill_what_is_missing(members, own, key);
            lemma_flattened_keeps(
                profiles,
                filled(members, own),
                parent_name(own),
                (left - 1) as nat,
                key,
            );
        },
    }
}

proof fn lemma_profile_at(profiles: Seq<(Seq<char>, Members)>, name: Seq<char>, i: int, at: int)
    requires
        0 <= i <= at < profiles.len(),
        profiles[at].0 == name,
        forall|k: int| i <= k < at ==> (#[trigger] profiles[k]).0 != name,
    ensures
        profile_at(profiles, name, i) == at,
    decreases at - i,
{
    if i < at {
        lemma_profile_at(profiles, name, i + 1, at);
    }
}

/// A flattened profile has what it sets itself, and for everything else what its flattened parent
/// has, or nothing where it has no parent.
pub proof fn a_profile_has_its_own_and_its_parents_settings(
    profiles: Seq<(Seq<char>, Members)>,
    at: int,
    key: Seq<char>,
)
    requires
        0 <= at < profiles.len(),
        forall|k: int| 0 <= k < at ==> (#[trigger] profiles[k]).0 != profiles[at].0,
        flat(profiles, profiles[at].0) is Ok,
        key != "inherits"@,
    ensures
        ({
            let own = Value::Object(profiles[at].1).get(key);
            let result = Value::Object(flat(profiles, profiles[at].0)->Ok_0).get(key);
            &&& own is Some ==> result == own
            &&& own is None ==> match Value::Object(profiles[at].1).get("inherits"@) {
                Some(Value::Text(parent)) if parent.len() > 0 => flat(profiles, parent) is Ok
                    ==> result == Value::Object(flat(profiles, parent)->Ok_0).get(key),
                _ => result is None,
            }
        }),
{
    let name = profiles[at].0;
    let own = profiles[at].1;
    lemma_profile_at(profiles, name, 0, at);
    let start = filled(seq![], own);
    parents_fill_what_is_missing(seq![], own, key);
    assert(Value::Object(Seq::<(Seq<char>, Value)>::empty()).get(key) is None);
    let next = parent_name(own);
    assert(flat(profiles, name) == flattened(profiles, start, next, 15));
    if Value::Object(own).get(key) is Some {
        lemma_flattened_keeps(profiles, start, next, 15, key);
    } else if let Some(parent) = next {
        if flat(profiles, parent) is Ok {
            lemma_flattened_same(profiles, start, seq![], next, 15, 16, key);
        }
    } else {
        lemma_get_without(start, "inherits"@, key);
    }
}

/// Slicing sets what was chosen for the print, whatever the profile says: the plate, whether there
/// are supports, and how dense the infill is, at most full. It sets nothing else.
pub proof fn choices_override_the_profile(members: Members, settings: SliceSettings, key: Seq<char>)
    ensures
        ({
            let chosen = Value::Object(with_choices(members, settings));
            &&& chosen.get("curr_bed_type"@) == Some(Value::Text(settings.plate.name()))
            &&& chosen.get("enable_support"@) == Some(
                Value::Text(
                    if settings.supports {
                        "1"@
                    } else {
                        "0"@
                    },
                ),
            )
            &&& settings.infill_percent <= 100 ==> chosen.get("sparse_infill_density"@) == Some(
                Value::Text(text::decimal(settings.infill_percent as nat) + "%"@),
            )
            &&& settings.infill_percent > 100 ==> chosen.get("sparse_infill_density"@) == Some(
                Value::Text(text::decimal(100) + "%"@),
            )
            &&& key != "curr_bed_type"@ && key != "enable_support"@ && key
                != "sparse_infill_density"@ ==> chosen.get(key) == Value::Object(members).get(key)
        }),
        Value::Object(with_color(members, settings)).get("filament_colour"@) == Some(
            Value::List(seq![Value::Text(settings.color_hex@)]),
        ),
        key != "filament_colour"@ ==> Value::Object(with_color(members, settings)).get(key)
            == Value::Object(members).get(key),
        as_system(members).get("from"@) == Some(Value::Text("system"@)),
        key != "from"@ ==> as_system(members).get(key) == Value::Object(members).get(key),
{
    reveal_strlit("curr_bed_type");
    reveal_strlit("enable_support");
    reveal_strlit("sparse_infill_density");
    assert("curr_bed_type"@.len() == 13 && "enable_support"@.len() == 14
        && "sparse_infill_density"@.len() == 21);
    let a = Value::Text(settings.plate.name());
    let b = Value::Text(
        if settings.supports {
            "1"@
        } else {
            "0"@
        },
    );
    let c = Value::Text(percent_text(settings.infill_percent));
    let first = json::with_member(members, "curr_bed_type"@, a);
    let second = json::with_member(first, "enable_support"@, b);
    json::setting_a_member_leaves_the_others(members, "curr_bed_type"@, a, key);
    json::setting_a_member_leaves_the_others(first, "enable_support"@, b, "curr_bed_type"@);
    json::setting_a_member_leaves_the_others(first, "enable_support"@, b, key);
    json::setting_a_member_leaves_the_others(
        second,
        "sparse_infill_density"@,
        c,
        "curr_bed_type"@,
    );
    json::setting_a_member_leaves_the_others(
        second,
        "sparse_infill_density"@,
        c,
        "enable_support"@,
    );
    json::setting_a_member_leaves_the_others(second, "sparse_infill_density"@, c, key);
    json::setting_a_member_leaves_the_others(
        members,
        "filament_colour"@,
        Value::List(seq![Value::Text(settings.color_hex@)]),
        key,
    );
    json::setting_a_member_leaves_the_others(members, "from"@, Value::Text("system"@), key);
}

proof fn lemma_selectable_names(
    profiles: Seq<(Seq<char>, Members)>,
    kind: Seq<char>,
    machine: Seq<char>,
    n: int,
    name: Seq<char>,
)
    requires
        0 <= n <= profiles.len(),
    ensures
        selectable_names(profiles, kind, machine, n).contains(name) <==> exists|i: int|
            0 <= i < n && (#[trigger] profiles[i]).0 == name && selectable(
                profiles,
                i,
                kind,
                machine,
            ),
    decreases n,
{
    if n > 0 {
        lemma_selectable_names(profiles, kind, machine, n - 1, name);
        let before = selectable_names(profiles, kind, machine, n - 1);
        let after = selectable_names(profiles, kind, machine, n);
        if before.contains(name) {
            let k = choose|k: int| 0 <= k < before.len() && before[k] == name;
            assert(after[k] == name);
        }
        if selectable(profiles, n - 1, kind, machine) && profiles[n - 1].0 == name {
            assert(after[before.len() as int] == name);
        }
        if after.contains(name) {
            let k = choose|k: int| 0 <= k < after.len() && after[k] == name;
            if k < before.len() {
                assert(before[k] == name);
            } else {
                assert(profiles[n - 1].0 == name);
            }
        }
    }
}

/// The profiles on offer for a machine are those of the kind that can be chosen, flatten, and
/// name the machine, their own or by what they inherit.
pub proof fn profiles_on_offer_fit_the_machine(
    profiles: Seq<(Seq<char>, Members)>,
    kind: Seq<char>,
    machine: Seq<char>,
    name: Seq<char>,
)
    ensures
        compatible_names(profiles, kind, machine).contains(name) <==> exists|i: int|
            {
                &&& 0 <= i < profiles.len()
                &&& (#[trigger] profiles[i]).0 == name
                &&& Value::Object(profiles[i].1).get("type"@) == Some(Value::Text(kind))
                &&& Value::Object(profiles[i].1).get("instantiation"@) == Some(
                    Value::Text("true"@),
                )
                &&& flat(profiles, name) is Ok
                &&& Value::Object(flat(profiles, name)->Ok_0).get("compatible_printers"@) matches Some(
                    Value::List(printers),
                ) && printers.contains(Value::Text(machine))
            },
{
    let n = profiles.len() as int;
    lemma_selectable_names(profiles, kind, machine, n, name);
    order::sorting_holds_the_same_items(
        selectable_names(profiles, kind, machine, n),
        name_order(),
        name,
    );
    if compatible_names(profiles, kind, machine).contains(name) {
        let i = choose|i: int|
            0 <= i < n && (#[trigger] profiles[i]).0 == name && selectable(
                profiles,
                i,
                kind,
                machine,
            );
        assert(profiles[i].0 == name);
    }
}

/// A layer is half as high as the nozzle is wide.
pub proof fn layers_are_half_as_high_as_the_nozzle(nozzle: Nozzle)
    ensures
        layer_height(nozzle).len() == 4,
        layer_height(nozzle)[0] == '0' && layer_height(nozzle)[1] == '.' && layer_height(nozzle)[3]
            == '0',
        200 * text::digit_value(layer_height(nozzle)[2]) == nozzle.diameter(),
{
    reveal_strlit("0.10");
    reveal_strlit("0.20");
    reveal_strlit("0.30");
    reveal_strlit("0.40");
}

/// A model can be sliced exactly where the profiles of the machine, the process and the filament
/// are all there; the first that is missing is told of.
pub proof fn slicing_needs_three_profiles(
    profiles: Seq<(Seq<char>, Members)>,
    settings: SliceSettings,
)
    ensures
        slice_problem(profiles, settings) is None <==> flat(
            profiles,
            machine_title(settings.nozzle),
        ) is Ok && flat(profiles, settings.process@) is Ok && flat(
            profiles,
            settings.filament@,
        ) is Ok,
        slice_problem(profiles, settings) matches Some((name, problem)) ==> flat(profiles, name)
            == Err::<Members, FlattenProblem>(problem) && (name == machine_title(settings.nozzle)
            || name == settings.process@ || name == settings.filament@),
{
}

/// A profile that is put in is found under its name, and leaves all others as they were.
pub proof fn a_profile_replaces_its_namesake(
    profiles: Seq<(Seq<char>, Members)>,
    name: Seq<char>,
    members: Members,
    k: int,
)
    ensures
        ({
            let after = with_profile(profiles, name, members);
            &&& after.contains((name, members))
            &&& 0 <= k < profiles.len() && profiles[k].0 != name ==> after[k] == profiles[k]
            &&& after.len() <= profiles.len() + 1
            &&& 0 <= k < profiles.len() && profiles[k].0 == name ==> after.len() == profiles.len()
        }),
{
    let after = with_profile(profiles, name, members);
    lemma_profile_found(profiles, name, 0, k);
    let i = profile_at(profiles, name, 0);
    if i < profiles.len() {
        assert(after[i] == (name, members));
    } else {
        assert(after[profiles.len() as int] == (name, members));
    }
}

proof fn lemma_profile_found(
    profiles: Seq<(Seq<char>, Members)>,
    name: Seq<char>,
    from: int,
    k: int,
)
    requires
        0 <= from <= profiles.len(),
    ensures
        ({
            let i = profile_at(profiles, name, from);
            &&& from <= i <= profiles.len()
            &&& i < profiles.len() ==> profiles[i].0 == name
            &&& from <= k < profiles.len() && profiles[k].0 == name ==> i <= k
        }),
    decreases profiles.len() - from,
{
    if from < profiles.len() {
        lemma_profile_found(profiles, name, from + 1, k);
    }
}

/// A model is scaled only where it is to be smaller, and turned only where that is asked for.
pub proof fn models_are_placed_as_asked(scale: nat)
    ensures
        placement(1_000_000_000_000_000_000, false).len() == 0,
        placement(1_000_000_000_000_000_000, true) == seq!["--orient"@, "1"@],
        scale != 1_000_000_000_000_000_000 ==> placement(scale, false) == seq![
            "--scale"@,
            num::fixed_text(scale, 1_000_000_000_000_000_000, 18),
        ],
        scale != 1_000_000_000_000_000_000 ==> placement(scale, true) == placement(scale, false)
            + placement(1_000_000_000_000_000_000, true),
{
    assert(Seq::<Seq<char>>::empty() + seq!["--orient"@, "1"@] =~= seq!["--orient"@, "1"@]);
}

/// Of what a slicer wrote, the last twenty lines that say anything are kept.
pub proof fn the_last_lines_are_kept(stdout: Seq<u8>, stderr: Seq<u8>)
    ensures
        ({
            let lines = text::lines(preview::lossy(stdout) + preview::lossy(stderr)).filter(
                |line: Seq<char>| text::trim(line).len() > 0,
            );
            &&& lines.len() <= 20 ==> output_end(stdout, stderr) == text::join(lines, "\n"@)
            &&& lines.len() > 20 ==> output_end(stdout, stderr) == text::join(
                lines.subrange(lines.len() - 20, lines.len() as int),
                "\n"@,
            )
        }),
{
    let p = |line: Seq<char>| text::trim(line).len() > 0;
    assert(p =~= says_something());
    let lines = text::lines(preview::lossy(stdout) + preview::lossy(stderr)).filter(p);
    if lines.len() > 20 {
        assert(lines.skip(lines.len() - 20) =~= lines.subrange(
            lines.len() - 20,
            lines.len() as int,
        ));
    } else {
        assert(lines.skip(0) =~= lines);
    }
}

/// A profile that is missing is named, and so is one that inherits from itself.
pub proof fn slicing_errors_name_the_profile(error: SliceError, name: Seq<char>, problem: FlattenProblem)
    requires
        is_slice_error(error, name, problem),
    ensures
        problem matches FlattenProblem::Unknown(missing) ==> (error matches SliceError::UnknownProfile(
            said,
        ) && said@ == missing),
        problem is Loop ==> (error matches SliceError::InheritanceLoop(said) && said@ == name),
{
}

} // verus!
