//! Filament spools, the CANVAS tray each one sits in, and the ledger of filament used. Weights
//! are in milligrams. Like `accounts`, functions take timestamps rather than reading the clock.

use vstd::prelude::*;

use crate::accounts::{self, Accounts, Role, User};
use crate::cc2::model::{self, CanvasInfo, Tray};
use crate::decimal;
use crate::float;
use crate::lists;
use crate::num;
use crate::order;
use crate::text;

verus! {

#[derive(Debug, PartialEq, Eq)]
pub struct Spool {
    pub id: i64,
    pub material: String,
    pub brand: String,
    pub color_name: String,
    /// `#RRGGBB` as produced by [`normalize_color`].
    pub color_hex: String,
    pub owner: Option<(i64, String)>,
    pub price_cents: Option<i64>,
    pub initial_mg: i64,
    pub remaining_mg: i64,
    pub notes: String,
    pub archived: bool,
    pub created_at: i64,
}

pub fn clone_owner(owner: &Option<(i64, String)>) -> (r: Option<(i64, String)>)
    ensures
        r == *owner,
{
    match owner {
        Some((id, name)) => Some((*id, name.clone())),
        None => None,
    }
}

impl Clone for Spool {
    fn clone(&self) -> (r: Spool)
        ensures
            r == *self,
    {
        Spool {
            id: self.id,
            material: self.material.clone(),
            brand: self.brand.clone(),
            color_name: self.color_name.clone(),
            color_hex: self.color_hex.clone(),
            owner: clone_owner(&self.owner),
            price_cents: self.price_cents,
            initial_mg: self.initial_mg,
            remaining_mg: self.remaining_mg,
            notes: self.notes.clone(),
            archived: self.archived,
            created_at: self.created_at,
        }
    }
}

impl Spool {
    pub open spec fn owner_id(self) -> Option<i64> {
        match self.owner {
            Some((id, _)) => Some(id),
            None => None,
        }
    }

    pub open spec fn editable(self, user: User) -> bool {
        user.role == Role::Admin || self.owner_id() == Some(user.id)
    }

    pub fn editable_by(&self, user: &User) -> (r: bool)
        ensures
            r == self.editable(*user),
    {
        user.is_admin() || match &self.owner {
            Some((id, _)) => *id == user.id,
            None => false,
        }
    }
}

/// What a spool form sets. `remaining_mg` is absent on purpose: it only moves together with
/// a ledger entry.
#[derive(Debug, Clone, PartialEq, Eq)]
pub struct SpoolFields {
    pub material: String,
    pub brand: String,
    pub color_name: String,
    pub color_hex: String,
    pub price_cents: Option<i64>,
    pub initial_mg: i64,
    pub notes: String,
}

#[derive(Debug, PartialEq, Eq)]
pub struct Binding {
    pub canvas_id: i64,
    pub tray_id: i64,
    pub spool: Spool,
}

#[derive(Debug, Clone, Copy, PartialEq, Eq, Structural)]
pub enum ConsumptionKind {
    Print,
    /// A stopped or failed print, charged by its progress.
    Estimate,
    WeighIn,
}

impl ConsumptionKind {
    pub open spec fn name(self) -> Seq<char> {
        match self {
            ConsumptionKind::Print => "print"@,
            ConsumptionKind::Estimate => "estimate"@,
            ConsumptionKind::WeighIn => "weigh_in"@,
        }
    }

    pub open spec fn named(raw: Seq<char>) -> Option<ConsumptionKind> {
        if raw == "print"@ {
            Some(ConsumptionKind::Print)
        } else if raw == "estimate"@ {
            Some(ConsumptionKind::Estimate)
        } else if raw == "weigh_in"@ {
            Some(ConsumptionKind::WeighIn)
        } else {
            None
        }
    }

    pub fn as_str(self) -> (r: &'static str)
        ensures
            r@ == self.name(),
    {
        match self {
            ConsumptionKind::Print => "print",
            ConsumptionKind::Estimate => "estimate",
            ConsumptionKind::WeighIn => "weigh_in",
        }
    }

    pub fn parse(raw: &str) -> (r: Option<ConsumptionKind>)
        ensures
            r == ConsumptionKind::named(raw@),
    {
        if text::same(raw, "print") {
            Some(ConsumptionKind::Print)
        } else if text::same(raw, "estimate") {
            Some(ConsumptionKind::Estimate)
        } else if text::same(raw, "weigh_in") {
            Some(ConsumptionKind::WeighIn)
        } else {
            None
        }
    }
}

/// A kind of ledger entry is read back from its name, and from nothing else.
pub proof fn consumption_names_round_trip(kind: ConsumptionKind, raw: Seq<char>)
    ensures
        ConsumptionKind::named(kind.name()) == Some(kind),
        ConsumptionKind::named(raw) == Some(kind) ==> raw == kind.name(),
{
    reveal_strlit("print");
    reveal_strlit("estimate");
    reveal_strlit("weigh_in");
    assert("print"@.len() == 5 && "estimate"@.len() == 8 && "weigh_in"@.len() == 8);
    assert("estimate"@[0] != "weigh_in"@[0]);
}

/// A ledger entry as it is shown.
#[derive(Debug, Clone, PartialEq, Eq)]
pub struct Consumption {
    pub id: i64,
    pub kind: ConsumptionKind,
    /// Positive when filament was used up, negative when a weigh-in found more than recorded.
    pub mg: i64,
    pub note: String,
    pub username: Option<String>,
    pub created_at: i64,
}

#[derive(Debug, Clone, Copy, PartialEq, Eq, Structural)]
pub enum InventoryError {
    NotFound,
    Archived,
}

impl InventoryError {
    pub open spec fn text(self) -> Seq<char> {
        match self {
            InventoryError::NotFound => "no such spool"@,
            InventoryError::Archived => "archived spools cannot be put in a tray"@,
        }
    }

    pub fn message(&self) -> (r: &'static str)
        ensures
            r@ == self.text(),
    {
        match self {
            InventoryError::NotFound => "no such spool",
            InventoryError::Archived => "archived spools cannot be put in a tray",
        }
    }
}

pub const TEXT_MAX: usize = 64;

pub const NOTES_MAX: usize = 1000;

/// Rejects a weight typed with an extra digit rather than storing it.
pub const GRAMS_MAX: i64 = 20_000;

/// The highest price that 64 bits hold in thousandths of a cent, in cents.
pub const PRICE_LIMIT: i64 = 9_223_372_036_854_775;

// ---------------------------------------------------------------------------------------------
// The tables
// ---------------------------------------------------------------------------------------------

/// One entry of the ledger.
#[derive(Debug)]
pub struct LedgerEntry {
    pub id: i64,
    pub spool_id: i64,
    pub user_id: Option<i64>,
    pub job_id: Option<i64>,
    pub kind: ConsumptionKind,
    pub mg: i64,
    pub note: String,
    pub created_at: i64,
    /// The spool's owner when the entry was written.
    pub spool_owner_id: Option<i64>,
    /// What the filament was worth when the entry was written, in thousandths of a cent.
    pub value: Option<i128>,
}

/// Which spool sits in which tray.
#[derive(Debug, Clone, Copy, PartialEq, Eq, Structural)]
pub struct TrayBinding {
    pub canvas_id: i64,
    pub tray_id: i64,
    pub spool_id: i64,
    pub bound_at: i64,
}

#[derive(Debug)]
pub struct Inventory {
    pub spools: Vec<Spool>,
    pub ledger: Vec<LedgerEntry>,
    pub bindings: Vec<TrayBinding>,
}

/// The first spool from position `i` on with the given id, or the number of spools.
pub open spec fn spool_at(spools: Seq<Spool>, id: i64, i: int) -> int
    decreases spools.len() - i,
{
    if i >= spools.len() {
        spools.len() as int
    } else if spools[i].id == id {
        i
    } else {
        spool_at(spools, id, i + 1)
    }
}

/// One more than the largest id, and at least 1.
pub open spec fn next_spool_id(spools: Seq<Spool>) -> int
    decreases spools.len(),
{
    if spools.len() == 0 {
        1
    } else {
        let before = next_spool_id(spools.drop_last());
        if spools.last().id >= before { spools.last().id + 1 } else { before }
    }
}

pub open spec fn next_entry_id(ledger: Seq<LedgerEntry>) -> int
    decreases ledger.len(),
{
    if ledger.len() == 0 {
        1
    } else {
        let before = next_entry_id(ledger.drop_last());
        if ledger.last().id >= before { ledger.last().id + 1 } else { before }
    }
}

/// What the ledger says was taken from a spool.
pub open spec fn used_from(ledger: Seq<LedgerEntry>, spool_id: i64) -> int
    decreases ledger.len(),
{
    if ledger.len() == 0 {
        0
    } else {
        used_from(ledger.drop_last(), spool_id) + if ledger.last().spool_id == spool_id {
            ledger.last().mg as int
        } else {
            0
        }
    }
}

/// What the filament is worth, in thousandths of a cent: its share of the spool's price. `None`
/// when the spool has no price or no weight.
pub open spec fn value_of(spool: Spool, mg: int) -> Option<int> {
    match spool.price_cents {
        Some(price) if spool.initial_mg > 0 => Some(
            num::rounded(mg * price * 1000, spool.initial_mg as int),
        ),
        _ => None,
    }
}

impl Spool {
    pub open spec fn on_the_books(self) -> bool {
        &&& 0 <= self.initial_mg
        &&& self.price_cents matches Some(price) ==> 0 <= price <= PRICE_LIMIT
    }
}

impl Inventory {
    /// Ids are used once, a tray holds one spool, a spool sits in one tray, archived spools sit in
    /// none, and every ledger entry is of a spool.
    pub open spec fn well_formed(self) -> bool {
        &&& forall|i: int, j: int|
            0 <= i < j < self.spools@.len() ==> (#[trigger] self.spools@[i]).id != (
            #[trigger] self.spools@[j]).id
        &&& forall|i: int| 0 <= i < self.spools@.len() ==> (#[trigger] self.spools@[i]).on_the_books()
        &&& forall|i: int, j: int|
            0 <= i < j < self.bindings@.len() ==> {
                let a = #[trigger] self.bindings@[i];
                let b = #[trigger] self.bindings@[j];
                a.spool_id != b.spool_id && (a.canvas_id != b.canvas_id || a.tray_id != b.tray_id)
            }
        &&& forall|i: int| #![trigger self.bindings@[i]]
            0 <= i < self.bindings@.len() ==> {
                let k = spool_at(self.spools@, self.bindings@[i].spool_id, 0);
                k < self.spools@.len() && !self.spools@[k].archived
            }
        &&& self.ledger_is_known()
    }

    pub open spec fn ledger_is_known(self) -> bool {
        forall|i: int|
            0 <= i < self.ledger@.len() ==> spool_at(
                self.spools@,
                (#[trigger] self.ledger@[i]).spool_id,
                0,
            ) < self.spools@.len()
    }

    /// What is left of a spool, together with what the ledger says was taken from it.
    pub open spec fn accounted_for(self, spool_id: i64) -> int {
        self.spools@[spool_at(self.spools@, spool_id, 0)].remaining_mg + used_from(
            self.ledger@,
            spool_id,
        )
    }

    /// Nothing was taken from or added to any of the old spools without a ledger entry.
    pub open spec fn balances_with(self, old: Inventory) -> bool {
        forall|id: i64|
            #[trigger] spool_at(old.spools@, id, 0) < old.spools@.len() ==> spool_at(self.spools@, id, 0)
                < self.spools@.len() && self.accounted_for(id) == old.accounted_for(id)
    }

    pub fn new() -> (r: Inventory)
        ensures
            r.well_formed(),
            r.spools@ == Seq::<Spool>::empty(),
            r.ledger@ == Seq::<LedgerEntry>::empty(),
            r.bindings@ == Seq::<TrayBinding>::empty(),
    {
        Inventory { spools: Vec::new(), ledger: Vec::new(), bindings: Vec::new() }
    }
}

pub proof fn lemma_spool_at(spools: Seq<Spool>, id: i64, i: int)
    requires
        0 <= i <= spools.len(),
    ensures
        i <= spool_at(spools, id, i) <= spools.len(),
        spool_at(spools, id, i) < spools.len() ==> spools[spool_at(spools, id, i)].id == id,
        forall|k: int| i <= k < spool_at(spools, id, i) ==> spools[k].id != id,
    decreases spools.len() - i,
{
    if i < spools.len() && spools[i].id != id {
        lemma_spool_at(spools, id, i + 1);
    }
}

/// A spool is found where it was, as long as the ids stay in place.
pub proof fn lemma_spool_at_same_ids(a: Seq<Spool>, b: Seq<Spool>, id: i64, i: int)
    requires
        0 <= i <= a.len(),
        a.len() <= b.len(),
        forall|k: int| 0 <= k < a.len() ==> (#[trigger] b[k]).id == a[k].id,
    ensures
        spool_at(a, id, i) < a.len() ==> spool_at(b, id, i) == spool_at(a, id, i),
        a.len() == b.len() ==> spool_at(b, id, i) == spool_at(a, id, i),
    decreases a.len() - i,
{
    if i < a.len() {
        assert(b[i].id == a[i].id);
        lemma_spool_at_same_ids(a, b, id, i + 1);
    }
}

/// A spool with a new id is found under it.
pub proof fn lemma_new_spool_is_found(spools: Seq<Spool>, spool: Spool)
    requires
        spool.id == next_spool_id(spools),
    ensures
        spool_at(spools.push(spool), spool.id, 0) == spools.len(),
{
    let after = spools.push(spool);
    lemma_next_spool_id(spools);
    lemma_spool_at(after, spool.id, 0);
    let at = spool_at(after, spool.id, 0);
    if at < spools.len() {
        assert(after[at] == spools[at]);
    }
    assert(after[spools.len() as int].id == spool.id);
}

proof fn lemma_next_spool_id(spools: Seq<Spool>)
    ensures
        next_spool_id(spools) >= 1,
        forall|i: int| 0 <= i < spools.len() ==> spools[i].id < next_spool_id(spools),
    decreases spools.len(),
{
    if spools.len() > 0 {
        lemma_next_spool_id(spools.drop_last());
        assert forall|i: int| 0 <= i < spools.len() implies spools[i].id < next_spool_id(spools) by {
            if i < spools.len() - 1 {
                assert(spools.drop_last()[i] == spools[i]);
            }
        }
    }
}

proof fn lemma_next_entry_id(ledger: Seq<LedgerEntry>)
    ensures
        next_entry_id(ledger) >= 1,
        forall|i: int| 0 <= i < ledger.len() ==> ledger[i].id < next_entry_id(ledger),
    decreases ledger.len(),
{
    if ledger.len() > 0 {
        lemma_next_entry_id(ledger.drop_last());
        assert forall|i: int| 0 <= i < ledger.len() implies ledger[i].id < next_entry_id(ledger) by {
            if i < ledger.len() - 1 {
                assert(ledger.drop_last()[i] == ledger[i]);
            }
        }
    }
}

pub fn find_spool(spools: &Vec<Spool>, id: i64) -> (r: usize)
    ensures
        r == spool_at(spools@, id, 0),
        r <= spools@.len(),
        r < spools@.len() ==> spools@[r as int].id == id,
        forall|k: int| 0 <= k < r ==> spools@[k].id != id,
{
    let mut i: usize = 0;
    while i < spools.len() && spools[i].id != id
        invariant
            i <= spools@.len(),
            spool_at(spools@, id, 0) == spool_at(spools@, id, i as int),
            forall|k: int| 0 <= k < i ==> spools@[k].id != id,
        decreases spools.len() - i,
    {
        i += 1;
    }
    i
}

fn worth(spool: &Spool, mg: i64) -> (r: Option<i128>)
    requires
        spool.on_the_books(),
    ensures
        r matches Some(value) ==> value_of(*spool, mg as int) == Some(value as int),
        r is None ==> value_of(*spool, mg as int) is None,
{
    match spool.price_cents {
        Some(price) if spool.initial_mg > 0 => {
            assert(-0x8000_0000_0000_0000 * 9_223_372_036_854_775 <= mg * price
                <= 0x8000_0000_0000_0000 * 9_223_372_036_854_775) by (nonlinear_arith)
                requires
                    -0x8000_0000_0000_0000 <= mg <= 0x8000_0000_0000_0000,
                    0 <= price <= 9_223_372_036_854_775,
            ;
            let n: i128 = mg as i128 * price as i128 * 1000;
            Some(num::round_div(n, spool.initial_mg as i128))
        },
        _ => None,
    }
}

/// Appends a ledger entry under the next free id.
fn write_entry(
    ledger: &mut Vec<LedgerEntry>,
    spool: &Spool,
    user_id: Option<i64>,
    job_id: Option<i64>,
    kind: ConsumptionKind,
    mg: i64,
    note: String,
    now: i64,
)
    requires
        spool.on_the_books(),
        next_entry_id(old(ledger)@) <= i64::MAX,
    ensures
        final(ledger)@.len() == old(ledger)@.len() + 1,
        final(ledger)@.drop_last() == old(ledger)@,
        next_entry_id(final(ledger)@) == next_entry_id(old(ledger)@) + 1,
        entry_written(final(ledger)@.last(), old(ledger)@, *spool, user_id, job_id, kind, mg, now),
        final(ledger)@.last().note == note,
{
    proof {
        lemma_next_entry_id(ledger@);
    }
    let mut id: i64 = 1;
    let mut i: usize = 0;
    while i < ledger.len()
        invariant
            i <= ledger@.len(),
            ledger@ == old(ledger)@,
            next_entry_id(ledger@) <= i64::MAX,
            id == next_entry_id(ledger@.take(i as int)),
            forall|k: int| 0 <= k < ledger@.len() ==> ledger@[k].id < next_entry_id(ledger@),
        decreases ledger.len() - i,
    {
        assert(ledger@.take(i + 1).drop_last() =~= ledger@.take(i as int));
        if ledger[i].id >= id {
            id = ledger[i].id + 1;
        }
        i += 1;
    }
    assert(ledger@.take(i as int) =~= ledger@);
    let spool_owner_id: Option<i64> = match &spool.owner {
        Some((owner, _)) => Some(*owner),
        None => None,
    };
    let value = worth(spool, mg);
    ledger.push(
        LedgerEntry {
            id,
            spool_id: spool.id,
            user_id,
            job_id,
            kind,
            mg,
            note,
            created_at: now,
            spool_owner_id,
            value,
        },
    );
    assert(ledger@.drop_last() =~= old(ledger)@);
}

/// The entry that records a use, with the owner and the value the spool has at that time.
pub open spec fn entry_written(
    entry: LedgerEntry,
    ledger: Seq<LedgerEntry>,
    spool: Spool,
    user_id: Option<i64>,
    job_id: Option<i64>,
    kind: ConsumptionKind,
    mg: i64,
    now: i64,
) -> bool {
    &&& entry.id == next_entry_id(ledger)
    &&& entry.spool_id == spool.id
    &&& entry.user_id == user_id
    &&& entry.job_id == job_id
    &&& entry.kind == kind
    &&& entry.mg == mg
    &&& entry.created_at == now
    &&& entry.spool_owner_id == spool.owner_id()
    &&& entry.value matches Some(value) ==> value_of(spool, mg as int) == Some(value as int)
    &&& entry.value is None ==> value_of(spool, mg as int) is None
}

pub fn spool(db: &Inventory, id: i64) -> (r: Option<Spool>)
    ensures
        ({
            let i = spool_at(db.spools@, id, 0);
            if i < db.spools@.len() {
                r == Some(db.spools@[i])
            } else {
                r is None
            }
        }),
{
    let i = find_spool(&db.spools, id);
    if i < db.spools.len() {
        Some(db.spools[i].clone())
    } else {
        None
    }
}

/// Spools in use first; then by material, brand and colour, whatever the case of the letters.
pub open spec fn shelf_order() -> spec_fn(Spool, Spool) -> bool {
    |a: Spool, b: Spool|
        {
            if a.archived != b.archived {
                !a.archived
            } else if text::lower(a.material@) != text::lower(b.material@) {
                text::at_or_before(text::lower(a.material@), text::lower(b.material@))
            } else if text::lower(a.brand@) != text::lower(b.brand@) {
                text::at_or_before(text::lower(a.brand@), text::lower(b.brand@))
            } else if text::lower(a.color_name@) != text::lower(b.color_name@) {
                text::at_or_before(text::lower(a.color_name@), text::lower(b.color_name@))
            } else {
                a.id <= b.id
            }
        }
}

pub open spec fn on_the_shelf(include_archived: bool) -> spec_fn(Spool) -> bool {
    |s: Spool| include_archived || !s.archived
}

/// Whether the texts differ in more than the case of their letters, and which comes first.
fn compare_names(a: &String, b: &String) -> (r: (bool, bool))
    ensures
        r.0 == (text::lower(a@) != text::lower(b@)),
        r.1 == text::at_or_before(text::lower(a@), text::lower(b@)),
{
    let x = text::lower_chars(text::chars(a.as_str()).as_slice());
    let y = text::lower_chars(text::chars(b.as_str()).as_slice());
    (
        !text::slices_equal(x.as_slice(), y.as_slice()),
        text::slice_at_or_before(x.as_slice(), y.as_slice()),
    )
}

pub fn spools(db: &Inventory, include_archived: bool) -> (r: Vec<Spool>)
    ensures
        r@ == order::sorted(db.spools@.filter(on_the_shelf(include_archived)), shelf_order()),
{
    let ghost p = on_the_shelf(include_archived);
    let mut all: Vec<Spool> = Vec::new();
    proof {
        lists::lemma_filter_ends(db.spools@, p);
    }
    let mut i: usize = 0;
    while i < db.spools.len()
        invariant
            i <= db.spools@.len(),
            p == on_the_shelf(include_archived),
            all@ == db.spools@.take(i as int).filter(p),
        decreases db.spools.len() - i,
    {
        proof {
            lists::lemma_filter_step(db.spools@, p, i as int);
        }
        if include_archived || !db.spools[i].archived {
            all.push(db.spools[i].clone());
        }
        i += 1;
    }
    let before = |a: &Spool, b: &Spool| -> (r: bool)
        ensures
            r == shelf_order()(*a, *b),
        {
            if a.archived != b.archived {
                return !a.archived;
            }
            let (differs, first) = compare_names(&a.material, &b.material);
            if differs {
                return first;
            }
            let (differs, first) = compare_names(&a.brand, &b.brand);
            if differs {
                return first;
            }
            let (differs, first) = compare_names(&a.color_name, &b.color_name);
            if differs {
                return first;
            }
            a.id <= b.id
        };
    order::sort_by(all, before, Ghost(shelf_order()))
}

/// A new spool is full.
pub open spec fn new_spool(
    id: i64,
    fields: SpoolFields,
    owner: Option<(i64, String)>,
    now: i64,
) -> Spool {
    Spool {
        id,
        material: fields.material,
        brand: fields.brand,
        color_name: fields.color_name,
        color_hex: fields.color_hex,
        owner,
        price_cents: fields.price_cents,
        initial_mg: fields.initial_mg,
        remaining_mg: fields.initial_mg,
        notes: fields.notes,
        archived: false,
        created_at: now,
    }
}

impl SpoolFields {
    pub open spec fn on_the_books(self) -> bool {
        &&& 0 <= self.initial_mg
        &&& self.price_cents matches Some(price) ==> 0 <= price <= PRICE_LIMIT
    }
}

pub fn create_spool(
    db: &mut Inventory,
    fields: SpoolFields,
    owner: Option<(i64, String)>,
    now: i64,
) -> (r: i64)
    requires
        next_spool_id(old(db).spools@) <= i64::MAX,
    ensures
        old(db).well_formed() && fields.on_the_books() ==> final(db).well_formed() && final(
            db).balances_with(*old(db)),
        r == next_spool_id(old(db).spools@),
        final(db).spools@ == old(db).spools@.push(new_spool(r, fields, owner, now)),
        final(db).ledger@ == old(db).ledger@,
        final(db).bindings@ == old(db).bindings@,
{
    proof {
        lemma_next_spool_id(db.spools@);
    }
    let mut id: i64 = 1;
    let mut i: usize = 0;
    while i < db.spools.len()
        invariant
            i <= db.spools@.len(),
            *db == *old(db),
            next_spool_id(db.spools@) <= i64::MAX,
            id == next_spool_id(db.spools@.take(i as int)),
            forall|k: int| 0 <= k < db.spools@.len() ==> db.spools@[k].id < next_spool_id(db.spools@),
        decreases db.spools.len() - i,
    {
        assert(db.spools@.take(i + 1).drop_last() =~= db.spools@.take(i as int));
        if db.spools[i].id >= id {
            id = db.spools[i].id + 1;
        }
        i += 1;
    }
    assert(db.spools@.take(i as int) =~= db.spools@);
    db.spools.push(
        Spool {
            id,
            material: fields.material,
            brand: fields.brand,
            color_name: fields.color_name,
            color_hex: fields.color_hex,
            owner,
            price_cents: fields.price_cents,
            initial_mg: fields.initial_mg,
            remaining_mg: fields.initial_mg,
            notes: fields.notes,
            archived: false,
            created_at: now,
        },
    );
    proof {
        let a = old(db).spools@;
        let b = db.spools@;
        assert forall|id: i64| 0 <= #[trigger] spool_at(a, id, 0) < a.len() implies spool_at(b, id, 0)
            == spool_at(a, id, 0) by {
            lemma_spool_at_same_ids(a, b, id, 0);
        }
        assert forall|id: i64| #![trigger spool_at(a, id, 0)] 0 <= spool_at(a, id, 0) by {
            lemma_spool_at(a, id, 0);
        }
    }
    id
}

/// The old spools are all still there, and each accounts for as much as before.
proof fn lemma_balances(a: Inventory, b: Inventory)
    requires
        a.spools@.len() <= b.spools@.len(),
        forall|k: int|
            0 <= k < a.spools@.len() ==> (#[trigger] b.spools@[k]).id == a.spools@[k].id
                && b.spools@[k].remaining_mg + used_from(b.ledger@, a.spools@[k].id)
                == a.spools@[k].remaining_mg + used_from(a.ledger@, a.spools@[k].id),
    ensures
        b.balances_with(a),
{
    assert forall|id: i64| #[trigger] spool_at(a.spools@, id, 0) < a.spools@.len() implies spool_at(b.spools@, id, 0)
        < b.spools@.len() && b.accounted_for(id) == a.accounted_for(id) by {
        lemma_spool_at(a.spools@, id, 0);
        lemma_spool_at_same_ids(a.spools@, b.spools@, id, 0);
        let k = spool_at(a.spools@, id, 0);
        assert(b.spools@[k].id == a.spools@[k].id);
    }
}

/// Books that balance over two changes balance over both together.
pub proof fn balances_chain(a: Inventory, b: Inventory, c: Inventory)
    requires
        b.balances_with(a),
        c.balances_with(b),
    ensures
        c.balances_with(a),
{
    assert forall|id: i64| #[trigger] spool_at(a.spools@, id, 0) < a.spools@.len() implies spool_at(
        c.spools@,
        id,
        0,
    ) < c.spools@.len() && c.accounted_for(id) == a.accounted_for(id) by {
        assert(spool_at(b.spools@, id, 0) < b.spools@.len());
    }
}

proof fn lemma_no_history(ledger: Seq<LedgerEntry>, spool_id: i64)
    requires
        forall|i: int| 0 <= i < ledger.len() ==> (#[trigger] ledger[i]).spool_id != spool_id,
    ensures
        used_from(ledger, spool_id) == 0,
    decreases ledger.len(),
{
    if ledger.len() > 0 {
        let front = ledger.drop_last();
        assert forall|i: int| 0 <= i < front.len() implies (#[trigger] front[i]).spool_id
            != spool_id by {
            assert(front[i] == ledger[i]);
        }
        lemma_no_history(front, spool_id);
    }
}

/// What is left of a spool is what there was when it was created, without what the ledger says
/// was taken from it since.
pub proof fn the_ledger_explains_what_is_left(
    before: Inventory,
    created: Inventory,
    now: Inventory,
    spool: Spool,
)
    requires
        before.well_formed(),
        spool_at(before.spools@, spool.id, 0) == before.spools@.len(),
        created.spools@ == before.spools@.push(spool),
        created.ledger@ == before.ledger@,
        now.balances_with(created),
    ensures
        ({
            let i = spool_at(now.spools@, spool.id, 0);
            &&& i < now.spools@.len()
            &&& now.spools@[i].remaining_mg == spool.remaining_mg - used_from(
                now.ledger@,
                spool.id,
            )
        }),
{
    let n = before.spools@.len() as int;
    lemma_spool_at(before.spools@, spool.id, 0);
    lemma_spool_at(created.spools@, spool.id, 0);
    assert(created.spools@[n] == spool);
    assert(spool_at(created.spools@, spool.id, 0) == n) by {
        let at = spool_at(created.spools@, spool.id, 0);
        if at < n {
            assert(created.spools@[at] == before.spools@[at]);
        } else if at > n {
            assert(created.spools@[n].id != spool.id);
        }
    }
    assert forall|i: int| 0 <= i < before.ledger@.len() implies (#[trigger] before.ledger@[i]).spool_id
        != spool.id by {
        assert(spool_at(before.spools@, before.ledger@[i].spool_id, 0) < before.spools@.len());
    }
    lemma_no_history(before.ledger@, spool.id);
}

/// Bindings stay in order when spools keep their ids and none of the bound ones is archived, and
/// the ledger when at most an entry of a spool is added.
proof fn lemma_bindings_hold(a: Inventory, b: Inventory)
    requires
        a.well_formed(),
        b.bindings@ == a.bindings@,
        b.spools@.len() == a.spools@.len(),
        forall|k: int|
            0 <= k < a.spools@.len() ==> (#[trigger] b.spools@[k]).id == a.spools@[k].id
                && b.spools@[k].archived == a.spools@[k].archived && b.spools@[k].on_the_books(),
        b.ledger@ == a.ledger@ || {
            &&& b.ledger@.len() == a.ledger@.len() + 1
            &&& b.ledger@.drop_last() == a.ledger@
            &&& spool_at(a.spools@, b.ledger@.last().spool_id, 0) < a.spools@.len()
        },
    ensures
        b.well_formed(),
{
    assert forall|i: int| 0 <= i < b.ledger@.len() implies spool_at(
        b.spools@,
        (#[trigger] b.ledger@[i]).spool_id,
        0,
    ) < b.spools@.len() by {
        lemma_spool_at_same_ids(a.spools@, b.spools@, b.ledger@[i].spool_id, 0);
        if i < a.ledger@.len() {
            assert(b.ledger@[i] == a.ledger@[i]);
        }
    }
    assert forall|i: int| #![trigger b.bindings@[i]] 0 <= i < b.bindings@.len() implies {
        let k = spool_at(b.spools@, b.bindings@[i].spool_id, 0);
        k < b.spools@.len() && !b.spools@[k].archived
    } by {
        let id = a.bindings@[i].spool_id;
        lemma_spool_at(a.spools@, id, 0);
        lemma_spool_at_same_ids(a.spools@, b.spools@, id, 0);
        assert(b.spools@[spool_at(a.spools@, id, 0)].archived == a.spools@[spool_at(
            a.spools@,
            id,
            0,
        )].archived);
    }
    assert forall|i: int, j: int| 0 <= i < j < b.spools@.len() implies (#[trigger] b.spools@[i]).id
        != (#[trigger] b.spools@[j]).id by {
        assert(a.spools@[i].id != a.spools@[j].id);
    }
}

/// Editing leaves what remains alone.
pub fn update_spool(
    db: &mut Inventory,
    id: i64,
    fields: SpoolFields,
    owner: Option<(i64, String)>,
) -> (r: Result<(), InventoryError>)
    ensures
        old(db).well_formed() && fields.on_the_books() ==> final(db).well_formed(),
        final(db).balances_with(*old(db)),
        final(db).ledger@ == old(db).ledger@,
        final(db).bindings@ == old(db).bindings@,
        ({
            let before = old(db).spools@;
            let i = spool_at(before, id, 0);
            if i >= before.len() {
                r == Err::<(), InventoryError>(InventoryError::NotFound) && final(db).spools@
                    == before
            } else {
                &&& r == Ok::<(), InventoryError>(())
                &&& final(db).spools@ == before.update(
                    i,
                    Spool {
                        remaining_mg: before[i].remaining_mg,
                        archived: before[i].archived,
                        ..new_spool(id, fields, owner, before[i].created_at)
                    },
                )
            }
        }),
{
    let i = find_spool(&db.spools, id);
    if i >= db.spools.len() {
        proof {
            lemma_balances(*old(db), *db);
        }
        return Err(InventoryError::NotFound);
    }
    let remaining_mg: i64 = db.spools[i].remaining_mg;
    let archived = db.spools[i].archived;
    let created_at: i64 = db.spools[i].created_at;
    db.spools[i] = Spool {
        id,
        material: fields.material,
        brand: fields.brand,
        color_name: fields.color_name,
        color_hex: fields.color_hex,
        owner,
        price_cents: fields.price_cents,
        initial_mg: fields.initial_mg,
        remaining_mg,
        notes: fields.notes,
        archived,
        created_at,
    };
    proof {
        lemma_balances(*old(db), *db);
        if old(db).well_formed() && fields.on_the_books() {
            lemma_bindings_hold(*old(db), *db);
        }
    }
    Ok(())
}

pub open spec fn not_of_spool(id: i64) -> spec_fn(TrayBinding) -> bool {
    |b: TrayBinding| b.spool_id != id
}

/// Archiving takes the spool out of its tray.
pub fn set_archived(db: &mut Inventory, id: i64, archived: bool) -> (r: Result<(), InventoryError>)
    ensures
        old(db).well_formed() ==> final(db).well_formed(),
        final(db).balances_with(*old(db)),
        final(db).ledger@ == old(db).ledger@,
        ({
            let before = old(db).spools@;
            let i = spool_at(before, id, 0);
            if i >= before.len() {
                &&& r == Err::<(), InventoryError>(InventoryError::NotFound)
                &&& final(db).spools@ == before
                &&& final(db).bindings@ == old(db).bindings@
            } else {
                &&& r == Ok::<(), InventoryError>(())
                &&& final(db).spools@ == before.update(i, Spool { archived, ..before[i] })
                &&& final(db).bindings@ == if archived {
                    old(db).bindings@.filter(not_of_spool(id))
                } else {
                    old(db).bindings@
                }
            }
        }),
{
    let i = find_spool(&db.spools, id);
    if i >= db.spools.len() {
        proof {
            lemma_balances(*old(db), *db);
        }
        return Err(InventoryError::NotFound);
    }
    db.spools[i].archived = archived;
    let ghost all = db.bindings@;
    let ghost p = not_of_spool(id);
    if archived {
        let mut left: Vec<TrayBinding> = Vec::new();
        let mut k: usize = 0;
        proof {
            lists::lemma_filter_ends(all, p);
            lists::lemma_filter_positions(all, p);
        }
        while k < db.bindings.len()
            invariant
                k <= db.bindings@.len(),
                db.bindings@ == all,
                p == not_of_spool(id),
                left@ == all.take(k as int).filter(p),
            decreases db.bindings.len() - k,
        {
            proof {
                lists::lemma_filter_step(all, p, k as int);
            }
            if db.bindings[k].spool_id != id {
                left.push(db.bindings[k]);
            }
            k += 1;
        }
        db.bindings = left;
    }
    proof {
        lemma_balances(*old(db), *db);
        if old(db).well_formed() {
            let a = old(db).spools@;
            let b = db.spools@;
            assert forall|k: int| #![trigger db.bindings@[k]] 0 <= k < db.bindings@.len() implies {
                let at = spool_at(b, db.bindings@[k].spool_id, 0);
                at < b.len() && !b[at].archived
            } by {
                let bound = db.bindings@[k].spool_id;
                if archived {
                    assert(p(all.filter(p)[k]));
                }
                let m = choose|m: int| 0 <= m < all.len() && all[m] == db.bindings@[k];
                assert(archived ==> exists|m: int| 0 <= m < all.len() && all[m] == all.filter(p)[k]);
                assert(!archived ==> all[k] == db.bindings@[k]);
                assert(0 <= m < all.len() && all[m] == db.bindings@[k]);
                assert(old(db).bindings@[m].spool_id == bound);
                lemma_spool_at(a, bound, 0);
                lemma_spool_at_same_ids(a, b, bound, 0);
            }
        }
    }
    Ok(())
}

proof fn lemma_used_from_push(ledger: Seq<LedgerEntry>, all: Seq<LedgerEntry>, id: i64)
    requires
        all.len() == ledger.len() + 1,
        all.drop_last() == ledger,
    ensures
        used_from(all, id) == used_from(ledger, id) + if all.last().spool_id == id {
            all.last().mg as int
        } else {
            0
        },
{
}

/// The difference between what is left of a spool and a weight is a weight that 64 bits hold.
pub open spec fn can_take(spools: Seq<Spool>, spool_id: i64, mg: i64) -> bool {
    let i = spool_at(spools, spool_id, 0);
    i < spools.len() ==> i64::MIN <= spools[i].remaining_mg - mg <= i64::MAX
}

/// Records that `remaining_mg` are actually left, with a ledger entry for the difference.
pub fn weigh_in(db: &mut Inventory, spool_id: i64, user_id: i64, remaining_mg: i64, now: i64) -> (r:
    Result<(), InventoryError>)
    requires
        old(db).well_formed(),
        can_take(old(db).spools@, spool_id, remaining_mg),
        next_entry_id(old(db).ledger@) <= i64::MAX,
    ensures
        final(db).well_formed(),
        final(db).balances_with(*old(db)),
        final(db).bindings@ == old(db).bindings@,
        ({
            let before = old(db).spools@;
            let i = spool_at(before, spool_id, 0);
            if i >= before.len() {
                &&& r == Err::<(), InventoryError>(InventoryError::NotFound)
                &&& final(db).spools@ == before
                &&& final(db).ledger@ == old(db).ledger@
            } else {
                &&& r == Ok::<(), InventoryError>(())
                &&& final(db).spools@ == before.update(i, Spool { remaining_mg, ..before[i] })
                &&& final(db).ledger@.len() == old(db).ledger@.len() + 1
                &&& final(db).ledger@.drop_last() == old(db).ledger@
                &&& entry_written(
                    final(db).ledger@.last(),
                    old(db).ledger@,
                    before[i],
                    Some(user_id),
                    None,
                    ConsumptionKind::WeighIn,
                    (before[i].remaining_mg - remaining_mg) as i64,
                    now,
                )
                &&& final(db).ledger@.last().note@ == ""@
            }
        }),
{
    let i = find_spool(&db.spools, spool_id);
    if i >= db.spools.len() {
        proof {
            lemma_balances(*old(db), *db);
        }
        return Err(InventoryError::NotFound);
    }
    assert(old(db).spools@[i as int].on_the_books());
    let used: i64 = db.spools[i].remaining_mg - remaining_mg;
    write_entry(
        &mut db.ledger,
        &db.spools[i],
        Some(user_id),
        None,
        ConsumptionKind::WeighIn,
        used,
        "".to_string(),
        now,
    );
    db.spools[i].remaining_mg = remaining_mg;
    proof {
        assert forall|k: int| 0 <= k < old(db).spools@.len() implies (#[trigger] db.spools@[k]).id
            == old(db).spools@[k].id && db.spools@[k].remaining_mg + used_from(
            db.ledger@,
            old(db).spools@[k].id,
        ) == old(db).spools@[k].remaining_mg + used_from(old(db).ledger@, old(db).spools@[k].id) by {
            lemma_used_from_push(old(db).ledger@, db.ledger@, old(db).spools@[k].id);
            if k != i {
                assert(old(db).spools@[k].id != old(db).spools@[i as int].id);
            }
        }
        lemma_balances(*old(db), *db);
        lemma_bindings_hold(*old(db), *db);
    }
    Ok(())
}

/// Deducts what a print used, as a ledger entry tied to the job. The entry keeps the spool's
/// current owner and the filament's value, which later edits to the spool leave alone.
pub fn record_use(
    db: &mut Inventory,
    spool_id: i64,
    user_id: Option<i64>,
    job_id: i64,
    kind: ConsumptionKind,
    mg: i64,
    note: String,
    now: i64,
) -> (r: Result<(), InventoryError>)
    requires
        old(db).well_formed(),
        can_take(old(db).spools@, spool_id, mg),
        next_entry_id(old(db).ledger@) <= i64::MAX,
    ensures
        final(db).well_formed(),
        final(db).balances_with(*old(db)),
        final(db).bindings@ == old(db).bindings@,
        ({
            let before = old(db).spools@;
            let i = spool_at(before, spool_id, 0);
            if i >= before.len() {
                &&& r == Err::<(), InventoryError>(InventoryError::NotFound)
                &&& final(db).spools@ == before
                &&& final(db).ledger@ == old(db).ledger@
            } else {
                &&& r == Ok::<(), InventoryError>(())
                &&& final(db).spools@ == before.update(
                    i,
                    Spool { remaining_mg: (before[i].remaining_mg - mg) as i64, ..before[i] },
                )
                &&& final(db).ledger@.len() == old(db).ledger@.len() + 1
                &&& final(db).ledger@.drop_last() == old(db).ledger@
                &&& entry_written(
                    final(db).ledger@.last(),
                    old(db).ledger@,
                    before[i],
                    user_id,
                    Some(job_id),
                    kind,
                    mg,
                    now,
                )
                &&& final(db).ledger@.last().note == note
                &&& next_entry_id(final(db).ledger@) == next_entry_id(old(db).ledger@) + 1
            }
        }),
{
    let i = find_spool(&db.spools, spool_id);
    if i >= db.spools.len() {
        proof {
            lemma_balances(*old(db), *db);
        }
        return Err(InventoryError::NotFound);
    }
    assert(old(db).spools@[i as int].on_the_books());
    write_entry(&mut db.ledger, &db.spools[i], user_id, Some(job_id), kind, mg, note, now);
    let left: i64 = db.spools[i].remaining_mg - mg;
    db.spools[i].remaining_mg = left;
    proof {
        assert forall|k: int| 0 <= k < old(db).spools@.len() implies (#[trigger] db.spools@[k]).id
            == old(db).spools@[k].id && db.spools@[k].remaining_mg + used_from(
            db.ledger@,
            old(db).spools@[k].id,
        ) == old(db).spools@[k].remaining_mg + used_from(old(db).ledger@, old(db).spools@[k].id) by {
            lemma_used_from_push(old(db).ledger@, db.ledger@, old(db).spools@[k].id);
            if k != i {
                assert(old(db).spools@[k].id != old(db).spools@[i as int].id);
            }
        }
        lemma_balances(*old(db), *db);
        lemma_bindings_hold(*old(db), *db);
    }
    Ok(())
}

pub open spec fn of_spool(spool_id: i64) -> spec_fn(LedgerEntry) -> bool {
    |e: LedgerEntry| e.spool_id == spool_id
}

pub open spec fn newest_first() -> spec_fn(Consumption, Consumption) -> bool {
    |a: Consumption, b: Consumption|
        b.created_at < a.created_at || b.created_at == a.created_at && b.id <= a.id
}

/// A ledger entry with the name of whoever it is about.
pub open spec fn shown_entry(accounts: Accounts, entry: LedgerEntry) -> Consumption {
    Consumption {
        id: entry.id,
        kind: entry.kind,
        mg: entry.mg,
        note: entry.note,
        username: match entry.user_id {
            Some(id) => {
                let k = accounts::account_at(accounts.accounts@, id, 0);
                if k < accounts.accounts@.len() {
                    Some(accounts.accounts@[k].user.username)
                } else {
                    None
                }
            },
            None => None,
        },
        created_at: entry.created_at,
    }
}

/// A spool's ledger entries, newest first.
pub fn history(db: &Inventory, accounts: &Accounts, spool_id: i64) -> (r: Vec<Consumption>)
    ensures
        r@ == order::sorted(
            db.ledger@.filter(of_spool(spool_id)).map_values(
                |e: LedgerEntry| shown_entry(*accounts, e),
            ),
            newest_first(),
        ),
{
    let ghost p = of_spool(spool_id);
    let ghost show = |e: LedgerEntry| shown_entry(*accounts, e);
    let mut all: Vec<Consumption> = Vec::new();
    proof {
        lists::lemma_filter_ends(db.ledger@, p);
    }
    let mut i: usize = 0;
    while i < db.ledger.len()
        invariant
            i <= db.ledger@.len(),
            p == of_spool(spool_id),
            show == (|e: LedgerEntry| shown_entry(*accounts, e)),
            all@ =~= db.ledger@.take(i as int).filter(p).map_values(show),
        decreases db.ledger.len() - i,
    {
        proof {
            lists::lemma_filter_step(db.ledger@, p, i as int);
        }
        let entry = &db.ledger[i];
        if entry.spool_id == spool_id {
            let username: Option<String> = match entry.user_id {
                Some(id) => match accounts::user(accounts, id) {
                    Some(user) => Some(user.username),
                    None => None,
                },
                None => None,
            };
            all.push(
                Consumption {
                    id: entry.id,
                    kind: entry.kind,
                    mg: entry.mg,
                    note: entry.note.clone(),
                    username,
                    created_at: entry.created_at,
                },
            );
        }
        i += 1;
    }
    let before = |a: &Consumption, b: &Consumption| -> (r: bool)
        ensures
            r == newest_first()(*a, *b),
        { b.created_at < a.created_at || (b.created_at == a.created_at && b.id <= a.id) };
    order::sort_by(all, before, Ghost(newest_first()))
}

pub open spec fn tray_order() -> spec_fn(TrayBinding, TrayBinding) -> bool {
    |a: TrayBinding, b: TrayBinding|
        a.canvas_id < b.canvas_id || a.canvas_id == b.canvas_id && a.tray_id <= b.tray_id
}

/// The bindings with their spools.
pub open spec fn with_spools(spools: Seq<Spool>, bindings: Seq<TrayBinding>) -> Seq<Binding>
    decreases bindings.len(),
{
    if bindings.len() == 0 {
        seq![]
    } else {
        let before = with_spools(spools, bindings.drop_last());
        let last = bindings.last();
        let k = spool_at(spools, last.spool_id, 0);
        if k < spools.len() {
            before.push(
                Binding {
                    canvas_id: last.canvas_id,
                    tray_id: last.tray_id,
                    spool: spools[k],
                },
            )
        } else {
            before
        }
    }
}

/// The spools in the trays, tray by tray.
pub fn bindings(db: &Inventory) -> (r: Vec<Binding>)
    ensures
        r@ == with_spools(db.spools@, order::sorted(db.bindings@, tray_order())),
{
    let mut rows: Vec<TrayBinding> = Vec::new();
    let mut i: usize = 0;
    while i < db.bindings.len()
        invariant
            i <= db.bindings@.len(),
            rows@ == db.bindings@.take(i as int),
        decreases db.bindings.len() - i,
    {
        rows.push(db.bindings[i]);
        i += 1;
        assert(db.bindings@.take(i as int) =~= db.bindings@.take(i - 1).push(db.bindings@[i - 1]));
    }
    assert(db.bindings@.take(i as int) =~= db.bindings@);
    let before = |a: &TrayBinding, b: &TrayBinding| -> (r: bool)
        ensures
            r == tray_order()(*a, *b),
        { a.canvas_id < b.canvas_id || (a.canvas_id == b.canvas_id && a.tray_id <= b.tray_id) };
    let rows = order::sort_by(rows, before, Ghost(tray_order()));
    let mut out: Vec<Binding> = Vec::new();
    let mut i: usize = 0;
    while i < rows.len()
        invariant
            i <= rows@.len(),
            out@ == with_spools(db.spools@, rows@.take(i as int)),
        decreases rows.len() - i,
    {
        let row = rows[i];
        assert(rows@.take(i + 1).drop_last() =~= rows@.take(i as int));
        let k = find_spool(&db.spools, row.spool_id);
        if k < db.spools.len() {
            out.push(
                Binding {
                    canvas_id: row.canvas_id,
                    tray_id: row.tray_id,
                    spool: db.spools[k].clone(),
                },
            );
        }
        i += 1;
    }
    assert(rows@.take(i as int) =~= rows@);
    out
}

/// Neither the spool nor the tray of the given binding.
pub open spec fn apart_from(canvas_id: i64, tray_id: i64, spool_id: i64) -> spec_fn(
    TrayBinding,
) -> bool {
    |b: TrayBinding| b.spool_id != spool_id && (b.canvas_id != canvas_id || b.tray_id != tray_id)
}

/// Puts a spool in a tray, taking it out of any other tray and replacing the tray's spool.
pub fn bind(db: &mut Inventory, canvas_id: i64, tray_id: i64, spool_id: i64, now: i64) -> (r: Result<
    (),
    InventoryError,
>)
    ensures
        old(db).well_formed() ==> final(db).well_formed(),
        final(db).spools@ == old(db).spools@,
        final(db).ledger@ == old(db).ledger@,
        ({
            let i = spool_at(old(db).spools@, spool_id, 0);
            if i >= old(db).spools@.len() {
                r == Err::<(), InventoryError>(InventoryError::NotFound) && final(db).bindings@
                    == old(db).bindings@
            } else if old(db).spools@[i].archived {
                r == Err::<(), InventoryError>(InventoryError::Archived) && final(db).bindings@
                    == old(db).bindings@
            } else {
                r == Ok::<(), InventoryError>(()) && final(db).bindings@ == old(db).bindings@.filter(
                    apart_from(canvas_id, tray_id, spool_id),
                ).push(TrayBinding { canvas_id, tray_id, spool_id, bound_at: now })
            }
        }),
{
    let i = find_spool(&db.spools, spool_id);
    if i >= db.spools.len() {
        return Err(InventoryError::NotFound);
    }
    if db.spools[i].archived {
        return Err(InventoryError::Archived);
    }
    let ghost all = db.bindings@;
    let ghost p = apart_from(canvas_id, tray_id, spool_id);
    proof {
        lists::lemma_filter_ends(all, p);
        lists::lemma_filter_positions(all, p);
    }
    let mut left: Vec<TrayBinding> = Vec::new();
    let mut k: usize = 0;
    while k < db.bindings.len()
        invariant
            k <= db.bindings@.len(),
            db.bindings@ == all,
            p == apart_from(canvas_id, tray_id, spool_id),
            left@ == all.take(k as int).filter(p),
        decreases db.bindings.len() - k,
    {
        proof {
            lists::lemma_filter_step(all, p, k as int);
        }
        let row = db.bindings[k];
        if row.spool_id != spool_id && (row.canvas_id != canvas_id || row.tray_id != tray_id) {
            left.push(row);
        }
        k += 1;
    }
    let ghost kept = left@;
    left.push(TrayBinding { canvas_id, tray_id, spool_id, bound_at: now });
    proof {
        assert forall|k: int| 0 <= k < kept.len() implies p(#[trigger] kept[k]) && exists|m: int|
            0 <= m < all.len() && all[m] == kept[k] by {
            assert(kept[k] == all.filter(p)[k]);
        }
    }
    db.bindings = left;
    Ok(())
}

pub open spec fn in_other_tray(trays: Seq<(i64, i64)>) -> spec_fn(TrayBinding) -> bool {
    |b: TrayBinding| !trays.contains((b.canvas_id, b.tray_id))
}

fn among(trays: &[(i64, i64)], canvas_id: i64, tray_id: i64) -> (r: bool)
    ensures
        r == trays@.contains((canvas_id, tray_id)),
{
    let mut i: usize = 0;
    while i < trays.len()
        invariant
            i <= trays@.len(),
            forall|k: int| 0 <= k < i ==> trays@[k] != (canvas_id, tray_id),
        decreases trays.len() - i,
    {
        if trays[i].0 == canvas_id && trays[i].1 == tray_id {
            assert(trays@[i as int] == (canvas_id, tray_id));
            return true;
        }
        i += 1;
    }
    false
}

/// Takes the spools out of the given `(canvas_id, tray_id)` trays.
pub fn unbind_trays(db: &mut Inventory, trays: &[(i64, i64)])
    ensures
        old(db).well_formed() ==> final(db).well_formed(),
        final(db).spools@ == old(db).spools@,
        final(db).ledger@ == old(db).ledger@,
        final(db).bindings@ == old(db).bindings@.filter(in_other_tray(trays@)),
{
    let ghost all = db.bindings@;
    let ghost p = in_other_tray(trays@);
    proof {
        lists::lemma_filter_ends(all, p);
        lists::lemma_filter_positions(all, p);
    }
    let mut left: Vec<TrayBinding> = Vec::new();
    let mut k: usize = 0;
    while k < db.bindings.len()
        invariant
            k <= db.bindings@.len(),
            db.bindings@ == all,
            p == in_other_tray(trays@),
            left@ == all.take(k as int).filter(p),
        decreases db.bindings.len() - k,
    {
        proof {
            lists::lemma_filter_step(all, p, k as int);
        }
        let row = db.bindings[k];
        if !among(trays, row.canvas_id, row.tray_id) {
            left.push(row);
        }
        k += 1;
    }
    proof {
        assert forall|k: int| 0 <= k < left@.len() implies exists|m: int|
            0 <= m < all.len() && all[m] == #[trigger] left@[k] by {
            assert(left@[k] == all.filter(p)[k]);
        }
    }
    db.bindings = left;
}

// ---------------------------------------------------------------------------------------------
// Trays, colours and prices
// ---------------------------------------------------------------------------------------------

pub open spec fn tray_name(canvas_id: int, tray_id: int) -> Seq<char> {
    seq![('A' as int + canvas_id % 26) as char] + text::decimal_int(tray_id + 1)
}

/// `A1` for the first tray of the first CANVAS unit.
pub fn tray_label(canvas_id: i64, tray_id: i64) -> (r: String)
    requires
        tray_id < i64::MAX,
    ensures
        r@ == tray_name(canvas_id as int, tray_id as int),
{
    let letter: u8 = if canvas_id >= 0 {
        (canvas_id % 26) as u8
    } else {
        25 - ((-(canvas_id + 1)) % 26) as u8
    };
    assert(letter == canvas_id as int % 26);
    let mut out = String::new();
    out.push((65 + letter) as char);
    text::push_decimal_int(&mut out, tray_id + 1);
    assert(out@ =~= tray_name(canvas_id as int, tray_id as int));
    out
}

pub open spec fn is_hex(s: Seq<char>) -> bool {
    s.len() == 6 && forall|i: int| 0 <= i < s.len() ==> text::is_hex_digit(#[trigger] s[i])
}

/// The six digits of a colour, without the `#` and white space around them.
pub open spec fn bare_color(raw: Seq<char>) -> Seq<char> {
    let trimmed = text::trim(raw);
    if trimmed.len() > 0 && trimmed[0] == '#' {
        trimmed.skip(1)
    } else {
        trimmed
    }
}

pub open spec fn color_of(raw: Seq<char>) -> Option<Seq<char>> {
    if is_hex(bare_color(raw)) {
        Some(seq!['#'] + text::upper(bare_color(raw)))
    } else {
        None
    }
}

fn all_hex(s: &[char]) -> (r: bool)
    ensures
        r == (forall|i: int| 0 <= i < s@.len() ==> text::is_hex_digit(#[trigger] s@[i])),
{
    let mut i: usize = 0;
    while i < s.len()
        invariant
            i <= s@.len(),
            forall|k: int| 0 <= k < i ==> text::is_hex_digit(#[trigger] s@[k]),
        decreases s.len() - i,
    {
        if !text::char_is_hex(s[i]) {
            return false;
        }
        i += 1;
    }
    true
}

fn bare<'a>(all: &'a [char]) -> (r: &'a [char])
    ensures
        r@ == bare_color(all@),
{
    let trimmed = text::trimmed(all);
    if trimmed.len() > 0 && trimmed[0] == '#' {
        let rest = vstd::slice::slice_subrange(trimmed, 1, trimmed.len());
        assert(rest@ =~= trimmed@.skip(1));
        rest
    } else {
        trimmed
    }
}

/// `#RRGGBB` from `RRGGBB` or `#rrggbb`; `None` for anything else.
pub fn normalize_color(raw: &str) -> (r: Option<String>)
    ensures
        r matches Some(color) ==> color_of(raw@) == Some(color@),
        r is None ==> color_of(raw@) is None,
{
    let all = text::chars(raw);
    let hex = bare(all.as_slice());
    if hex.len() == 6 && all_hex(hex) {
        let upper = text::upper_chars(hex);
        let mut out = String::new();
        out.push('#');
        out.append(text::string(upper.as_slice()).as_str());
        assert(out@ =~= seq!['#'] + text::upper(hex@));
        Some(out)
    } else {
        None
    }
}

/// Normalizing a normalized colour changes nothing.
pub proof fn normalized_colors_stay(raw: Seq<char>)
    ensures
        color_of(raw) matches Some(color) ==> color_of(color) == Some(color) && color.len() == 7,
{
    if let Some(color) = color_of(raw) {
        let hex = bare_color(raw);
        assert(color[0] == '#');
        assert(text::is_hex_digit(hex[5]));
        assert(color.last() == text::upper_char(hex[5]));
        text::lemma_trim_is_identity(color);
        assert(color.skip(1) =~= text::upper(hex));
        assert forall|i: int| 0 <= i < 6 implies text::is_hex_digit(#[trigger] text::upper(hex)[i])
            && text::upper_char(text::upper(hex)[i]) == text::upper(hex)[i] by {
            assert(text::is_hex_digit(hex[i]));
        }
        assert(text::upper(text::upper(hex)) =~= text::upper(hex));
    }
}

/// With every comma made a point.
pub open spec fn with_points(s: Seq<char>) -> Seq<char> {
    s.map_values(|c: char| if c == ',' { '.' } else { c })
}

/// The spellings of numbers that are not finite.
pub open spec fn is_not_finite(s: Seq<char>) -> bool {
    let bare = if s.len() > 0 && decimal::is_sign(s[0]) { s.skip(1) } else { s };
    text::lower(bare) == "inf"@ || text::lower(bare) == "infinity"@ || text::lower(bare) == "nan"@
}

/// A weight between nothing and 20000 g.
pub open spec fn is_weight(number: decimal::Written) -> bool {
    if number.negative {
        float::vanishes(number)
    } else {
        !float::exceeds_20000(number)
    }
}

/// The weight in milligrams, to the nearest.
pub open spec fn weight_of(number: decimal::Written) -> int {
    let mg = number.floor(3) + if number.rounds_up(3) { 1int } else { 0 };
    if number.negative {
        0
    } else if mg > 20_000_000 {
        20_000_000
    } else {
        mg
    }
}

fn not_finite(s: &[char]) -> (r: bool)
    ensures
        r == is_not_finite(s@),
{
    let bare = if s.len() > 0 && (s[0] == '+' || s[0] == '-') {
        let rest = vstd::slice::slice_subrange(s, 1, s.len());
        assert(rest@ =~= s@.skip(1));
        rest
    } else {
        s
    };
    let lower = text::string(text::lower_chars(bare).as_slice());
    text::same(lower.as_str(), "inf") || text::same(lower.as_str(), "infinity") || text::same(
        lower.as_str(),
        "nan",
    )
}

/// Reads a weight in grams, with a point or a comma, and gives it in milligrams.
pub fn parse_grams(raw: &str) -> (r: Result<i64, String>)
    ensures
        ({
            let s = with_points(text::trim(raw@));
            match decimal::written(s) {
                Some(number) if is_weight(number) => r == Ok::<i64, String>(
                    weight_of(number) as i64,
                ) && 0 <= weight_of(number) <= 20_000_000,
                Some(_) => r matches Err(message) && message@
                    == "The weight must be between 0 and 20000 g."@,
                None => r matches Err(message) && message@ == if is_not_finite(s) {
                    "The weight must be between 0 and 20000 g."@
                } else {
                    "Enter the weight in grams, like 850."@
                },
            }
        }),
{
    let all = text::chars(raw);
    let trimmed = text::trimmed(all.as_slice());
    let mut s: Vec<char> = Vec::new();
    let mut i: usize = 0;
    while i < trimmed.len()
        invariant
            i <= trimmed@.len(),
            s@ =~= with_points(trimmed@.take(i as int)),
        decreases trimmed.len() - i,
    {
        s.push(
            if trimmed[i] == ',' {
                '.'
            } else {
                trimmed[i]
            },
        );
        i += 1;
    }
    assert(trimmed@.take(i as int) =~= trimmed@);
    let (scaled, reach) = match (
        decimal::read_scaled(s.as_slice(), 3),
        float::reach(s.as_slice()),
    ) {
        (Some(scaled), Some(reach)) => (scaled, reach),
        _ => {
            return Err(
                if not_finite(s.as_slice()) {
                    "The weight must be between 0 and 20000 g.".to_string()
                } else {
                    "Enter the weight in grams, like 850.".to_string()
                },
            );
        },
    };
    let fits = if scaled.negative {
        reach.nothing
    } else {
        !reach.beyond_20000
    };
    if !fits {
        return Err("The weight must be between 0 and 20000 g.".to_string());
    }
    proof {
        let number = decimal::written(s@)->0;
        decimal::lemma_floor_is_a_size(number.digits, number.scale + 3);
    }
    if scaled.negative {
        return Ok(0);
    }
    match scaled.floor {
        Some(floor) if floor < 20_000_000 => Ok(
            floor as i64 + if scaled.rounds_up {
                1i64
            } else {
                0
            },
        ),
        _ => Ok(20_000_000),
    }
}

/// The first `.` or `,` from position `i` on, or the length where there is none.
pub open spec fn separator_at(s: Seq<char>, i: int) -> int
    decreases s.len() - i,
{
    if i >= s.len() {
        s.len() as int
    } else if s[i] == '.' || s[i] == ',' {
        i
    } else {
        separator_at(s, i + 1)
    }
}

/// Cents behind the separator: one digit stands for tens of cents.
pub open spec fn cents_of(fraction: Seq<char>) -> int {
    if fraction.len() == 0 {
        0
    } else if fraction.len() == 1 {
        text::digit_value(fraction[0]) * 10
    } else {
        text::digit_value(fraction[0]) * 10 + text::digit_value(fraction[1])
    }
}

/// The price in cents that a text without white space around it gives: one to six digits, with
/// up to two more behind a point or comma.
pub open spec fn price_of(s: Seq<char>) -> Option<int> {
    let at = separator_at(s, 0);
    let whole = s.take(at);
    let fraction = if at < s.len() { s.skip(at + 1) } else { seq![] };
    if 1 <= whole.len() <= 6 && fraction.len() <= 2 && text::all_digits(whole) && text::all_digits(
        fraction,
    ) {
        Some(text::digits_value(whole) * 100 + cents_of(fraction))
    } else {
        None
    }
}

fn only_digits(s: &[char]) -> (r: bool)
    ensures
        r == text::all_digits(s@),
{
    let mut i: usize = 0;
    while i < s.len()
        invariant
            i <= s@.len(),
            forall|k: int| 0 <= k < i ==> text::is_digit(#[trigger] s@[k]),
        decreases s.len() - i,
    {
        if !text::char_is_digit(s[i]) {
            return false;
        }
        i += 1;
    }
    true
}

pub proof fn lemma_digits_bound(s: Seq<char>)
    requires
        text::all_digits(s),
        s.len() <= 6,
    ensures
        text::digits_value(s) <= 999_999,
{
    reveal_with_fuel(text::digits_value, 7);
    assert forall|i: int| 0 <= i < s.len() implies 0 <= text::digit_value(#[trigger] s[i]) <= 9 by {
        assert(text::is_digit(s[i]));
    }
}

/// Accepts `19`, `19.9` and `19,99`: a comma is the decimal separator in much of Europe.
pub fn parse_price(raw: &str) -> (r: Result<Option<i64>, String>)
    ensures
        match r {
            Ok(None) => text::trim(raw@).len() == 0,
            Ok(Some(cents)) => text::trim(raw@).len() > 0 && price_of(text::trim(raw@)) == Some(
                cents as int,
            ) && 0 <= cents <= 99_999_999,
            Err(message) => text::trim(raw@).len() > 0 && price_of(text::trim(raw@)) is None
                && message@ == "Enter a price like 19.99, or leave it empty."@,
        },
{
    let all = text::chars(raw);
    let s = text::trimmed(all.as_slice());
    if s.len() == 0 {
        return Ok(None);
    }
    let mut at: usize = 0;
    while at < s.len() && s[at] != '.' && s[at] != ','
        invariant
            at <= s@.len(),
            separator_at(s@, 0) == separator_at(s@, at as int),
        decreases s.len() - at,
    {
        at += 1;
    }
    let whole = vstd::slice::slice_subrange(s, 0, at);
    let fraction = if at < s.len() {
        vstd::slice::slice_subrange(s, at + 1, s.len())
    } else {
        vstd::slice::slice_subrange(s, at, at)
    };
    assert(whole@ =~= s@.take(at as int));
    assert(fraction@ =~= if at < s@.len() { s@.skip(at + 1) } else { seq![] });
    if whole.len() == 0 || whole.len() > 6 || fraction.len() > 2 || !only_digits(whole)
        || !only_digits(fraction) {
        return Err("Enter a price like 19.99, or leave it empty.".to_string());
    }
    proof {
        lemma_digits_bound(whole@);
        assert(text::is_digit(whole@[0]));
    }
    let units: u64 = match text::parse_unsigned(whole, 999_999) {
        Some(units) => units,
        None => 0,
    };
    let mut cents: i64 = 0;
    if fraction.len() > 0 {
        assert(text::is_digit(fraction@[0]));
        cents = (fraction[0] as u32 - '0' as u32) as i64 * 10;
        if fraction.len() > 1 {
            assert(text::is_digit(fraction@[1]));
            cents = cents + (fraction[1] as u32 - '0' as u32) as i64;
        }
    }
    Ok(Some(units as i64 * 100 + cents))
}

/// Units, a point, and two digits of cents.
pub open spec fn price_text(cents: int) -> Seq<char> {
    let units = num::truncated(cents, 100);
    let rest = cents - 100 * units;
    text::decimal_int(units) + seq!['.'] + if rest >= 0 {
        text::padded(rest as nat)
    } else {
        text::decimal_int(rest)
    }
}

pub fn format_price(cents: i64) -> (r: String)
    ensures
        r@ == price_text(cents as int),
{
    let mut out = String::new();
    if cents >= 0 {
        text::push_decimal_int(&mut out, cents / 100);
        out.push('.');
        text::push_padded(&mut out, (cents % 100) as u64);
    } else {
        let size: i128 = -(cents as i128);
        let units: i128 = -(size / 100);
        let rest: i128 = -(size % 100);
        text::push_decimal_int(&mut out, units as i64);
        out.push('.');
        if rest == 0 {
            text::push_padded(&mut out, 0);
        } else {
            text::push_decimal_int(&mut out, rest as i64);
        }
    }
    assert(out@ =~= price_text(cents as int));
    out
}

/// A price is read back from the way it is written.
pub proof fn prices_read_back(cents: int)
    requires
        0 <= cents <= 99_999_999,
    ensures
        text::trim(price_text(cents)) == price_text(cents),
        price_text(cents).len() > 0,
        price_of(price_text(cents)) == Some(cents),
{
    let units = (cents / 100) as nat;
    let rest = (cents % 100) as nat;
    let whole = text::decimal(units);
    let p = text::padded(rest);
    let s = price_text(cents);
    text::lemma_decimal(units);
    lemma_decimal_length(units);
    reveal_with_fuel(text::decimal, 3);
    assert(p =~= seq![text::digit_char((rest / 10) as int), text::digit_char((rest % 10) as int)]);
    assert(s =~= whole + seq!['.'] + p);
    assert(text::is_digit(whole[0]));
    assert(s[0] == whole[0]);
    assert(s.last() == p[1]);
    text::lemma_trim_is_identity(s);
    lemma_separator_at(s, 0, whole.len() as int);
    assert(s.take(whole.len() as int) =~= whole);
    assert(s.skip(whole.len() as int + 1) =~= p);
    assert(text::is_digit(p[0]) && text::is_digit(p[1]));
}

proof fn lemma_separator_at(s: Seq<char>, i: int, at: int)
    requires
        0 <= i <= at < s.len(),
        s[at] == '.',
        forall|k: int| 0 <= k < at ==> text::is_digit(#[trigger] s[k]),
    ensures
        separator_at(s, i) == at,
    decreases at - i,
{
    if i < at {
        assert(text::is_digit(s[i]));
        lemma_separator_at(s, i + 1, at);
    }
}

/// A number below a million has at most six digits.
proof fn lemma_decimal_length(n: nat)
    requires
        n <= 999_999,
    ensures
        text::decimal(n).len() <= 6,
{
    reveal_with_fuel(text::decimal, 7);
}

pub open spec fn matches_material(tray_type: Seq<char>, material: Seq<char>) -> bool {
    text::trim(tray_type).len() > 0 && text::lower(text::trim(tray_type)) == text::lower(
        text::trim(material),
    )
}

/// Case-insensitive; a tray that reports no type matches nothing.
pub fn material_matches(tray_type: &str, material: &str) -> (r: bool)
    ensures
        r == matches_material(tray_type@, material@),
{
    let a = text::chars(tray_type);
    let b = text::chars(material);
    let a = text::trimmed(a.as_slice());
    a.len() > 0 && text::same_ignoring_case(a, text::trimmed(b.as_slice()))
}

pub open spec fn channel(hex: Seq<char>, i: int) -> int {
    text::hex_value(hex[2 * i]) * 16 + text::hex_value(hex[2 * i + 1])
}

pub open spec fn square(n: int) -> int {
    n * n
}

/// Squared RGB distance of two colours that each have six digits.
pub open spec fn distance(a: Seq<char>, b: Seq<char>) -> int {
    square(channel(a, 0) - channel(b, 0)) + square(channel(a, 1) - channel(b, 1)) + square(
        channel(a, 2) - channel(b, 2),
    )
}

pub open spec fn colors_apart(a: Seq<char>, b: Seq<char>) -> Option<int> {
    if is_hex(bare_color(a)) && is_hex(bare_color(b)) {
        Some(distance(bare_color(a), bare_color(b)))
    } else {
        None
    }
}

fn channel_of(hex: &[char], i: usize) -> (r: u32)
    requires
        is_hex(hex@),
        i < 3,
    ensures
        r == channel(hex@, i as int),
        r <= 255,
{
    assert(text::is_hex_digit(hex@[2 * i]));
    assert(text::is_hex_digit(hex@[2 * i + 1]));
    text::char_hex_value(hex[2 * i]) as u32 * 16 + text::char_hex_value(hex[2 * i + 1]) as u32
}

fn squared_gap(a: u32, b: u32) -> (r: u32)
    requires
        a <= 255,
        b <= 255,
    ensures
        r == square(a - b),
        r <= 65_025,
{
    let d: u32 = if a >= b {
        a - b
    } else {
        b - a
    };
    assert(d * d <= 255 * 255) by (nonlinear_arith)
        requires
            d <= 255,
    ;
    assert((a - b) * (a - b) == d * d) by (nonlinear_arith)
        requires
            d == a - b || d == b - a,
    ;
    d * d
}

/// Squared RGB distance, or `None` unless both are `#RRGGBB`.
pub fn color_distance(a: &str, b: &str) -> (r: Option<u32>)
    ensures
        r matches Some(d) ==> colors_apart(a@, b@) == Some(d as int) && d <= 195_075,
        r is None ==> colors_apart(a@, b@) is None,
{
    let a = text::chars(a);
    let b = text::chars(b);
    let x = bare(a.as_slice());
    let y = bare(b.as_slice());
    if x.len() == 6 && all_hex(x) && y.len() == 6 && all_hex(y) {
        Some(
            squared_gap(channel_of(x, 0), channel_of(y, 0)) + squared_gap(
                channel_of(x, 1),
                channel_of(y, 1),
            ) + squared_gap(channel_of(x, 2), channel_of(y, 2)),
        )
    } else {
        None
    }
}

/// Colours are as far from each other as the other way round, and a colour is no way from
/// itself.
pub proof fn color_distance_is_symmetric(a: Seq<char>, b: Seq<char>)
    ensures
        colors_apart(a, b) == colors_apart(b, a),
        colors_apart(a, a) matches Some(d) ==> d == 0,
{
    assert forall|x: int, y: int| #[trigger] square(x - y) == square(y - x) by {
        assert((x - y) * (x - y) == (y - x) * (y - x)) by (nonlinear_arith);
    }
    assert(square(0) == 0);
}

/// How far a spool is from what a tray reports: first whether the material is another, then the
/// distance of the colours.
pub open spec fn tray_rank(tray: Tray, spool: Spool) -> (bool, int) {
    (
        !matches_material(tray.filament_type@, spool.material@),
        match colors_apart(tray.filament_color@, spool.color_hex@) {
            Some(d) => d,
            None => u32::MAX as int,
        },
    )
}

pub open spec fn nearest_first(tray: Tray) -> spec_fn(Spool, Spool) -> bool {
    |a: Spool, b: Spool|
        {
            let x = tray_rank(tray, a);
            let y = tray_rank(tray, b);
            if x.0 != y.0 {
                y.0
            } else {
                x.1 <= y.1
            }
        }
}

fn rank_of(tray: &Tray, spool: &Spool) -> (r: (bool, u32))
    ensures
        r.0 == tray_rank(*tray, *spool).0,
        r.1 == tray_rank(*tray, *spool).1,
{
    let other = !material_matches(tray.filament_type.as_str(), spool.material.as_str());
    match color_distance(tray.filament_color.as_str(), spool.color_hex.as_str()) {
        Some(d) => (other, d),
        None => (other, u32::MAX),
    }
}

/// Orders spools for a tray's picker: matching material first, then nearest colour.
pub fn rank_for_tray(spools: Vec<Spool>, tray: &Tray) -> (r: Vec<Spool>)
    ensures
        r@ == order::sorted(spools@, nearest_first(*tray)),
{
    let before = |a: &Spool, b: &Spool| -> (r: bool)
        ensures
            r == nearest_first(*tray)(*a, *b),
        {
            let x = rank_of(tray, a);
            let y = rank_of(tray, b);
            if x.0 != y.0 {
                y.0
            } else {
                x.1 <= y.1
            }
        };
    order::sort_by(spools, before, Ghost(nearest_first(*tray)))
}

/// The picker offers every spool once, and none before one that fits the tray better.
pub proof fn the_picker_ranks_every_spool(spools: Seq<Spool>, tray: Tray)
    ensures
        order::sorted(spools, nearest_first(tray)).to_multiset() == spools.to_multiset(),
        order::is_sorted(order::sorted(spools, nearest_first(tray)), nearest_first(tray)),
{
    order::sorting_keeps_every_item(spools, nearest_first(tray));
    order::sorting_sorts(spools, nearest_first(tray));
}

/// The first tray from position `i` on with the given id.
pub open spec fn tray_in(trays: Seq<Tray>, tray_id: i64, i: int) -> Option<Tray>
    decreases trays.len() - i,
{
    if i >= trays.len() {
        None
    } else if trays[i].tray_id == tray_id {
        Some(trays[i])
    } else {
        tray_in(trays, tray_id, i + 1)
    }
}

/// The first tray with the given id in a unit with the given id, from the unit at `i` on.
pub open spec fn tray_at(units: Seq<model::Canvas>, canvas_id: i64, tray_id: i64, i: int) -> Option<
    Tray,
>
    decreases units.len() - i,
{
    if i >= units.len() {
        None
    } else if units[i].canvas_id == canvas_id && tray_in(units[i].tray_list@, tray_id, 0) is Some {
        tray_in(units[i].tray_list@, tray_id, 0)
    } else {
        tray_at(units, canvas_id, tray_id, i + 1)
    }
}

fn find_tray_in<'a>(trays: &'a Vec<Tray>, tray_id: i64) -> (r: Option<&'a Tray>)
    ensures
        r matches Some(tray) ==> tray_in(trays@, tray_id, 0) == Some(*tray),
        r is None ==> tray_in(trays@, tray_id, 0) is None,
{
    let mut i: usize = 0;
    while i < trays.len()
        invariant
            i <= trays@.len(),
            tray_in(trays@, tray_id, 0) == tray_in(trays@, tray_id, i as int),
        decreases trays.len() - i,
    {
        if trays[i].tray_id as i64 == tray_id {
            return Some(&trays[i]);
        }
        i += 1;
    }
    None
}

pub fn find_tray<'a>(canvas: &'a CanvasInfo, canvas_id: i64, tray_id: i64) -> (r: Option<&'a Tray>)
    ensures
        r matches Some(tray) ==> tray_at(canvas.canvas_list@, canvas_id, tray_id, 0) == Some(*tray),
        r is None ==> tray_at(canvas.canvas_list@, canvas_id, tray_id, 0) is None,
{
    let units = &canvas.canvas_list;
    let mut i: usize = 0;
    while i < units.len()
        invariant
            i <= units@.len(),
            units@ == canvas.canvas_list@,
            tray_at(units@, canvas_id, tray_id, 0) == tray_at(units@, canvas_id, tray_id, i as int),
        decreases units.len() - i,
    {
        if units[i].canvas_id as i64 == canvas_id {
            if let Some(tray) = find_tray_in(&units[i].tray_list, tray_id) {
                return Some(tray);
            }
        }
        i += 1;
    }
    None
}

/// A connected unit reports the tray empty.
pub open spec fn reported_empty(canvas: CanvasInfo, canvas_id: i64, tray_id: i64) -> bool {
    exists|i: int, j: int|
        {
            &&& 0 <= i < canvas.canvas_list@.len()
            &&& canvas.canvas_list@[i].connected == 1
            &&& canvas.canvas_list@[i].canvas_id == canvas_id
            &&& 0 <= j < canvas.canvas_list@[i].tray_list@.len()
            &&& (#[trigger] canvas.canvas_list@[i].tray_list@[j]).tray_id == tray_id
            &&& canvas.canvas_list@[i].tray_list@[j].status == 0
        }
}

fn is_reported_empty(canvas: &CanvasInfo, canvas_id: i64, tray_id: i64) -> (r: bool)
    ensures
        r == reported_empty(*canvas, canvas_id, tray_id),
{
    let units = &canvas.canvas_list;
    let mut i: usize = 0;
    while i < units.len()
        invariant
            i <= units@.len(),
            units@ == canvas.canvas_list@,
            forall|m: int, j: int|
                0 <= m < i && (#[trigger] units@[m]).connected == 1 && units@[m].canvas_id
                    == canvas_id && 0 <= j < units@[m].tray_list@.len() && (
                #[trigger] units@[m].tray_list@[j]).tray_id == tray_id
                    ==> units@[m].tray_list@[j].status != 0,
        decreases units.len() - i,
    {
        if units[i].connected == 1 && units[i].canvas_id as i64 == canvas_id {
            let trays = &units[i].tray_list;
            let mut j: usize = 0;
            while j < trays.len()
                invariant
                    j <= trays@.len(),
                    i < units@.len(),
                    units@ == canvas.canvas_list@,
                    trays@ == units@[i as int].tray_list@,
                    units@[i as int].connected == 1,
                    units@[i as int].canvas_id == canvas_id,
                    forall|k: int|
                        0 <= k < j && (#[trigger] trays@[k]).tray_id == tray_id ==> trays@[k].status
                            != 0,
                decreases trays.len() - j,
            {
                if trays[j].tray_id as i64 == tray_id && trays[j].status == 0 {
                    assert(units@[i as int].tray_list@[j as int].status == 0);
                    return true;
                }
                j += 1;
            }
        }
        i += 1;
    }
    false
}

pub open spec fn emptied(canvas: CanvasInfo) -> spec_fn(Binding) -> bool {
    |b: Binding| reported_empty(canvas, b.canvas_id, b.tray_id)
}

/// Bound trays that the CANVAS reports empty, as `(canvas_id, tray_id)`. Only units reporting
/// themselves connected count, so a unit that drops off keeps its bindings.
pub fn emptied_bindings(canvas: &CanvasInfo, bindings: &[Binding]) -> (r: Vec<(i64, i64)>)
    ensures
        r@ == bindings@.filter(emptied(*canvas)).map_values(|b: Binding| (b.canvas_id, b.tray_id)),
{
    let ghost p = emptied(*canvas);
    let ghost place = |b: Binding| (b.canvas_id, b.tray_id);
    let mut out: Vec<(i64, i64)> = Vec::new();
    proof {
        lists::lemma_filter_ends(bindings@, p);
    }
    let mut i: usize = 0;
    while i < bindings.len()
        invariant
            i <= bindings@.len(),
            p == emptied(*canvas),
            place == (|b: Binding| (b.canvas_id, b.tray_id)),
            out@ =~= bindings@.take(i as int).filter(p).map_values(place),
        decreases bindings.len() - i,
    {
        proof {
            lists::lemma_filter_step(bindings@, p, i as int);
        }
        if is_reported_empty(canvas, bindings[i].canvas_id, bindings[i].tray_id) {
            out.push((bindings[i].canvas_id, bindings[i].tray_id));
        }
        i += 1;
    }
    out
}

// ---------------------------------------------------------------------------------------------
// Laws
// ---------------------------------------------------------------------------------------------

/// Filament is worth its share of the price of a full spool, to the nearest thousandth of a cent.
/// Without a price or a full weight it is worth nothing that could be said.
pub proof fn filament_is_worth_its_share_of_the_price(spool: Spool, mg: int)
    ensures
        value_of(spool, mg) is Some <==> spool.price_cents is Some && spool.initial_mg > 0,
        value_of(spool, mg) matches Some(value) ==> -spool.initial_mg <= 2 * (spool.initial_mg
            * value - 1000 * (mg * spool.price_cents->0)) <= spool.initial_mg,
        value_of(spool, spool.initial_mg as int) matches Some(value) ==> value == 1000
            * spool.price_cents->0,
{
    if spool.price_cents is Some && spool.initial_mg > 0 {
        let price = spool.price_cents->0 as int;
        let full = spool.initial_mg as int;
        assert(mg * price * 1000 == 1000 * (mg * price)) by (nonlinear_arith);
        num::rounding_misses_by_half_at_most(mg * price * 1000, full);
        let whole = value_of(spool, full)->0;
        num::rounding_misses_by_half_at_most(full * price * 1000, full);
        assert(full * price * 1000 == full * (1000 * price)) by (nonlinear_arith);
        assert(whole == 1000 * price) by (nonlinear_arith)
            requires
                full > 0,
                -full <= 2 * (full * whole) - 2 * (full * (1000 * price)) <= full,
        ;
    }
}

/// The ledger adds up: an entry counts towards its own spool, with its sign, and towards no other.
pub proof fn entries_count_for_their_spool(ledger: Seq<LedgerEntry>, entry: LedgerEntry, spool_id: i64)
    ensures
        used_from(seq![], spool_id) == 0,
        used_from(ledger.push(entry), spool_id) - used_from(ledger, spool_id) == if entry.spool_id
            == spool_id {
            entry.mg as int
        } else {
            0
        },
{
    assert(ledger.push(entry).drop_last() =~= ledger);
}

/// An entry keeps whose spool it was and what the filament was worth when it was used.
pub proof fn entries_keep_owner_and_value(
    entry: LedgerEntry,
    ledger: Seq<LedgerEntry>,
    spool: Spool,
    user_id: Option<i64>,
    job_id: Option<i64>,
    kind: ConsumptionKind,
    mg: i64,
    now: i64,
)
    requires
        entry_written(entry, ledger, spool, user_id, job_id, kind, mg, now),
    ensures
        entry.spool_id == spool.id,
        entry.user_id == user_id,
        entry.job_id == job_id,
        entry.kind == kind,
        entry.mg == mg,
        entry.created_at == now,
        entry.spool_owner_id == match spool.owner {
            Some(owner) => Some(owner.0),
            None => None,
        },
        entry.value is Some <==> spool.price_cents is Some && spool.initial_mg > 0,
        entry.value matches Some(value) ==> -spool.initial_mg <= 2 * (spool.initial_mg * value
            - 1000 * (mg * spool.price_cents->0)) <= spool.initial_mg,
        forall|i: int| 0 <= i < ledger.len() ==> (#[trigger] ledger[i]).id < entry.id,
{
    filament_is_worth_its_share_of_the_price(spool, mg as int);
    assert forall|i: int| 0 <= i < ledger.len() implies (#[trigger] ledger[i]).id < entry.id by {
        lemma_entry_ids(ledger, i);
    }
}

proof fn lemma_entry_ids(ledger: Seq<LedgerEntry>, i: int)
    requires
        0 <= i < ledger.len(),
    ensures
        ledger[i].id < next_entry_id(ledger),
    decreases ledger.len(),
{
    if i < ledger.len() - 1 {
        lemma_entry_ids(ledger.drop_last(), i);
    }
}

/// A new spool is full, in use, and has its owner.
pub proof fn a_new_spool_is_full(
    id: i64,
    fields: SpoolFields,
    owner: Option<(i64, String)>,
    now: i64,
)
    ensures
        ({
            let spool = new_spool(id, fields, owner, now);
            &&& spool.id == id && spool.owner == owner && spool.created_at == now
            &&& spool.remaining_mg == fields.initial_mg && spool.initial_mg == fields.initial_mg
            &&& !spool.archived
            &&& spool.price_cents == fields.price_cents && spool.material == fields.material
            &&& spool.brand == fields.brand && spool.color_name == fields.color_name
                && spool.color_hex == fields.color_hex && spool.notes == fields.notes
        }),
{
}

/// Spools are edited by their owners and by admins.
pub proof fn spools_are_edited_by_owners_and_admins(spool: Spool, user: User)
    ensures
        spool.editable(user) <==> user.role == Role::Admin || (match spool.owner {
            Some(owner) => owner.0 == user.id,
            None => false,
        }),
{
}

/// After a spool is put in a tray, it sits there and nowhere else, nothing else sits there, and
/// every other binding stays.
pub proof fn binding_moves_one_spool(
    bindings: Seq<TrayBinding>,
    canvas_id: i64,
    tray_id: i64,
    spool_id: i64,
    now: i64,
    other: TrayBinding,
)
    ensures
        ({
            let new = TrayBinding { canvas_id, tray_id, spool_id, bound_at: now };
            let after = bindings.filter(apart_from(canvas_id, tray_id, spool_id)).push(new);
            after.contains(other) <==> other == new || bindings.contains(other) && other.spool_id
                != spool_id && !(other.canvas_id == canvas_id && other.tray_id == tray_id)
        }),
{
    let p = apart_from(canvas_id, tray_id, spool_id);
    let left = bindings.filter(p);
    let new = TrayBinding { canvas_id, tray_id, spool_id, bound_at: now };
    let after = left.push(new);
    lists::filtering_keeps_what_is_picked(bindings, p, other);
    assert(after[left.len() as int] == new);
    if left.contains(other) {
        let k = choose|k: int| 0 <= k < left.len() && left[k] == other;
        assert(after[k] == other);
    }
    if after.contains(other) {
        let k = choose|k: int| 0 <= k < after.len() && after[k] == other;
        if k < left.len() {
            assert(left[k] == other);
        }
    }
}

/// Archiving a spool takes it out of its tray and no other; emptied trays lose their bindings and
/// no others do.
pub proof fn unbinding_takes_out_just_that(
    bindings: Seq<TrayBinding>,
    spool_id: i64,
    trays: Seq<(i64, i64)>,
    binding: TrayBinding,
)
    ensures
        bindings.filter(not_of_spool(spool_id)).contains(binding) <==> bindings.contains(binding)
            && binding.spool_id != spool_id,
        bindings.filter(in_other_tray(trays)).contains(binding) <==> bindings.contains(binding)
            && !trays.contains((binding.canvas_id, binding.tray_id)),
{
    lists::filtering_keeps_what_is_picked(bindings, not_of_spool(spool_id), binding);
    lists::filtering_keeps_what_is_picked(bindings, in_other_tray(trays), binding);
}

/// Only a unit that is connected empties a tray, and only by reporting it empty.
pub proof fn a_tray_is_emptied_by_a_connected_unit(canvas: CanvasInfo, binding: Binding)
    ensures
        emptied(canvas)(binding) <==> exists|i: int, j: int|
            0 <= i < canvas.canvas_list@.len() && 0 <= j < canvas.canvas_list@[i].tray_list@.len()
                && (#[trigger] canvas.canvas_list@[i].tray_list@[j]).status == 0
                && canvas.canvas_list@[i].tray_list@[j].tray_id == binding.tray_id
                && canvas.canvas_list@[i].canvas_id == binding.canvas_id
                && canvas.canvas_list@[i].connected == 1,
{
}

/// Materials match whatever the case of their letters and the white space around them, and a tray
/// that reports none matches nothing.
pub proof fn materials_match_by_name(tray_type: Seq<char>, material: Seq<char>)
    ensures
        matches_material(tray_type, material) ==> text::trim(tray_type).len() > 0,
        text::trim(tray_type).len() > 0 ==> matches_material(tray_type, tray_type),
        matches_material(tray_type, material) <==> text::trim(tray_type).len() > 0 && text::lower(
            text::trim(material),
        ) == text::lower(text::trim(tray_type)),
        matches_material(tray_type, material) && text::trim(material).len() > 0
            ==> matches_material(material, tray_type),
{
}

/// A spool of the material that a tray reports is offered before any other; among spools of one
/// kind, the nearer colour first, and one whose colour is not known last.
pub proof fn the_material_counts_before_the_colour(tray: Tray, a: Spool, b: Spool)
    ensures
        ({
            let le = nearest_first(tray);
            let fits = |s: Spool| matches_material(tray.filament_type@, s.material@);
            let x = colors_apart(tray.filament_color@, a.color_hex@);
            let y = colors_apart(tray.filament_color@, b.color_hex@);
            &&& fits(a) && !fits(b) ==> le(a, b) && !le(b, a)
            &&& fits(a) == fits(b) && x is Some && y is Some && x->0 < y->0 ==> le(a, b) && !le(
                b,
                a,
            )
            &&& fits(a) == fits(b) && x is Some && y is None ==> le(a, b) && !le(b, a)
        }),
{
    let (p, q) = (bare_color(tray.filament_color@), bare_color(a.color_hex@));
    if is_hex(p) && is_hex(q) {
        lemma_distance_small(p, q);
    }
}

proof fn lemma_distance_small(a: Seq<char>, b: Seq<char>)
    requires
        is_hex(a),
        is_hex(b),
    ensures
        0 <= distance(a, b) <= 195_075,
{
    assert forall|i: int| 0 <= i < 3 implies 0 <= #[trigger] channel(a, i) <= 255 && 0 <= channel(
        b,
        i,
    ) <= 255 by {
        assert(text::is_hex_digit(a[2 * i]) && text::is_hex_digit(a[2 * i + 1]));
        assert(text::is_hex_digit(b[2 * i]) && text::is_hex_digit(b[2 * i + 1]));
    }
    assert forall|n: int| -255 <= n <= 255 implies 0 <= #[trigger] square(n) <= 65_025 by {
        assert(0 <= n * n <= 65_025) by (nonlinear_arith)
            requires
                -255 <= n <= 255,
        ;
    }
    assert(0 <= channel(a, 0) <= 255 && 0 <= channel(a, 1) <= 255 && 0 <= channel(a, 2) <= 255);
    assert(0 <= square(channel(a, 0) - channel(b, 0)) <= 65_025);
    assert(0 <= square(channel(a, 1) - channel(b, 1)) <= 65_025);
    assert(0 <= square(channel(a, 2) - channel(b, 2)) <= 65_025);
}

/// Spools in use stand before archived ones on the shelf.
pub proof fn archived_spools_stand_last(a: Spool, b: Spool)
    requires
        !a.archived,
        b.archived,
    ensures
        shelf_order()(a, b),
        !shelf_order()(b, a),
        on_the_shelf(false)(a),
        !on_the_shelf(false)(b),
        on_the_shelf(true)(b),
{
}

/// A comma separates cents as a point does, and one digit behind it stands for tens of cents.
pub proof fn prices_are_read_with_commas_too(whole: Seq<char>, fraction: Seq<char>, tens: char)
    requires
        text::all_digits(whole),
        text::is_digit(tens),
    ensures
        price_of(whole + seq![','] + fraction) == price_of(whole + seq!['.'] + fraction),
        price_of(whole + seq!['.', tens]) == price_of(whole + seq!['.', tens, '0']),
        price_of(whole) == price_of(whole + seq!['.', '0', '0']),
{
    let n = whole.len() as int;
    assert forall|t: Seq<char>, c: char|
        c == '.' || c == ',' implies #[trigger] separator_at(whole + seq![c] + t, 0) == n by {
        lemma_separator(whole + seq![c] + t, 0, n);
    }
    let (a, b) = (whole + seq![','] + fraction, whole + seq!['.'] + fraction);
    assert(separator_at(a, 0) == n && separator_at(b, 0) == n);
    assert(a.take(n) =~= whole && b.take(n) =~= whole);
    assert(a.skip(n + 1) =~= fraction && b.skip(n + 1) =~= fraction);
    let (c, d) = (whole + seq!['.', tens], whole + seq!['.', tens, '0']);
    assert(c =~= whole + seq!['.'] + seq![tens] && d =~= whole + seq!['.'] + seq![tens, '0']);
    assert(separator_at(whole + seq!['.'] + seq![tens], 0) == n);
    assert(separator_at(whole + seq!['.'] + seq![tens, '0'], 0) == n);
    assert(c.take(n) =~= whole && d.take(n) =~= whole);
    assert(c.skip(n + 1) =~= seq![tens] && d.skip(n + 1) =~= seq![tens, '0']);
    assert(text::all_digits(seq![tens]) && text::all_digits(seq![tens, '0']));
    let e = whole + seq!['.', '0', '0'];
    assert(e =~= whole + seq!['.'] + seq!['0', '0']);
    assert(separator_at(whole + seq!['.'] + seq!['0', '0'], 0) == n);
    assert(e.take(n) =~= whole && e.skip(n + 1) =~= seq!['0', '0']);
    lemma_no_separator(whole, 0);
    assert(whole.take(n) =~= whole);
    assert(text::all_digits(seq!['0', '0']) && text::all_digits(Seq::<char>::empty()));
}

proof fn lemma_separator(s: Seq<char>, i: int, n: int)
    requires
        0 <= i <= n < s.len(),
        s[n] == '.' || s[n] == ',',
        forall|k: int| i <= k < n ==> text::is_digit(#[trigger] s[k]),
    ensures
        separator_at(s, i) == n,
    decreases n - i,
{
    if i < n {
        assert(text::is_digit(s[i]));
        lemma_separator(s, i + 1, n);
    }
}

proof fn lemma_no_separator(s: Seq<char>, i: int)
    requires
        0 <= i <= s.len(),
        text::all_digits(s),
    ensures
        separator_at(s, i) == s.len(),
    decreases s.len() - i,
{
    if i < s.len() {
        assert(text::is_digit(s[i]));
        lemma_no_separator(s, i + 1);
    }
}

/// What is loaded is shown with its spool, tray by tray; a tray whose spool is gone is left out.
pub proof fn bound_spools_are_shown(spools: Seq<Spool>, bindings: Seq<TrayBinding>, k: int)
    ensures
        ({
            let shown = with_spools(spools, bindings);
            &&& 0 <= k < bindings.len() && spool_at(spools, bindings[k].spool_id, 0) < spools.len()
                ==> exists|i: int|
                0 <= i < shown.len() && (#[trigger] shown[i]).canvas_id == bindings[k].canvas_id
                    && shown[i].tray_id == bindings[k].tray_id && shown[i].spool.id
                    == bindings[k].spool_id
            &&& 0 <= k < shown.len() ==> exists|i: int|
                0 <= i < bindings.len() && (#[trigger] bindings[i]).canvas_id == shown[k].canvas_id
                    && bindings[i].tray_id == shown[k].tray_id && bindings[i].spool_id
                    == shown[k].spool.id
            &&& 0 <= k < shown.len() ==> spools.contains(shown[k].spool)
            &&& shown.len() <= bindings.len()
        }),
    decreases bindings.len(),
{
    if bindings.len() > 0 {
        let front = bindings.drop_last();
        let last = bindings.last();
        let before = with_spools(spools, front);
        let shown = with_spools(spools, bindings);
        bound_spools_are_shown(spools, front, k);
        lemma_spool_at(spools, last.spool_id, 0);
        if 0 <= k < bindings.len() && spool_at(spools, bindings[k].spool_id, 0) < spools.len() {
            if k < front.len() {
                let i = choose|i: int|
                    0 <= i < before.len() && (#[trigger] before[i]).canvas_id == front[k].canvas_id
                        && before[i].tray_id == front[k].tray_id && before[i].spool.id
                        == front[k].spool_id;
                assert(shown[i] == before[i]);
            } else {
                assert(shown[before.len() as int].spool.id == last.spool_id);
            }
        }
        if 0 <= k < shown.len() {
            if k < before.len() {
                let i = choose|i: int|
                    0 <= i < front.len() && (#[trigger] front[i]).canvas_id == before[k].canvas_id
                        && front[i].tray_id == before[k].tray_id && front[i].spool_id
                        == before[k].spool.id;
                assert(bindings[i] == front[i]);
            } else {
                assert(bindings[bindings.len() - 1] == last);
            }
        }
    }
}

/// A new spool has a number of its own, and so has a new entry.
pub proof fn new_numbers_are_above_all_others(spools: Seq<Spool>, ledger: Seq<LedgerEntry>, i: int)
    ensures
        0 <= i < spools.len() ==> spools[i].id < next_spool_id(spools),
        0 <= i < ledger.len() ==> ledger[i].id < next_entry_id(ledger),
        next_spool_id(spools) >= 1,
        next_entry_id(ledger) >= 1,
    decreases spools.len() + ledger.len(),
{
    if spools.len() > 0 {
        new_numbers_are_above_all_others(spools.drop_last(), ledger, i);
    }
    if ledger.len() > 0 {
        new_numbers_are_above_all_others(spools, ledger.drop_last(), i);
    }
}

/// An entry of the ledger is shown with the name of the user who wrote it.
pub proof fn entries_are_shown_with_their_user(accounts: Accounts, entry: LedgerEntry)
    ensures
        ({
            let shown = shown_entry(accounts, entry);
            &&& shown.id == entry.id && shown.kind == entry.kind && shown.mg == entry.mg
            &&& shown.note == entry.note && shown.created_at == entry.created_at
            &&& shown.username matches Some(name) ==> exists|k: int|
                0 <= k < accounts.accounts@.len() && (#[trigger] accounts.accounts@[k]).user.username
                    == name && entry.user_id == Some(accounts.accounts@[k].user.id)
            &&& shown.username is None ==> (entry.user_id matches Some(id)
                ==> accounts::account_at(accounts.accounts@, id, 0) == accounts.accounts@.len())
        }),
{
    if let Some(id) = entry.user_id {
        accounts::lemma_account_at(accounts.accounts@, id, 0);
    }
}

/// Trays are listed unit by unit, and the ledger of a spool holds its own entries.
pub proof fn trays_are_listed_by_unit(a: TrayBinding, b: TrayBinding, entry: LedgerEntry, id: i64)
    ensures
        a.canvas_id < b.canvas_id ==> tray_order()(a, b) && !tray_order()(b, a),
        a.canvas_id == b.canvas_id && a.tray_id < b.tray_id ==> tray_order()(a, b) && !tray_order()(
            b,
            a,
        ),
        of_spool(id)(entry) <==> entry.spool_id == id,
{
}

} // verus!
