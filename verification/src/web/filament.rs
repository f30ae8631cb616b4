//! Filament pages: the spool list, tray bindings, and each spool's weigh-ins.

use vstd::prelude::*;

use crate::accounts::{self, Accounts, Role, User};
use crate::cc2::client::PrinterSnapshot;
use crate::cc2::model::{CanvasInfo, Tray};
use crate::inventory::{self, Binding, Consumption, ConsumptionKind, Inventory, Spool, SpoolFields};
use crate::jobs;
use crate::lists;
use crate::num;
use crate::order;
use crate::text;
use crate::web::error::AppError;
use crate::web::queue;
use crate::web::views::{self, TrayView};
use crate::zone::Zone;

verus! {

// ---------------------------------------------------------------------------------------------
// The list
// ---------------------------------------------------------------------------------------------

#[derive(Debug)]
pub struct InventoryPage {
    pub trays: Vec<TrayRow>,
    pub spools: Vec<SpoolRow>,
    pub show_archived: bool,
    pub notice: Option<&'static str>,
    pub error: Option<&'static str>,
}

#[derive(Debug, PartialEq, Eq)]
pub struct TrayRow {
    pub tray: TrayView,
    pub choices: Vec<SpoolChoice>,
    /// Filament in the tray that no spool is recorded for: the printer knows enough about it
    /// to fill in a new spool.
    pub unrecorded: bool,
}

#[derive(Debug, PartialEq, Eq)]
pub struct SpoolChoice {
    pub id: i64,
    pub name: String,
    pub selected: bool,
}

#[derive(Debug, PartialEq, Eq)]
pub struct SpoolRow {
    pub id: i64,
    pub name: String,
    pub color: String,
    pub owner: String,
    pub remaining: String,
    pub initial: String,
    /// Empty when no price was entered.
    pub price: String,
    pub tray: String,
    pub archived: bool,
}

/// Outcomes are fixed codes, as on the users page, so a crafted link cannot put text of the
/// sender's choosing on the page.
#[derive(Debug, PartialEq, Eq)]
pub struct InventoryQuery {
    pub archived: bool,
    pub done: Option<String>,
    pub problem: Option<String>,
}

pub open spec fn inventory_notice(code: Seq<char>) -> Option<Seq<char>> {
    if code == "bound"@ {
        Some("Spool set."@)
    } else if code == "unbound"@ {
        Some("Tray cleared."@)
    } else if code == "refreshed"@ {
        Some("Trays refreshed."@)
    } else {
        None
    }
}

pub open spec fn inventory_problem(code: Seq<char>) -> Option<Seq<char>> {
    if code == "offline"@ {
        Some("The printer did not answer, so the trays were not refreshed."@)
    } else {
        None
    }
}

impl InventoryQuery {
    fn notice(&self) -> (r: Option<&'static str>)
        ensures
            queue::opt_str(r) == match self.done {
                Some(code) => inventory_notice(code@),
                None => None,
            },
    {
        match &self.done {
            None => None,
            Some(code) => if text::same(code.as_str(), "bound") {
                Some("Spool set.")
            } else if text::same(code.as_str(), "unbound") {
                Some("Tray cleared.")
            } else if text::same(code.as_str(), "refreshed") {
                Some("Trays refreshed.")
            } else {
                None
            },
        }
    }

    fn error(&self) -> (r: Option<&'static str>)
        ensures
            queue::opt_str(r) == match self.problem {
                Some(code) => inventory_problem(code@),
                None => None,
            },
    {
        match &self.problem {
            None => None,
            Some(code) => if text::same(code.as_str(), "offline") {
                Some("The printer did not answer, so the trays were not refreshed.")
            } else {
                None
            },
        }
    }
}

pub open spec fn owner_text(spool: Spool) -> Seq<char> {
    match spool.owner {
        Some((_, name)) => name@,
        None => "Shared"@,
    }
}

fn owner_name(spool: &Spool) -> (r: String)
    ensures
        r@ == owner_text(*spool),
{
    match &spool.owner {
        Some((_, name)) => name.clone(),
        None => "Shared".to_string(),
    }
}

/// Where a spool is.
pub open spec fn tray_text(bindings: Seq<Binding>, spool_id: i64) -> Option<Seq<char>> {
    let i = jobs::binding_at(bindings, spool_id, 0);
    if i < bindings.len() {
        Some(
            inventory::tray_name(bindings[i].canvas_id as int, bindings[i].tray_id as int),
        )
    } else {
        None
    }
}

pub open spec fn trays_count(bindings: Seq<Binding>) -> bool {
    forall|i: int| 0 <= i < bindings.len() ==> (#[trigger] bindings[i]).tray_id < i64::MAX
}

fn tray_of(bindings: &Vec<Binding>, spool_id: i64) -> (r: Option<String>)
    requires
        trays_count(bindings@),
    ensures
        text::opt_view(r) == tray_text(bindings@, spool_id),
{
    let mut i: usize = 0;
    while i < bindings.len()
        invariant
            i <= bindings@.len(),
            trays_count(bindings@),
            jobs::binding_at(bindings@, spool_id, 0) == jobs::binding_at(
                bindings@,
                spool_id,
                i as int,
            ),
        decreases bindings.len() - i,
    {
        if bindings[i].spool.id == spool_id {
            return Some(inventory::tray_label(bindings[i].canvas_id, bindings[i].tray_id));
        }
        i += 1;
    }
    None
}

pub open spec fn price_or_nothing(price: Option<i64>) -> Seq<char> {
    match price {
        Some(cents) => inventory::price_text(cents as int),
        None => ""@,
    }
}

fn show_price(price: Option<i64>) -> (r: String)
    ensures
        r@ == price_or_nothing(price),
{
    match price {
        Some(cents) => inventory::format_price(cents),
        None => "".to_string(),
    }
}

impl SpoolRow {
    pub open spec fn shows(self, spool: Spool, bindings: Seq<Binding>) -> bool {
        &&& self.id == spool.id
        &&& self.name@ == views::spool_title(spool)
        &&& self.color@ == views::safe_color_text(spool.color_hex@)
        &&& self.owner@ == owner_text(spool)
        &&& self.remaining@ == views::grams_text(spool.remaining_mg as int)
        &&& self.initial@ == views::grams_text(spool.initial_mg as int)
        &&& self.price@ == price_or_nothing(spool.price_cents)
        &&& self.tray@ == match tray_text(bindings, spool.id) {
            Some(tray) => tray,
            None => ""@,
        }
        &&& self.archived == spool.archived
    }
}

fn spool_row(spool: &Spool, bindings: &Vec<Binding>) -> (r: SpoolRow)
    requires
        trays_count(bindings@),
    ensures
        r.shows(*spool, bindings@),
{
    SpoolRow {
        id: spool.id,
        name: views::spool_name(spool),
        color: views::safe_color(spool.color_hex.as_str()),
        owner: owner_name(spool),
        remaining: views::grams(spool.remaining_mg),
        initial: views::grams(spool.initial_mg),
        price: show_price(spool.price_cents),
        tray: match tray_of(bindings, spool.id) {
            Some(tray) => tray,
            None => "".to_string(),
        },
        archived: spool.archived,
    }
}

/// What the printer reports of a tray.
pub open spec fn reported(canvas: Option<CanvasInfo>, canvas_id: i64, tray_id: i64) -> Option<Tray> {
    match canvas {
        Some(canvas) => inventory::tray_at(canvas.canvas_list@, canvas_id, tray_id, 0),
        None => None,
    }
}

fn find_reported<'a>(snapshot: &'a PrinterSnapshot, canvas_id: i64, tray_id: i64) -> (r: Option<
    &'a Tray,
>)
    ensures
        match (r, reported(snapshot.canvas, canvas_id, tray_id)) {
            (Some(tray), Some(shown)) => *tray == shown,
            (None, None) => true,
            _ => false,
        },
{
    match &snapshot.canvas {
        Some(canvas) => inventory::find_tray(canvas, canvas_id, tray_id),
        None => None,
    }
}

/// The spools to choose from for a tray, those that fit best first.
pub open spec fn ranked(spools: Seq<Spool>, tray: Option<Tray>) -> Seq<Spool> {
    match tray {
        Some(tray) => order::sorted(spools, inventory::nearest_first(tray)),
        None => spools,
    }
}

pub open spec fn are_choices(
    choices: Seq<SpoolChoice>,
    ranked: Seq<Spool>,
    bound: Option<i64>,
) -> bool {
    choices.len() == ranked.len() && forall|i: int|
        0 <= i < choices.len() ==> {
            &&& (#[trigger] choices[i]).id == ranked[i].id
            &&& choices[i].name@ == views::spool_title(ranked[i])
            &&& choices[i].selected == match bound {
                Some(id) => id == ranked[i].id,
                None => i == 0,
            }
        }
}

impl TrayRow {
    pub open spec fn bound(self) -> Option<i64> {
        match self.tray.spool {
            Some(spool) => Some(spool.id),
            None => None,
        }
    }

    pub open spec fn shows(
        self,
        canvas_id: u32,
        tray: Tray,
        bindings: Seq<Binding>,
        canvas: Option<CanvasInfo>,
        loadable: Seq<Spool>,
    ) -> bool {
        &&& views::shows_tray(self.tray, canvas_id, tray, bindings)
        &&& are_choices(
            self.choices@,
            ranked(loadable, reported(canvas, self.tray.canvas_id, self.tray.tray_id)),
            self.bound(),
        )
        &&& self.unrecorded == (self.tray.loaded && self.tray.spool is None)
    }
}

fn spool_choices(ranked: &Vec<Spool>, bound: Option<i64>) -> (r: Vec<SpoolChoice>)
    ensures
        are_choices(r@, ranked@, bound),
{
    let mut out: Vec<SpoolChoice> = Vec::new();
    let mut i: usize = 0;
    while i < ranked.len()
        invariant
            i <= ranked@.len(),
            out@.len() == i,
            forall|k: int|
                0 <= k < i ==> {
                    &&& (#[trigger] out@[k]).id == ranked@[k].id
                    &&& out@[k].name@ == views::spool_title(ranked@[k])
                    &&& out@[k].selected == match bound {
                        Some(id) => id == ranked@[k].id,
                        None => k == 0,
                    }
                },
        decreases ranked.len() - i,
    {
        let spool = &ranked[i];
        out.push(
            SpoolChoice {
                id: spool.id,
                name: views::spool_name(spool),
                selected: match bound {
                    Some(id) => id == spool.id,
                    None => i == 0,
                },
            },
        );
        i += 1;
    }
    out
}

fn tray_row(
    tray: TrayView,
    snapshot: &PrinterSnapshot,
    loadable: &Vec<Spool>,
    Ghost(of): Ghost<(u32, Tray, Seq<Binding>)>,
) -> (r: TrayRow)
    requires
        views::shows_tray(tray, of.0, of.1, of.2),
    ensures
        r.shows(of.0, of.1, of.2, snapshot.canvas, loadable@),
{
    let spools = queue::copy_spools(loadable);
    let fitting = match find_reported(snapshot, tray.canvas_id, tray.tray_id) {
        Some(reported) => inventory::rank_for_tray(spools, reported),
        None => spools,
    };
    let bound: Option<i64> = match &tray.spool {
        Some(spool) => Some(spool.id),
        None => None,
    };
    let choices = spool_choices(&fitting, bound);
    let unrecorded = tray.loaded && tray.spool.is_none();
    TrayRow { tray, choices, unrecorded }
}

impl InventoryPage {
    pub open spec fn shows(
        self,
        query: InventoryQuery,
        snapshot: PrinterSnapshot,
        bindings: Seq<Binding>,
        spools: Seq<Spool>,
    ) -> bool {
        let listed = order::sorted(
            spools.filter(inventory::on_the_shelf(query.archived)),
            inventory::shelf_order(),
        );
        let trays = views::trays_in(snapshot);
        &&& self.trays@.len() == trays.len()
        &&& forall|i: int|
            0 <= i < trays.len() ==> (#[trigger] self.trays@[i]).shows(
                trays[i].0,
                trays[i].1,
                bindings,
                snapshot.canvas,
                queue::loadable(spools),
            )
        &&& self.spools@.len() == listed.len()
        &&& forall|i: int|
            0 <= i < listed.len() ==> (#[trigger] self.spools@[i]).shows(listed[i], bindings)
        &&& self.show_archived == query.archived
        &&& queue::opt_str(self.notice) == match query.done {
            Some(code) => inventory_notice(code@),
            None => None,
        }
        &&& queue::opt_str(self.error) == match query.problem {
            Some(code) => inventory_problem(code@),
            None => None,
        }
    }
}

pub fn inventory_page(
    query: &InventoryQuery,
    snapshot: &PrinterSnapshot,
    bindings: &Vec<Binding>,
    db: &Inventory,
) -> (r: InventoryPage)
    requires
        trays_count(bindings@),
    ensures
        r.shows(*query, *snapshot, bindings@, db.spools@),
{
    let spools = inventory::spools(db, query.archived);
    let loadable = inventory::spools(db, false);
    let mut shown = views::trays(snapshot, bindings.as_slice());
    let ghost trays = views::trays_in(*snapshot);
    let ghost all = shown@;
    let mut rows: Vec<TrayRow> = Vec::new();
    while shown.len() > 0
        invariant
            rows@.len() + shown@.len() == all.len(),
            shown@ == all.skip(rows@.len() as int),
            views::shows_trays(all, trays, bindings@),
            forall|i: int|
                0 <= i < rows@.len() ==> (#[trigger] rows@[i]).shows(
                    trays[i].0,
                    trays[i].1,
                    bindings@,
                    snapshot.canvas,
                    loadable@,
                ),
        decreases shown.len(),
    {
        let ghost at = rows@.len() as int;
        let tray = shown.remove(0);
        assert(tray == all[at]);
        let row = tray_row(
            tray,
            snapshot,
            &loadable,
            Ghost((trays[at].0, trays[at].1, bindings@)),
        );
        rows.push(row);
        assert(shown@ =~= all.skip(rows@.len() as int));
    }
    let mut listed: Vec<SpoolRow> = Vec::new();
    let mut i: usize = 0;
    while i < spools.len()
        invariant
            i <= spools@.len(),
            trays_count(bindings@),
            listed@.len() == i,
            forall|k: int| 0 <= k < i ==> (#[trigger] listed@[k]).shows(spools@[k], bindings@),
        decreases spools.len() - i,
    {
        listed.push(spool_row(&spools[i], bindings));
        i += 1;
    }
    InventoryPage {
        trays: rows,
        spools: listed,
        show_archived: query.archived,
        notice: query.notice(),
        error: query.error(),
    }
}

// ---------------------------------------------------------------------------------------------
// One spool
// ---------------------------------------------------------------------------------------------

#[derive(Debug)]
pub struct SpoolPage {
    pub spool: SpoolDetail,
    pub history: Vec<HistoryRow>,
    pub can_edit: bool,
    pub weigh_value: String,
    pub notice: Option<&'static str>,
    pub error: Option<String>,
}

#[derive(Debug, PartialEq, Eq)]
pub struct SpoolDetail {
    pub id: i64,
    pub name: String,
    pub color: String,
    pub owner: String,
    pub remaining: String,
    pub initial: String,
    pub price: Option<String>,
    pub notes: String,
    pub archived: bool,
    pub tray: String,
    pub added: String,
}

#[derive(Debug, PartialEq, Eq)]
pub struct HistoryRow {
    pub when: String,
    pub what: String,
    pub change: String,
    pub who: String,
}

#[derive(Debug, PartialEq, Eq)]
pub struct SpoolOutcome {
    pub done: Option<String>,
}

pub open spec fn spool_notice(code: Seq<char>) -> Option<Seq<char>> {
    if code == "created"@ {
        Some("Spool added."@)
    } else if code == "created-bound"@ {
        Some("Spool added and set in its tray."@)
    } else if code == "saved"@ {
        Some("Changes saved."@)
    } else if code == "weighed"@ {
        Some("Weigh-in recorded."@)
    } else if code == "archived"@ {
        Some("Spool archived."@)
    } else if code == "restored"@ {
        Some("Spool restored."@)
    } else {
        None
    }
}

impl SpoolOutcome {
    pub fn notice(&self) -> (r: Option<&'static str>)
        ensures
            queue::opt_str(r) == match self.done {
                Some(code) => spool_notice(code@),
                None => None,
            },
    {
        match &self.done {
            None => None,
            Some(code) => {
                let code = code.as_str();
                if text::same(code, "created") {
                    Some("Spool added.")
                } else if text::same(code, "created-bound") {
                    Some("Spool added and set in its tray.")
                } else if text::same(code, "saved") {
                    Some("Changes saved.")
                } else if text::same(code, "weighed") {
                    Some("Weigh-in recorded.")
                } else if text::same(code, "archived") {
                    Some("Spool archived.")
                } else if text::same(code, "restored") {
                    Some("Spool restored.")
                } else {
                    None
                }
            },
        }
    }
}

/// What a change in the ledger says, to the gram.
pub open spec fn change_text(mg: int) -> Seq<char> {
    let grams = num::rounded(mg, 1000);
    if grams > 0 {
        text::decimal_int(grams) + " g used"@
    } else if grams < 0 {
        text::decimal_int(-grams) + " g found"@
    } else {
        "No change"@
    }
}

pub fn ledger_change(mg: i64) -> (r: String)
    ensures
        r@ == change_text(mg as int),
{
    let grams: i128 = num::round_div(mg as i128, 1000);
    if grams > 0 {
        let mut out = String::new();
        text::push_decimal_int_large(&mut out, grams);
        out.append(" g used");
        assert(out@ =~= change_text(mg as int));
        out
    } else if grams < 0 {
        let mut out = String::new();
        text::push_decimal_int_large(&mut out, -grams);
        out.append(" g found");
        assert(out@ =~= change_text(mg as int));
        out
    } else {
        "No change".to_string()
    }
}

pub open spec fn kind_text(kind: ConsumptionKind) -> Seq<char> {
    match kind {
        ConsumptionKind::Print => "Print"@,
        ConsumptionKind::Estimate => "Unfinished print, estimated"@,
        ConsumptionKind::WeighIn => "Weigh-in"@,
    }
}

impl HistoryRow {
    pub open spec fn shows(self, entry: Consumption, zone: Zone) -> bool {
        &&& self.when@ == views::time_text(entry.created_at as int, zone)
        &&& self.what@ == if entry.note@.len() == 0 {
            kind_text(entry.kind)
        } else {
            kind_text(entry.kind) + ": "@ + entry.note@
        }
        &&& self.change@ == change_text(entry.mg as int)
        &&& self.who@ == match entry.username {
            Some(name) => name@,
            None => ""@,
        }
    }
}

fn history_row(entry: &Consumption, zone: &Zone) -> (r: HistoryRow)
    ensures
        r.shows(*entry, *zone),
{
    let mut what = match entry.kind {
        ConsumptionKind::Print => "Print".to_string(),
        ConsumptionKind::Estimate => "Unfinished print, estimated".to_string(),
        ConsumptionKind::WeighIn => "Weigh-in".to_string(),
    };
    if !entry.note.as_str().is_empty() {
        what.append(": ");
        what.append(entry.note.as_str());
    }
    HistoryRow {
        when: views::format_time(entry.created_at, zone),
        what,
        change: ledger_change(entry.mg),
        who: match &entry.username {
            Some(name) => name.clone(),
            None => "".to_string(),
        },
    }
}

impl SpoolDetail {
    pub open spec fn shows(self, spool: Spool, bindings: Seq<Binding>, zone: Zone) -> bool {
        &&& self.id == spool.id
        &&& self.name@ == views::spool_title(spool)
        &&& self.color@ == views::safe_color_text(spool.color_hex@)
        &&& self.owner@ == owner_text(spool)
        &&& self.remaining@ == views::grams_text(spool.remaining_mg as int)
        &&& self.initial@ == views::grams_text(spool.initial_mg as int)
        &&& text::opt_view(self.price) == match spool.price_cents {
            Some(cents) => Some(inventory::price_text(cents as int)),
            None => None,
        }
        &&& self.notes@ == spool.notes@
        &&& self.archived == spool.archived
        &&& self.tray@ == match tray_text(bindings, spool.id) {
            Some(tray) => tray,
            None => "Not in a tray"@,
        }
        &&& self.added@ == views::time_text(spool.created_at as int, zone)
    }
}

/// What a spool's own page says besides what is on record.
#[derive(Debug)]
pub struct Detail {
    pub notice: Option<&'static str>,
    pub error: Option<String>,
    pub weigh_value: String,
}

/// A spool's own page, or 404 where there is no such spool.
pub fn detail_page(
    db: &Inventory,
    accounts: &Accounts,
    bindings: &Vec<Binding>,
    user: &User,
    id: i64,
    zone: &Zone,
    detail: Detail,
) -> (r: Result<SpoolPage, AppError>)
    requires
        trays_count(bindings@),
    ensures
        ({
            let i = inventory::spool_at(db.spools@, id, 0);
            let entries = order::sorted(
                db.ledger@.filter(inventory::of_spool(id)).map_values(
                    |e: inventory::LedgerEntry| inventory::shown_entry(*accounts, e),
                ),
                inventory::newest_first(),
            );
            match r {
                Ok(page) => {
                    &&& i < db.spools@.len()
                    &&& page.spool.shows(db.spools@[i], bindings@, *zone)
                    &&& page.history@.len() == entries.len()
                    &&& forall|k: int|
                        0 <= k < entries.len() ==> (#[trigger] page.history@[k]).shows(
                            entries[k],
                            *zone,
                        )
                    &&& page.can_edit == db.spools@[i].editable(*user)
                    &&& page.weigh_value == detail.weigh_value
                    &&& page.notice == detail.notice
                    &&& page.error == detail.error
                },
                Err(problem) => i >= db.spools@.len() && problem == AppError::NotFound,
            }
        }),
{
    let spool = match inventory::spool(db, id) {
        None => {
            return Err(AppError::NotFound);
        },
        Some(spool) => spool,
    };
    let entries = inventory::history(db, accounts, id);
    let mut history: Vec<HistoryRow> = Vec::new();
    let mut k: usize = 0;
    while k < entries.len()
        invariant
            k <= entries@.len(),
            history@.len() == k,
            forall|j: int| 0 <= j < k ==> (#[trigger] history@[j]).shows(entries@[j], *zone),
        decreases entries.len() - k,
    {
        history.push(history_row(&entries[k], zone));
        k += 1;
    }
    let shown = SpoolDetail {
        id: spool.id,
        name: views::spool_name(&spool),
        color: views::safe_color(spool.color_hex.as_str()),
        owner: owner_name(&spool),
        remaining: views::grams(spool.remaining_mg),
        initial: views::grams(spool.initial_mg),
        price: match spool.price_cents {
            Some(cents) => Some(inventory::format_price(cents)),
            None => None,
        },
        notes: spool.notes.clone(),
        archived: spool.archived,
        tray: match tray_of(bindings, spool.id) {
            Some(tray) => tray,
            None => "Not in a tray".to_string(),
        },
        added: views::format_time(spool.created_at, zone),
    };
    Ok(
        SpoolPage {
            spool: shown,
            history,
            can_edit: spool.editable_by(user),
            weigh_value: detail.weigh_value,
            notice: detail.notice,
            error: detail.error,
        },
    )
}

// ---------------------------------------------------------------------------------------------
// The form
// ---------------------------------------------------------------------------------------------

#[derive(Debug)]
pub struct SpoolFormPage {
    pub action: String,
    pub heading: &'static str,
    pub submit: &'static str,
    pub form: SpoolForm,
    pub owners: Vec<OwnerChoice>,
    pub error: Option<String>,
}

#[derive(Debug, PartialEq, Eq)]
pub struct OwnerChoice {
    pub id: i64,
    pub username: String,
    pub selected: bool,
}

#[derive(Debug, PartialEq, Eq)]
pub struct SpoolForm {
    pub material: String,
    pub brand: String,
    pub color_name: String,
    pub color_hex: String,
    pub initial_grams: String,
    pub price: String,
    pub notes: String,
    /// `None` when the form had no owner field, which keeps the owner; empty means shared.
    pub owner_id: Option<String>,
    /// The tray the spool was read off, carried through so it is bound on creation.
    pub canvas: Option<String>,
    pub tray: Option<String>,
}

impl Default for SpoolForm {
    fn default() -> (r: SpoolForm)
        ensures
            r.material@ == ""@,
            r.brand@ == ""@,
            r.color_name@ == ""@,
            r.color_hex@ == ""@,
            r.initial_grams@ == ""@,
            r.price@ == ""@,
            r.notes@ == ""@,
            r.owner_id is None,
            r.canvas is None,
            r.tray is None,
    {
        SpoolForm {
            material: "".to_string(),
            brand: "".to_string(),
            color_name: "".to_string(),
            color_hex: "".to_string(),
            initial_grams: "".to_string(),
            price: "".to_string(),
            notes: "".to_string(),
            owner_id: None,
            canvas: None,
            tray: None,
        }
    }
}

pub open spec fn too_long(label: Seq<char>, max: int) -> Seq<char> {
    label + " is limited to "@ + text::decimal(max as nat) + " characters."@
}

/// A value without the white space around it, if it is not too long.
pub fn limited(label: &str, raw: &str, max: usize) -> (r: Result<String, String>)
    ensures
        match r {
            Ok(value) => text::trim(raw@).len() <= max && value@ == text::trim(raw@),
            Err(problem) => text::trim(raw@).len() > max && problem@ == too_long(
                label@,
                max as int,
            ),
        },
{
    let value = text::trim_str(raw);
    if value.as_str().unicode_len() > max {
        let mut out = label.to_string();
        out.append(" is limited to ");
        text::push_decimal(&mut out, max as u64);
        out.append(" characters.");
        return Err(out);
    }
    Ok(value)
}

/// The weight that a text gives, in milligrams.
pub open spec fn grams_read(raw: Seq<char>) -> Option<int> {
    match crate::decimal::written(inventory::with_points(text::trim(raw))) {
        Some(number) if inventory::is_weight(number) => Some(inventory::weight_of(number)),
        _ => None,
    }
}

/// What is said of a weight that cannot be read.
pub open spec fn grams_refusal(raw: Seq<char>) -> Seq<char> {
    let s = inventory::with_points(text::trim(raw));
    if crate::decimal::written(s) is Some || inventory::is_not_finite(s) {
        "The weight must be between 0 and 20000 g."@
    } else {
        "Enter the weight in grams, like 850."@
    }
}

impl SpoolForm {
    /// The first thing that is wrong with the form.
    pub open spec fn problem(self) -> Option<Seq<char>> {
        let max = inventory::TEXT_MAX as int;
        if text::trim(self.material@).len() > max {
            Some(too_long("Material"@, max))
        } else if text::trim(self.material@).len() == 0 {
            Some("Enter the material, like PLA."@)
        } else if text::trim(self.brand@).len() > max {
            Some(too_long("Brand"@, max))
        } else if text::trim(self.color_name@).len() > max {
            Some(too_long("Colour name"@, max))
        } else if inventory::color_of(self.color_hex@) is None {
            Some("Pick a colour."@)
        } else if text::trim(self.price@).len() > 0 && inventory::price_of(
            text::trim(self.price@),
        ) is None {
            Some("Enter a price like 19.99, or leave it empty."@)
        } else if grams_read(self.initial_grams@) is None {
            Some(grams_refusal(self.initial_grams@))
        } else if text::trim(self.notes@).len() > inventory::NOTES_MAX {
            Some(too_long("Notes"@, inventory::NOTES_MAX as int))
        } else {
            None
        }
    }

    /// The fields are what the form says.
    pub open spec fn says(self, fields: SpoolFields) -> bool {
        &&& fields.material@ == text::trim(self.material@)
        &&& fields.brand@ == text::trim(self.brand@)
        &&& fields.color_name@ == text::trim(self.color_name@)
        &&& Some(fields.color_hex@) == inventory::color_of(self.color_hex@)
        &&& match fields.price_cents {
            Some(cents) => text::trim(self.price@).len() > 0 && inventory::price_of(
                text::trim(self.price@),
            ) == Some(cents as int) && 0 <= cents <= 99_999_999,
            None => text::trim(self.price@).len() == 0,
        }
        &&& grams_read(self.initial_grams@) == Some(fields.initial_mg as int)
        &&& 0 <= fields.initial_mg <= 20_000_000
        &&& fields.notes@ == text::trim(self.notes@)
    }

    pub fn fields(&self) -> (r: Result<SpoolFields, String>)
        ensures
            match r {
                Ok(fields) => self.problem() is None && self.says(fields),
                Err(problem) => self.problem() == Some(problem@),
            },
    {
        let material = match limited("Material", self.material.as_str(), inventory::TEXT_MAX) {
            Err(problem) => {
                return Err(problem);
            },
            Ok(material) => material,
        };
        if material.as_str().is_empty() {
            return Err("Enter the material, like PLA.".to_string());
        }
        let brand = match limited("Brand", self.brand.as_str(), inventory::TEXT_MAX) {
            Err(problem) => {
                return Err(problem);
            },
            Ok(brand) => brand,
        };
        let color_name = match limited(
            "Colour name",
            self.color_name.as_str(),
            inventory::TEXT_MAX,
        ) {
            Err(problem) => {
                return Err(problem);
            },
            Ok(color_name) => color_name,
        };
        let color_hex = match inventory::normalize_color(self.color_hex.as_str()) {
            None => {
                return Err("Pick a colour.".to_string());
            },
            Some(color) => color,
        };
        let price_cents = match inventory::parse_price(self.price.as_str()) {
            Err(problem) => {
                return Err(problem);
            },
            Ok(price) => price,
        };
        let initial_mg = match inventory::parse_grams(self.initial_grams.as_str()) {
            Err(problem) => {
                return Err(problem);
            },
            Ok(grams) => grams,
        };
        let notes = match limited("Notes", self.notes.as_str(), inventory::NOTES_MAX) {
            Err(problem) => {
                return Err(problem);
            },
            Ok(notes) => notes,
        };
        Ok(SpoolFields { material, brand, color_name, color_hex, price_cents, initial_mg, notes })
    }

    /// The form shows what is on record of a spool.
    pub open spec fn is_of(self, spool: Spool) -> bool {
        &&& self.material@ == spool.material@
        &&& self.brand@ == spool.brand@
        &&& self.color_name@ == spool.color_name@
        &&& self.color_hex@ == spool.color_hex@
        &&& self.initial_grams@ == num::thousandths_text(spool.initial_mg as nat)
        &&& self.price@ == price_or_nothing(spool.price_cents)
        &&& self.notes@ == spool.notes@
        &&& text::opt_view(self.owner_id) == Some(
            match spool.owner {
                Some((id, _)) => text::decimal_int(id as int),
                None => ""@,
            },
        )
        &&& self.canvas is None
        &&& self.tray is None
    }

    pub fn from_spool(spool: &Spool) -> (r: SpoolForm)
        requires
            spool.initial_mg >= 0,
        ensures
            r.is_of(*spool),
    {
        let mut initial_grams = String::new();
        num::push_thousandths(&mut initial_grams, spool.initial_mg as u64);
        assert(initial_grams@ =~= num::thousandths_text(spool.initial_mg as nat));
        SpoolForm {
            material: spool.material.clone(),
            brand: spool.brand.clone(),
            color_name: spool.color_name.clone(),
            color_hex: spool.color_hex.clone(),
            initial_grams,
            price: show_price(spool.price_cents),
            notes: spool.notes.clone(),
            owner_id: Some(
                match &spool.owner {
                    Some((id, _)) => text::decimal_int_string(*id),
                    None => "".to_string(),
                },
            ),
            canvas: None,
            tray: None,
        }
    }
}

/// Whether the owner that a form names is this account.
pub open spec fn is_named(form: SpoolForm, id: i64) -> bool {
    form.owner_id matches Some(raw) && raw@ == text::decimal_int(id as int)
}

/// The accounts to choose an owner from: those in use, and the one that is named already.
pub open spec fn offered(form: SpoolForm) -> spec_fn(User) -> bool {
    |user: User| is_named(form, user.id) || !user.disabled
}

pub open spec fn are_owners(owners: Seq<OwnerChoice>, users: Seq<User>, form: SpoolForm) -> bool {
    let shown = users.filter(offered(form));
    owners.len() == shown.len() && forall|i: int|
        0 <= i < owners.len() ==> {
            &&& (#[trigger] owners[i]).id == shown[i].id
            &&& owners[i].username@ == shown[i].username@
            &&& owners[i].selected == is_named(form, shown[i].id)
        }
}

fn owner_choices(db: &Accounts, form: &SpoolForm) -> (r: Vec<OwnerChoice>)
    ensures
        are_owners(
            r@,
            order::sorted(
                db.accounts@.map_values(|a: accounts::Account| a.user),
                accounts::by_name(),
            ),
            *form,
        ),
{
    let users = accounts::users(db);
    let ghost all = users@;
    let ghost p = offered(*form);
    proof {
        crate::lists::lemma_filter_ends(all, p);
    }
    let mut out: Vec<OwnerChoice> = Vec::new();
    let mut i: usize = 0;
    while i < users.len()
        invariant
            i <= users@.len(),
            all == users@,
            p == offered(*form),
            are_owners(out@, all.take(i as int), *form),
        decreases users.len() - i,
    {
        proof {
            crate::lists::lemma_filter_step(all, p, i as int);
        }
        let user = &users[i];
        let selected = match &form.owner_id {
            Some(raw) => text::same(raw.as_str(), text::decimal_int_string(user.id).as_str()),
            None => false,
        };
        if selected || !user.disabled {
            out.push(OwnerChoice { id: user.id, username: user.username.clone(), selected });
        }
        i += 1;
    }
    assert(all.take(i as int) =~= all);
    out
}

/// The form to add or edit a spool. Its status is 400 where it says what went wrong.
pub fn form_page(
    db: &Accounts,
    user: &User,
    editing: Option<i64>,
    form: SpoolForm,
    error: Option<String>,
) -> (r: (u16, SpoolFormPage))
    ensures
        r.0 == if error is Some {
            400u16
        } else {
            200
        },
        r.1.action@ == match editing {
            Some(id) => "/spools/"@ + text::decimal_int(id as int),
            None => "/spools"@,
        },
        r.1.heading@ == if editing is Some {
            "Edit spool"@
        } else {
            "Add a spool"@
        },
        r.1.submit@ == if editing is Some {
            "Save changes"@
        } else {
            "Add spool"@
        },
        r.1.form == form,
        r.1.error == error,
        if user.role == Role::Admin {
            are_owners(
                r.1.owners@,
                order::sorted(
                    db.accounts@.map_values(|a: accounts::Account| a.user),
                    accounts::by_name(),
                ),
                form,
            )
        } else {
            r.1.owners@.len() == 0
        },
{
    let owners = if user.is_admin() {
        owner_choices(db, &form)
    } else {
        Vec::new()
    };
    let status: u16 = if error.is_some() {
        400
    } else {
        200
    };
    let action = match editing {
        Some(id) => {
            let mut out = "/spools/".to_string();
            text::push_decimal_int(&mut out, id);
            out
        },
        None => "/spools".to_string(),
    };
    let page = SpoolFormPage {
        action,
        heading: if editing.is_some() {
            "Edit spool"
        } else {
            "Add a spool"
        },
        submit: if editing.is_some() {
            "Save changes"
        } else {
            "Add spool"
        },
        form,
        owners,
        error,
    };
    (status, page)
}

/// Who owns a spool that is not in the hands of an admin: whoever did, or who adds it.
pub open spec fn unchanged_owner(user: User, existing: Option<Spool>) -> Option<i64> {
    match existing {
        Some(spool) => spool.owner_id(),
        None => Some(user.id),
    }
}

/// The owner that a form chooses, or `Err` where there is no such account. Members cannot
/// reassign a spool, and what they add is theirs.
pub open spec fn owner_of(
    accounts: Seq<accounts::Account>,
    user: User,
    form: SpoolForm,
    existing: Option<Spool>,
) -> Result<Option<i64>, ()> {
    match form.owner_id {
        Some(raw) if user.role == Role::Admin => {
            let raw = text::trim(raw@);
            if raw.len() == 0 {
                Ok(None)
            } else {
                match text::parsed_signed(raw) {
                    Some(id) if accounts::account_at(accounts, id as i64, 0) < accounts.len() => Ok(
                        Some(id as i64),
                    ),
                    _ => Err(()),
                }
            }
        },
        _ => Ok(unchanged_owner(user, existing)),
    }
}

pub fn chosen_owner(db: &Accounts, user: &User, form: &SpoolForm, existing: Option<&Spool>) -> (r: Result<
    Option<i64>,
    AppError,
>)
    ensures
        match (
            r,
            owner_of(
                db.accounts@,
                *user,
                *form,
                match existing {
                    Some(spool) => Some(*spool),
                    None => None,
                },
            ),
        ) {
            (Ok(owner), Ok(shown)) => owner == shown,
            (Err(problem), Err(_)) => problem.is_bad_request("That owner does not exist."@),
            _ => false,
        },
{
    let unchanged: Option<i64> = match existing {
        Some(spool) => match &spool.owner {
            Some((id, _)) => Some(*id),
            None => None,
        },
        None => Some(user.id),
    };
    let raw = match &form.owner_id {
        Some(raw) => raw,
        None => {
            return Ok(unchanged);
        },
    };
    if !user.is_admin() {
        return Ok(unchanged);
    }
    let raw = text::trim_str(raw.as_str());
    if raw.as_str().is_empty() {
        return Ok(None);
    }
    match text::parse_signed(text::chars(raw.as_str()).as_slice()) {
        Some(id) => match accounts::user(db, id) {
            Some(_) => Ok(Some(id)),
            None => Err(AppError::BadRequest("That owner does not exist.".to_string())),
        },
        None => Err(AppError::BadRequest("That owner does not exist.".to_string())),
    }
}

/// A spool that a user may change.
pub fn editable(db: &Inventory, user: &User, id: i64) -> (r: Result<Spool, AppError>)
    ensures
        ({
            let i = inventory::spool_at(db.spools@, id, 0);
            if i >= db.spools@.len() {
                r == Err::<Spool, AppError>(AppError::NotFound)
            } else if !db.spools@[i].editable(*user) {
                r == Err::<Spool, AppError>(AppError::Forbidden)
            } else {
                r == Ok::<Spool, AppError>(db.spools@[i])
            }
        }),
{
    match inventory::spool(db, id) {
        None => Err(AppError::NotFound),
        Some(spool) => if spool.editable_by(user) {
            Ok(spool)
        } else {
            Err(AppError::Forbidden)
        },
    }
}

/// A tray that a new spool is read off.
#[derive(Debug, Clone, Copy, PartialEq, Eq)]
pub struct FromTray {
    pub canvas: Option<i64>,
    pub tray: Option<i64>,
}

/// What the printer reports of the tray, if it holds filament.
pub open spec fn filled_tray(from: FromTray, canvas: Option<CanvasInfo>) -> Option<Tray> {
    match (from.canvas, from.tray) {
        (Some(canvas_id), Some(tray_id)) => match reported(canvas, canvas_id, tray_id) {
            Some(tray) if tray.holds_filament() => Some(tray),
            _ => None,
        },
        _ => None,
    }
}

/// The form for a new spool, filled in with what the printer reports of its tray. Everything else
/// stays at its default: the printer reports no weight or price, and `filament_name` is a
/// material name, not a colour name.
pub fn new_spool_form(user: &User, from: FromTray, snapshot: &PrinterSnapshot) -> (r: SpoolForm)
    ensures
        r.color_name@ == ""@,
        r.initial_grams@ == "1000"@,
        r.price@ == ""@,
        r.notes@ == ""@,
        text::opt_view(r.owner_id) == Some(text::decimal_int(user.id as int)),
        match filled_tray(from, snapshot.canvas) {
            Some(tray) => {
                &&& r.material@ == tray.filament_type@
                &&& r.brand@ == tray.brand@
                &&& r.color_hex@ == match inventory::color_of(tray.filament_color@) {
                    Some(color) => color,
                    None => "#FFFFFF"@,
                }
                &&& text::opt_view(r.canvas) == Some(text::decimal_int(from.canvas->0 as int))
                &&& text::opt_view(r.tray) == Some(text::decimal_int(from.tray->0 as int))
            },
            None => {
                &&& r.material@ == ""@
                &&& r.brand@ == ""@
                &&& r.color_hex@ == "#FFFFFF"@
                &&& r.canvas is None
                &&& r.tray is None
            },
        },
{
    let mut form = SpoolForm::default();
    form.color_hex = "#FFFFFF".to_string();
    form.initial_grams = "1000".to_string();
    form.owner_id = Some(text::decimal_int_string(user.id));
    if let (Some(canvas_id), Some(tray_id)) = (from.canvas, from.tray) {
        if let Some(tray) = find_reported(snapshot, canvas_id, tray_id) {
            if tray.has_filament() {
                form.material = tray.filament_type.clone();
                form.brand = tray.brand.clone();
                if let Some(color) = inventory::normalize_color(tray.filament_color.as_str()) {
                    form.color_hex = color;
                }
                form.canvas = Some(text::decimal_int_string(canvas_id));
                form.tray = Some(text::decimal_int_string(tray_id));
            }
        }
    }
    form
}

// ---------------------------------------------------------------------------------------------
// What can be done to a spool
// ---------------------------------------------------------------------------------------------

/// What comes of a spool form: on to a page, or the form again.
#[derive(Debug, PartialEq, Eq)]
pub enum Saved {
    /// On to this page.
    Done(String),
    /// The form again, with what is wrong.
    Again(String),
    Refused(AppError),
}

pub open spec fn spool_url(id: int, done: Seq<char>) -> Seq<char> {
    "/spools/"@ + text::decimal_int(id) + "?done="@ + done
}

fn to_spool(id: i64, done: &str) -> (r: String)
    ensures
        r@ == spool_url(id as int, done@),
{
    let mut out = "/spools/".to_string();
    text::push_decimal_int(&mut out, id);
    out.append("?done=");
    out.append(done);
    out
}

/// The account of a spool's owner, as it is kept with the spool.
pub open spec fn is_owner(owner: Option<(i64, String)>, id: Option<i64>, db: Accounts) -> bool {
    match (owner, id) {
        (Some((kept, name)), Some(id)) => kept == id && accounts::account_at(db.accounts@, id, 0)
            < db.accounts@.len() && name@ == db.accounts@[accounts::account_at(
            db.accounts@,
            id,
            0,
        )].user.username@,
        (None, None) => true,
        (None, Some(id)) => accounts::account_at(db.accounts@, id, 0) >= db.accounts@.len(),
        _ => false,
    }
}

fn owner_account(db: &Accounts, id: Option<i64>) -> (r: Option<(i64, String)>)
    ensures
        is_owner(r, id, *db),
{
    match id {
        None => None,
        Some(id) => match accounts::user(db, id) {
            Some(user) => Some((id, user.username)),
            None => None,
        },
    }
}

/// The tray that a form says the spool was read off.
pub open spec fn form_tray(form: SpoolForm) -> Option<(i64, i64)> {
    match (form.canvas, form.tray) {
        (Some(canvas), Some(tray)) => match (
            text::parsed_signed(canvas@),
            text::parsed_signed(tray@),
        ) {
            (Some(canvas), Some(tray)) => Some((canvas as i64, tray as i64)),
            _ => None,
        },
        _ => None,
    }
}

fn read_tray(form: &SpoolForm) -> (r: Option<(i64, i64)>)
    ensures
        r == form_tray(*form),
{
    match (&form.canvas, &form.tray) {
        (Some(canvas), Some(tray)) => match (
            text::parse_signed(text::chars(canvas.as_str()).as_slice()),
            text::parse_signed(text::chars(tray.as_str()).as_slice()),
        ) {
            (Some(canvas), Some(tray)) => Some((canvas, tray)),
            _ => None,
        },
        _ => None,
    }
}

/// Whether the printer reports filament in a tray.
pub open spec fn is_loaded(canvas: Option<CanvasInfo>, canvas_id: i64, tray_id: i64) -> bool {
    reported(canvas, canvas_id, tray_id) matches Some(tray) && tray.holds_filament()
}

/// Binds a spool into the tray when the printer still reports filament in it. `false` means it
/// does not, and nothing was written.
///
/// Only a tray with filament can take a spool: an empty tray's binding would be removed again by
/// the next status update.
pub fn bind_if_loaded(
    db: &mut Inventory,
    snapshot: &PrinterSnapshot,
    canvas_id: i64,
    tray_id: i64,
    spool_id: i64,
    now: i64,
) -> (r: Result<bool, AppError>)
    ensures
        old(db).well_formed() ==> final(db).well_formed(),
        final(db).spools@ == old(db).spools@,
        final(db).ledger@ == old(db).ledger@,
        ({
            let i = inventory::spool_at(old(db).spools@, spool_id, 0);
            if !is_loaded(snapshot.canvas, canvas_id, tray_id) {
                r == Ok::<bool, AppError>(false) && final(db).bindings@ == old(db).bindings@
            } else if i >= old(db).spools@.len() {
                r == Err::<bool, AppError>(AppError::NotFound) && final(db).bindings@ == old(
                    db,
                ).bindings@
            } else if old(db).spools@[i].archived {
                &&& r matches Err(problem) && problem.is_from_inventory(
                    inventory::InventoryError::Archived,
                )
                &&& final(db).bindings@ == old(db).bindings@
            } else {
                &&& r == Ok::<bool, AppError>(true)
                &&& final(db).bindings@ == old(db).bindings@.filter(
                    inventory::apart_from(canvas_id, tray_id, spool_id),
                ).push(
                    inventory::TrayBinding { canvas_id, tray_id, spool_id, bound_at: now },
                )
            }
        }),
{
    let loaded = match find_reported(snapshot, canvas_id, tray_id) {
        Some(tray) => tray.has_filament(),
        None => false,
    };
    if !loaded {
        return Ok(false);
    }
    match inventory::bind(db, canvas_id, tray_id, spool_id, now) {
        Ok(()) => Ok(true),
        Err(err) => Err(AppError::from_inventory(err)),
    }
}

/// Adds a spool. Built from a tray's own filament, it belongs in that tray; a tray emptied in the
/// meantime just leaves the spool unbound.
pub fn create_spool(
    db: &mut Inventory,
    accounts: &Accounts,
    user: &User,
    form: &SpoolForm,
    snapshot: &PrinterSnapshot,
    now: i64,
) -> (r: Saved)
    requires
        old(db).well_formed(),
        inventory::next_spool_id(old(db).spools@) <= i64::MAX,
    ensures
        final(db).well_formed(),
        final(db).ledger@ == old(db).ledger@,
        ({
            let owner = owner_of(accounts.accounts@, *user, *form, None);
            let unchanged = final(db).spools@ == old(db).spools@ && final(db).bindings@ == old(
                db,
            ).bindings@;
            match form.problem() {
                Some(problem) => r matches Saved::Again(said) && said@ == problem && unchanged,
                None => match owner {
                    Err(_) => {
                        &&& r matches Saved::Refused(problem) && problem.is_bad_request(
                            "That owner does not exist."@,
                        )
                        &&& unchanged
                    },
                    Ok(owner) => {
                        let id = inventory::next_spool_id(old(db).spools@) as i64;
                        let added = final(db).spools@.last();
                        let (canvas_id, tray_id) = form_tray(*form)->Some_0;
                        let bound = form_tray(*form) is Some && is_loaded(
                            snapshot.canvas,
                            canvas_id,
                            tray_id,
                        );
                        &&& final(db).spools@ == old(db).spools@.push(added)
                        &&& is_new_spool(added, id, *form, now)
                        &&& is_owner(added.owner, owner, *accounts)
                        &&& r matches Saved::Done(next) && next@ == spool_url(
                            id as int,
                            if bound {
                                "created-bound"@
                            } else {
                                "created"@
                            },
                        )
                        &&& final(db).bindings@ == if bound {
                            old(db).bindings@.filter(
                                inventory::apart_from(canvas_id, tray_id, id),
                            ).push(
                                inventory::TrayBinding {
                                    canvas_id,
                                    tray_id,
                                    spool_id: id,
                                    bound_at: now,
                                },
                            )
                        } else {
                            old(db).bindings@
                        }
                    },
                },
            }
        }),
{
    let fields = match form.fields() {
        Err(problem) => {
            return Saved::Again(problem);
        },
        Ok(fields) => fields,
    };
    let owner_id = match chosen_owner(accounts, user, form, None) {
        Err(problem) => {
            return Saved::Refused(problem);
        },
        Ok(owner) => owner,
    };
    let owner = owner_account(accounts, owner_id);
    let ghost before = db.spools@;
    let id = inventory::create_spool(db, fields, owner, now);
    proof {
        inventory::lemma_new_spool_is_found(before, db.spools@.last());
    }
    let mut bound = false;
    if let Some((canvas_id, tray_id)) = read_tray(form) {
        match bind_if_loaded(db, snapshot, canvas_id, tray_id, id, now) {
            Err(problem) => {
                return Saved::Refused(problem);
            },
            Ok(done) => {
                bound = done;
            },
        }
    }
    if bound {
        Saved::Done(to_spool(id, "created-bound"))
    } else {
        Saved::Done(to_spool(id, "created"))
    }
}

/// A spool as it is when it is added: full, and in use.
pub open spec fn is_new_spool(spool: Spool, id: i64, form: SpoolForm, now: i64) -> bool {
    &&& spool.id == id
    &&& form.says(
        SpoolFields {
            material: spool.material,
            brand: spool.brand,
            color_name: spool.color_name,
            color_hex: spool.color_hex,
            price_cents: spool.price_cents,
            initial_mg: spool.initial_mg,
            notes: spool.notes,
        },
    )
    &&& spool.remaining_mg == spool.initial_mg
    &&& !spool.archived
    &&& spool.created_at == now
}

/// Changes what is on record of a spool; what is left of it only moves with a ledger entry.
pub fn update_spool(
    db: &mut Inventory,
    accounts: &Accounts,
    user: &User,
    id: i64,
    form: &SpoolForm,
) -> (r: Saved)
    requires
        old(db).well_formed(),
    ensures
        final(db).well_formed(),
        final(db).ledger@ == old(db).ledger@,
        final(db).bindings@ == old(db).bindings@,
        ({
            let before = old(db).spools@;
            let i = inventory::spool_at(before, id, 0);
            let unchanged = final(db).spools@ == before;
            if i >= before.len() {
                r == Saved::Refused(AppError::NotFound) && unchanged
            } else if !before[i].editable(*user) {
                r == Saved::Refused(AppError::Forbidden) && unchanged
            } else {
                match form.problem() {
                    Some(problem) => r matches Saved::Again(said) && said@ == problem && unchanged,
                    None => match owner_of(accounts.accounts@, *user, *form, Some(before[i])) {
                        Err(_) => {
                            &&& r matches Saved::Refused(problem) && problem.is_bad_request(
                                "That owner does not exist."@,
                            )
                            &&& unchanged
                        },
                        Ok(owner) => {
                            let after = final(db).spools@[i];
                            &&& r matches Saved::Done(next) && next@ == spool_url(
                                id as int,
                                "saved"@,
                            )
                            &&& final(db).spools@ == before.update(i, after)
                            &&& is_new_spool(
                                Spool {
                                    remaining_mg: after.initial_mg,
                                    archived: false,
                                    ..after
                                },
                                id,
                                *form,
                                before[i].created_at,
                            )
                            &&& is_owner(after.owner, owner, *accounts)
                            &&& after.remaining_mg == before[i].remaining_mg
                            &&& after.archived == before[i].archived
                        },
                    },
                }
            }
        }),
{
    proof {
        inventory::lemma_spool_at(db.spools@, id, 0);
    }
    let spool = match editable(db, user, id) {
        Err(problem) => {
            return Saved::Refused(problem);
        },
        Ok(spool) => spool,
    };
    let fields = match form.fields() {
        Err(problem) => {
            return Saved::Again(problem);
        },
        Ok(fields) => fields,
    };
    let owner_id = match chosen_owner(accounts, user, form, Some(&spool)) {
        Err(problem) => {
            return Saved::Refused(problem);
        },
        Ok(owner) => owner,
    };
    let owner = owner_account(accounts, owner_id);
    let saved = inventory::update_spool(db, id, fields, owner);
    Saved::Done(to_spool(id, "saved"))
}

#[derive(Debug, Clone, Copy, PartialEq, Eq)]
pub struct ArchivedForm {
    pub archived: bool,
}

/// Puts a spool away, out of its tray, or takes it back into use.
pub fn set_archived(db: &mut Inventory, user: &User, id: i64, form: ArchivedForm) -> (r: Result<
    String,
    AppError,
>)
    ensures
        old(db).well_formed() ==> final(db).well_formed(),
        final(db).ledger@ == old(db).ledger@,
        ({
            let before = old(db).spools@;
            let i = inventory::spool_at(before, id, 0);
            let unchanged = final(db).spools@ == before && final(db).bindings@ == old(
                db,
            ).bindings@;
            if i >= before.len() {
                r == Err::<String, AppError>(AppError::NotFound) && unchanged
            } else if !before[i].editable(*user) {
                r == Err::<String, AppError>(AppError::Forbidden) && unchanged
            } else {
                &&& r matches Ok(next) && next@ == spool_url(
                    id as int,
                    if form.archived {
                        "archived"@
                    } else {
                        "restored"@
                    },
                )
                &&& final(db).spools@ == before.update(
                    i,
                    Spool { archived: form.archived, ..before[i] },
                )
                &&& final(db).bindings@ == if form.archived {
                    old(db).bindings@.filter(inventory::not_of_spool(id))
                } else {
                    old(db).bindings@
                }
            }
        }),
{
    if let Err(problem) = editable(db, user, id) {
        return Err(problem);
    }
    match inventory::set_archived(db, id, form.archived) {
        Err(err) => Err(AppError::from_inventory(err)),
        Ok(()) => if form.archived {
            Ok(to_spool(id, "archived"))
        } else {
            Ok(to_spool(id, "restored"))
        },
    }
}

#[derive(Debug, PartialEq, Eq)]
pub struct WeighForm {
    pub grams: String,
}

/// Records what a spool weighs.
pub fn weigh_in(db: &mut Inventory, user: &User, id: i64, form: &WeighForm, now: i64) -> (r: Saved)
    requires
        old(db).well_formed(),
        grams_read(form.grams@) matches Some(mg) ==> inventory::can_take(
            old(db).spools@,
            id,
            mg as i64,
        ),
        inventory::next_entry_id(old(db).ledger@) <= i64::MAX,
    ensures
        final(db).well_formed(),
        final(db).bindings@ == old(db).bindings@,
        ({
            let before = old(db).spools@;
            let i = inventory::spool_at(before, id, 0);
            match grams_read(form.grams@) {
                None => {
                    &&& r matches Saved::Again(said) && said@ == grams_refusal(form.grams@)
                    &&& final(db).spools@ == before
                    &&& final(db).ledger@ == old(db).ledger@
                },
                Some(mg) => if i >= before.len() {
                    &&& r == Saved::Refused(AppError::NotFound)
                    &&& final(db).spools@ == before
                    &&& final(db).ledger@ == old(db).ledger@
                } else {
                    &&& r matches Saved::Done(next) && next@ == spool_url(id as int, "weighed"@)
                    &&& final(db).spools@ == before.update(
                        i,
                        Spool { remaining_mg: mg as i64, ..before[i] },
                    )
                    &&& final(db).ledger@.len() == old(db).ledger@.len() + 1
                    &&& final(db).ledger@.drop_last() == old(db).ledger@
                    &&& inventory::entry_written(
                        final(db).ledger@.last(),
                        old(db).ledger@,
                        before[i],
                        Some(user.id),
                        None,
                        ConsumptionKind::WeighIn,
                        (before[i].remaining_mg - mg) as i64,
                        now,
                    )
                },
            }
        }),
{
    let mg = match inventory::parse_grams(form.grams.as_str()) {
        Err(problem) => {
            return Saved::Again(problem);
        },
        Ok(mg) => mg,
    };
    match inventory::weigh_in(db, id, user.id, mg, now) {
        Err(err) => Saved::Refused(AppError::from_inventory(err)),
        Ok(()) => Saved::Done(to_spool(id, "weighed")),
    }
}

/// Where to go after the trays were asked for. The client polls the CANVAS only every 30 s, too
/// slow to confirm a spool just loaded.
pub fn refresh_trays(refreshed: bool) -> (r: &'static str)
    ensures
        r@ == if refreshed {
            "/inventory?done=refreshed"@
        } else {
            "/inventory?problem=offline"@
        },
{
    if refreshed {
        "/inventory?done=refreshed"
    } else {
        "/inventory?problem=offline"
    }
}

#[derive(Debug, Clone, Copy, PartialEq, Eq)]
pub struct BindForm {
    pub spool_id: i64,
}

pub fn bind_tray(
    db: &mut Inventory,
    snapshot: &PrinterSnapshot,
    canvas_id: i64,
    tray_id: i64,
    form: BindForm,
    now: i64,
) -> (r: Result<&'static str, AppError>)
    ensures
        old(db).well_formed() ==> final(db).well_formed(),
        final(db).spools@ == old(db).spools@,
        final(db).ledger@ == old(db).ledger@,
        ({
            let i = inventory::spool_at(old(db).spools@, form.spool_id, 0);
            let unchanged = final(db).bindings@ == old(db).bindings@;
            if !is_loaded(snapshot.canvas, canvas_id, tray_id) {
                &&& r matches Err(problem) && problem.is_bad_request(
                    "That tray has no filament in it."@,
                )
                &&& unchanged
            } else if i >= old(db).spools@.len() {
                r == Err::<&'static str, AppError>(AppError::NotFound) && unchanged
            } else if old(db).spools@[i].archived {
                &&& r matches Err(problem) && problem.is_from_inventory(
                    inventory::InventoryError::Archived,
                )
                &&& unchanged
            } else {
                &&& r matches Ok(next) && next@ == "/inventory?done=bound"@
                &&& final(db).bindings@ == old(db).bindings@.filter(
                    inventory::apart_from(canvas_id, tray_id, form.spool_id),
                ).push(
                    inventory::TrayBinding {
                        canvas_id,
                        tray_id,
                        spool_id: form.spool_id,
                        bound_at: now,
                    },
                )
            }
        }),
{
    match bind_if_loaded(db, snapshot, canvas_id, tray_id, form.spool_id, now) {
        Err(problem) => Err(problem),
        Ok(true) => Ok("/inventory?done=bound"),
        Ok(false) => Err(AppError::BadRequest("That tray has no filament in it.".to_string())),
    }
}

pub fn unbind_tray(db: &mut Inventory, canvas_id: i64, tray_id: i64) -> (r: &'static str)
    ensures
        old(db).well_formed() ==> final(db).well_formed(),
        final(db).spools@ == old(db).spools@,
        final(db).ledger@ == old(db).ledger@,
        final(db).bindings@ == old(db).bindings@.filter(
            inventory::in_other_tray(seq![(canvas_id, tray_id)]),
        ),
        r@ == "/inventory?done=unbound"@,
{
    let mut trays: Vec<(i64, i64)> = Vec::new();
    trays.push((canvas_id, tray_id));
    assert(trays@ =~= seq![(canvas_id, tray_id)]);
    inventory::unbind_trays(db, trays.as_slice());
    "/inventory?done=unbound"
}

/// Members cannot reassign a spool: whatever their form says, its owner stays.
pub proof fn members_keep_the_owner(
    accounts: Seq<accounts::Account>,
    user: User,
    form: SpoolForm,
    spool: Spool,
)
    requires
        user.role != Role::Admin,
    ensures
        owner_of(accounts, user, form, Some(spool)) == Ok::<Option<i64>, ()>(spool.owner_id()),
        owner_of(accounts, user, form, None) == Ok::<Option<i64>, ()>(Some(user.id)),
{
}

/// Only an admin gives a spool to somebody: to a user that is there, or to everyone. A form that
/// names no owner leaves it as it was, and a new spool with who adds it.
pub proof fn admins_choose_the_owner(
    accounts: Seq<accounts::Account>,
    user: User,
    form: SpoolForm,
    spool: Option<Spool>,
)
    ensures
        ({
            let owner = owner_of(accounts, user, form, spool);
            let kept = match spool {
                Some(spool) => match spool.owner {
                    Some(owner) => Some(owner.0),
                    None => None,
                },
                None => Some(user.id),
            };
            let chosen = user.role == Role::Admin && form.owner_id is Some;
            let said = text::trim(form.owner_id->0@);
            &&& !chosen ==> owner == Ok::<Option<i64>, ()>(kept)
            &&& chosen && said.len() == 0 ==> owner == Ok::<Option<i64>, ()>(None)
            &&& chosen && said.len() > 0 ==> match owner {
                Ok(owner) => owner is Some && text::parsed_signed(said) == Some(owner->0 as int)
                    && exists|k: int|
                    0 <= k < accounts.len() && (#[trigger] accounts[k]).user.id == owner->0,
                Err(_) => forall|k: int|
                    0 <= k < accounts.len() ==> text::parsed_signed(said) != Some(
                        (#[trigger] accounts[k]).user.id as int,
                    ),
            }
        }),
{
    if form.owner_id is Some {
        if let Some(id) = text::parsed_signed(text::trim(form.owner_id->0@)) {
            accounts::lemma_account_at(accounts, id as i64, 0);
        }
    }
}

/// A spool needs a material, a colour and a weight; texts have their lengths.
pub proof fn spools_are_taken_where_they_are_complete(form: SpoolForm)
    ensures
        form.problem() is None <==> 0 < text::trim(form.material@).len() <= 64 && text::trim(
            form.brand@,
        ).len() <= 64 && text::trim(form.color_name@).len() <= 64 && inventory::color_of(
            form.color_hex@,
        ) is Some && (text::trim(form.price@).len() == 0 || inventory::price_of(
            text::trim(form.price@),
        ) is Some) && grams_read(form.initial_grams@) is Some && text::trim(form.notes@).len()
            <= 1000,
{
}

/// A weigh-in that finds less was used, one that finds more was found; less than half a gram is no
/// change.
pub proof fn changes_say_their_direction(mg: int)
    ensures
        mg >= 500 ==> change_text(mg) == text::decimal_int((mg + 500) / 1000) + " g used"@,
        mg <= -500 ==> change_text(mg) == text::decimal_int((-mg + 500) / 1000) + " g found"@,
        -500 < mg < 500 ==> change_text(mg) == "No change"@,
{
    assert((2 * mg + 1000) / 2000 == (mg + 500) / 1000);
    assert((-2 * mg + 1000) / 2000 == (-mg + 500) / 1000);
}

/// A new spool is filled in from a tray that holds filament, and from nothing else.
pub proof fn spools_are_filled_in_from_loaded_trays(from: FromTray, canvas: Option<CanvasInfo>)
    ensures
        filled_tray(from, canvas) matches Some(tray) ==> (tray.status == 1 || tray.status == 2)
            && from.canvas is Some && from.tray is Some && canvas is Some,
        (from.canvas is Some && from.tray is Some && canvas is Some) ==> (inventory::tray_at(
            canvas->0.canvas_list@,
            from.canvas->0,
            from.tray->0,
            0,
        ) matches Some(tray) ==> (tray.status == 1 || tray.status == 2 ==> filled_tray(from, canvas)
            == Some(tray))),
{
}

/// Disabled users are offered as owners only where the spool is theirs.
pub proof fn disabled_users_get_no_spools(form: SpoolForm, user: User)
    ensures
        !user.disabled ==> offered(form)(user),
        user.disabled && offered(form)(user) ==> form.owner_id is Some && form.owner_id->0@
            == text::decimal_int(user.id as int),
{
}

/// A spool is shown with what is left of it, and a tray that is loaded with nothing known is told
/// of.
pub proof fn spools_are_shown_with_what_is_left(
    row: SpoolRow,
    spool: Spool,
    bindings: Seq<Binding>,
    tray_row: TrayRow,
    canvas_id: u32,
    tray: Tray,
    canvas: Option<CanvasInfo>,
    loadable: Seq<Spool>,
)
    requires
        row.shows(spool, bindings),
        tray_row.shows(canvas_id, tray, bindings, canvas, loadable),
    ensures
        row.id == spool.id,
        row.archived == spool.archived,
        row.remaining@ == num::rounded_text(spool.remaining_mg as int) + " g"@,
        row.initial@ == num::rounded_text(spool.initial_mg as int) + " g"@,
        tray_row.unrecorded <==> (tray.status == 1 || tray.status == 2)
            && tray_row.tray.spool is None,
{
}

/// Every user that can own a spool is offered, once each, and the owner stands selected.
pub proof fn owners_are_offered_in_order(owners: Seq<OwnerChoice>, users: Seq<User>, form: SpoolForm, i: int)
    requires
        are_owners(owners, users, form),
        0 <= i < owners.len(),
    ensures
        exists|k: int|
            0 <= k < users.len() && (#[trigger] users[k]).id == owners[i].id
                && users[k].username@ == owners[i].username@,
        owners[i].selected <==> form.owner_id is Some && form.owner_id->0@ == text::decimal_int(
            owners[i].id as int,
        ),
        owners.len() == users.filter(offered(form)).len(),
{
    let shown = users.filter(offered(form));
    lists::filtering_keeps_what_is_picked(users, offered(form), shown[i]);
    assert(shown.contains(shown[i]));
    let k = choose|k: int| 0 <= k < users.len() && users[k] == shown[i];
    assert(users[k].id == owners[i].id);
}

} // verus!
