use printhub::accounts::{self, Accounts, Role};
use printhub::cc2::model::{Canvas, CanvasInfo, Tray};
use printhub::inventory::{
    self, color_distance, emptied_bindings, find_tray, format_price, material_matches,
    normalize_color, parse_grams, parse_price, rank_for_tray, tray_label, Binding,
    ConsumptionKind, Inventory, InventoryError, Spool, SpoolFields,
};

fn fields(material: &str, color_hex: &str) -> SpoolFields {
    SpoolFields {
        material: material.to_owned(),
        brand: "Elegoo".to_owned(),
        color_name: String::new(),
        color_hex: color_hex.to_owned(),
        price_cents: None,
        initial_mg: 1_000_000,
        notes: String::new(),
    }
}

fn spool_with(id: i64, material: &str, color_hex: &str) -> Spool {
    Spool {
        id,
        material: material.to_owned(),
        brand: String::new(),
        color_name: String::new(),
        color_hex: color_hex.to_owned(),
        owner: None,
        price_cents: None,
        initial_mg: 1_000_000,
        remaining_mg: 1_000_000,
        notes: String::new(),
        archived: false,
        created_at: 0,
    }
}

fn tray(tray_id: u32, filament_type: &str, color: &str, status: i64) -> Tray {
    Tray {
        tray_id,
        filament_type: filament_type.to_owned(),
        filament_color: color.to_owned(),
        status,
        ..Tray::default()
    }
}

fn with_user() -> (Accounts, Inventory, i64) {
    let mut people = Accounts::new();
    let user = accounts::create_user(
        &mut people,
        "sam".to_string(),
        "h".to_string(),
        Role::Member,
        1,
    )
    .unwrap();
    (people, Inventory::new(), user)
}

fn owner(id: i64) -> Option<(i64, String)> {
    Some((id, "sam".to_owned()))
}

#[test]
fn remaining_grams_move_only_through_the_ledger() {
    let (people, mut db, sam) = with_user();
    let id = inventory::create_spool(&mut db, fields("PLA", "#000000"), owner(sam), 10);
    inventory::weigh_in(&mut db, id, sam, 800_000, 20).unwrap();
    inventory::weigh_in(&mut db, id, sam, 850_000, 30).unwrap();

    let mut edited = fields("PLA", "#FFFFFF");
    edited.initial_mg = 750_000;
    inventory::update_spool(&mut db, id, edited, owner(sam)).unwrap();

    let spool = inventory::spool(&db, id).unwrap();
    assert_eq!(spool.remaining_mg, 850_000, "editing leaves remaining alone");
    assert_eq!(spool.initial_mg, 750_000);
    assert_eq!(spool.owner, Some((sam, "sam".to_owned())));

    let history = inventory::history(&db, &people, id);
    let grams: Vec<i64> = history.iter().map(|entry| entry.mg).collect();
    assert_eq!(grams, [-50_000, 200_000]);
    assert!(history
        .iter()
        .all(|entry| entry.kind == ConsumptionKind::WeighIn
            && entry.username.as_deref() == Some("sam")));

    assert!(matches!(
        inventory::weigh_in(&mut db, 999, sam, 1_000, 40),
        Err(InventoryError::NotFound)
    ));
}

#[test]
fn a_tray_holds_one_spool_and_archiving_unbinds() {
    let (_, mut db, sam) = with_user();
    let a = inventory::create_spool(&mut db, fields("PLA", "#000000"), owner(sam), 1);
    let b = inventory::create_spool(&mut db, fields("PETG", "#FF0000"), None, 1);
    let bound = |db: &Inventory| {
        inventory::bindings(db)
            .into_iter()
            .map(|x| (x.canvas_id, x.tray_id, x.spool.id))
            .collect::<Vec<_>>()
    };

    inventory::bind(&mut db, 0, 0, a, 2).unwrap();
    inventory::bind(&mut db, 0, 1, a, 3).unwrap();
    assert_eq!(bound(&db), [(0, 1, a)], "binding again moves the spool");

    inventory::bind(&mut db, 0, 1, b, 4).unwrap();
    assert_eq!(bound(&db), [(0, 1, b)], "and replaces the tray's spool");

    inventory::set_archived(&mut db, b, true).unwrap();
    assert!(inventory::bindings(&db).is_empty());
    assert!(matches!(
        inventory::bind(&mut db, 0, 1, b, 5),
        Err(InventoryError::Archived)
    ));
    assert_eq!(inventory::spools(&db, false).len(), 1);
    assert_eq!(inventory::spools(&db, true).len(), 2);
}

#[test]
fn prices_accept_either_decimal_separator() {
    assert_eq!(parse_price(""), Ok(None));
    assert_eq!(parse_price("19"), Ok(Some(1900)));
    assert_eq!(parse_price("19,9"), Ok(Some(1990)));
    assert_eq!(parse_price(" 19.99 "), Ok(Some(1999)));
    assert!(parse_price("19.999").is_err());
    assert!(parse_price("-1").is_err());
    assert!(parse_price("1e3").is_err());
    assert_eq!(format_price(1905), "19.05");
}

#[test]
fn grams_and_colours_are_validated() {
    assert_eq!(parse_grams("812,5"), Ok(812_500));
    assert!(parse_grams("-1").is_err());
    assert!(parse_grams("NaN").is_err());
    assert!(parse_grams("200000").is_err());
    assert_eq!(normalize_color("2850df").as_deref(), Some("#2850DF"));
    assert_eq!(normalize_color("#fff"), None);
}

#[test]
fn what_is_wrong_with_a_weight_is_said() {
    assert_eq!(
        parse_grams("heavy").unwrap_err(),
        "Enter the weight in grams, like 850."
    );
    assert_eq!(
        parse_grams("20001").unwrap_err(),
        "The weight must be between 0 and 20000 g."
    );
    assert_eq!(parse_grams("20000"), Ok(20_000_000));
    assert_eq!(
        parse_price("free").unwrap_err(),
        "Enter a price like 19.99, or leave it empty."
    );
}

#[test]
fn picker_ranks_material_before_colour() {
    let tray = tray(0, "pla", "#F0F0F0", 1);
    let spools = vec![
        spool_with(1, "PETG", "#FFFFFF"),
        spool_with(2, "PLA", "#000000"),
        spool_with(3, "PLA", "#FFFFFF"),
    ];
    let ids: Vec<i64> = rank_for_tray(spools, &tray)
        .iter()
        .map(|spool| spool.id)
        .collect();
    assert_eq!(ids, [3, 2, 1]);
    assert!(!material_matches("", ""));
    assert_eq!(color_distance("#000000", "#010203"), Some(1 + 4 + 9));
    assert_eq!(color_distance("#000000", "black"), None);
}

#[test]
fn only_connected_units_unbind_empty_trays() {
    let binding = |canvas_id, tray_id| Binding {
        canvas_id,
        tray_id,
        spool: spool_with(1, "PLA", "#000000"),
    };
    let canvas = CanvasInfo {
        canvas_list: vec![
            Canvas {
                canvas_id: 0,
                connected: 1,
                tray_list: vec![tray(0, "PLA", "#000000", 1), tray(1, "", "", 0)],
            },
            Canvas {
                canvas_id: 1,
                connected: 0,
                tray_list: vec![tray(0, "", "", 0)],
            },
        ],
        ..CanvasInfo::default()
    };
    let bindings = [binding(0, 0), binding(0, 1), binding(1, 0), binding(2, 0)];
    assert_eq!(emptied_bindings(&canvas, &bindings), [(0, 1)]);
    assert_eq!(find_tray(&canvas, 0, 1).unwrap().status, 0);
    assert!(find_tray(&canvas, 0, 7).is_none());
}

#[test]
fn filament_that_is_used_is_charged_to_its_spool() {
    let (people, mut db, sam) = with_user();
    let mut priced = fields("PLA", "#000000");
    priced.price_cents = Some(2_000);
    let id = inventory::create_spool(&mut db, priced, owner(sam), 1);
    inventory::record_use(
        &mut db,
        id,
        Some(sam),
        7,
        ConsumptionKind::Print,
        250_000,
        "benchy".to_string(),
        5,
    )
    .unwrap();
    assert_eq!(inventory::spool(&db, id).unwrap().remaining_mg, 750_000);
    // A quarter of a spool that cost 20.00, in thousandths of a cent.
    assert_eq!(db.ledger[0].value, Some(500_000));
    assert_eq!(db.ledger[0].spool_owner_id, Some(sam));
    assert_eq!(inventory::history(&db, &people, id)[0].note, "benchy");
    assert_eq!(ConsumptionKind::parse("weigh_in"), Some(ConsumptionKind::WeighIn));
    assert_eq!(InventoryError::Archived.message(), "archived spools cannot be put in a tray");
}

#[test]
fn trays_are_named_by_unit_and_number() {
    assert_eq!(tray_label(0, 0), "A1");
    assert_eq!(tray_label(1, 3), "B4");
}

#[test]
fn weights_are_taken_as_floats_take_them() {
    for raw in [
        "0", "-0", "-0.0001", "-1e-400", "-1e-320", "1e-400", "20000", "20000.0000000000018",
        "20000.0000000000019", "20000.000001", "2e4", "1e400", "812.5", "20001", "-1", "+3", ".5",
    ] {
        let float = raw.parse::<f64>().ok().filter(|grams| (0.0..=20_000.0).contains(grams));
        assert_eq!(parse_grams(raw).is_ok(), float.is_some(), "{raw}");
    }
    assert_eq!(parse_grams("20000.000000000001"), Ok(20_000_000));
    assert_eq!(parse_grams("-0"), Ok(0));
    assert_eq!(parse_grams("0.0005"), Ok(1));
}

#[test]
fn what_is_left_is_what_the_ledger_leaves() {
    let (_, mut db, sam) = with_user();
    let id = inventory::create_spool(&mut db, fields("PLA", "#000000"), owner(sam), 1);
    let initial = inventory::spool(&db, id).unwrap().remaining_mg;
    for (weight, at) in [(700_000, 2), (900_000, 3), (0, 4)] {
        inventory::weigh_in(&mut db, id, sam, weight, at).unwrap();
        let taken: i64 = db.ledger.iter().filter(|e| e.spool_id == id).map(|e| e.mg).sum();
        assert_eq!(inventory::spool(&db, id).unwrap().remaining_mg, initial - taken);
    }
}
