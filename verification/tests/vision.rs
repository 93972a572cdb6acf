use xilous_stratagems_manager::capture::{CaptureRegion, ClientPoint, DisplayColorInfo, ImageRect};
use xilous_stratagems_manager::catalog::{Catalog, Direction, StratagemEntry};
use xilous_stratagems_manager::game_settings::{
    parse_switch, read_color_settings, setting_text, SettingError,
};
use xilous_stratagems_manager::item::{ItemKind, StratagemCategory};
use xilous_stratagems_manager::vision::catalog_identifier::{
    reference_candidates, CatalogIdentifier, Identification, ACCEPT_SCORE,
};
use xilous_stratagems_manager::vision::color::{is_booster_yellow, luma601_u8};
use xilous_stratagems_manager::vision::diagnostics::{
    comparison_rank, fallback_file_name, item_file_name, list_map_file_name,
};
use xilous_stratagems_manager::vision::matcher::{
    check_size, reflect101, tail_pixels, CANONICAL_SIDE,
};

fn entry(id: &str, permit: &str, icon: bool) -> StratagemEntry {
    StratagemEntry {
        id: id.to_string(),
        name: id.to_string(),
        permit: permit.to_string(),
        kind: String::new(),
        code: vec![Direction::Up],
        cooldown: String::new(),
        icon: icon.then_some(format!("{id}.png")),
    }
}

fn catalog() -> Catalog {
    let entries = vec![
        entry("a", "Supply", true),
        entry("b", "Supply", false),
        entry("c", "Offensive", true),
        entry("d", "Supply", true),
        entry("e", "Supply", true),
        entry("reinforce", "", true),
    ];
    Catalog::load(entries, String::new(), String::new()).ok().expect("catalog")
}

#[test]
fn references_are_equippable_and_have_icons() {
    let candidates: Vec<String> =
        reference_candidates(&catalog()).iter().map(|reference| reference.id.clone()).collect();
    assert_eq!(candidates, vec!["a", "c", "d", "e"]);
    let identifier = CatalogIdentifier::from_catalog(&catalog(), &vec![true, true, false, true])
        .ok()
        .expect("identifier");
    assert_eq!(identifier.len(), 3);
    assert_eq!(identifier.reference(2).id, "e");
    let error = CatalogIdentifier::from_catalog(&catalog(), &vec![false; 4]).err().expect("none");
    assert_eq!(error.message(), "the catalog has no loadout stratagems with icons");
}

#[test]
fn only_allowed_references_are_compared() {
    let identifier =
        CatalogIdentifier::from_catalog(&catalog(), &vec![true; 4]).ok().expect("identifier");
    assert_eq!(identifier.compared(StratagemCategory::Supply, None), vec![0, 2, 3]);
    let allowed = vec!["d".to_string(), "c".to_string()];
    assert_eq!(identifier.compared(StratagemCategory::Supply, Some(&allowed)), vec![2]);
    assert!(identifier.compared(StratagemCategory::Defensive, None).is_empty());
}

#[test]
fn candidates_are_ranked_and_accepted() {
    let identifier =
        CatalogIdentifier::from_catalog(&catalog(), &vec![true; 4]).ok().expect("identifier");
    let ranked = identifier.rank(&vec![0, 2, 3], &vec![7, 3, 7]);
    let order: Vec<&str> = ranked.iter().map(|candidate| candidate.id.as_str()).collect();
    assert_eq!(order, vec!["d", "a", "e"]);
    let result = Identification::settle(StratagemCategory::Supply, ranked, true);
    assert_eq!(result.accepted.as_deref(), Some("d"));
    assert_eq!(result.best().expect("best").score, 3);

    let rank = |scores: Vec<i64>| identifier.rank(&vec![0, 2], &scores);
    let settle = |scores: Vec<i64>, clear: bool| {
        Identification::settle(StratagemCategory::Supply, rank(scores), clear).accepted
    };
    assert_eq!(settle(vec![1, 2], false), None);
    assert_eq!(settle(vec![ACCEPT_SCORE + 1, ACCEPT_SCORE + 2], true), None);
    assert_eq!(settle(vec![ACCEPT_SCORE, ACCEPT_SCORE + 2], true).as_deref(), Some("a"));
    let single = identifier.rank(&vec![1], &vec![0]);
    let single = Identification::settle(StratagemCategory::Offensive, single, false);
    assert_eq!(single.accepted.as_deref(), Some("c"));
    let none = Identification::settle(StratagemCategory::Offensive, vec![], true);
    assert!(none.accepted.is_none() && none.best().is_none());
}

#[test]
fn the_accepted_error_is_three_fifths() {
    assert_eq!(ACCEPT_SCORE, 0.60f64.to_bits() as i64);
}

#[test]
fn brightness_is_weighted() {
    assert_eq!(luma601_u8(0, 0, 0), 0);
    assert_eq!(luma601_u8(255, 255, 255), 255);
    assert_eq!(luma601_u8(255, 0, 0), 77);
    assert_eq!(luma601_u8(0, 255, 0), 149);
    assert_eq!(luma601_u8(0, 0, 255), 29);
}

#[test]
fn booster_yellow_has_a_radius() {
    assert!(is_booster_yellow(255, 222, 38));
    assert!(is_booster_yellow(255, 222, 70));
    assert!(!is_booster_yellow(255, 222, 71));
    assert!(!is_booster_yellow(0, 0, 0));
}

#[test]
fn rows_are_reflected() {
    assert_eq!(reflect101(-1, CANONICAL_SIDE), 1);
    assert_eq!(reflect101(-2, CANONICAL_SIDE), 2);
    assert_eq!(reflect101(0, CANONICAL_SIDE), 0);
    assert_eq!(reflect101(79, CANONICAL_SIDE), 79);
    assert_eq!(reflect101(80, CANONICAL_SIDE), 78);
    assert_eq!(reflect101(81, CANONICAL_SIDE), 77);
}

#[test]
fn the_worst_hundredth_is_counted() {
    assert_eq!(tail_pixels(0), 1);
    assert_eq!(tail_pixels(100), 1);
    assert_eq!(tail_pixels(101), 2);
    assert_eq!(tail_pixels(6_400), 64);
}

#[test]
fn pictures_have_a_pixel_for_each_position() {
    assert!(check_size(2, 3, 6).is_ok());
    assert!(check_size(2, 3, 5).is_err());
    assert!(check_size(0, 3, 0).is_err());
    assert!(check_size(usize::MAX, 2, 6).is_err());
}

#[test]
fn diagnosis_files_are_named() {
    assert_eq!(item_file_name("local_templates/p 1/a-b.png"), "local_templates_p_1_a-b_png");
    assert_eq!(list_map_file_name(1_700, 7, ItemKind::Booster), "1700-007-booster.png");
    assert_eq!(list_map_file_name(1_700, 1_234, ItemKind::Stratagem), "1700-1234-stratagem.png");
    assert_eq!(
        fallback_file_name(5, 42, "a/b", 3, 1, "0.250000"),
        "5-042-a_b-r3-c1-0.250000.png"
    );
    assert_eq!(comparison_rank(0, true), (1, true));
    assert_eq!(comparison_rank(1, true), (2, false));
}

#[test]
fn game_settings_are_read() {
    let contents = "[display]\r\n hdr_enabled = true\r\nscreen_brightness=1.5\nui_brightness = 2 = 3\nhdr_enabled = false";
    assert_eq!(setting_text(contents, "screen_brightness").ok().as_deref(), Some("1.5"));
    assert_eq!(setting_text(contents, "ui_brightness").ok().as_deref(), Some("2 = 3"));
    assert_eq!(parse_switch(contents, "hdr_enabled").ok(), Some(true));
    let settings = read_color_settings(contents, Some(1), Some(2)).ok().expect("settings");
    assert!(settings.hdr_enabled);
    assert_eq!((settings.screen_brightness, settings.ui_brightness), (1, 2));
}

#[test]
fn broken_game_settings_are_told() {
    let message = |result: Result<bool, SettingError>| result.err().expect("refused").message();
    assert_eq!(
        message(parse_switch("x = 1", "hdr_enabled")),
        "game setting hdr_enabled is missing"
    );
    assert_eq!(
        message(parse_switch("hdr_enabled = yes ", "hdr_enabled")),
        "invalid game setting hdr_enabled: yes"
    );
    let contents = "hdr_enabled = false\nscreen_brightness = bright\nui_brightness = 1";
    let error = read_color_settings(contents, None, Some(1)).err().expect("refused");
    assert_eq!(error.message(), "invalid game setting screen_brightness: bright");
}

#[test]
fn positions_are_told_in_the_window() {
    let region = CaptureRegion { rect: ImageRect { x: 10, y: 20, width: 5, height: 5 } };
    assert!(region.rect.is_countable());
    assert_eq!(region.map_to_client((1, 2)), ClientPoint { x: 11, y: 22 });
    assert!(!ImageRect { x: u32::MAX, y: 0, width: 1, height: 1 }.is_countable());
    let old = DisplayColorInfo { hdr_active: false, sdr_white_level: 1_000 };
    let new = DisplayColorInfo { hdr_active: true, sdr_white_level: 2_000 };
    assert_eq!(old.refreshed(true, Some(new)), new);
    assert_eq!(old.refreshed(false, Some(new)), old);
    assert_eq!(old.refreshed(true, None), old);
}
