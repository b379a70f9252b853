use minimap_renderer::number_format::{format_clock, format_number, format_number_commas};
use minimap_renderer::palette::{damage_label_color_rgb, death_cause_icon_key, DeathCause};
use minimap_renderer::icon_keys::{dead_ship_icon_keys, points_finish_subtitle, ship_icon_keys, BattleResult, ShipVisibility};
use minimap_renderer::strings::{split_clan_prefix, str_equals, teammate_label, with_clan_prefix};

#[test]
fn format_number_groups_thousands() {
    assert_eq!(format_number(12345), "12,345");
    assert_eq!(format_number(0), "0");
    assert_eq!(format_number(999), "999");
    assert_eq!(format_number(1000), "1,000");
    assert_eq!(format_number(42750), "42,750");
    assert_eq!(format_number(1234567), "1,234,567");
    assert_eq!(format_number(i64::MAX), "9,223,372,036,854,775,807");
}

#[test]
fn format_number_negative_values() {
    assert_eq!(format_number(-1), "-1");
    assert_eq!(format_number(-1234567), "-1,234,567");
    assert_eq!(format_number(-i64::MAX), "-9,223,372,036,854,775,807");
    assert_eq!(format_number(i64::MIN), "-9,223,372,036,854,775,808");
}

#[test]
fn format_number_commas_matches_format_number() {
    assert_eq!(format_number_commas(1234567), "1,234,567");
    assert_eq!(format_number_commas(0), "0");
    assert_eq!(format_number_commas(100), "100");
    assert_eq!(format_number_commas(u32::MAX), "4,294,967,295");
    for n in [0u32, 7, 12, 123, 1234, 12345, 123456, 1234567, 4294967295] {
        assert_eq!(format_number_commas(n), format_number(n as i64));
        assert_eq!(format_number_commas(n).replace(',', ""), n.to_string());
    }
}

#[test]
fn format_clock_pads_minutes_and_seconds() {
    assert_eq!(format_clock(125), "02:05");
    assert_eq!(format_clock(0), "00:00");
    assert_eq!(format_clock(59), "00:59");
    assert_eq!(format_clock(3600), "60:00");
    assert_eq!(format_clock(6000), "100:00");
    assert_eq!(format_clock(1199), "19:59");
}

#[test]
fn format_clock_negative_like_rust_formatting() {
    for secs in [-5i64, -65, -600, -3599] {
        assert_eq!(format_clock(secs), format!("{:02}:{:02}", secs / 60, secs % 60));
    }
    assert_eq!(format_clock(-5), "00:-5");
    assert_eq!(format_clock(-65), "-1:-5");
}

#[test]
fn damage_label_colours() {
    assert_eq!(damage_label_color_rgb("AP"), [255, 200, 80]);
    assert_eq!(damage_label_color_rgb("HE"), [255, 140, 50]);
    assert_eq!(damage_label_color_rgb("SAP"), [200, 180, 255]);
    assert_eq!(damage_label_color_rgb("MAIN"), [255, 200, 80]);
    assert_eq!(damage_label_color_rgb("SEC"), [255, 170, 60]);
    assert_eq!(damage_label_color_rgb("TORP"), [100, 200, 255]);
    assert_eq!(damage_label_color_rgb("FIRE"), [255, 120, 50]);
    assert_eq!(damage_label_color_rgb("FLOOD"), [80, 160, 255]);
    assert_eq!(damage_label_color_rgb("BOMB"), [220, 180, 100]);
    assert_eq!(damage_label_color_rgb("ROCKET"), [230, 150, 80]);
    assert_eq!(damage_label_color_rgb("DC"), [160, 200, 160]);
    assert_eq!(damage_label_color_rgb("RAM"), [200, 100, 100]);
    assert_eq!(damage_label_color_rgb("MISSILE"), [220, 130, 220]);
}

#[test]
fn damage_label_unknown_is_grey() {
    assert_eq!(damage_label_color_rgb(""), [180, 180, 180]);
    assert_eq!(damage_label_color_rgb("ap"), [180, 180, 180]);
    assert_eq!(damage_label_color_rgb("APX"), [180, 180, 180]);
}

#[test]
fn death_cause_icon_keys() {
    assert_eq!(death_cause_icon_key(Some(DeathCause::Artillery)), "main_caliber");
    assert_eq!(death_cause_icon_key(Some(DeathCause::ApShell)), "main_caliber");
    assert_eq!(death_cause_icon_key(Some(DeathCause::HeShell)), "main_caliber");
    assert_eq!(death_cause_icon_key(Some(DeathCause::CsShell)), "main_caliber");
    assert_eq!(death_cause_icon_key(Some(DeathCause::Secondaries)), "atba");
    assert_eq!(death_cause_icon_key(Some(DeathCause::Torpedo)), "torpedo");
    assert_eq!(death_cause_icon_key(Some(DeathCause::AerialTorpedo)), "torpedo");
    assert_eq!(death_cause_icon_key(Some(DeathCause::Fire)), "burning");
    assert_eq!(death_cause_icon_key(Some(DeathCause::Flooding)), "flood");
    assert_eq!(death_cause_icon_key(Some(DeathCause::DiveBomber)), "bomb");
    assert_eq!(death_cause_icon_key(Some(DeathCause::SkipBombs)), "skip");
    assert_eq!(death_cause_icon_key(Some(DeathCause::AerialRocket)), "rocket");
    assert_eq!(death_cause_icon_key(Some(DeathCause::Detonation)), "detonate");
    assert_eq!(death_cause_icon_key(Some(DeathCause::Ramming)), "ram");
    assert_eq!(death_cause_icon_key(Some(DeathCause::DepthCharge)), "depthbomb");
    assert_eq!(death_cause_icon_key(Some(DeathCause::AerialDepthCharge)), "depthbomb");
    assert_eq!(death_cause_icon_key(Some(DeathCause::Missile)), "missile");
    assert_eq!(death_cause_icon_key(Some(DeathCause::Other)), "main_caliber");
    assert_eq!(death_cause_icon_key(None), "main_caliber");
}

#[test]
fn clan_prefix_and_teammate_labels() {
    assert_eq!(with_clan_prefix("KSD", "Player"), "[KSD] Player");
    assert_eq!(with_clan_prefix("", "Player"), "Player");
    assert_eq!(teammate_label(Some("KSD"), "Player", "Yamato"), "[KSD] Player (Yamato)");
    assert_eq!(teammate_label(Some(""), "Player", "Yamato"), "Player (Yamato)");
    assert_eq!(teammate_label(None, "Player", ""), "Player");
    assert_eq!(teammate_label(Some("A"), "Ö", ""), "[A] Ö");
}

#[test]
fn string_equality() {
    assert!(str_equals("abc", "abc"));
    assert!(!str_equals("abc", "abd"));
    assert!(!str_equals("abc", "ab"));
    assert!(str_equals("", ""));
}

#[test]
fn live_ship_icon_lookup_order() {
    assert_eq!(ship_icon_keys(Some("Cruiser"), ShipVisibility::Visible, true), vec!["Cruiser_self", "Cruiser", "Auxiliary_self"]);
    assert_eq!(ship_icon_keys(Some("Cruiser"), ShipVisibility::Visible, false), vec!["Cruiser", "Cruiser", "Auxiliary"]);
    assert_eq!(
        ship_icon_keys(Some("Destroyer"), ShipVisibility::MinimapOnly, true),
        vec!["Destroyer_invisible", "Destroyer", "Auxiliary_invisible"]
    );
    assert_eq!(
        ship_icon_keys(Some("Destroyer"), ShipVisibility::Undetected, false),
        vec!["Destroyer_invisible", "Destroyer", "Auxiliary_invisible"]
    );
    assert_eq!(ship_icon_keys(None, ShipVisibility::Visible, false), vec!["Auxiliary"]);
}

#[test]
fn dead_ship_icon_lookup_order() {
    assert_eq!(dead_ship_icon_keys(Some("Battleship"), true), vec!["Battleship_dead_self", "Battleship", "Auxiliary_dead_self"]);
    assert_eq!(dead_ship_icon_keys(Some("Battleship"), false), vec!["Battleship_dead", "Battleship", "Auxiliary_dead"]);
    assert_eq!(dead_ship_icon_keys(None, false), vec!["Auxiliary_dead"]);
}

#[test]
fn points_subtitles() {
    assert_eq!(points_finish_subtitle(BattleResult::Victory), "YOUR TEAM WON ON POINTS");
    assert_eq!(points_finish_subtitle(BattleResult::Defeat), "ENEMY TEAM WON ON POINTS");
    assert_eq!(points_finish_subtitle(BattleResult::Draw), "POINTS LIMIT REACHED");
}

#[test]
fn clan_prefix_split() {
    assert_eq!(split_clan_prefix("[KSD] Player", "KSD"), ("[KSD] ".to_string(), "Player".to_string()));
    assert_eq!(split_clan_prefix("[KSD] P..", "KSD"), ("[KSD] ".to_string(), "P..".to_string()));
    assert_eq!(split_clan_prefix("[KS..", "KSD"), ("[KS..".to_string(), String::new()));
    assert_eq!(split_clan_prefix("Player", ""), (String::new(), "Player".to_string()));
    assert_eq!(split_clan_prefix("[ÄB] Name", "ÄB"), ("[ÄB] ".to_string(), "Name".to_string()));
    assert_eq!(split_clan_prefix("[日本] 名前", "日本"), ("[日本] ".to_string(), "名前".to_string()));
}
