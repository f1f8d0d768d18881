use kobayashi::export_csv::{
    find_event_columns, get_event_bool_yes, get_event_cell, optional_cell, parse_fight_export,
    parse_tsv_row, row_to_map, ship_type_from_name,
};
use kobayashi::types::ShipType;

fn sample_export() -> String {
    let summary_header = [
        "Player Name", "Player Level", "Outcome", "Ship Name", "Ship Level", "Ship Strength",
        "Ship XP", "Officer One", "Officer Two", "Officer Three", "Hull Health",
        "Hull Health Remaining", "Shield Health", "Shield Health Remaining", "Location",
    ]
    .join("\t");
    let player = [
        "Kirk", "30", "VICTORY", "REALTA", "20", "100000", "0", "Kirk", "Spock", "--", "1000",
        "800", "500", "0", "Sol",
    ]
    .join("\t");
    let enemy = [
        "Hostile", "31", "DEFEAT", "Hostile Battleship", "31", "90000", "0", "", "", "", "5000",
        "1200", "3000", "250", "Sol",
    ]
    .join("\t");
    let mut fleet_header = vec!["Fleet Type".to_string()];
    for i in 1..=20 {
        fleet_header.push(format!("Stat {i}"));
    }
    fleet_header[1] = "Hull Health".to_string();
    fleet_header[2] = "Shield Health".to_string();
    let mut enemy_fleet = vec!["Enemy Fleet 1".to_string()];
    let mut player_fleet = vec!["Player Fleet 1".to_string()];
    for i in 1..=20 {
        enemy_fleet.push(format!("{}", i * 100));
        player_fleet.push(format!("{}", i));
    }
    let events_header =
        "Round\tBattle Event\tType\tCritical Hit?\tHull Damage\tShield Damage\tTotal Damage";
    let e1 = "1\t1\tAttack\tYES\t10\t20\t30";
    let e2 = " 1\t2\tAttack\tNO\t5\t5\t10 ";
    let e3 = "2\t3\tAttack\tyes\t1\t2\t3";
    let rewards = "Reward\tAmount";
    format!(
        "{summary_header}\n{player}\n{enemy}\n\n  \nRewards header\n{}\n{}\n{}\n{events_header}\n{e1}\r\n{e2}\n{e3}\n{rewards}\nRound\tx\n",
        fleet_header.join("\t"),
        enemy_fleet.join("\t"),
        player_fleet.join("\t"),
    )
}

#[test]
fn parse_sample_export_reads_every_section() {
    let x = parse_fight_export(&sample_export()).unwrap();
    assert!(x.attacker_won);
    assert_eq!(x.rounds, 2);
    assert_eq!(x.defender_hull_remaining.as_deref(), Some("1200"));
    assert_eq!(x.defender_shield_remaining.as_deref(), Some("250"));
    assert_eq!(x.player_ship_name.as_deref(), Some("REALTA"));
    assert_eq!(x.player_officer_one.as_deref(), Some("Kirk"));
    assert_eq!(x.player_officer_two.as_deref(), Some("Spock"));
    assert_eq!(x.player_officer_three, None);
    assert_eq!(x.attacker_ship_type, ShipType::Explorer);
    assert_eq!(x.player_fleet.get("Fleet Type").map(String::as_str), Some("Player Fleet 1"));
    assert_eq!(x.enemy_fleet.get("Fleet Type").map(String::as_str), Some("Enemy Fleet 1"));
    assert_eq!(x.enemy_fleet.get("Hull Health").map(String::as_str), Some("100"));
    assert_eq!(x.events.len(), 3);
    assert_eq!(x.events[0].round, 1);
    assert_eq!(x.events[0].event_type, "Attack");
    assert!(x.events[0].critical_hit);
    assert!(!x.events[1].critical_hit);
    assert!(x.events[2].critical_hit);
    assert_eq!(x.events[1].hull_damage.as_deref(), Some("5"));
    assert_eq!(x.events[1].shield_damage.as_deref(), Some("5"));
    assert_eq!(x.events[1].total_damage.as_deref(), Some("10"));
    assert_eq!(x.events[2].round, 2);
}

#[test]
fn parse_rejects_empty_and_truncated_sections() {
    assert_eq!(parse_fight_export("").unwrap_err(), "empty input");
    assert_eq!(parse_fight_export(" \n\t\n").unwrap_err(), "empty input");
    let header: Vec<String> = (0..13).map(|i| if i == 0 { "Player Name".to_string() } else { format!("c{i}") }).collect();
    let input = format!("{}\nonly one row", header.join("\t"));
    assert_eq!(
        parse_fight_export(&input).unwrap_err(),
        "summary section: expected 2 data rows"
    );
    let fleet: Vec<String> = (0..21).map(|i| if i == 0 { "Fleet Type".to_string() } else { format!("c{i}") }).collect();
    let input = format!("{}\nrow one", fleet.join("\t"));
    assert_eq!(
        parse_fight_export(&input).unwrap_err(),
        "fleet section: expected 2 data rows"
    );
}

#[test]
fn parse_short_headers_are_skipped() {
    let x = parse_fight_export("Player Name\tOutcome\nx\tVICTORY\n").unwrap();
    assert!(!x.attacker_won);
    assert_eq!(x.rounds, 0);
    assert!(x.events.is_empty());
    assert!(x.player_fleet.is_empty());
    assert_eq!(x.attacker_ship_type, ShipType::Battleship);
}

#[test]
fn events_section_stops_at_non_numeric_round_and_accepts_zero() {
    let input = "Round\tX\tType\n0\ta\tStart\n+3\tb\tAttack\n7x\tc\tAttack\n4\td\tAttack\n";
    let x = parse_fight_export(input).unwrap();
    assert_eq!(x.events.len(), 2);
    assert_eq!(x.events[0].round, 0);
    assert_eq!(x.events[0].event_type, "Start");
    assert_eq!(x.events[1].round, 3);
    assert_eq!(x.rounds, 3);
    assert_eq!(x.events[1].hull_damage, None);
}

#[test]
fn fleet_rows_swap_when_first_is_not_player() {
    let mut header = vec!["Fleet Type".to_string()];
    for i in 1..=20 {
        header.push(format!("S{i}"));
    }
    let a = std::iter::once("Enemy Fleet 1".to_string()).chain((1..=20).map(|i| i.to_string())).collect::<Vec<_>>();
    let b = std::iter::once("Something".to_string()).chain((1..=20).map(|i| (i * 2).to_string())).collect::<Vec<_>>();
    let input = format!("{}\n{}\n{}\n", header.join("\t"), a.join("\t"), b.join("\t"));
    let x = parse_fight_export(&input).unwrap();
    assert_eq!(x.player_fleet.get("Fleet Type").map(String::as_str), Some("Something"));
    assert_eq!(x.enemy_fleet.get("S2").map(String::as_str), Some("2"));
}

#[test]
fn tsv_row_cells_are_trimmed() {
    assert_eq!(parse_tsv_row(" a \tb\t\t c"), vec!["a", "b", "", "c"]);
    assert_eq!(parse_tsv_row(""), vec![""]);
}

#[test]
fn row_map_pairs_up_to_shorter_row_last_wins() {
    let h = vec!["k".to_string(), "j".to_string(), "k".to_string()];
    let v = vec!["1".to_string(), "2".to_string(), "3".to_string(), "4".to_string()];
    let m = row_to_map(&h, &v);
    assert_eq!(m.get("k").map(String::as_str), Some("3"));
    assert_eq!(m.get("j").map(String::as_str), Some("2"));
    assert_eq!(m.get("x"), None);
    let short = row_to_map(&h, &v[..1]);
    assert_eq!(short.get("k").map(String::as_str), Some("1"));
    assert_eq!(short.get("j"), None);
}

#[test]
fn optional_cell_drops_placeholders() {
    let s = |x: &str| x.to_string();
    assert_eq!(optional_cell(None), None);
    assert_eq!(optional_cell(Some(&s(""))), None);
    assert_eq!(optional_cell(Some(&s("  "))), None);
    assert_eq!(optional_cell(Some(&s(" -- "))), None);
    assert_eq!(optional_cell(Some(&s(" Spock "))), Some(s("Spock")));
}

#[test]
fn event_columns_by_name_with_defaults() {
    let h: Vec<String> = ["Battle", " total damage ", "ROUND", "critical hit?"].iter().map(|s| s.to_string()).collect();
    let c = find_event_columns(&h);
    assert_eq!(c.round, 2);
    assert_eq!(c.event_type, 2);
    assert_eq!(c.total_damage, Some(1));
    assert_eq!(c.critical_hit, Some(3));
    assert_eq!(c.hull_damage, None);
    let row: Vec<String> = ["x", " 9 ", "1", "Yes"].iter().map(|s| s.to_string()).collect();
    assert_eq!(get_event_cell(&row, c.total_damage), Some("9"));
    assert_eq!(get_event_cell(&row, Some(7)), None);
    assert_eq!(get_event_cell(&row, None), None);
    assert!(get_event_bool_yes(&row, c.critical_hit));
    assert!(!get_event_bool_yes(&row, c.hull_damage));
}

#[test]
fn ship_type_from_names() {
    assert_eq!(ship_type_from_name("realta"), ShipType::Explorer);
    assert_eq!(ship_type_from_name("  Hostile Battleship "), ShipType::Battleship);
    assert_eq!(ship_type_from_name("Klingon Explorer"), ShipType::Explorer);
    assert_eq!(ship_type_from_name("interceptor x"), ShipType::Interceptor);
    assert_eq!(ship_type_from_name("Survey ship"), ShipType::Survey);
    assert_eq!(ship_type_from_name("armada target"), ShipType::Armada);
    assert_eq!(ship_type_from_name("unknown"), ShipType::Battleship);
    assert_eq!(ship_type_from_name("battleship explorer"), ShipType::Battleship);
}
