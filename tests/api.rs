use zkbinfo::api::{Activity, Stat, StatType, Status};
use zkbinfo::database::{QuerySubject, RawHistory};
use zkbinfo::gateway;
use zkbinfo::gui::{query_all_ids, Error, Killmail};

fn row(id: i32, victim: bool, damage: i32, ship: Option<i32>, system: i32) -> RawHistory {
    RawHistory {
        killmail_id: id,
        character_id: Some(1),
        corporation_id: None,
        alliance_id: None,
        ship_type_id: ship,
        damage,
        is_victim: victim,
        solar_system_id: system,
        killmail_time: String::from("2024-01-01T00:00:00Z"),
    }
}

#[test]
fn activity_splits_wins_and_losses() {
    let rows = vec![
        row(1, false, 100, Some(17), 30),
        row(2, true, 500, Some(18), 30),
        row(3, false, 50, None, 31),
        row(4, false, 25, Some(17), 30),
    ];
    let a = Activity::from(9, rows);
    assert_eq!(a.id, 9);
    assert_eq!(a.wins.killmails, vec![1, 3, 4]);
    assert_eq!(a.wins.total_damage, 175);
    assert_eq!(a.wins.ships.len(), 1);
    assert_eq!(a.wins.ships[&17], 2);
    assert_eq!(a.wins.solar_systems[&30], 2);
    assert_eq!(a.wins.solar_systems[&31], 1);
    assert_eq!(a.losses.killmails, vec![2]);
    assert_eq!(a.losses.total_damage, 500);
    assert_eq!(a.losses.ships[&18], 1);
    assert_eq!(a.losses.solar_systems.len(), 1);
}

#[test]
fn activity_of_nothing_is_empty() {
    let a = Activity::from(3, Vec::new());
    assert!(a.wins.killmails.is_empty());
    assert!(a.losses.killmails.is_empty());
    assert_eq!(a.wins.total_damage, 0);
    assert!(a.losses.ships.is_empty());
}

#[test]
fn damage_sums_past_the_range_of_i32() {
    let rows = vec![row(1, false, i32::MAX, None, 1), row(2, false, i32::MAX, None, 1)];
    let a = Activity::from(1, rows);
    assert_eq!(a.wins.total_damage, 2 * i32::MAX as i64);
}

#[test]
fn status_json_wraps_the_message() {
    assert_eq!(Status::json(String::from("Success")), r#"{ "message": "Success" }"#);
    assert_eq!(Status::from(String::from("x")).message, "x");
}

#[test]
fn gateway_status_codes() {
    let ok = gateway::Status::ok();
    assert_eq!((ok.code, ok.message.as_str()), (0, "Success"));
    let bad = gateway::Status::parse_error(String::from("bad json"));
    assert_eq!((bad.code, bad.message.as_str()), (1, "bad json"));
    let busy = gateway::Status::from(2, String::from("busy"));
    assert_eq!((busy.code, busy.message.as_str()), (2, "busy"));
}

#[test]
fn statistics_count_per_kind_and_subject() {
    let mut stat = Stat::new();
    stat.notify_access(StatType::SavedKillmailsCount);
    stat.notify_access(StatType::SavedKillmailsCount);
    stat.notify(QuerySubject::Corporation, StatType::FriendsCharacterCount);
    assert_eq!(stat.access_count(StatType::SavedKillmailsCount), 2);
    assert_eq!(stat.access_count(StatType::StatisticAccessedCount), 0);
    assert_eq!(stat.subject_count(QuerySubject::Corporation, StatType::FriendsCharacterCount), 1);
    assert_eq!(stat.subject_count(QuerySubject::Character, StatType::FriendsCharacterCount), 0);
}

fn gui_row(character: Option<i32>, ship: Option<i32>, system: i32) -> Killmail {
    Killmail {
        killmail_id: 1,
        character_id: character,
        corporation_id: Some(98573194),
        alliance_id: None,
        ship_type_id: ship,
        damage: 0,
        is_victim: 1,
        solar_system_id: system,
        killmail_time: String::from("2024-01-01T00:00:00Z"),
    }
}

#[test]
fn all_ids_are_sorted_and_distinct() {
    let rows = vec![gui_row(Some(5), Some(3756), 30000142), gui_row(Some(2), None, 30000142)];
    assert_eq!(query_all_ids(&rows), vec![2, 5, 3756, 30000142, 98573194]);
    assert!(query_all_ids(&Vec::new()).is_empty());
}

#[test]
fn page_error_keeps_its_text() {
    assert_eq!(Error::from(String::from("Unknown Target")).error, "Unknown Target");
}
