use zkbinfo::api::activity_hourly;
use zkbinfo::database::{
    activity, cleanup, history, insert, relations, select_ids_by_date, EventRow, ParticipantRow,
    QuerySubject, RelationType, Store, StoreError,
};
use zkbinfo::killmail::{Attackers, Killmail, Victim};
use zkbinfo::timestamp::parse_day;

const SINCE: &str = "2023-12-01T00:00:00Z";

fn victim(character: i32, damage: i32) -> Victim {
    Victim {
        alliance_id: None,
        character_id: Some(character),
        corporation_id: None,
        damage_taken: damage,
        ship_type_id: None,
    }
}

fn attacker(character: i32, damage: i32) -> Attackers {
    Attackers {
        alliance_id: None,
        character_id: Some(character),
        corporation_id: None,
        damage_done: damage,
        ship_type_id: None,
        weapon_type_id: None,
    }
}

fn killmail(id: i32, time: &str, v: Victim, attackers: Vec<Attackers>) -> Killmail {
    Killmail {
        killmail_id: id,
        killmail_time: String::from(time),
        solar_system_id: 30000142,
        victim: v,
        attackers,
        zkb: None,
    }
}

fn sorted(mut v: Vec<(i32, usize)>) -> Vec<(i32, usize)> {
    v.sort();
    v
}

#[test]
fn end_to_end_scenario() {
    let mut store = Store::new();
    let k = killmail(1, "2024-01-01T10:00:00Z", victim(100, 500), vec![attacker(200, 500)]);
    assert!(insert(&mut store, k).is_ok());

    let rows = history(&store, 100, QuerySubject::Character, SINCE);
    assert_eq!(rows.len(), 1);
    assert!(rows[0].is_victim);
    assert_eq!(rows[0].damage, 500);
    assert_eq!(rows[0].solar_system_id, 30000142);
    assert_eq!(rows[0].killmail_time, "2024-01-01T10:00:00Z");

    // Every participant of a seed event counts, whatever its side: the
    // victim 100 shared the engagement that 200 attacked in.
    let friends = relations(&store, 200, QuerySubject::Character, RelationType::FriendsChar, SINCE);
    assert_eq!(friends, vec![(100, 1)]);
    let enemies = relations(&store, 200, QuerySubject::Character, RelationType::EnemiesChar, SINCE);
    assert!(enemies.is_empty());
    let enemies = relations(&store, 100, QuerySubject::Character, RelationType::EnemiesChar, SINCE);
    assert_eq!(enemies, vec![(200, 1)]);
}

#[test]
fn idempotent_insert() {
    let mut store = Store::new();
    let k = killmail(5, "2024-01-01T10:00:00Z", victim(1, 10), vec![attacker(2, 5), attacker(3, 5)]);
    let first = insert(&mut store, k.clone()).unwrap();
    assert!(first.event_added);
    assert_eq!(first.participants.len(), 3);
    let (events, parts) = (store.event_count(), store.participant_count());
    for _ in 0..3 {
        let again = insert(&mut store, k.clone()).unwrap();
        assert!(!again.event_added);
        assert!(again.participants.is_empty());
    }
    assert_eq!(store.event_count(), events);
    assert_eq!(store.participant_count(), parts);
    assert_eq!((events, parts), (1, 3));
}

#[test]
fn unidentified_participants_share_one_key() {
    let mut store = Store::new();
    let mut npc = attacker(0, 1);
    npc.character_id = None;
    let k = killmail(6, "2024-01-01T10:00:00Z", victim(1, 10), vec![npc, npc]);
    let written = insert(&mut store, k).unwrap();
    assert_eq!(written.participants.len(), 2);
    assert_eq!(store.participant_count(), 2);
}

#[test]
fn partial_update_insert() {
    let mut store = Store::new();
    let k = killmail(7, "2024-01-01T10:00:00Z", victim(1, 10), vec![attacker(2, 5)]);
    insert(&mut store, k).unwrap();
    let before: Vec<ParticipantRow> = (0..store.participant_count()).map(|i| store.participant(i)).collect();
    let late = killmail(7, "2024-01-02T10:00:00Z", victim(1, 10), vec![attacker(2, 5), attacker(9, 3)]);
    let written = insert(&mut store, late).unwrap();
    assert!(!written.event_added);
    assert_eq!(written.participants.len(), 1);
    assert_eq!(written.participants[0].character_id, Some(9));
    assert!(!written.participants[0].is_victim);
    assert_eq!(store.event_count(), 1);
    assert_eq!(store.participant_count(), before.len() + 1);
    for (i, row) in before.iter().enumerate() {
        let now = store.participant(i);
        assert_eq!(now.character_id, row.character_id);
        assert_eq!(now.is_victim, row.is_victim);
        assert_eq!(now.damage, row.damage);
    }
    let rows = history(&store, 1, QuerySubject::Character, SINCE);
    assert_eq!(rows.len(), 1);
}

#[test]
fn malformed_timestamp_is_rejected_before_writing() {
    let mut store = Store::new();
    let k = killmail(8, "yesterday", victim(1, 10), vec![attacker(2, 5)]);
    match insert(&mut store, k) {
        Err(StoreError::Malformed(text)) => assert_eq!(text, "yesterday"),
        other => panic!("unexpected {:?}", other),
    }
    assert_eq!(store.event_count(), 0);
    assert_eq!(store.participant_count(), 0);
    let k = killmail(9, "2024-01-01T24:00:00Z", victim(1, 10), vec![]);
    assert!(insert(&mut store, k).is_err());
}

#[test]
fn relation_exclusion() {
    let mut store = Store::new();
    let mut unknown = attacker(0, 1);
    unknown.character_id = Some(0);
    let mut npc = attacker(0, 1);
    npc.character_id = None;
    let k = killmail(
        10,
        "2024-01-01T10:00:00Z",
        victim(50, 10),
        vec![attacker(1, 5), attacker(2, 5), unknown, npc],
    );
    insert(&mut store, k).unwrap();
    let friends = relations(&store, 1, QuerySubject::Character, RelationType::FriendsChar, SINCE);
    assert_eq!(sorted(friends), vec![(2, 1), (50, 1)]);
}

#[test]
fn relation_groups_by_corporation() {
    let mut store = Store::new();
    let mut a = attacker(1, 5);
    a.corporation_id = Some(700);
    let mut b = attacker(2, 5);
    b.corporation_id = Some(700);
    let mut c = attacker(3, 5);
    c.corporation_id = Some(800);
    let mut v = victim(4, 10);
    v.corporation_id = Some(900);
    insert(&mut store, killmail(11, "2024-01-01T10:00:00Z", v, vec![a, b, c])).unwrap();
    let corps = relations(&store, 1, QuerySubject::Character, RelationType::FriendsCorp, SINCE);
    assert_eq!(sorted(corps), vec![(700, 2), (800, 1), (900, 1)]);
    let enemies = relations(&store, 900, QuerySubject::Corporation, RelationType::EnemiesCorp, SINCE);
    assert_eq!(sorted(enemies), vec![(700, 2), (800, 1)]);
}

#[test]
fn relations_of_two_events() {
    // A (1) and B (2) attack together in event 1; A attacks B in event 2.
    let mut store = Store::new();
    insert(&mut store, killmail(21, "2024-01-01T10:00:00Z", victim(3, 10), vec![attacker(1, 5), attacker(2, 5)])).unwrap();
    insert(&mut store, killmail(22, "2024-01-02T10:00:00Z", victim(2, 10), vec![attacker(1, 5)])).unwrap();
    let friends = relations(&store, 1, QuerySubject::Character, RelationType::FriendsChar, SINCE);
    assert_eq!(sorted(friends), vec![(2, 2), (3, 1)]);
    let enemies = relations(&store, 1, QuerySubject::Character, RelationType::EnemiesChar, SINCE);
    assert!(enemies.is_empty());
    let enemies_of_b = relations(&store, 2, QuerySubject::Character, RelationType::EnemiesChar, SINCE);
    assert_eq!(enemies_of_b, vec![(1, 1)]);
}

#[test]
fn activity_densification() {
    let mut store = Store::new();
    insert(&mut store, killmail(31, "2024-01-01T03:10:00Z", victim(9, 1), vec![attacker(1, 1)])).unwrap();
    insert(&mut store, killmail(32, "2024-01-02T03:50:00Z", victim(9, 1), vec![attacker(1, 1)])).unwrap();
    insert(&mut store, killmail(33, "2024-01-03T17:00:00Z", victim(1, 1), vec![attacker(9, 1)])).unwrap();
    let raw = activity(&store, 1, QuerySubject::Character, SINCE);
    assert_eq!(sorted(raw.clone()), vec![(3, 2), (17, 1)]);
    let dense = activity_hourly(&store, 1, QuerySubject::Character, SINCE);
    assert_eq!(dense.len(), 24);
    for (h, entry) in dense.iter().enumerate() {
        let expected = match h {
            3 => 2,
            17 => 1,
            _ => 0,
        };
        assert_eq!(*entry, (h as i32, expected));
    }
}

#[test]
fn retention_sweep() {
    let mut store = Store::new();
    insert(&mut store, killmail(41, "2023-09-01T00:00:00Z", victim(1, 1), vec![attacker(2, 1)])).unwrap();
    insert(&mut store, killmail(42, "2023-10-01T00:00:00Z", victim(1, 1), vec![attacker(2, 1)])).unwrap();
    insert(&mut store, killmail(43, "2023-10-01T00:00:01Z", victim(1, 1), vec![attacker(3, 1)])).unwrap();
    let removed = cleanup(&mut store, "2023-10-01T00:00:00Z");
    assert_eq!(removed, vec![41]);
    assert_eq!(store.event_count(), 2);
    assert_eq!(store.participant_count(), 4);
    let rows = history(&store, 1, QuerySubject::Character, "2000-01-01T00:00:00Z");
    let ids: Vec<i32> = rows.iter().map(|r| r.killmail_id).collect();
    assert_eq!(ids, vec![42, 43]);
    assert!(cleanup(&mut store, "2023-10-01T00:00:00Z").is_empty());
    assert_eq!(store.participant_count(), 4);
}

#[test]
fn window_boundary() {
    let mut store = Store::new();
    insert(&mut store, killmail(51, "2023-12-01T00:00:00Z", victim(1, 1), vec![attacker(2, 1)])).unwrap();
    insert(&mut store, killmail(52, "2023-11-30T23:59:59Z", victim(1, 1), vec![attacker(2, 1)])).unwrap();
    let rows = history(&store, 1, QuerySubject::Character, SINCE);
    let ids: Vec<i32> = rows.iter().map(|r| r.killmail_id).collect();
    assert_eq!(ids, vec![51]);
    let enemies = relations(&store, 1, QuerySubject::Character, RelationType::EnemiesChar, SINCE);
    assert_eq!(enemies, vec![(2, 1)]);
    let hours = activity(&store, 2, QuerySubject::Character, SINCE);
    assert_eq!(hours, vec![(0, 1)]);
}

#[test]
fn ids_of_a_calendar_day() {
    let mut store = Store::new();
    insert(&mut store, killmail(61, "2024-01-01T00:00:00Z", victim(1, 1), vec![])).unwrap();
    insert(&mut store, killmail(62, "2024-01-01T23:59:59Z", victim(1, 1), vec![])).unwrap();
    insert(&mut store, killmail(63, "2024-01-02T00:00:00Z", victim(1, 1), vec![])).unwrap();
    insert(&mut store, killmail(64, "2023-12-31T23:59:59Z", victim(1, 1), vec![])).unwrap();
    let day = parse_day("2024-01-01").unwrap();
    assert_eq!(day.start, 1704067200);
    assert_eq!(select_ids_by_date(&store, &day).unwrap(), vec![61, 62]);
    let last = zkbinfo::timestamp::Day { start: i64::MAX };
    assert!(matches!(select_ids_by_date(&store, &last), Err(StoreError::InvalidParameter(_))));
    match parse_day("2024-13-01") {
        Err(StoreError::InvalidParameter(text)) => assert_eq!(text, "2024-13-01"),
        other => panic!("unexpected {:?}", other),
    }
}

#[test]
fn restore_checks_references() {
    let mut store = Store::new();
    let row = ParticipantRow {
        killmail_id: 70,
        character_id: Some(1),
        corporation_id: None,
        alliance_id: None,
        ship_type_id: None,
        damage: 3,
        is_victim: true,
    };
    match store.restore_participant(row) {
        Err(StoreError::Constraint(id)) => assert_eq!(id, 70),
        other => panic!("unexpected {:?}", other),
    }
    let event = EventRow {
        killmail_id: 70,
        killmail_time: String::from("2024-01-01T00:00:00Z"),
        solar_system_id: 1,
    };
    assert_eq!(store.restore_event(event.clone()).unwrap(), true);
    assert_eq!(store.restore_event(event).unwrap(), false);
    assert_eq!(store.restore_participant(row).unwrap(), true);
    assert_eq!(store.restore_participant(row).unwrap(), false);
    assert_eq!(store.participant_count(), 1);
    let bad = EventRow { killmail_id: 71, killmail_time: String::from("2024"), solar_system_id: 1 };
    assert!(matches!(store.restore_event(bad), Err(StoreError::Malformed(_))));
}

#[test]
fn column_names_and_victim_flags() {
    assert_eq!(QuerySubject::get_field(&QuerySubject::Corporation), "corporation_id");
    assert_eq!(RelationType::get_field(&RelationType::EnemiesAlli), "alliance_id");
    assert_eq!(RelationType::get_victim_value(&RelationType::EnemiesChar), 1);
    assert_eq!(RelationType::get_victim_value(&RelationType::FriendsCorp), 0);
}

#[test]
fn queries_on_an_empty_store() {
    let mut store = Store::new();
    assert!(history(&store, 1, QuerySubject::Alliance, SINCE).is_empty());
    assert!(relations(&store, 1, QuerySubject::Alliance, RelationType::EnemiesAlli, SINCE).is_empty());
    assert!(activity(&store, 1, QuerySubject::Alliance, SINCE).is_empty());
    let dense = activity_hourly(&store, 1, QuerySubject::Alliance, SINCE);
    assert_eq!(dense.len(), 24);
    assert!(dense.iter().all(|(_, n)| *n == 0));
    assert!(cleanup(&mut store, SINCE).is_empty());
    assert_eq!(store.event_count(), 0);
}
