use cpml::model::{Contribution, Geometry, Pose, PresenceRecord, Projection, Shape};
use cpml::numeric::Real;
use cpml::presence_state::{update_presence_state, StoredRecord};
use cpml::time::{parse_date, parse_datetime};

fn record(key: &str, kind: &str, until: Option<&str>) -> PresenceRecord {
    PresenceRecord {
        key: key.to_string(),
        record_type: Some(kind.to_string()),
        attributes: vec![],
        valid_from: parse_date("2026-01-01").unwrap(),
        valid_until: until.map(|u| parse_date(u).unwrap()),
    }
}

fn projection(id: &str, contribution: Contribution) -> Projection {
    let one = Real { bits: 1.0f64.to_bits() };
    Projection {
        id: id.to_string(),
        name: None,
        field_name: "permits".to_string(),
        geometry: Geometry { shape: Shape::Cuboid { half_extents: [one, one, one] }, pose: Pose::identity(), region: None },
        contribution,
        parent_activity_id: "a".to_string(),
        confidence: None,
    }
}

fn lookup<'a>(s: &'a [StoredRecord], region: &str, key: &str) -> Option<&'a PresenceRecord> {
    s.iter().find(|e| e.region == region && e.record.key == key).map(|e| &e.record)
}

#[test]
fn projected_records_are_kept_and_later_ones_win() {
    let p1 = projection("a/p1", Contribution::Presence(record("permit", "first", None)));
    let p2 = projection("a/p2", Contribution::Presence(record("permit", "second", None)));
    let p3 = projection("a/p3", Contribution::Presence(record("permit", "third", None)));
    let cap = projection("a/c", Contribution::Capacity(Real { bits: 0 }));
    let now = parse_datetime("2026-01-02").unwrap();
    let state = update_presence_state(
        &vec![],
        &vec![&p1, &cap, &p2, &p3],
        &vec!["r1".to_string(), "r1".to_string(), "r1".to_string(), "r2".to_string()],
        now,
    );
    assert_eq!(state.len(), 2);
    assert_eq!(lookup(&state, "r1", "permit").unwrap().record_type.as_deref(), Some("second"));
    assert_eq!(lookup(&state, "r2", "permit").unwrap().record_type.as_deref(), Some("third"));

    // the next keyframe keeps them while they are valid
    let later = update_presence_state(&state, &vec![], &vec![], parse_datetime("2026-03-01").unwrap());
    assert_eq!(later.len(), 2);
}

#[test]
fn expired_records_are_dropped() {
    let now = parse_datetime("2026-01-10T12:00:00").unwrap();
    let current = vec![
        StoredRecord { region: "r".to_string(), record: record("old", "t", Some("2026-01-09")) },
        StoredRecord { region: "r".to_string(), record: record("today", "t", Some("2026-01-10")) },
        StoredRecord { region: "s".to_string(), record: record("forever", "t", None) },
    ];
    let next = update_presence_state(&current, &vec![], &vec![], now);
    assert!(lookup(&next, "r", "old").is_none());
    assert!(lookup(&next, "r", "today").is_some());
    assert!(lookup(&next, "s", "forever").is_some());
    assert_eq!(next.len(), 2);
    // a record projected again replaces an expired one
    let renewed = projection("a/p", Contribution::Presence(record("old", "renewed", None)));
    let next = update_presence_state(&current, &vec![&renewed], &vec!["r".to_string()], now);
    assert_eq!(lookup(&next, "r", "old").unwrap().record_type.as_deref(), Some("renewed"));
}
