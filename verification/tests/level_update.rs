use albatross::level_update::{LevelUpdate, SerializableLevelUpdate};

#[test]
fn origin_is_added() {
    let sent = SerializableLevelUpdate { aggregate: 17u64, individual: Some(4u64), level: 3 };
    assert_eq!(
        sent.into_level_update(9),
        LevelUpdate { aggregate: 17, individual: Some(4), level: 3, origin: 9 }
    );
}

#[test]
fn origin_is_dropped() {
    let update = LevelUpdate { aggregate: vec![1u8, 2], individual: None, level: 0, origin: 65535 };
    assert_eq!(
        SerializableLevelUpdate::from(update),
        SerializableLevelUpdate { aggregate: vec![1u8, 2], individual: None, level: 0 }
    );
}

#[test]
fn there_and_back() {
    let update = LevelUpdate { aggregate: 5u32, individual: Some(6u32), level: 255, origin: 12 };
    let back = SerializableLevelUpdate::from(update.clone()).into_level_update(update.origin);
    assert_eq!(back, update);
    let sent = SerializableLevelUpdate { aggregate: 5u32, individual: None, level: 1 };
    assert_eq!(SerializableLevelUpdate::from(sent.clone().into_level_update(700)), sent);
}
