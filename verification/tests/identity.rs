use flow_builder::identity::{new_id, NodeId, RANDOM_VERSION_VARIANT, VERSION_VARIANT_MASK};

#[test]
fn node_id_keeps_its_value() {
    let id = NodeId::from_u128(0xa1a2a3a4_b1b2_c1c2_d1d2_d3d4d5d6d7d8);
    assert_eq!(id.as_u128(), 0xa1a2a3a4_b1b2_c1c2_d1d2_d3d4d5d6d7d8);
    assert_eq!(id, NodeId::from_u128(0xa1a2a3a4_b1b2_c1c2_d1d2_d3d4d5d6d7d8));
    assert_ne!(id, NodeId::from_u128(1));
}

#[test]
fn node_id_takes_every_value() {
    assert_eq!(NodeId::from_u128(0).as_u128(), 0);
    assert_eq!(NodeId::from_u128(u128::MAX).as_u128(), u128::MAX);
}

#[test]
fn new_ids_are_pairwise_distinct() {
    let mut ids: Vec<NodeId> = Vec::new();
    for _ in 0..200 {
        ids.push(new_id());
    }
    for i in 0..ids.len() {
        for j in (i + 1)..ids.len() {
            assert_ne!(ids[i], ids[j]);
        }
    }
}

#[test]
fn new_id_has_the_layout_of_a_random_uuid() {
    for _ in 0..50 {
        let bits = new_id().as_u128();
        assert_eq!(bits & VERSION_VARIANT_MASK, RANDOM_VERSION_VARIANT);
        assert_eq!((bits >> 76) & 0xf, 4);
        assert_eq!((bits >> 62) & 0x3, 2);
    }
}

#[test]
fn new_id_is_the_value_of_a_version_four_uuid() {
    let id = new_id();
    let uuid = uuid::Uuid::from_u128(id.as_u128());
    assert_eq!(uuid.get_version_num(), 4);
    assert_eq!(uuid.as_u128(), id.as_u128());
}
