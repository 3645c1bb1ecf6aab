use flow_builder::level::ComponentLevel;
use flow_builder::policy::LevelPolicy;

#[test]
fn level_names_are_canonical() {
    assert_eq!(ComponentLevel::ParentOnly.as_str(), "ParentOnly");
    assert_eq!(ComponentLevel::ChildOnly.as_str(), "ChildOnly");
    assert_eq!(ComponentLevel::Other.as_str(), "Other");
}

#[test]
fn level_names_decode_to_their_level() {
    assert_eq!(ComponentLevel::from_str("ParentOnly"), Some(ComponentLevel::ParentOnly));
    assert_eq!(ComponentLevel::from_str("ChildOnly"), Some(ComponentLevel::ChildOnly));
    assert_eq!(ComponentLevel::from_str("Other"), Some(ComponentLevel::Other));
}

#[test]
fn level_round_trip_is_exact() {
    for level in [ComponentLevel::ParentOnly, ComponentLevel::ChildOnly, ComponentLevel::Other] {
        assert_eq!(ComponentLevel::from_str(level.as_str()), Some(level));
    }
}

#[test]
fn unknown_level_name_decodes_to_other() {
    assert_eq!(ComponentLevel::from_str(""), Some(ComponentLevel::Other));
    assert_eq!(ComponentLevel::from_str("parentonly"), Some(ComponentLevel::Other));
    assert_eq!(ComponentLevel::from_str("ParentOnly "), Some(ComponentLevel::Other));
    assert_eq!(ComponentLevel::from_str("Sibling"), Some(ComponentLevel::Other));
    assert_eq!(ComponentLevel::from_str("\u{25BC}"), Some(ComponentLevel::Other));
}

#[test]
fn standard_policy_allows_one_pair() {
    let policy = LevelPolicy::new();
    let levels = [ComponentLevel::ParentOnly, ComponentLevel::ChildOnly, ComponentLevel::Other];
    for parent in levels {
        for child in levels {
            let expected =
                parent == ComponentLevel::ParentOnly && child == ComponentLevel::ChildOnly;
            assert_eq!(policy.allows(parent, child), expected);
        }
    }
}

#[test]
fn permit_adds_a_pair_and_keeps_the_rest() {
    let policy =
        LevelPolicy::new().permit(ComponentLevel::ParentOnly, ComponentLevel::ParentOnly);
    assert!(policy.allows(ComponentLevel::ParentOnly, ComponentLevel::ChildOnly));
    assert!(policy.allows(ComponentLevel::ParentOnly, ComponentLevel::ParentOnly));
    assert!(!policy.allows(ComponentLevel::ChildOnly, ComponentLevel::ParentOnly));
    assert!(!policy.allows(ComponentLevel::Other, ComponentLevel::Other));
}

#[test]
fn permit_twice_is_permit_once() {
    let policy = LevelPolicy::new()
        .permit(ComponentLevel::Other, ComponentLevel::ChildOnly)
        .permit(ComponentLevel::Other, ComponentLevel::ChildOnly);
    assert!(policy.allows(ComponentLevel::Other, ComponentLevel::ChildOnly));
    assert!(!policy.allows(ComponentLevel::ChildOnly, ComponentLevel::Other));
}
