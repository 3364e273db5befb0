use chirp_relay::{IDInfo, SessionRegistry};

fn identity(user_id: usize, owner_id: usize, token: Option<&str>) -> IDInfo {
    IDInfo::new(user_id, owner_id, token.map(|t| t.to_string()))
}

#[test]
fn new_registry_knows_no_connection() {
    let registry = SessionRegistry::new();
    assert_eq!(registry.len(), 0);
    assert!(!registry.contains(1));
    assert!(registry.lookup(1).is_none());
    assert!(registry.user_of(1).is_none());
}

#[test]
fn register_then_lookup_returns_the_identity() {
    let mut registry = SessionRegistry::new();
    registry.register(7, identity(100, 100, Some("tok")));
    let found = registry.lookup(7).unwrap();
    assert_eq!(found.user_id, 100);
    assert_eq!(found.owner_id, 100);
    assert_eq!(found.user_token.as_deref(), Some("tok"));
    assert_eq!(registry.user_of(7), Some(100));
    assert_eq!(registry.len(), 1);
}

#[test]
fn register_overwrites_the_entry_of_a_connection() {
    let mut registry = SessionRegistry::new();
    registry.register(7, identity(100, 100, None));
    registry.register(7, identity(300, 100, Some("t")));
    assert_eq!(registry.len(), 1);
    let found = registry.lookup(7).unwrap();
    assert_eq!(found.user_id, 300);
    assert_eq!(found.user_token.as_deref(), Some("t"));
}

#[test]
fn update_identity_of_unknown_connection_changes_nothing() {
    let mut registry = SessionRegistry::new();
    registry.register(1, identity(10, 10, None));
    assert!(!registry.update_identity(2, identity(20, 20, None)));
    assert_eq!(registry.len(), 1);
    assert!(registry.lookup(2).is_none());
    assert_eq!(registry.user_of(1), Some(10));
}

#[test]
fn update_identity_of_known_connection_replaces_it() {
    let mut registry = SessionRegistry::new();
    registry.register(1, identity(10, 10, None));
    assert!(registry.update_identity(1, identity(20, 10, Some("x"))));
    let found = registry.lookup(1).unwrap();
    assert_eq!(found.user_id, 20);
    assert_eq!(found.owner_id, 10);
    assert_eq!(found.user_token.as_deref(), Some("x"));
}

#[test]
fn remove_returns_the_entry_and_forgets_it() {
    let mut registry = SessionRegistry::new();
    registry.register(1, identity(10, 11, Some("a")));
    registry.register(2, identity(20, 21, None));
    let removed = registry.remove(1).unwrap();
    assert_eq!(removed.user_id, 10);
    assert_eq!(removed.owner_id, 11);
    assert!(registry.lookup(1).is_none());
    assert_eq!(registry.user_of(2), Some(20));
    assert_eq!(registry.len(), 1);
}

#[test]
fn remove_of_unknown_connection_returns_none() {
    let mut registry = SessionRegistry::new();
    registry.register(1, identity(10, 10, None));
    assert!(registry.remove(5).is_none());
    assert_eq!(registry.len(), 1);
}

#[test]
fn anonymous_identity_has_zero_ids_and_no_token() {
    let anon = IDInfo::anonymous();
    assert_eq!(anon.user_id, 0);
    assert_eq!(anon.owner_id, 0);
    assert!(anon.user_token.is_none());
}

#[test]
fn clone_of_identity_keeps_every_field() {
    let first = identity(5, 6, Some("token"));
    let copy = first.clone();
    assert_eq!(copy.user_id, 5);
    assert_eq!(copy.owner_id, 6);
    assert_eq!(copy.user_token, first.user_token);
}
