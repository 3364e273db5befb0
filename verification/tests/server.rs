use chirp_relay::{Allocation, ChatServer, IDInfo, RelayError, Route, WSData};

fn identity(user_id: usize, owner_id: usize) -> IDInfo {
    IDInfo::new(user_id, owner_id, None)
}

fn server_with(connections: &[usize]) -> ChatServer {
    let mut server = ChatServer::new();
    for conn in connections {
        server.register(*conn, IDInfo::anonymous());
    }
    server
}

fn sorted_targets(update: &chirp_relay::ProfileUpdate) -> Vec<usize> {
    let mut targets: Vec<usize> = update.frames.iter().map(|f| f.ws_id).collect();
    targets.sort();
    targets
}

#[test]
fn new_server_is_empty() {
    let server = ChatServer::new();
    assert!(server.lookup(1).is_none());
    assert!(server.connections_of(1).is_empty());
}

#[test]
fn create_new_user_records_id_adds_self_entry_and_replies() {
    let mut server = server_with(&[9]);
    let reply = server.create_new_user(9, 200).unwrap();
    assert_eq!(reply.ws_id, 9);
    assert_eq!(reply.frame, "/update-user-id 200");
    assert_eq!(server.lookup(9).unwrap().user_id, 200);
    assert_eq!(server.connections_of(200), vec![WSData::new(200, 9)]);
}

#[test]
fn create_new_user_keeps_owner_and_token_on_record() {
    let mut server = ChatServer::new();
    server.register(9, IDInfo::new(0, 55, Some("tok".to_string())));
    server.create_new_user(9, 200).unwrap();
    let found = server.lookup(9).unwrap();
    assert_eq!(found.user_id, 200);
    assert_eq!(found.owner_id, 55);
    assert_eq!(found.user_token.as_deref(), Some("tok"));
}

#[test]
fn create_new_user_on_unregistered_connection_changes_nothing() {
    let mut server = server_with(&[1]);
    assert_eq!(
        server.create_new_user(3, 77).unwrap_err(),
        RelayError::UnidentifiedConnection
    );
    assert!(server.lookup(3).is_none());
    assert!(server.connections_of(77).is_empty());
    assert_eq!(server.lookup(1).unwrap().user_id, 0);
}

#[test]
fn create_new_user_with_the_bounds_of_the_id_range() {
    let mut server = server_with(&[1, 2]);
    assert_eq!(server.create_new_user(1, 1).unwrap().frame, "/update-user-id 1");
    assert_eq!(
        server.create_new_user(2, 2_147_483_647).unwrap().frame,
        "/update-user-id 2147483647"
    );
}

#[test]
fn reconnect_with_unknown_user_changes_nothing() {
    let mut server = server_with(&[1, 2]);
    server.create_new_user(1, 100).unwrap();
    let outcome = server.reconnect_user(2, identity(999, 999), false);
    assert_eq!(outcome, Err(RelayError::NotFound));
    assert_eq!(server.lookup(2).unwrap().user_id, 0);
    assert!(server.connections_of(999).is_empty());
    assert_eq!(server.lookup(1).unwrap().user_id, 100);
    assert_eq!(server.connections_of(100), vec![WSData::new(100, 1)]);
}

#[test]
fn reconnect_with_known_user_adds_one_self_entry_and_updates_identity() {
    let mut server = server_with(&[4]);
    let outcome = server.reconnect_user(4, IDInfo::new(100, 100, Some("t".to_string())), true);
    assert_eq!(outcome, Ok(()));
    let found = server.lookup(4).unwrap();
    assert_eq!(found.user_id, 100);
    assert_eq!(found.owner_id, 100);
    assert_eq!(found.user_token.as_deref(), Some("t"));
    assert_eq!(server.connections_of(100), vec![WSData::new(100, 4)]);
}

#[test]
fn reconnect_twice_on_one_connection_adds_the_self_entry_once() {
    let mut server = server_with(&[4]);
    assert_eq!(server.reconnect_user(4, identity(100, 100), true), Ok(()));
    assert_eq!(server.reconnect_user(4, identity(100, 100), true), Ok(()));
    assert_eq!(server.connections_of(100), vec![WSData::new(100, 4)]);
}

#[test]
fn reconnect_on_unregistered_connection_changes_nothing() {
    let mut server = server_with(&[1]);
    assert_eq!(
        server.reconnect_user(4, identity(100, 100), true),
        Err(RelayError::UnidentifiedConnection)
    );
    assert!(server.lookup(4).is_none());
    assert!(server.connections_of(100).is_empty());
}

#[test]
fn reconnect_of_unknown_user_on_unregistered_connection_is_not_found() {
    let mut server = ChatServer::new();
    assert_eq!(
        server.reconnect_user(4, identity(100, 100), false),
        Err(RelayError::NotFound)
    );
    assert!(server.lookup(4).is_none());
}

#[test]
fn update_ids_records_identity_and_adds_entry_to_owner_bucket() {
    let mut server = server_with(&[1, 2]);
    server.create_new_user(1, 200).unwrap();
    assert_eq!(server.update_ids(2, identity(100, 200)), Ok(()));
    let found = server.lookup(2).unwrap();
    assert_eq!(found.user_id, 100);
    assert_eq!(found.owner_id, 200);
    assert_eq!(
        server.connections_of(200),
        vec![WSData::new(200, 1), WSData::new(100, 2)]
    );
}

#[test]
fn update_ids_twice_adds_the_entry_once() {
    let mut server = server_with(&[1, 2]);
    server.create_new_user(1, 200).unwrap();
    assert_eq!(server.update_ids(2, identity(100, 200)), Ok(()));
    assert_eq!(server.update_ids(2, identity(100, 200)), Ok(()));
    assert_eq!(
        server.connections_of(200),
        vec![WSData::new(200, 1), WSData::new(100, 2)]
    );
}

#[test]
fn update_ids_creates_the_owner_bucket_if_missing() {
    let mut server = server_with(&[2]);
    assert_eq!(server.update_ids(2, identity(100, 200)), Ok(()));
    assert_eq!(server.connections_of(200), vec![WSData::new(100, 2)]);
}

#[test]
fn update_ids_on_unregistered_connection_changes_nothing() {
    let mut server = server_with(&[1]);
    server.create_new_user(1, 200).unwrap();
    assert_eq!(
        server.update_ids(2, identity(100, 200)),
        Err(RelayError::UnidentifiedConnection)
    );
    assert!(server.lookup(2).is_none());
    assert_eq!(server.lookup(1).unwrap().user_id, 200);
    assert_eq!(server.connections_of(200), vec![WSData::new(200, 1)]);
}

#[test]
fn send_user_data_pushes_the_profile_to_the_asking_connection() {
    let mut server = ChatServer::new();
    server.register(5, IDInfo::anonymous());
    let reply = server.send_user_data(5, Some("{\"name\":\"A\"}")).unwrap();
    assert_eq!(reply.ws_id, 5);
    assert_eq!(reply.frame, "/get-user-data {\"name\":\"A\"}");
}

#[test]
fn send_user_data_for_unknown_target_is_not_found() {
    let mut server = ChatServer::new();
    server.register(5, IDInfo::anonymous());
    assert_eq!(server.send_user_data(5, None).unwrap_err(), RelayError::NotFound);
}

#[test]
fn send_user_data_to_connection_without_identity_is_rejected() {
    let server = ChatServer::new();
    assert_eq!(
        server.send_user_data(5, Some("p")).unwrap_err(),
        RelayError::UnidentifiedConnection
    );
}

#[test]
fn message_to_a_contact_goes_the_direct_way() {
    let mut server = server_with(&[1, 2, 3, 4, 5, 6, 7, 8]);
    server.create_new_user(1, 200).unwrap();
    server.update_ids(2, identity(100, 200)).unwrap();
    assert_eq!(server.route_message(100, 200), Route::Direct(2));
    let out = server.send_message("hello", 100, 200, None).unwrap();
    assert_eq!(out.ws_id, 2);
    assert_eq!(out.frame, "/message hello");
}

#[test]
fn direct_message_ignores_the_introduction() {
    let mut server = server_with(&[1, 2, 3, 4, 5, 6, 7, 8]);
    server.create_new_user(1, 200).unwrap();
    server.update_ids(2, identity(100, 200)).unwrap();
    let out = server.send_message("hello", 100, 200, Some("{introduction}")).unwrap();
    assert_eq!(out.ws_id, 2);
    assert_eq!(out.frame, "/message hello");
}

#[test]
fn message_from_a_stranger_introduces_the_sender() {
    let mut server = server_with(&[1, 2, 3, 4, 5, 6, 7, 8]);
    server.create_new_user(1, 200).unwrap();
    assert_eq!(server.route_message(100, 200), Route::Introduce(1));
    let out = server
        .send_message("hi", 100, 200, Some("{\"user_id\":100,\"message\":\"hi\"}"))
        .unwrap();
    assert_eq!(out.ws_id, 1);
    assert_eq!(out.frame, "/new-user-message {\"user_id\":100,\"message\":\"hi\"}");
}

#[test]
fn message_from_a_stranger_without_introduction_is_dropped() {
    let mut server = server_with(&[1, 2, 3, 4, 5, 6, 7, 8]);
    server.create_new_user(1, 200).unwrap();
    assert_eq!(
        server.send_message("hi", 100, 200, None).unwrap_err(),
        RelayError::NotFound
    );
}

#[test]
fn message_to_a_user_without_bucket_is_dropped() {
    let mut server = server_with(&[1, 2, 3, 4, 5, 6, 7, 8]);
    server.create_new_user(1, 100).unwrap();
    assert_eq!(server.route_message(100, 200), Route::Dropped);
    assert_eq!(
        server.send_message("hi", 100, 200, Some("p")).unwrap_err(),
        RelayError::NotFound
    );
    assert_eq!(server.connections_of(100), vec![WSData::new(100, 1)]);
    assert!(server.connections_of(200).is_empty());
}

#[test]
fn message_to_a_bucket_without_direct_or_self_entry_is_dropped() {
    let mut server = server_with(&[1, 2, 3, 4, 5, 6, 7, 8]);
    server.update_ids(2, identity(300, 200)).unwrap();
    assert_eq!(
        server.send_message("hi", 100, 200, Some("p")).unwrap_err(),
        RelayError::NotFound
    );
}

#[test]
fn disconnect_purges_registry_and_every_bucket() {
    let mut server = server_with(&[1, 2, 3, 4, 5, 6, 7, 8]);
    server.create_new_user(1, 100).unwrap();
    server.create_new_user(2, 200).unwrap();
    server.update_ids(3, identity(100, 200)).unwrap();
    server.update_ids(3, identity(100, 300)).unwrap();
    let removed = server.on_disconnect(3).unwrap();
    assert_eq!(removed.user_id, 100);
    assert_eq!(removed.owner_id, 300);
    assert!(server.lookup(3).is_none());
    assert_eq!(server.connections_of(200), vec![WSData::new(200, 2)]);
    assert!(server.connections_of(300).is_empty());
    assert_eq!(server.connections_of(100), vec![WSData::new(100, 1)]);
    assert_eq!(server.route_message(100, 200), Route::Introduce(2));
}

#[test]
fn disconnect_is_idempotent() {
    let mut server = server_with(&[1, 2, 3, 4, 5, 6, 7, 8]);
    server.create_new_user(1, 100).unwrap();
    server.update_ids(2, identity(200, 100)).unwrap();
    assert!(server.on_disconnect(2).is_some());
    assert!(server.on_disconnect(2).is_none());
    assert!(server.lookup(2).is_none());
    assert_eq!(server.connections_of(100), vec![WSData::new(100, 1)]);
    assert_eq!(server.lookup(1).unwrap().user_id, 100);
}

#[test]
fn disconnect_of_unknown_connection_changes_nothing() {
    let mut server = server_with(&[1, 2, 3, 4, 5, 6, 7, 8]);
    server.create_new_user(1, 100).unwrap();
    assert!(server.on_disconnect(42).is_none());
    assert_eq!(server.lookup(1).unwrap().user_id, 100);
    assert_eq!(server.connections_of(100), vec![WSData::new(100, 1)]);
}

#[test]
fn update_identity_on_server_follows_the_registry() {
    let mut server = ChatServer::new();
    assert!(!server.update_identity(1, identity(5, 5)));
    assert!(server.lookup(1).is_none());
    server.register(1, IDInfo::anonymous());
    assert!(server.update_identity(1, identity(5, 6)));
    let found = server.lookup(1).unwrap();
    assert_eq!(found.user_id, 5);
    assert_eq!(found.owner_id, 6);
}

#[test]
fn name_update_from_unidentified_connection_is_rejected() {
    let server = ChatServer::new();
    assert_eq!(
        server.user_name_update(1, "x").unwrap_err(),
        RelayError::UnidentifiedConnection
    );
}

#[test]
fn image_update_from_unidentified_connection_is_rejected() {
    let server = ChatServer::new();
    assert_eq!(
        server.image_link_update(1, "x").unwrap_err(),
        RelayError::UnidentifiedConnection
    );
}

#[test]
fn name_update_reaches_every_other_bucket_that_references_the_user() {
    let mut server = server_with(&[1, 2, 3, 4, 5, 6, 7, 8]);
    server.create_new_user(1, 100).unwrap();
    server.create_new_user(2, 200).unwrap();
    server.create_new_user(3, 300).unwrap();
    server.create_new_user(4, 400).unwrap();
    server.update_ids(5, identity(100, 200)).unwrap();
    server.update_ids(6, identity(100, 300)).unwrap();
    server.update_ids(7, identity(200, 300)).unwrap();
    server.update_ids(8, identity(200, 100)).unwrap();
    let update = server.user_name_update(1, "Alice").unwrap();
    assert_eq!(update.user_id, 100);
    assert_eq!(sorted_targets(&update), vec![5, 6]);
    for frame in update.frames.iter() {
        assert_eq!(frame.frame, "/name-updated Alice");
    }
}

#[test]
fn name_update_skips_the_users_own_bucket() {
    let mut server = server_with(&[1, 2, 3, 4, 5, 6, 7, 8]);
    server.create_new_user(1, 100).unwrap();
    server.update_ids(2, identity(100, 100)).unwrap();
    let update = server.user_name_update(1, "Alice").unwrap();
    assert_eq!(update.user_id, 100);
    assert!(update.frames.is_empty());
}

#[test]
fn name_update_follows_the_identity_on_record_for_the_connection() {
    let mut server = server_with(&[1, 2, 3, 4, 5, 6, 7, 8]);
    server.create_new_user(1, 100).unwrap();
    server.create_new_user(2, 200).unwrap();
    server.update_ids(3, identity(100, 200)).unwrap();
    server.update_ids(4, identity(200, 100)).unwrap();
    let update = server.user_name_update(4, "Bob").unwrap();
    assert_eq!(update.user_id, 200);
    assert_eq!(sorted_targets(&update), vec![4]);
}

#[test]
fn image_update_reaches_the_same_connections_with_its_own_frame() {
    let mut server = server_with(&[1, 2, 3, 4, 5, 6, 7, 8]);
    server.create_new_user(1, 100).unwrap();
    server.create_new_user(2, 200).unwrap();
    server.update_ids(5, identity(100, 200)).unwrap();
    let update = server.image_link_update(1, "https://img/a.png").unwrap();
    assert_eq!(update.user_id, 100);
    assert_eq!(update.frames.len(), 1);
    assert_eq!(update.frames[0].ws_id, 5);
    assert_eq!(update.frames[0].frame, "/image-updated https://img/a.png");
}

#[test]
fn update_after_disconnect_no_longer_reaches_the_connection() {
    let mut server = server_with(&[1, 2, 3, 4, 5, 6, 7, 8]);
    server.create_new_user(1, 100).unwrap();
    server.create_new_user(2, 200).unwrap();
    server.update_ids(5, identity(100, 200)).unwrap();
    server.on_disconnect(5);
    let update = server.user_name_update(1, "Alice").unwrap();
    assert!(update.frames.is_empty());
}

#[test]
fn connect_puts_a_free_id_on_record_as_anonymous() {
    let mut server = ChatServer::new();
    assert_eq!(server.connect(7), Allocation::Allocated(7));
    let found = server.lookup(7).unwrap();
    assert_eq!(found.user_id, 0);
    assert_eq!(found.owner_id, 0);
    assert!(found.user_token.is_none());
    assert!(server.connections_of(0).is_empty());
}

#[test]
fn connect_with_a_taken_id_changes_nothing_and_proposes_another() {
    let mut server = ChatServer::new();
    server.register(7, IDInfo::new(100, 100, Some("t".to_string())));
    match server.connect(7) {
        Allocation::Probe(_) => {}
        Allocation::Allocated(_) => panic!("a taken connection id was handed out"),
    }
    let found = server.lookup(7).unwrap();
    assert_eq!(found.user_id, 100);
    assert_eq!(found.user_token.as_deref(), Some("t"));
}

#[test]
fn connecting_in_rounds_never_repeats_a_connection_id() {
    let mut server = ChatServer::new();
    let mut opened: Vec<usize> = Vec::new();
    for _ in 0..100 {
        let mut candidate = server.propose_connection_id();
        let id = loop {
            match server.connect(candidate) {
                Allocation::Allocated(id) => break id,
                Allocation::Probe(next) => candidate = next,
            }
        };
        assert!(!opened.contains(&id));
        assert!(server.lookup(id).is_some());
        opened.push(id);
    }
}

#[test]
fn proposed_connection_ids_vary() {
    let mut server = ChatServer::new();
    let first = server.propose_connection_id();
    let mut differs = false;
    for _ in 0..64 {
        if server.propose_connection_id() != first {
            differs = true;
        }
    }
    assert!(differs);
}

#[test]
fn first_contact_then_established_conversation() {
    let mut server = ChatServer::new();
    // user A (id 100) is identified with a self entry
    assert_eq!(server.connect(1), Allocation::Allocated(1));
    assert_eq!(server.reconnect_user(1, identity(100, 100), true), Ok(()));
    // user B connects, has no bucket, and is created with id 200
    assert_eq!(server.connect(2), Allocation::Allocated(2));
    assert!(server.connections_of(200).is_empty());
    let reply = server.create_new_user(2, 200).unwrap();
    assert_eq!(reply.ws_id, 2);
    assert_eq!(reply.frame, "/update-user-id 200");
    assert_eq!(server.connections_of(200), vec![WSData::new(200, 2)]);
    // A writes to B before B has added A
    assert_eq!(server.route_message(100, 200), Route::Introduce(2));
    let first = server.send_message("hi", 100, 200, Some("{A hi}")).unwrap();
    assert_eq!(first.ws_id, 2);
    assert_eq!(first.frame, "/new-user-message {A hi}");
    // B opens a connection for the conversation with A
    assert_eq!(server.connect(3), Allocation::Allocated(3));
    assert_eq!(server.update_ids(3, identity(100, 200)), Ok(()));
    assert_eq!(
        server.connections_of(200),
        vec![WSData::new(200, 2), WSData::new(100, 3)]
    );
    // the second message goes the direct way
    assert_eq!(server.route_message(100, 200), Route::Direct(3));
    let second = server.send_message("again", 100, 200, None).unwrap();
    assert_eq!(second.ws_id, 3);
    assert_eq!(second.frame, "/message again");
}
