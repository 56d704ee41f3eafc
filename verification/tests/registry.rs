use privchat_gateway::manager::ConnectionManager;
use privchat_gateway::manager::Session;

#[test]
fn add_then_get_returns_session() {
    let mut reg = ConnectionManager::new();
    reg.add_connection(1, Session { id: 1 });
    assert_eq!(reg.get_connection(1), Some(Session { id: 1 }));
    assert_eq!(reg.get_connection(2), None);
}

#[test]
fn remove_clears_by_id_and_by_user() {
    let mut reg = ConnectionManager::new();
    reg.add_connection(1, Session { id: 1 });
    reg.add_connection(2, Session { id: 2 });
    reg.verify_connection(String::from("alice"), 1);
    reg.verify_connection(String::from("alice"), 2);
    reg.remove_connection(1);
    assert_eq!(reg.get_connection(1), None);
    let sessions = reg.get_by_user(&String::from("alice"));
    assert_eq!(sessions.len(), 1);
    assert_eq!(sessions[0].id, 2);
}

#[test]
fn remove_last_session_drops_user_entry() {
    let mut reg = ConnectionManager::new();
    reg.add_connection(1, Session { id: 1 });
    reg.verify_connection(String::from("alice"), 1);
    assert_eq!(reg.users.len(), 1);
    reg.remove_connection(1);
    assert!(reg.get_by_user(&String::from("alice")).is_empty());
    assert!(reg.users.is_empty());
}

#[test]
fn remove_absent_id_is_noop() {
    let mut reg = ConnectionManager::new();
    reg.add_connection(1, Session { id: 1 });
    reg.remove_connection(9);
    assert_eq!(reg.get_connection(1), Some(Session { id: 1 }));
    assert_eq!(reg.entries.len(), 1);
}

#[test]
fn promote_absent_id_is_noop() {
    let mut reg = ConnectionManager::new();
    reg.verify_connection(String::from("alice"), 7);
    assert!(reg.get_by_user(&String::from("alice")).is_empty());
    assert!(reg.users.is_empty());
    assert!(reg.entries.is_empty());
}

#[test]
fn promote_two_sessions_same_user() {
    let mut reg = ConnectionManager::new();
    reg.add_connection(1, Session { id: 1 });
    reg.add_connection(2, Session { id: 2 });
    reg.verify_connection(String::from("alice"), 1);
    reg.verify_connection(String::from("alice"), 2);
    let mut ids: Vec<usize> = Vec::new();
    for s in reg.get_by_user(&String::from("alice")) {
        ids.push(s.id);
    }
    ids.sort();
    assert_eq!(ids, vec![1, 2]);
}

#[test]
fn promote_twice_same_user_no_duplicate() {
    let mut reg = ConnectionManager::new();
    reg.add_connection(1, Session { id: 1 });
    reg.verify_connection(String::from("alice"), 1);
    reg.verify_connection(String::from("alice"), 1);
    assert_eq!(reg.get_by_user(&String::from("alice")).len(), 1);
}

#[test]
fn promote_under_second_user_is_noop() {
    let mut reg = ConnectionManager::new();
    reg.add_connection(1, Session { id: 1 });
    reg.verify_connection(String::from("alice"), 1);
    reg.verify_connection(String::from("bob"), 1);
    assert_eq!(reg.get_by_user(&String::from("alice")).len(), 1);
    assert!(reg.get_by_user(&String::from("bob")).is_empty());
}

#[test]
fn by_user_stays_within_by_id_over_operations() {
    let mut reg = ConnectionManager::new();
    let alice = String::from("alice");
    let bob = String::from("bob");
    reg.add_connection(1, Session { id: 1 });
    reg.add_connection(2, Session { id: 2 });
    reg.add_connection(3, Session { id: 3 });
    reg.verify_connection(alice.clone(), 1);
    reg.verify_connection(bob.clone(), 2);
    reg.remove_connection(1);
    reg.add_connection(4, Session { id: 4 });
    reg.verify_connection(alice.clone(), 4);
    reg.remove_connection(2);
    for user in [&alice, &bob] {
        for s in reg.get_by_user(user) {
            assert!(reg.get_connection(s.id).is_some());
        }
    }
    assert!(reg.get_by_user(&bob).is_empty());
    let held = reg.get_by_user(&alice);
    assert_eq!(held.len(), 1);
    assert_eq!(held[0].id, 4);
}

#[test]
fn drain_adds_then_removes_leaves_empty() {
    let mut reg = ConnectionManager::new();
    for i in 0..16usize {
        reg.add_connection(i, Session { id: i });
    }
    for i in 0..16usize {
        assert!(reg.get_connection(i).is_some());
    }
    for i in (0..16usize).rev() {
        reg.remove_connection(i);
    }
    for i in 0..16usize {
        assert_eq!(reg.get_connection(i), None);
    }
    assert!(reg.entries.is_empty());
    assert!(reg.users.is_empty());
}

#[test]
fn re_add_replaces_session_and_clears_promotion() {
    let mut reg = ConnectionManager::new();
    reg.add_connection(1, Session { id: 1 });
    reg.verify_connection(String::from("alice"), 1);
    assert_eq!(reg.get_by_user(&String::from("alice")).len(), 1);
    reg.add_connection(1, Session { id: 1 });
    assert_eq!(reg.get_connection(1), Some(Session { id: 1 }));
    assert!(reg.get_by_user(&String::from("alice")).is_empty());
    assert_eq!(reg.entries.len(), 1);
}
