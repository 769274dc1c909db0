use re_epmd::{Epmd, ErlNode};

fn node(name: &str, port: u16) -> ErlNode {
    ErlNode::new(port, 77, 0, 5, 5, name.to_string(), vec![])
}

#[test]
fn register_then_lookup_returns_the_record() {
    // Registering and then looking the name up yields a record whose fields
    // equal the request's, with the creation the registration returned.
    let mut epmd = Epmd::new();
    let creation = epmd.register(ErlNode::new(9999, 77, 0, 5, 5, "node1".to_string(), vec![9, 8]));
    assert!((1..=3).contains(&creation));
    let found = epmd.lookup("node1").expect("registered name must be found");
    assert_eq!(found.name, "node1");
    assert_eq!(found.port, 9999);
    assert_eq!(found.node_type, 77);
    assert_eq!(found.protocol, 0);
    assert_eq!(found.high_version, 5);
    assert_eq!(found.low_version, 5);
    assert_eq!(found.extra, vec![9, 8]);
    assert_eq!(found.creation, creation);
}

#[test]
fn reregistration_keeps_one_record() {
    // A later registration of the same name wins, and the registry never
    // holds two records for one name.
    let mut epmd = Epmd::new();
    epmd.register(node("node1", 1000));
    epmd.register(node("other", 2000));
    let before = epmd.list().len();
    let c2 = epmd.register(node("node1", 3000));
    assert_eq!(epmd.list().len(), before);
    let found = epmd.lookup("node1").unwrap();
    assert_eq!(found.port, 3000);
    assert_eq!(found.creation, c2);
}

#[test]
fn reregistration_changes_the_creation() {
    let mut epmd = Epmd::new();
    let c1 = epmd.register(node("node1", 1));
    let c2 = epmd.register(node("node1", 1));
    let c3 = epmd.register(node("node1", 1));
    assert_ne!(c1, c2);
    assert_ne!(c2, c3);
    assert!((1..=3).contains(&c1));
    assert!((1..=3).contains(&c2));
    assert!((1..=3).contains(&c3));
}

#[test]
fn remove_absent_name_changes_nothing() {
    // Removing a name that was never registered returns false and leaves the
    // registry unchanged.
    let mut epmd = Epmd::new();
    epmd.register(node("node1", 1));
    assert!(!epmd.remove("ghost"));
    assert_eq!(epmd.list().len(), 1);
    assert!(epmd.lookup("node1").is_some());
}

#[test]
fn remove_registered_name() {
    // Removing a just-registered name returns true, and a later lookup
    // returns nothing.
    let mut epmd = Epmd::new();
    epmd.register(node("node1", 1));
    assert!(epmd.remove("node1"));
    assert!(epmd.lookup("node1").is_none());
    assert_eq!(epmd.list().len(), 0);
}

#[test]
fn kill_policy() {
    // An empty registry may always be cleared; a populated one only in
    // relaxed mode.
    let mut epmd = Epmd::new();
    assert!(epmd.kill(false));
    epmd.register(node("node1", 1));
    assert!(!epmd.kill(false));
    assert_eq!(epmd.list().len(), 1);
    assert!(epmd.kill(true));
    assert_eq!(epmd.list().len(), 0);
}

#[test]
fn lookup_is_exact_match() {
    let mut epmd = Epmd::new();
    epmd.register(node("node", 1));
    assert!(epmd.lookup("node1").is_none());
    assert!(epmd.lookup("nod").is_none());
    assert!(epmd.lookup("node").is_some());
}
