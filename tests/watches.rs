use cosmic_settings_daemon::classify::{classify, Change, Kind};
use cosmic_settings_daemon::watches::{Address, Prepared, Watches};

fn ready(p: Result<Prepared, cosmic_settings_daemon::naming::NamingError>) -> Option<(String, String)> {
    match p {
        Ok(Prepared::Ready(a)) => Some((a.path, a.name)),
        _ => None,
    }
}

fn create(p: Result<Prepared, cosmic_settings_daemon::naming::NamingError>) -> Option<Address> {
    match p {
        Ok(Prepared::Create(a)) => Some(a),
        _ => None,
    }
}

const E1_PATH: &str = "/com/system76/CosmicSettingsDaemon/Config/com/example/foo/V1";
const E1_NAME: &str = "com.system76.CosmicSettingsDaemon.Config.com.example.foo.V1";

#[test]
fn second_request_reuses_the_endpoint() {
    let mut w: Watches<u32> = Watches::new(0);
    let a = create(w.prepare(Kind::Config, "com.example.foo", 1, ":1.10")).unwrap();
    assert_eq!(a.path, E1_PATH);
    assert_eq!(a.name, E1_NAME);
    let (used, surplus) = w.commit(Kind::Config, "com.example.foo", 1, ":1.10", a, 100);
    assert_eq!(used.path, E1_PATH);
    assert!(surplus.is_none());
    assert_eq!(ready(w.prepare(Kind::Config, "com.example.foo", 1, ":1.11")), Some((E1_PATH.to_string(), E1_NAME.to_string())));
    assert_eq!(ready(w.prepare(Kind::Config, "com.example.foo", 1, ":1.10")), Some((E1_PATH.to_string(), E1_NAME.to_string())));
    assert_eq!(w.lookup(Kind::Config, "com.example.foo", 1).unwrap().handle, 100);
    assert_eq!(w.lookup(Kind::Config, "com.example.foo", 1).unwrap().callers.len(), 2);
}

#[test]
fn change_without_watch_is_not_announced() {
    let w: Watches<u32> = Watches::new(0);
    let c = Change::Config("com.example.foo".to_string(), "bar".to_string(), 1);
    assert!(w.endpoint_for(&c).is_none());
    assert!(w.endpoint_for(&Change::Ping("com.example.foo".to_string(), 1)).is_none());
}

#[test]
fn both_callers_hear_the_change() {
    let mut w: Watches<u32> = Watches::new(0);
    let a = create(w.prepare(Kind::Config, "com.example.foo", 1, "A")).unwrap();
    let (e1, _) = w.commit(Kind::Config, "com.example.foo", 1, "A", a, 1);
    let again = ready(w.prepare(Kind::Config, "com.example.foo", 1, "B")).unwrap();
    assert_eq!(again, (e1.path.clone(), e1.name.clone()));
    let change = classify("/cfg/com/example/foo/v1/bar", true, Some("/cfg"), None).unwrap();
    match &change {
        Change::Config(n, k, v) => {
            assert_eq!(n, "com.example.foo");
            assert_eq!(k, "bar");
            assert_eq!(*v, 1);
        }
        _ => panic!("expected a configuration change"),
    }
    let target = w.endpoint_for(&change).unwrap();
    assert_eq!(target.address.path, e1.path);
    assert_eq!(target.handle, 1);
    let mut callers = target.callers.clone();
    callers.sort();
    assert_eq!(callers, vec!["A".to_string(), "B".to_string()]);
    // the state endpoint of the same namespace is another one
    let state = Change::State("com.example.foo".to_string(), "bar".to_string(), 1);
    assert!(w.endpoint_for(&state).is_none());
}

#[test]
fn endpoint_lives_until_its_last_caller_leaves() {
    let mut w: Watches<u32> = Watches::new(0);
    let a = create(w.prepare(Kind::Config, "com.example.foo", 1, "A")).unwrap();
    w.commit(Kind::Config, "com.example.foo", 1, "A", a, 1);
    ready(w.prepare(Kind::Config, "com.example.foo", 1, "B")).unwrap();
    let change = Change::Config("com.example.foo".to_string(), "bar".to_string(), 1);
    assert!(w.release("A").is_empty());
    assert!(w.endpoint_for(&change).is_some());
    let gone = w.release("B");
    assert_eq!(gone.len(), 1);
    assert_eq!(gone[0].handle, 1);
    assert!(w.endpoint_for(&change).is_none());
    // a new request makes it again
    let again = create(w.prepare(Kind::Config, "com.example.foo", 1, "C")).unwrap();
    w.commit(Kind::Config, "com.example.foo", 1, "C", again, 2);
    assert_eq!(w.endpoint_for(&change).unwrap().handle, 2);
}

#[test]
fn release_of_a_stranger_changes_nothing() {
    let mut w: Watches<u32> = Watches::new(0);
    let a = create(w.prepare(Kind::State, "x.y", 2, "A")).unwrap();
    w.commit(Kind::State, "x.y", 2, "A", a, 5);
    assert!(w.release("Z").is_empty());
    assert!(w.lookup(Kind::State, "x.y", 2).is_some());
}

#[test]
fn release_drops_every_set_of_a_caller() {
    let mut w: Watches<u32> = Watches::new(0);
    for (kind, ns) in [(Kind::Config, "a.b"), (Kind::State, "a.b"), (Kind::Config, "c.d")] {
        let a = create(w.prepare(kind, ns, 1, "A")).unwrap();
        w.commit(kind, ns, 1, "A", a, 0);
    }
    ready(w.prepare(Kind::Config, "c.d", 1, "B")).unwrap();
    let gone = w.release("A");
    assert_eq!(gone.len(), 2);
    assert!(w.lookup(Kind::Config, "a.b", 1).is_none());
    assert!(w.lookup(Kind::State, "a.b", 1).is_none());
    assert!(w.lookup(Kind::Config, "c.d", 1).is_some());
}

#[test]
fn racing_requests_share_one_endpoint() {
    let mut w: Watches<u32> = Watches::new(0);
    let a = create(w.prepare(Kind::Config, "new.key", 1, "A")).unwrap();
    let b = create(w.prepare(Kind::Config, "new.key", 1, "B")).unwrap();
    let (used_a, surplus_a) = w.commit(Kind::Config, "new.key", 1, "A", a, 1);
    let (used_b, surplus_b) = w.commit(Kind::Config, "new.key", 1, "B", b, 2);
    assert!(surplus_a.is_none());
    assert_eq!(surplus_b, Some(2));
    assert_eq!(used_a.path, used_b.path);
    assert_eq!(used_a.name, used_b.name);
    assert_eq!(w.lookup(Kind::Config, "new.key", 1).unwrap().handle, 1);
}

#[test]
fn remove_is_a_no_op_on_unknown_keys() {
    let mut w: Watches<u32> = Watches::new(0);
    assert!(w.remove(Kind::Config, "nothing", 1).is_none());
    let a = create(w.prepare(Kind::Config, "k", 1, "A")).unwrap();
    w.commit(Kind::Config, "k", 1, "A", a, 9);
    assert_eq!(w.remove(Kind::Config, "k", 1).unwrap().handle, 9);
    assert!(w.lookup(Kind::Config, "k", 1).is_none());
}

#[test]
fn invalid_namespace_gets_counted_addresses() {
    let mut w: Watches<u32> = Watches::new(3);
    let a = create(w.prepare(Kind::Config, "my-app", 1, "A")).unwrap();
    assert_eq!(a.path, "/com/system76/CosmicSettingsDaemon/Config/C3/V1");
    assert_eq!(a.name, "com.system76.CosmicSettingsDaemon.Config.my-app.V1");
    let b = create(w.prepare(Kind::Config, "9lives", 1, "A")).unwrap();
    assert_eq!(b.path, "/com/system76/CosmicSettingsDaemon/Config/9lives/V1");
    assert_eq!(b.name, "com.system76.CosmicSettingsDaemon.Config.C4.V1");
}

#[test]
fn release_keeps_and_returns_the_right_handles() {
    let mut w: Watches<u32> = Watches::new(0);
    let a = create(w.prepare(Kind::Config, "one", 1, "A")).unwrap();
    w.commit(Kind::Config, "one", 1, "A", a, 11);
    let b = create(w.prepare(Kind::Config, "two", 1, "A")).unwrap();
    w.commit(Kind::Config, "two", 1, "A", b, 22);
    ready(w.prepare(Kind::Config, "two", 1, "B")).unwrap();
    let gone = w.release("A");
    assert_eq!(gone.len(), 1);
    assert_eq!(gone[0].namespace, "one");
    assert_eq!(gone[0].handle, 11);
    assert_eq!(w.lookup(Kind::Config, "two", 1).unwrap().handle, 22);
}

#[test]
fn state_and_config_endpoints_are_apart() {
    let mut w: Watches<u32> = Watches::new(0);
    let s = create(w.prepare(Kind::State, "com.example.foo", 1, "A")).unwrap();
    assert!(s.path.starts_with("/com/system76/CosmicSettingsDaemon/State/"));
    assert!(s.name.starts_with("com.system76.CosmicSettingsDaemon.State."));
    w.commit(Kind::State, "com.example.foo", 1, "A", s.clone(), 1);
    let c = create(w.prepare(Kind::Config, "com.example.foo", 1, "A")).unwrap();
    assert!(c.path.starts_with("/com/system76/CosmicSettingsDaemon/Config/"));
    assert_ne!(c.path, s.path);
    assert_ne!(c.name, s.name);
    let again = ready(w.prepare(Kind::State, "com.example.foo", 1, "B")).unwrap();
    assert_eq!(again, (s.path, s.name));
}
