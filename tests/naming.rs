use cosmic_settings_daemon::classify::Kind;
use cosmic_settings_daemon::naming::{decimal, object_path, replace_dots, service_name, NamingError};

#[test]
fn valid_namespace_gives_derived_addresses() {
    let mut counter = 0u64;
    assert_eq!(
        object_path(Kind::Config, "com.example.foo", 1, &mut counter),
        Ok("/com/system76/CosmicSettingsDaemon/Config/com/example/foo/V1".to_string())
    );
    assert_eq!(
        service_name(Kind::State, "com.example.foo", 12, &mut counter),
        Ok("com.system76.CosmicSettingsDaemon.State.com.example.foo.V12".to_string())
    );
    assert_eq!(counter, 0);
}

#[test]
fn invalid_namespace_draws_on_the_counter() {
    let mut counter = 7u64;
    assert_eq!(
        object_path(Kind::Config, "my-app", 1, &mut counter),
        Ok("/com/system76/CosmicSettingsDaemon/Config/C7/V1".to_string())
    );
    assert_eq!(counter, 8);
    assert_eq!(
        service_name(Kind::Config, "1app", 1, &mut counter),
        Ok("com.system76.CosmicSettingsDaemon.Config.C8.V1".to_string())
    );
    assert_eq!(counter, 9);
}

#[test]
fn two_invalid_namespaces_get_different_fallbacks() {
    let mut counter = 0u64;
    let a = object_path(Kind::Config, "a b", 1, &mut counter).unwrap();
    let b = object_path(Kind::Config, "c d", 1, &mut counter).unwrap();
    assert_ne!(a, b);
    let c = service_name(Kind::Config, "a b", 1, &mut counter).unwrap();
    let d = service_name(Kind::Config, "c d", 1, &mut counter).unwrap();
    assert_ne!(c, d);
}

#[test]
fn exhausted_counter_is_an_error() {
    let mut counter = u64::MAX;
    assert_eq!(object_path(Kind::Config, "a b", 1, &mut counter), Err(NamingError::CounterExhausted));
    assert_eq!(service_name(Kind::Config, "a b", 1, &mut counter), Err(NamingError::CounterExhausted));
    assert_eq!(counter, u64::MAX);
}

#[test]
fn overlong_name_falls_back() {
    let long = "a".repeat(300);
    let mut counter = 0u64;
    assert_eq!(
        service_name(Kind::Config, &long, 1, &mut counter),
        Ok("com.system76.CosmicSettingsDaemon.Config.C0.V1".to_string())
    );
}

#[test]
fn decimal_and_dots() {
    assert_eq!(decimal(0), "0");
    assert_eq!(decimal(1907), "1907");
    assert_eq!(decimal(u64::MAX), "18446744073709551615");
    assert_eq!(replace_dots("a.b.c"), "a/b/c");
}
