use cosmic_settings_daemon::location;

#[test]
fn timezone_from_path() {
    let mut path = "/usr/share/zoneinfo/America/Denver";
    assert_eq!(
        location::timezone_from_path(path),
        String::from("America/Denver")
    );

    path = "../Pacific/Honolulu";
    assert_eq!(
        location::timezone_from_path(path),
        String::from("Pacific/Honolulu")
    );
}

#[test]
fn timezone_after_last_stop() {
    assert_eq!(location::timezone_from_path("/usr/share/zoneinfo/UTC"), "UTC");
    assert_eq!(location::timezone_from_path("/a/zoneinfo/b/zoneinfo/Europe/Paris"), "Europe/Paris");
    assert_eq!(location::timezone_from_path("/usr/share/zoneinfo"), "");
}
