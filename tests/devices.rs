use cosmic_settings_daemon::brightness::{parse_brightness, read_brightness, BrightnessDevice, GuardStep, Reading};
use cosmic_settings_daemon::greeter::GreeterAccessibilityState;
use cosmic_settings_daemon::pulse::{virt_sink_id, SinkAction, State};
use cosmic_settings_daemon::window_rules::{
    merge_tiling_exceptions, ApplicationException, DefaultApplicationException, PreciseApplicationException,
};

#[test]
fn brightness_text() {
    assert_eq!(read_brightness("  255\n"), Some(255));
    assert_eq!(parse_brightness("+7"), Some(7));
    assert_eq!(parse_brightness("4294967295"), Some(u32::MAX));
    assert_eq!(parse_brightness("4294967296"), None);
    assert_eq!(parse_brightness(""), None);
    assert_eq!(parse_brightness("+"), None);
    assert_eq!(parse_brightness("12a"), None);
    assert_eq!(parse_brightness(" 12"), None);
}

#[test]
fn backlight_limits() {
    let d = BrightnessDevice::new("backlight", "intel_backlight".to_string(), "1200\n").unwrap();
    assert_eq!(d.max_brightness(), 1200);
    assert_eq!(d.min_brightness(), 1);
    assert_eq!(d.clamped(0), 1);
    assert_eq!(d.clamped(5000), 1200);
    assert_eq!(d.clamped(600), 600);
    assert!(d.guard_may_read(0));
    assert!(d.guard_may_read(2));
    assert!(!d.guard_may_read(3));
    assert!(d.needs_guard(60));
    assert!(!d.needs_guard(61));
    assert!(!d.needs_guard(0));
    assert_eq!(d.guard_step(3, Reading::Value(0)), GuardStep::Bump(4));
    assert_eq!(d.guard_step(3, Reading::Value(2)), GuardStep::Stop);
    assert_eq!(d.guard_step(3, Reading::Missing), GuardStep::Stop);
    assert_eq!(d.guard_step(3, Reading::Failed), GuardStep::Stop);
    assert_eq!(d.guard_step(1200, Reading::Value(0)), GuardStep::Stop);
    let coarse = BrightnessDevice::new("backlight", "acpi".to_string(), "20").unwrap();
    assert_eq!(coarse.min_brightness(), 0);
    let led = BrightnessDevice::new("leds", "kbd".to_string(), "3").unwrap();
    assert_eq!(led.min_brightness(), 0);
    assert!(!led.needs_guard(1));
    assert!(BrightnessDevice::new("backlight", "x".to_string(), "max").is_none());
}

fn actions(v: Vec<SinkAction>) -> Vec<String> {
    v.into_iter()
        .map(|a| match a {
            SinkAction::Unload { virt_sink, restore } => format!("unload {virt_sink} {restore:?}"),
            SinkAction::Load { sink } => format!("load {sink}"),
        })
        .collect()
}

#[test]
fn mono_sink_steps() {
    let on = State::new(Some("mono".to_string()), true);
    assert!(matches!(on, State::EnabledMono(ref v) if v == "mono"));
    assert!(matches!(State::new(None, false), State::NoVirtMonoDisabledMono));
    assert_eq!(actions(on.enable_mono("speakers")), vec!["unload mono None", "load speakers"]);
    assert_eq!(actions(on.disable_mono("speakers")), vec!["unload mono Some(\"speakers\")"]);
    assert_eq!(actions(on.sink_change("hdmi")), vec!["unload mono None", "load hdmi"]);
    let off = State::new(None, false);
    assert!(actions(off.disable_mono("x")).is_empty());
    assert!(actions(off.sink_change("x")).is_empty());
    assert_eq!(actions(State::new(None, true).sink_change("x")), vec!["load x"]);
    assert_eq!(actions(State::new(Some("m".to_string()), false).sink_change("x")), vec!["unload m Some(\"x\")"]);
}

fn precise(appid: &str, title: &str, enabled: bool) -> PreciseApplicationException {
    PreciseApplicationException { appid: appid.to_string(), title: title.to_string(), enabled }
}

fn exception(appid: &str, title: &str) -> ApplicationException {
    ApplicationException { appid: appid.to_string(), title: title.to_string() }
}

#[test]
fn expand_defaults() {
    let d = DefaultApplicationException { appid: "app".to_string(), titles: vec!["a".to_string(), "b".to_string()] };
    assert_eq!(d.expand(), vec![precise("app", "a", true), precise("app", "b", true)]);
}

#[test]
fn custom_rules_override_defaults() {
    let defaults = vec![
        DefaultApplicationException { appid: "app".to_string(), titles: vec!["a".to_string(), "b".to_string()] },
        DefaultApplicationException { appid: "other".to_string(), titles: vec!["c".to_string()] },
    ];
    let custom = vec![precise("app", "b", false), precise("new", "d", true), precise("new", "e", false)];
    assert_eq!(
        merge_tiling_exceptions(defaults, custom),
        vec![exception("app", "a"), exception("other", "c"), exception("new", "d")]
    );
    assert!(merge_tiling_exceptions(vec![], vec![]).is_empty());
}

#[test]
fn virtual_sink_in_module_list() {
    let listing = "12\tmodule-null-sink\tsink_name=foo\n27\tmodule-remap-sink\tsink_name=\"COSMIC_mono_sink\" master=\"x\"\n31\tmodule-remap-sink\tsink_name=\"COSMIC_mono_sink\"\n";
    assert_eq!(virt_sink_id(listing), Some("27".to_string()));
    assert_eq!(virt_sink_id("12\tmodule-null-sink\tsink_name=foo\n"), None);
    assert_eq!(virt_sink_id(""), None);
    assert_eq!(virt_sink_id("COSMIC_mono_sink\n"), None);
}

#[test]
fn greeter_state_path() {
    assert_eq!(GreeterAccessibilityState::path(None), "/run/cosmic-greeter");
    assert_eq!(GreeterAccessibilityState::path(Some("/var/lib/greeter")), "/var/lib/greeter");
    assert_eq!(GreeterAccessibilityState::default().high_contrast, None);
}
