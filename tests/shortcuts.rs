use cosmic_settings_daemon::shortcuts::{
    Direction, FingerCount, Gesture, GestureParseError, Modifier, Modifiers, ModifiersDef, Orientation,
};
use std::str::FromStr;

#[test]
fn gesture_binding_from_str() {
    assert_eq!(
        Gesture::from_str("3+Left"),
        Ok(Gesture::new(FingerCount::Three, Direction::Left))
    );

    assert_eq!(
        Gesture::from_str("5+Up"),
        Ok(Gesture::new(FingerCount::Five, Direction::Up))
    );

    assert_ne!(
        Gesture::from_str("4+Left+More+Info"),
        Ok(Gesture::new(FingerCount::Four, Direction::Left))
    );
}

#[test]
fn gesture_errors() {
    assert_eq!(Gesture::from_str("4+Left+More+Info"), Err(GestureParseError::ExtraData("More".to_string())));
    assert_eq!(Gesture::from_str("2+Left"), Err(GestureParseError::InvalidFingerValue("2".to_string())));
    assert_eq!(Gesture::from_str(""), Err(GestureParseError::InvalidFingerValue(String::new())));
    assert_eq!(Gesture::from_str("3"), Err(GestureParseError::NoDirectionValue));
    assert_eq!(Gesture::from_str("3+left"), Err(GestureParseError::InvalidDirectionValue("left".to_string())));
    assert_eq!(Gesture::from_str("4+Down"), Ok(Gesture::new(FingerCount::Four, Direction::Down)));
}

#[test]
fn opposites() {
    assert_eq!(!Direction::Left, Direction::Right);
    assert_eq!(!Direction::Up, Direction::Down);
    assert_eq!(!Orientation::Vertical, Orientation::Horizontal);
}

#[test]
fn modifier_builders() {
    let m = Modifiers::new().logo().ctrl();
    assert_eq!(m, Modifiers { ctrl: true, alt: false, shift: false, logo: true });
    assert_eq!(Modifiers::default(), Modifiers::new());
    let mut n = Modifiers::new();
    n += Modifier::Shift;
    assert_eq!(n, Modifiers::new().shift());
    assert_eq!(Modifier::Alt | Modifier::Ctrl, Modifiers::new().alt().ctrl());
    assert_eq!(Modifiers::from(Modifier::Super), Modifiers::new().logo());
}

#[test]
fn modifier_list_round_trip() {
    let m = Modifiers::new().shift().logo().alt();
    let def = ModifiersDef::from(m.clone());
    assert_eq!(def.0, vec![Modifier::Super, Modifier::Alt, Modifier::Shift]);
    assert_eq!(Modifiers::from(def), m);
    let twice = ModifiersDef(vec![Modifier::Ctrl, Modifier::Ctrl]);
    assert_eq!(Modifiers::from(twice), Modifiers::new().ctrl());
}
