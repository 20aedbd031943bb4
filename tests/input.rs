use cosmic_settings_daemon::input::{switched_layouts, xkb_active_layouts, ActiveLayout, KnownLayout, LayoutVariant};
use cosmic_settings_daemon::text::{split_fields, split_lines, split_on, split_terminated, trim};

fn known() -> Vec<KnownLayout> {
    vec![
        KnownLayout {
            name: "us".to_string(),
            description: "English (US)".to_string(),
            variants: vec![LayoutVariant { name: "intl".to_string(), description: "English (US, intl.)".to_string() }],
        },
        KnownLayout {
            name: "de".to_string(),
            description: "German".to_string(),
            variants: vec![LayoutVariant {
                name: "nodeadkeys".to_string(),
                description: "German (no dead keys)".to_string(),
            }],
        },
    ]
}

fn active(layout: &str, description: &str, variant: &str) -> ActiveLayout {
    ActiveLayout { layout: layout.to_string(), description: description.to_string(), variant: variant.to_string() }
}

#[test]
fn layouts_in_use_are_described() {
    assert_eq!(
        xkb_active_layouts("us,de", "intl,", &known()),
        vec![active("us", "English (US, intl.)", "intl"), active("de", "German", "")]
    );
    assert_eq!(
        xkb_active_layouts("us,xx,de", ",,nodeadkeys", &known()),
        vec![active("us", "English (US)", ""), active("de", "German (no dead keys)", "nodeadkeys")]
    );
    assert_eq!(xkb_active_layouts("de", "", &known()), vec![active("de", "German", "")]);
    assert!(xkb_active_layouts("us", "colemak", &known()).is_empty());
}

#[test]
fn switching_moves_the_first_layout_last() {
    assert_eq!(switched_layouts("us,de", "intl,", &known()), Some(("de,us".to_string(), ",intl".to_string())));
    assert_eq!(switched_layouts("us", "", &known()), Some(("us".to_string(), "".to_string())));
    assert_eq!(switched_layouts("", "", &known()), None);
    assert_eq!(switched_layouts("xx", "", &known()), None);
}

#[test]
fn splitting_text() {
    assert_eq!(split_terminated("a,,b,", ','), vec!["a", "", "b"]);
    assert!(split_terminated("", ',').is_empty());
    assert_eq!(split_terminated(",", ','), vec![""]);
    assert_eq!(split_on("a++b", '+'), vec!["a", "", "b"]);
    assert_eq!(split_on("", '+'), vec![""]);
}

#[test]
fn trimming_and_lines() {
    assert_eq!(trim("  \t255\n"), "255");
    assert_eq!(trim("\u{a0}x y\u{3000}"), "x y");
    assert_eq!(trim(" \n "), "");
    assert_eq!(split_fields(" 27\tmodule-remap-sink  a\u{2003}b "), vec!["27", "module-remap-sink", "a", "b"]);
    assert!(split_fields("   ").is_empty());
    assert_eq!(split_lines("foo\nbar\n\r\nbaz\r"), vec!["foo", "bar", "", "baz\r"]);
    assert_eq!(split_lines("a\r\nb\r\n"), vec!["a", "b"]);
    assert!(split_lines("").is_empty());
}
