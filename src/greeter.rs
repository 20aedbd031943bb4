//! Accessibility settings chosen in the greeter before login.
use vstd::prelude::*;

verus! {

/// State applied in the greeter during login, that should be applied in the
/// user config.
#[derive(Default, Debug, Clone, PartialEq)]
pub struct GreeterAccessibilityState {
    pub screen_reader: Option<bool>,
    pub magnifier: Option<bool>,
    pub high_contrast: Option<bool>,
    pub invert_colors: Option<bool>,
}

impl GreeterAccessibilityState {
    /// Where the greeter keeps this state: the directory chosen when the daemon
    /// was built, where one was, else `/run/cosmic-greeter`.
    pub fn path(built_in: Option<&str>) -> (r: String)
        ensures
            r@ == (match built_in {
                Some(p) => p@,
                None => "/run/cosmic-greeter"@,
            }),
    {
        match built_in {
            Some(p) => String::from_str(p),
            None => String::from_str("/run/cosmic-greeter"),
        }
    }
}

} // verus!
