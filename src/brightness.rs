//! Backlight and LED brightness devices.
use vstd::prelude::*;

use crate::classify::{all_digits, digits_value, lemma_digits_value_grows};
use crate::text::{trim, trimmed};

verus! {

/// The number that the text of a sysfs brightness file gives, already trimmed:
/// an optional `+` and decimal digits of a value that fits in a `u32`.
pub open spec fn u32_of(text: Seq<char>) -> Option<u32> {
    let digits = if text.len() > 0 && text[0] == '+' { text.drop_first() } else { text };
    if digits.len() > 0 && all_digits(digits) && digits_value(digits) <= u32::MAX {
        Some(digits_value(digits) as u32)
    } else {
        None
    }
}

/// Reads a brightness value from trimmed text.
pub fn parse_brightness(text: &str) -> (r: Option<u32>)
    ensures
        r == u32_of(text@),
{
    let n = text.unicode_len();
    let mut i: usize = 0;
    if n > 0 && text.get_char(0) == '+' {
        i = 1;
    }
    let ghost first = i;
    let ghost digits = text@.subrange(first as int, n as int);
    assert(digits =~= if text@.len() > 0 && text@[0] == '+' { text@.drop_first() } else { text@ });
    if i == n {
        return None;
    }
    let mut value: u32 = 0;
    while i < n
        invariant
            first <= i <= n == text@.len(),
            first < n,
            digits == text@.subrange(first as int, n as int),
            digits == (if text@.len() > 0 && text@[0] == '+' { text@.drop_first() } else { text@ }),
            all_digits(digits.subrange(0, i - first)),
            value as nat == digits_value(digits.subrange(0, i - first)),
        decreases n - i,
    {
        let c = text.get_char(i);
        assert(digits[i - first] == c);
        if c < '0' || c > '9' {
            assert(!all_digits(digits) && !crate::classify::is_digit(digits[i - first]));
            return None;
        }
        let d = (c as u32 - '0' as u32) as u32;
        assert(digits.subrange(0, i + 1 - first).drop_last() =~= digits.subrange(0, i - first));
        if value > (u32::MAX - d) / 10 {
            proof {
                assert(value * 10 + d > u32::MAX) by (nonlinear_arith)
                    requires
                        value > (u32::MAX - d) / 10,
                        d <= 9,
                ;
                if all_digits(digits) {
                    lemma_digits_value_grows(digits, i + 1 - first, digits.len() as int);
                    assert(digits.subrange(0, digits.len() as int) =~= digits);
                }
            }
            return None;
        }
        assert(value * 10 + d <= u32::MAX) by (nonlinear_arith)
            requires
                value <= (u32::MAX - d) / 10,
                d <= 9,
        ;
        value = value * 10 + d;
        i = i + 1;
        assert(all_digits(digits.subrange(0, i - first)));
    }
    assert(digits.subrange(0, n - first) =~= digits);
    Some(value)
}

/// Reads a brightness value from the text of a sysfs brightness file.
pub fn read_brightness(text: &str) -> (r: Option<u32>)
    ensures
        r == u32_of(trimmed(text@)),
{
    let t = trim(text);
    parse_brightness(t.as_str())
}

/// What was read of the brightness that the hardware actually shows.
#[derive(Clone, Copy, Debug, PartialEq, Eq, Structural)]
pub enum Reading {
    Value(u32),
    Missing,
    Failed,
}

/// What the guard against a dark panel does next.
#[derive(Clone, Copy, Debug, PartialEq, Eq, Structural)]
pub enum GuardStep {
    Stop,
    Bump(u32),
}

/// A device of the backlight or LED subsystems.
pub struct BrightnessDevice {
    subsystem: String,
    sysname: String,
    max_brightness: u32,
}

impl BrightnessDevice {
    /// The sysfs subsystem of the device.
    pub closed spec fn subsystem_name(&self) -> Seq<char> {
        self.subsystem@
    }

    /// The device's name within its subsystem.
    pub closed spec fn device_name(&self) -> Seq<char> {
        self.sysname@
    }

    pub open spec fn is_backlight(&self) -> bool {
        self.subsystem_name() == "backlight"@
    }

    pub closed spec fn spec_max(&self) -> u32 {
        self.max_brightness
    }

    /// The device, with the text read from its `max_brightness` file; nothing
    /// where that text is not a number.
    pub fn new(subsystem: &str, sysname: String, max_text: &str) -> (r: Option<Self>)
        ensures
            r is Some <==> u32_of(trimmed(max_text@)) is Some,
            r matches Some(d) ==> d.spec_max() == u32_of(trimmed(max_text@))->0 && d.subsystem_name() == subsystem@
                && d.device_name() == sysname@,
    {
        match read_brightness(max_text) {
            Some(max_brightness) => Some(BrightnessDevice { subsystem: String::from_str(subsystem), sysname, max_brightness }),
            None => None,
        }
    }

    pub fn subsystem(&self) -> (r: &str)
        ensures
            r@ == self.subsystem_name(),
    {
        self.subsystem.as_str()
    }

    pub fn sysname(&self) -> (r: &str)
        ensures
            r@ == self.device_name(),
    {
        self.sysname.as_str()
    }

    pub fn max_brightness(&self) -> (r: u32)
        ensures
            r == self.spec_max(),
    {
        self.max_brightness
    }

    /// The least level to set: a backlight with more than 20 levels is never
    /// set to 0.
    pub fn min_brightness(&self) -> (r: u32)
        ensures
            r == (if self.is_backlight() && self.spec_max() > 20 { 1u32 } else { 0u32 }),
    {
        if self.subsystem == String::from_str("backlight") {
            if self.max_brightness <= 20 {
                0
            } else {
                1
            }
        } else {
            0
        }
    }

    /// The level to set for a requested `value`: within the device's range.
    pub fn clamped(&self, value: u32) -> (r: u32)
        ensures
            r == (if value < self.min_brightness_spec() {
                self.min_brightness_spec()
            } else if value > self.spec_max() {
                self.spec_max()
            } else {
                value
            }),
    {
        let min = self.min_brightness();
        if value < min {
            min
        } else if value > self.max_brightness {
            self.max_brightness
        } else {
            value
        }
    }

    pub open spec fn min_brightness_spec(&self) -> u32 {
        if self.is_backlight() && self.spec_max() > 20 {
            1u32
        } else {
            0u32
        }
    }

    /// Whether a write of `target` is to be watched for a panel that stays dark:
    /// a non-zero target on a backlight, in the lowest twentieth of its range.
    pub fn needs_guard(&self, target: u32) -> (r: bool)
        ensures
            r == (self.is_backlight() && target != 0 && self.spec_max() != 0 && target <= self.spec_max() / 20),
    {
        if self.subsystem != String::from_str("backlight") || target == 0 {
            return false;
        }
        let max = self.max_brightness;
        if max == 0 {
            return false;
        }
        target <= max / 20
    }

    /// Whether the guard reads the panel's level again after `readings` readings:
    /// it reads three times at most.
    pub fn guard_may_read(&self, readings: u32) -> (r: bool)
        ensures
            r == (readings < 3),
    {
        readings < 3
    }

    /// After the level `current` settled and `actual` was read: stop where the
    /// panel shows light, no separate reading exists, the reading failed or the
    /// top is reached; else bump the level by one.
    pub fn guard_step(&self, current: u32, actual: Reading) -> (r: GuardStep)
        ensures
            r == (if actual == Reading::Value(0) && current < self.spec_max() {
                GuardStep::Bump((current + 1) as u32)
            } else {
                GuardStep::Stop
            }),
    {
        match actual {
            Reading::Value(0) => {
                if current >= self.max_brightness {
                    return GuardStep::Stop;
                }
                let next = if current < u32::MAX { current + 1 } else { current };
                let next = if next < self.max_brightness { next } else { self.max_brightness };
                if next == current {
                    return GuardStep::Stop;
                }
                GuardStep::Bump(next)
            },
            _ => GuardStep::Stop,
        }
    }
}

/// The device with the most levels, the first of those where several have as
/// many; nothing where no device has any level above 0.
pub fn best_backlight(devices: Vec<BrightnessDevice>) -> (r: Option<BrightnessDevice>)
    ensures
        r is None <==> forall|j: int| 0 <= j < devices@.len() ==> #[trigger] devices@[j].spec_max() == 0,
        r matches Some(d) ==> exists|i: int|
            0 <= i < devices@.len() && d == devices@[i] && d.spec_max() > 0
                && (forall|j: int| 0 <= j < devices@.len() ==> #[trigger] devices@[j].spec_max() <= d.spec_max())
                && (forall|j: int| 0 <= j < i ==> #[trigger] devices@[j].spec_max() < d.spec_max()),
{
    let mut devices = devices;
    let mut best: Option<usize> = None;
    let mut best_max: u32 = 0;
    let mut i: usize = 0;
    while i < devices.len()
        invariant
            i <= devices@.len(),
            best is None ==> best_max == 0 && forall|j: int| 0 <= j < i ==> #[trigger] devices@[j].spec_max() == 0,
            best matches Some(b) ==> b < i && devices@[b as int].spec_max() == best_max && best_max > 0
                && (forall|j: int| 0 <= j < i ==> #[trigger] devices@[j].spec_max() <= best_max)
                && (forall|j: int| 0 <= j < b ==> #[trigger] devices@[j].spec_max() < best_max),
        decreases devices@.len() - i,
    {
        let m = devices[i].max_brightness();
        if m > best_max {
            best_max = m;
            best = Some(i);
        }
        i = i + 1;
    }
    match best {
        Some(b) => {
            let ghost all = devices@;
            let d = devices.swap_remove(b);
            assert(d == all[b as int]);
            Some(d)
        },
        None => None,
    }
}

} // verus!
