//! The system's light or dark appearance.
use vstd::prelude::*;

verus! {

/// The appearance the system reports.
#[derive(Clone, Copy, Debug, PartialEq, Eq)]
pub enum ColorScheme {
    Dark,
    Light,
    /// The system states no preference.
    Default,
}

/// The theme the interface follows.
pub struct ThemeInfo {
    pub theme: String,
    pub is_dark: bool,
}

/// `dark_light::detect`: the system's appearance, as its variant. What it
/// returns depends on the system's settings; nothing is claimed of it.
#[verifier::external_body]
fn detect_scheme() -> (s: ColorScheme) {
    match dark_light::detect() {
        dark_light::Mode::Dark => ColorScheme::Dark,
        dark_light::Mode::Light => ColorScheme::Light,
        dark_light::Mode::Default => ColorScheme::Default,
    }
}

/// Dark for a dark appearance; light otherwise.
pub fn theme_info_for(scheme: ColorScheme) -> (t: ThemeInfo)
    ensures
        t.is_dark == (scheme == ColorScheme::Dark),
        t.theme@ == if t.is_dark {
            "dark"@
        } else {
            "light"@
        },
{
    let is_dark = match scheme {
        ColorScheme::Dark => true,
        ColorScheme::Light => false,
        ColorScheme::Default => false,
    };
    ThemeInfo {
        theme: if is_dark {
            String::from_str("dark")
        } else {
            String::from_str("light")
        },
        is_dark,
    }
}

/// The theme that matches the system's appearance.
pub fn get_system_theme() -> (r: Result<ThemeInfo, String>)
    ensures
        r matches Ok(t) && t.theme@ == if t.is_dark {
            "dark"@
        } else {
            "light"@
        },
{
    Ok(theme_info_for(detect_scheme()))
}

} // verus!
