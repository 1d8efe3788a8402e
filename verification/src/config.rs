//! Process-wide configuration with its hardcoded defaults.  Reading the
//! environment happens outside the library; callers override fields on the
//! default value.
use vstd::prelude::*;

verus! {

/// Recognized options, read-only after startup.
pub struct Config {
    pub cache_enabled: bool,
    pub cache_type: String,
    pub cache_duration_secs: u64,
    pub cache_file_path: String,
    pub default_fg: String,
    pub default_bg: String,
    pub default_svg_height: String,
    pub default_show_months: bool,
    pub default_show_weekdays: bool,
    pub cell_radius: u32,
    pub weekday_labels: Vec<(usize, String)>,
    pub default_transition_hue: bool,
    pub default_font_size: String,
}

impl Config {
    /// The hardcoded defaults, used for every option that is absent.
    pub fn defaults() -> (r: Config)
        ensures
            r.cache_enabled == false,
            r.cache_type@ == "memory"@,
            r.cache_duration_secs == 3600,
            r.cache_file_path@ == "cache.json"@,
            r.default_fg@ == "#40c463"@,
            r.default_bg@ == "#ebedf0"@,
            r.default_svg_height@ == "110"@,
            r.default_show_months == true,
            r.default_show_weekdays == true,
            r.cell_radius == 2,
            r.weekday_labels@.len() == 3,
            r.weekday_labels@[0].0 == 1 && r.weekday_labels@[0].1@ == "Mon"@,
            r.weekday_labels@[1].0 == 3 && r.weekday_labels@[1].1@ == "Wed"@,
            r.weekday_labels@[2].0 == 5 && r.weekday_labels@[2].1@ == "Fri"@,
            r.default_transition_hue == false,
            r.default_font_size@ == "12"@,
    {
        let mut weekday_labels: Vec<(usize, String)> = Vec::new();
        weekday_labels.push((1, "Mon".to_owned()));
        weekday_labels.push((3, "Wed".to_owned()));
        weekday_labels.push((5, "Fri".to_owned()));
        Config {
            cache_enabled: false,
            cache_type: "memory".to_owned(),
            cache_duration_secs: 3600,
            cache_file_path: "cache.json".to_owned(),
            default_fg: "#40c463".to_owned(),
            default_bg: "#ebedf0".to_owned(),
            default_svg_height: "110".to_owned(),
            default_show_months: true,
            default_show_weekdays: true,
            cell_radius: 2,
            weekday_labels,
            default_transition_hue: false,
            default_font_size: "12".to_owned(),
        }
    }
}

} // verus!
