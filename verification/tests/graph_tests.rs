use glance_github_graph::ContributionStats;
use glance_github_graph::HighScore;
use glance_github_graph::config::Config;
use glance_github_graph::graph::prepare_graph_template_data;
use glance_github_graph::templates::ContributionGraphHtmlTemplate;
use glance_github_graph::templates::ContributionStatsTemplate;

fn stats_with_days(days: Vec<(&str, u32, &str)>) -> ContributionStats {
    let daily: Vec<(String, u32, String)> =
        days.iter().map(|(d, c, l)| (d.to_string(), *c, l.to_string())).collect();
    let today = daily.last().map(|r| r.1).unwrap_or(0);
    ContributionStats {
        username: "alice".to_string(),
        today,
        current_streak: 0,
        longest_streak: 0,
        high_score: HighScore { score: 0, date: String::new() },
        quartiles: [0, 1, 2, 3, 4],
        daily_contributions: daily,
        yearly_contributions: String::new(),
    }
}

#[test]
fn eighth_record_sits_in_second_column_first_row() {
    let stats = stats_with_days(vec![
        ("2024-01-01", 1, ""),
        ("2024-01-02", 1, ""),
        ("2024-01-03", 1, ""),
        ("2024-01-04", 1, ""),
        ("2024-01-05", 1, ""),
        ("2024-01-06", 1, ""),
        ("2024-01-07", 1, ""),
        ("2024-01-08", 1, ""),
    ]);
    let t = prepare_graph_template_data(&stats, &vec![], &Config::defaults());
    assert_eq!(t.cells.len(), 8);
    assert_eq!(t.cells[7].col, 1);
    assert_eq!(t.cells[7].row, 0);
    assert_eq!(t.cells[6].col, 0);
    assert_eq!(t.cells[6].row, 6);
}

#[test]
fn color_buckets_follow_fixed_thresholds() {
    let stats = stats_with_days(vec![
        ("2024-01-01", 0, ""),
        ("2024-01-02", 1, ""),
        ("2024-01-03", 4, ""),
        ("2024-01-04", 5, ""),
        ("2024-01-05", 8, ""),
        ("2024-01-06", 9, ""),
        ("2024-01-07", 15, ""),
        ("2024-01-08", 16, ""),
    ]);
    let t = prepare_graph_template_data(&stats, &vec![], &Config::defaults());
    let shades = &t.color_shades;
    assert_eq!(t.cells[0].color, shades[0]);
    assert_eq!(t.cells[1].color, shades[1]);
    assert_eq!(t.cells[2].color, shades[1]);
    assert_eq!(t.cells[3].color, shades[2]);
    assert_eq!(t.cells[4].color, shades[2]);
    assert_eq!(t.cells[5].color, shades[3]);
    assert_eq!(t.cells[6].color, shades[3]);
    assert_eq!(t.cells[7].color, shades[4]);
    assert_eq!(t.max_count, 16);
}

#[test]
fn hover_text_prefers_label_and_falls_back() {
    let stats = stats_with_days(vec![
        ("2024-01-01", 3, ""),
        ("2024-01-02", 5, "5 contributions on January 2nd."),
    ]);
    let t = prepare_graph_template_data(&stats, &vec![], &Config::defaults());
    assert_eq!(t.cells[0].hover_text, "2024-01-01: 3 contributions");
    assert_eq!(t.cells[1].hover_text, "5 contributions on January 2nd.");
}

#[test]
fn month_labels_emitted_on_month_change() {
    let stats = stats_with_days(vec![
        ("2024-01-30", 1, ""),
        ("2024-01-31", 1, ""),
        ("2024-02-01", 1, ""),
        ("2024-02-02", 1, ""),
        ("not-a-date", 1, ""),
        ("2024-03-05", 1, ""),
    ]);
    let t = prepare_graph_template_data(&stats, &vec![], &Config::defaults());
    assert_eq!(
        t.month_labels,
        vec![(0, "Jan".to_string()), (0, "Feb".to_string()), (0, "Mar".to_string())]
    );
}

#[test]
fn weekday_labels_are_fixed() {
    let stats = stats_with_days(vec![("2024-01-01", 1, "")]);
    let t = prepare_graph_template_data(&stats, &vec![], &Config::defaults());
    assert_eq!(
        t.weekday_labels,
        vec![(1, "Mon".to_string()), (3, "Wed".to_string()), (5, "Fri".to_string())]
    );
}

#[test]
fn query_parameters_override_defaults() {
    let stats = stats_with_days(vec![("2024-01-01", 1, "")]);
    let params: Vec<(String, String)> = vec![
        ("primary-color".to_string(), "#ff0000".to_string()),
        ("svg-height".to_string(), "200".to_string()),
        ("show-months".to_string(), "false".to_string()),
        ("show-weekdays".to_string(), "bogus".to_string()),
    ];
    let t = prepare_graph_template_data(&stats, &params, &Config::defaults());
    assert_eq!(t.primary_color, "#ff0000");
    assert_eq!(t.svg_height, "200");
    assert!(!t.show_months);
    // an unparsable flag falls back to the configured default
    assert!(t.show_weekdays);
    assert_eq!(t.cell_radius, 2);
    assert_eq!(t.font_size, "12");
}

#[test]
fn later_duplicate_parameter_wins() {
    let stats = stats_with_days(vec![("2024-01-01", 1, "")]);
    let params: Vec<(String, String)> = vec![
        ("svg-height".to_string(), "150".to_string()),
        ("svg-height".to_string(), "175".to_string()),
    ];
    let t = prepare_graph_template_data(&stats, &params, &Config::defaults());
    assert_eq!(t.svg_height, "175");
}

#[test]
fn quartile_displays_join_values() {
    let stats = stats_with_days(vec![("2024-01-01", 1, "")]);
    let stats_template = ContributionStatsTemplate::new(stats.clone(), true);
    assert_eq!(stats_template.quartiles_string, "0 1 2 3 4");
    assert_eq!(stats_template.quartiles_display(), "0, 1, 2, 3, 4");
    let svg = prepare_graph_template_data(&stats, &vec![], &Config::defaults());
    let html = ContributionGraphHtmlTemplate::new(svg);
    assert_eq!(html.quartiles, "0 1 2 3 4");
    assert_eq!(html.quartiles_display(), "0, 1, 2, 3, 4");
}

#[test]
fn default_configuration_values() {
    let c = Config::defaults();
    assert!(!c.cache_enabled);
    assert_eq!(c.cache_type, "memory");
    assert_eq!(c.cache_duration_secs, 3600);
    assert_eq!(c.cache_file_path, "cache.json");
    assert_eq!(c.default_fg, "#40c463");
    assert_eq!(c.default_bg, "#ebedf0");
    assert_eq!(c.default_svg_height, "110");
    assert!(c.default_show_months);
    assert!(c.default_show_weekdays);
    assert!(!c.default_transition_hue);
}
