use glance_github_graph::FetchError;
use glance_github_graph::parse_contribution_count;
use glance_github_graph::stats_from_markup;

fn calendar_markup() -> String {
    // three day cells, given out of date order, with tooltips keyed by id
    let mut page = String::new();
    page.push_str("<html><body>");
    page.push_str("<h2 id=\"js-contribution-activity-description\">17 contributions in the last year</h2>");
    page.push_str("<table><tr>");
    page.push_str("<td class=\"ContributionCalendar-day\" data-date=\"2024-01-02\" id=\"day-2\"></td>");
    page.push_str("<td class=\"ContributionCalendar-day\" data-date=\"2024-01-01\" id=\"day-1\"></td>");
    page.push_str("<td class=\"ContributionCalendar-day\" data-date=\"2024-01-03\" id=\"day-3\"></td>");
    page.push_str("</tr></table>");
    page.push_str("<tool-tip for=\"day-1\">No contributions on January 1st.</tool-tip>");
    page.push_str("<tool-tip for=\"day-2\">5 contributions on January 2nd.</tool-tip>");
    page.push_str("<tool-tip for=\"day-3\">12 contributions on January 3rd.</tool-tip>");
    page.push_str("</body></html>");
    page
}

#[test]
fn end_to_end_extraction() {
    let stats = stats_from_markup("alice", &calendar_markup()).unwrap();
    assert_eq!(stats.username, "alice");
    assert_eq!(stats.today, 12);
    assert_eq!(stats.quartiles, [0, 0, 5, 12, 12]);
    assert_eq!(stats.high_score.score, 12);
    assert_eq!(stats.high_score.date, "2024-01-03");
    assert_eq!(stats.current_streak, 2);
    assert_eq!(stats.longest_streak, 2);
    assert_eq!(stats.yearly_contributions, "17");
    // records come out sorted ascending by date
    let dates: Vec<&str> = stats.daily_contributions.iter().map(|r| r.0.as_str()).collect();
    assert_eq!(dates, vec!["2024-01-01", "2024-01-02", "2024-01-03"]);
    let counts: Vec<u32> = stats.daily_contributions.iter().map(|r| r.1).collect();
    assert_eq!(counts, vec![0, 5, 12]);
    assert_eq!(stats.daily_contributions[1].2, "5 contributions on January 2nd.");
}

#[test]
fn markup_without_day_cells_is_no_data() {
    let r = stats_from_markup("alice", "<html><body><p>nothing here</p></body></html>");
    assert_eq!(r, Err(FetchError::NoDataFound));
}

#[test]
fn cell_without_tooltip_counts_zero() {
    let page = "<table><tr><td class=\"ContributionCalendar-day\" data-date=\"2024-02-01\" id=\"d\"></td></tr></table>";
    let stats = stats_from_markup("bob", page).unwrap();
    assert_eq!(stats.daily_contributions.len(), 1);
    assert_eq!(stats.daily_contributions[0].1, 0);
    assert_eq!(stats.daily_contributions[0].2, "");
    assert_eq!(stats.yearly_contributions, "");
}

#[test]
fn cell_with_empty_date_is_skipped() {
    let page = "<table><tr><td class=\"ContributionCalendar-day\" data-date=\"2024-02-01\" id=\"a\"></td>\
        <td class=\"ContributionCalendar-day\" id=\"b\"></td></tr></table>\
        <tool-tip for=\"a\">3 contributions on February 1st.</tool-tip>\
        <tool-tip for=\"b\">9 contributions on February 2nd.</tool-tip>";
    let stats = stats_from_markup("bob", page).unwrap();
    assert_eq!(stats.daily_contributions.len(), 1);
    assert_eq!(stats.daily_contributions[0].0, "2024-02-01");
    // the dateless cell still participates in the high-score scan
    assert_eq!(stats.high_score.score, 9);
    assert_eq!(stats.high_score.date, "");
}

#[test]
fn high_score_first_occurrence_wins_on_ties() {
    let page = "<table><tr><td class=\"ContributionCalendar-day\" data-date=\"2024-03-02\" id=\"a\"></td>\
        <td class=\"ContributionCalendar-day\" data-date=\"2024-03-01\" id=\"b\"></td></tr></table>\
        <tool-tip for=\"a\">8 contributions on March 2nd.</tool-tip>\
        <tool-tip for=\"b\">8 contributions on March 1st.</tool-tip>";
    let stats = stats_from_markup("bob", page).unwrap();
    // both days have count 8; the first cell seen in document order wins
    assert_eq!(stats.high_score.score, 8);
    assert_eq!(stats.high_score.date, "2024-03-02");
}

#[test]
fn unparsable_tooltip_counts_zero() {
    let page = "<table><tr><td class=\"ContributionCalendar-day\" data-date=\"2024-02-01\" id=\"a\"></td></tr></table>\
        <tool-tip for=\"a\">Several contributions on February 1st.</tool-tip>";
    let stats = stats_from_markup("bob", page).unwrap();
    assert_eq!(stats.daily_contributions[0].1, 0);
    assert_eq!(stats.daily_contributions[0].2, "Several contributions on February 1st.");
}

#[test]
fn parse_count_of_no_contribution_phrase() {
    assert_eq!(parse_contribution_count("No contributions on July 14th."), Some(0));
}

#[test]
fn parse_count_of_leading_number() {
    assert_eq!(parse_contribution_count("7 contributions on September 1st."), Some(7));
    assert_eq!(parse_contribution_count("1 contribution on November 3rd."), Some(1));
    assert_eq!(parse_contribution_count("  12 contributions"), Some(12));
}

#[test]
fn parse_count_of_malformed_text() {
    assert_eq!(parse_contribution_count("many contributions"), None);
    assert_eq!(parse_contribution_count(""), None);
    assert_eq!(parse_contribution_count("   "), None);
    assert_eq!(parse_contribution_count("3,599 contributions"), None);
}
