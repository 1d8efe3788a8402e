//! Grid layout of the daily records: a 7-row grid growing column-wise, fixed
//! color bucket thresholds, hover texts, and month/weekday axis labels.
use vstd::prelude::*;

use crate::ContributionStats;
use crate::RecView;
use crate::color::derive_color_shades_with_bg;
use crate::color::shades_spec;
use crate::config::Config;
use crate::stats::counts_of;
use crate::stats::max_count_of;
use crate::templates::ContributionSvgGraphTemplate;
use crate::templates::GraphCell;
use crate::text::dec_of;
use crate::text::last_value_for;
use crate::text::lookup_last;
use crate::text::pair_views;
use crate::text::parse_bool_spec;
use crate::text::push_dec;
use crate::text::str_views;

verus! {

/// The shade index for a daily count; the thresholds are fixed constants.
pub open spec fn bucket(count: u32) -> int {
    if count > 15 {
        4
    } else if count > 8 {
        3
    } else if count > 4 {
        2
    } else if count > 0 {
        1
    } else {
        0
    }
}

/// The hover text of a record: its label when present, else a generated
/// `"date: N contributions"` line.
pub open spec fn hover_of(r: RecView) -> Seq<char> {
    if r.2.len() > 0 {
        r.2
    } else {
        r.0 + ": "@ + dec_of(r.1 as int) + " contributions"@
    }
}

/// The value of the last occurrence of `key` among the request parameters,
/// or the default.
pub open spec fn param_or(
    ps: Seq<(Seq<char>, Seq<char>)>,
    key: Seq<char>,
    dflt: Seq<char>,
) -> Seq<char> {
    match last_value_for(ps, key) {
        Some(v) => v,
        None => dflt,
    }
}

/// A boolean request parameter: the last occurrence of `key` when it parses
/// as a boolean, else the default.
pub open spec fn bool_param_or(
    ps: Seq<(Seq<char>, Seq<char>)>,
    key: Seq<char>,
    dflt: bool,
) -> bool {
    match last_value_for(ps, key) {
        Some(v) => match parse_bool_spec(v) {
            Some(b) => b,
            None => dflt,
        },
        None => dflt,
    }
}

pub uninterp spec fn month_num_of(s: Seq<char>) -> Option<u32>;

/// Relies on `chrono::NaiveDate::parse_from_str` (format `%Y-%m-%d`) and
/// `Datelike::month`: the month of a valid calendar date string.  The result
/// depends on the characters alone; chrono documents the month as `1..=12`.
#[verifier::external_body]
fn date_month(s: &str) -> (r: Option<u32>)
    ensures
        r == month_num_of(s@),
        r is Some ==> 1 <= r.unwrap() <= 12,
{
    chrono::NaiveDate::parse_from_str(s, "%Y-%m-%d").ok().map(|d| chrono::Datelike::month(&d))
}

/// The fixed three-letter abbreviation of month `m`.
pub open spec fn month_abbrev_of(m: u32) -> Seq<char> {
    if m == 1 { "Jan"@ }
    else if m == 2 { "Feb"@ }
    else if m == 3 { "Mar"@ }
    else if m == 4 { "Apr"@ }
    else if m == 5 { "May"@ }
    else if m == 6 { "Jun"@ }
    else if m == 7 { "Jul"@ }
    else if m == 8 { "Aug"@ }
    else if m == 9 { "Sep"@ }
    else if m == 10 { "Oct"@ }
    else if m == 11 { "Nov"@ }
    else { "Dec"@ }
}

fn month_abbrev(m: u32) -> (r: String)
    ensures
        r@ == month_abbrev_of(m),
{
    if m == 1 { "Jan".to_owned() }
    else if m == 2 { "Feb".to_owned() }
    else if m == 3 { "Mar".to_owned() }
    else if m == 4 { "Apr".to_owned() }
    else if m == 5 { "May".to_owned() }
    else if m == 6 { "Jun".to_owned() }
    else if m == 7 { "Jul".to_owned() }
    else if m == 8 { "Aug".to_owned() }
    else if m == 9 { "Sep".to_owned() }
    else if m == 10 { "Oct".to_owned() }
    else if m == 11 { "Nov".to_owned() }
    else { "Dec".to_owned() }
}

/// The date strings of a record sequence.
pub open spec fn dates_of(recs: Seq<RecView>) -> Seq<Seq<char>> {
    recs.map(|i: int, r: RecView| r.0)
}

/// The views of `(column, label)` pairs.
pub open spec fn label_views(s: Seq<(usize, String)>) -> Seq<(int, Seq<char>)> {
    s.map(|i: int, p: (usize, String)| (p.0 as int, p.1@))
}

/// The month labels emitted from index `i` on, given the previously emitted
/// month: one `(column, abbreviation)` pair whenever a record's month differs
/// from the last label; records whose date does not parse are passed over.
pub open spec fn month_labels_from(
    dates: Seq<Seq<char>>,
    i: int,
    last: Option<u32>,
) -> Seq<(int, Seq<char>)>
    decreases dates.len() - i,
{
    if i < 0 || i >= dates.len() {
        Seq::empty()
    } else {
        match month_num_of(dates[i]) {
            None => month_labels_from(dates, i + 1, last),
            Some(m) => if last == Some(m) {
                month_labels_from(dates, i + 1, last)
            } else {
                seq![(i / 7, month_abbrev_of(m))] + month_labels_from(dates, i + 1, Some(m))
            },
        }
    }
}

/// Emit the month labels for the ordered records.
fn month_labels(daily: &Vec<(String, u32, String)>) -> (r: Vec<(usize, String)>)
    ensures
        label_views(r@) == month_labels_from(dates_of(crate::rec_views(daily@)), 0, None),
{
    let ghost dates = dates_of(crate::rec_views(daily@));
    let mut out: Vec<(usize, String)> = Vec::new();
    let mut last: Option<u32> = None;
    let n = daily.len();
    let mut i: usize = 0;
    proof {
        assert(label_views(out@) =~= Seq::<(int, Seq<char>)>::empty());
        assert(month_labels_from(dates, 0, None) =~= label_views(out@) + month_labels_from(
            dates,
            0,
            None,
        ));
    }
    while i < n
        invariant
            i <= n,
            n == daily@.len(),
            dates == dates_of(crate::rec_views(daily@)),
            dates.len() == n,
            month_labels_from(dates, 0, None) == label_views(out@) + month_labels_from(
                dates,
                i as int,
                last,
            ),
        decreases n - i,
    {
        let m_opt = date_month(daily[i].0.as_str());
        proof {
            assert(dates[i as int] == daily@[i as int].0@);
        }
        match m_opt {
            None => {},
            Some(m) => {
                let emit = match last {
                    None => true,
                    Some(lm) => lm != m,
                };
                if emit {
                    let ghost pre = label_views(out@);
                    out.push((i / 7, month_abbrev(m)));
                    proof {
                        assert(label_views(out@) =~~= pre.push(((i / 7) as int, month_abbrev_of(m))));
                        assert((i / 7) as int == i as int / 7);
                        assert(month_labels_from(dates, i as int, last) =~= seq![
                            (i as int / 7, month_abbrev_of(m)),
                        ] + month_labels_from(dates, i + 1, Some(m)));
                        assert(pre + (seq![(i as int / 7, month_abbrev_of(m))]
                            + month_labels_from(dates, i + 1, Some(m))) =~= label_views(out@)
                            + month_labels_from(dates, i + 1, Some(m)));
                    }
                    last = Some(m);
                }
            },
        }
        i = i + 1;
    }
    proof {
        assert(month_labels_from(dates, n as int, last) =~= Seq::<(int, Seq<char>)>::empty());
        assert(label_views(out@) + Seq::<(int, Seq<char>)>::empty() =~= label_views(out@));
    }
    out
}

/// The layout of one cell against its record: position in the 7-row grid,
/// bucketed color, and hover text.
pub open spec fn cell_ok(c: GraphCell, r: RecView, i: int, shades: Seq<Seq<char>>) -> bool {
    &&& c.date@ == r.0
    &&& c.count == r.1
    &&& c.col == i / 7
    &&& c.row == i % 7
    &&& c.color@ == shades[bucket(r.1)]
    &&& c.hover_text@ == hover_of(r)
}

/// Lay the daily records out as a colored 7-row grid with axis labels,
/// resolving display options from the request parameters and configuration.
pub fn prepare_graph_template_data(
    stats: &ContributionStats,
    params: &Vec<(String, String)>,
    config: &Config,
) -> (t: ContributionSvgGraphTemplate)
    ensures
        ({
            let ps = pair_views(params@);
            let primary = param_or(ps, "primary-color"@, config.default_fg@);
            let bg = param_or(ps, "background-color"@, config.default_bg@);
            let shades = shades_spec(primary, bg, config.default_transition_hue);
            &&& t.stats@ == stats@
            &&& t.max_count == max_count_of(counts_of(stats@.daily))
            &&& t.primary_color@ == primary
            &&& str_views(t.color_shades@) == shades
            &&& t.svg_height@ == param_or(ps, "svg-height"@, config.default_svg_height@)
            &&& t.font_size@ == config.default_font_size@
            &&& t.show_months == bool_param_or(ps, "show-months"@, config.default_show_months)
            &&& t.show_weekdays == bool_param_or(
                ps,
                "show-weekdays"@,
                config.default_show_weekdays,
            )
            &&& t.cell_radius == config.cell_radius
            &&& label_views(t.weekday_labels@) == label_views(config.weekday_labels@)
            &&& label_views(t.month_labels@) == month_labels_from(
                dates_of(stats@.daily),
                0,
                None,
            )
            &&& t.cells@.len() == stats@.daily.len()
            &&& forall|i: int|
                0 <= i < stats@.daily.len() ==> cell_ok(
                    #[trigger] t.cells@[i],
                    stats@.daily[i],
                    i,
                    shades,
                )
        }),
{
    let primary_color = match lookup_last(params, "primary-color") {
        Some(v) => v,
        None => config.default_fg.clone(),
    };
    let bg_color = match lookup_last(params, "background-color") {
        Some(v) => v,
        None => config.default_bg.clone(),
    };
    let svg_height = match lookup_last(params, "svg-height") {
        Some(v) => v,
        None => config.default_svg_height.clone(),
    };
    let show_months = match lookup_last(params, "show-months") {
        Some(v) => match crate::text::parse_bool(v.as_str()) {
            Some(b) => b,
            None => config.default_show_months,
        },
        None => config.default_show_months,
    };
    let show_weekdays = match lookup_last(params, "show-weekdays") {
        Some(v) => match crate::text::parse_bool(v.as_str()) {
            Some(b) => b,
            None => config.default_show_weekdays,
        },
        None => config.default_show_weekdays,
    };
    let counts = crate::stats::counts_vec(&stats.daily_contributions);
    let max_count = crate::stats::compute_max_count(&counts);
    let color_shades = derive_color_shades_with_bg(
        primary_color.as_str(),
        bg_color.as_str(),
        config.default_transition_hue,
    );
    let ghost shades = shades_spec(
        primary_color@,
        bg_color@,
        config.default_transition_hue,
    );
    let n = stats.daily_contributions.len();
    let mut cells: Vec<GraphCell> = Vec::new();
    let mut i: usize = 0;
    while i < n
        invariant
            i <= n,
            n == stats@.daily.len(),
            n == stats.daily_contributions@.len(),
            color_shades@.len() == 5,
            str_views(color_shades@) == shades,
            cells@.len() == i,
            forall|k: int|
                0 <= k < i ==> cell_ok(#[trigger] cells@[k], stats@.daily[k], k, shades),
        decreases n - i,
    {
        let rec = &stats.daily_contributions[i];
        let count = rec.1;
        let color = if count > 15 {
            color_shades[4].clone()
        } else if count > 8 {
            color_shades[3].clone()
        } else if count > 4 {
            color_shades[2].clone()
        } else if count > 0 {
            color_shades[1].clone()
        } else {
            color_shades[0].clone()
        };
        proof {
            assert(color@ == str_views(color_shades@)[bucket(count)]);
        }
        let hover_text = if !rec.2.as_str().is_empty() {
            rec.2.clone()
        } else {
            let mut h = rec.0.clone();
            h.append(": ");
            push_dec(&mut h, count as u64);
            h.append(" contributions");
            proof {
                assert(h@ =~= rec.0@ + ": "@ + dec_of(count as int) + " contributions"@);
            }
            h
        };
        let cell = GraphCell {
            date: rec.0.clone(),
            count,
            col: i / 7,
            row: i % 7,
            color,
            hover_text,
        };
        proof {
            assert(stats@.daily[i as int] == (rec.0@, rec.1, rec.2@));
            assert(cell_ok(cell, stats@.daily[i as int], i as int, shades));
        }
        cells.push(cell);
        i = i + 1;
    }
    let month_label_vec = month_labels(&stats.daily_contributions);
    let mut weekday_labels: Vec<(usize, String)> = Vec::new();
    let wn = config.weekday_labels.len();
    let mut w: usize = 0;
    proof {
        assert(label_views(weekday_labels@) =~= label_views(config.weekday_labels@).take(0));
    }
    while w < wn
        invariant
            w <= wn,
            wn == config.weekday_labels@.len(),
            weekday_labels@.len() == w,
            label_views(weekday_labels@) == label_views(config.weekday_labels@).take(w as int),
        decreases wn - w,
    {
        let lab = &config.weekday_labels[w];
        let ghost prevec = weekday_labels@;
        weekday_labels.push((lab.0, lab.1.clone()));
        proof {
            let cv = label_views(config.weekday_labels@);
            assert(weekday_labels@.len() == w + 1);
            assert forall|k: int|
                0 <= k < w + 1 implies label_views(weekday_labels@)[k] == cv.take(w + 1)[k] by {
                if k < w {
                    assert(weekday_labels@[k] == prevec[k]);
                    assert(label_views(prevec) == cv.take(w as int));
                    assert(label_views(weekday_labels@)[k] == label_views(prevec)[k]);
                } else {
                    assert(weekday_labels@[k].0 == config.weekday_labels@[k].0);
                    assert(weekday_labels@[k].1@ == config.weekday_labels@[k].1@);
                }
            }
            assert(label_views(weekday_labels@) =~~= cv.take(w + 1));
        }
        w = w + 1;
    }
    proof {
        assert(label_views(config.weekday_labels@).take(wn as int) =~= label_views(
            config.weekday_labels@,
        ));
    }
    ContributionSvgGraphTemplate {
        stats: stats.clone(),
        max_count,
        cells,
        show_months,
        svg_height,
        font_size: config.default_font_size.clone(),
        show_weekdays,
        primary_color,
        color_shades,
        month_labels: month_label_vec,
        weekday_labels,
        cell_radius: config.cell_radius,
    }
}

} // verus!
