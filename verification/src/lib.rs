//! Contribution-calendar statistics: extraction of per-day activity records
//! from fetched markup, aggregate statistics (streaks, quartiles, high score),
//! a TTL-based cache, color-gradient derivation and grid layout.
use vstd::prelude::*;

pub mod cache;
pub mod color;
pub mod config;
pub mod extract;
pub mod graph;
pub mod sorting;
pub mod stats;
pub mod templates;
pub mod text;

verus! {

/// The date of the maximum daily count; on ties the earliest date seen in a
/// single left-to-right scan wins.
#[derive(Debug, PartialEq)]
pub struct HighScore {
    pub score: u32,
    pub date: String,
}

/// Mathematical content of a `HighScore`.
#[verifier::ext_equal]
pub struct HighScoreView {
    pub score: u32,
    pub date: Seq<char>,
}

impl View for HighScore {
    type V = HighScoreView;

    open spec fn view(&self) -> HighScoreView {
        HighScoreView { score: self.score, date: self.date@ }
    }
}

impl Clone for HighScore {
    fn clone(&self) -> (r: Self)
        ensures
            r@ == self@,
    {
        HighScore { score: self.score, date: self.date.clone() }
    }
}

/// One day's record as `(date, count, label)`, at the level of views.
pub type RecView = (Seq<char>, u32, Seq<char>);

/// The views of a sequence of `(date, count, label)` records.
pub open spec fn rec_views(s: Seq<(String, u32, String)>) -> Seq<RecView> {
    s.map(|i: int, r: (String, u32, String)| (r.0@, r.1, r.2@))
}

/// Aggregate statistics for one user, immutable once produced.
/// `daily_contributions` holds `(date, count, label)` records in ascending
/// date order; it is never empty in a well-formed value.
#[derive(Debug, PartialEq)]
pub struct ContributionStats {
    pub username: String,
    pub today: u32,
    pub current_streak: u32,
    pub longest_streak: u32,
    pub high_score: HighScore,
    pub quartiles: [u32; 5],
    pub daily_contributions: Vec<(String, u32, String)>,
    pub yearly_contributions: String,
}

/// Mathematical content of a `ContributionStats`.
#[verifier::ext_equal]
pub struct StatsView {
    pub username: Seq<char>,
    pub today: u32,
    pub current_streak: u32,
    pub longest_streak: u32,
    pub high_score: HighScoreView,
    pub quartiles: Seq<u32>,
    pub daily: Seq<RecView>,
    pub yearly: Seq<char>,
}

impl View for ContributionStats {
    type V = StatsView;

    open spec fn view(&self) -> StatsView {
        StatsView {
            username: self.username@,
            today: self.today,
            current_streak: self.current_streak,
            longest_streak: self.longest_streak,
            high_score: self.high_score@,
            quartiles: self.quartiles@,
            daily: rec_views(self.daily_contributions@),
            yearly: self.yearly_contributions@,
        }
    }
}

impl Clone for ContributionStats {
    fn clone(&self) -> (r: Self)
        ensures
            r@ == self@,
    {
        let mut daily: Vec<(String, u32, String)> = Vec::new();
        let n = self.daily_contributions.len();
        let mut i: usize = 0;
        while i < n
            invariant
                i <= n,
                n == self.daily_contributions@.len(),
                daily@.len() == i,
                rec_views(daily@) =~~= rec_views(self.daily_contributions@).take(i as int),
            decreases n - i,
        {
            let rec = &self.daily_contributions[i];
            let ghost pre = daily@;
            daily.push((rec.0.clone(), rec.1, rec.2.clone()));
            proof {
                let ghost orig = rec_views(self.daily_contributions@);
                assert(daily@.len() == i + 1);
                assert forall|k: int| 0 <= k < i + 1 implies rec_views(daily@)[k] == orig.take(
                    i + 1,
                )[k] by {
                    if k < i {
                        assert(daily@[k] == pre[k]);
                        assert(rec_views(pre) == orig.take(i as int));
                        assert(rec_views(daily@)[k] == rec_views(pre)[k]);
                    } else {
                        assert(daily@[k].0@ == self.daily_contributions@[k].0@);
                        assert(daily@[k].1 == self.daily_contributions@[k].1);
                        assert(daily@[k].2@ == self.daily_contributions@[k].2@);
                    }
                }
                assert(rec_views(daily@) =~~= rec_views(self.daily_contributions@).take(i + 1));
            }
            i = i + 1;
        }
        proof {
            assert(rec_views(daily@) =~~= rec_views(self.daily_contributions@));
        }
        let r = ContributionStats {
            username: self.username.clone(),
            today: self.today,
            current_streak: self.current_streak,
            longest_streak: self.longest_streak,
            high_score: self.high_score.clone(),
            quartiles: self.quartiles,
            daily_contributions: daily,
            yearly_contributions: self.yearly_contributions.clone(),
        };
        proof {
            assert(r@ =~~= self@);
        }
        r
    }
}

/// How obtaining fresh statistics can fail.  Cache and color failures are
/// handled locally and never surface through this type.
#[derive(Clone, Copy, Debug, PartialEq, Eq, Structural)]
pub enum FetchError {
    /// The upstream source could not be reached.
    UpstreamUnavailable,
    /// The upstream response body could not be read.
    UpstreamUnreadable,
    /// The markup was parsed but held no day cells.
    NoDataFound,
}

/// Ascending order of records by date string; zero-padded ISO dates make the
/// lexicographic order agree with the chronological one.
pub open spec fn date_le() -> spec_fn(RecView, RecView) -> bool {
    |a: RecView, b: RecView| crate::text::lex_le(a.0, b.0)
}

pub proof fn lemma_date_le_props()
    ensures
        crate::sorting::le_total(date_le()),
        crate::sorting::le_transitive(date_le()),
{
    let le = date_le();
    assert forall|a: RecView, b: RecView| #[trigger] le(a, b) || #[trigger] le(b, a) by {
        crate::text::lemma_lex_le_total(a.0, b.0);
    }
    assert forall|a: RecView, b: RecView, c: RecView|
        #[trigger] le(a, b) && #[trigger] le(b, c) implies le(a, c) by {
        crate::text::lemma_lex_le_trans(a.0, b.0, c.0);
    }
}

/// The count a tooltip text stands for: the fixed "No contributions" phrase
/// means 0; otherwise its first whitespace-delimited token read as a number.
pub open spec fn count_of_text(t: Seq<char>) -> Option<u32> {
    if t.len() >= 16 && t.take(16) == "No contributions"@ {
        Some(0)
    } else {
        crate::text::parse_u32_spec(crate::text::first_token(t))
    }
}

/// Parse the leading count out of a day cell's descriptive text.
pub fn parse_contribution_count(text: &str) -> (r: Option<u32>)
    ensures
        r == count_of_text(text@),
{
    let n = text.unicode_len();
    if n >= 16 {
        let head = text.substring_char(0, 16);
        proof {
            assert(text@.take(16) =~= text@.subrange(0, 16));
        }
        if crate::text::str_eq(head, "No contributions") {
            return Some(0);
        }
    }
    let tok = crate::text::first_token_str(text);
    crate::text::parse_u32(tok.as_str())
}

/// The count of the cell whose tooltip reference is `id`: absent tooltip or
/// unparsable text count as 0 (extraction is lenient, it never fails on a
/// single cell).
pub open spec fn cell_count(tips: Seq<(Seq<char>, Seq<char>)>, id: Seq<char>) -> u32 {
    match crate::text::last_value_for(tips, id) {
        Some(t) => match count_of_text(t) {
            Some(c) => c,
            None => 0,
        },
        None => 0,
    }
}

/// The label of the cell whose tooltip reference is `id`: the tooltip text,
/// or empty when there is none.
pub open spec fn cell_label(tips: Seq<(Seq<char>, Seq<char>)>, id: Seq<char>) -> Seq<char> {
    match crate::text::last_value_for(tips, id) {
        Some(t) => t,
        None => Seq::empty(),
    }
}

/// One record per day cell, in document order, empty dates included.
pub open spec fn raw_records_of(
    tips: Seq<(Seq<char>, Seq<char>)>,
    cells: Seq<(Seq<char>, Seq<char>)>,
) -> Seq<RecView> {
    cells.map(|i: int, c: (Seq<char>, Seq<char>)| (c.0, cell_count(tips, c.1), cell_label(tips, c.1)))
}

/// The records whose date is non-empty, in their original order.
pub open spec fn dated_only(recs: Seq<RecView>) -> Seq<RecView>
    decreases recs.len(),
{
    if recs.len() == 0 {
        Seq::empty()
    } else if recs.last().0.len() > 0 {
        dated_only(recs.drop_last()).push(recs.last())
    } else {
        dated_only(recs.drop_last())
    }
}

/// A well-formed statistics snapshot: non-empty daily records in ascending
/// date order, with every aggregate agreeing with them.
pub open spec fn stats_wf(s: ContributionStats) -> bool {
    &&& s@.daily.len() > 0
    &&& crate::sorting::sorted_by_le(s@.daily, date_le())
    &&& s@.quartiles == crate::stats::quartiles_of(crate::stats::counts_of(s@.daily))
    &&& crate::sorting::sorted_by_le(s@.quartiles, crate::stats::u32_le())
    &&& s@.current_streak == crate::stats::current_streak_of(crate::stats::counts_of(s@.daily))
    &&& s@.longest_streak == crate::stats::longest_streak_of(crate::stats::counts_of(s@.daily))
    &&& s@.today == crate::stats::counts_of(s@.daily).last()
}

/// Build the statistics snapshot from the extracted tooltip and day-cell
/// pairs.  Fails with `NoDataFound` exactly when no cell has a date.
pub fn build_contribution_stats(
    username: &str,
    tooltips: &Vec<(String, String)>,
    cells: &Vec<(String, String)>,
    yearly: String,
) -> (r: Result<ContributionStats, FetchError>)
    requires
        cells@.len() <= u32::MAX,
    ensures
        ({
            let raw = raw_records_of(
                crate::text::pair_views(tooltips@),
                crate::text::pair_views(cells@),
            );
            let filtered = dated_only(raw);
            &&& (r is Err <==> filtered.len() == 0)
            &&& (r is Err ==> r == Err::<ContributionStats, FetchError>(FetchError::NoDataFound))
            &&& (r is Ok ==> ({
                let s = r.unwrap();
                let daily = crate::sorting::isort(filtered, date_le());
                let counts = crate::stats::counts_of(daily);
                &&& s.username@ == username@
                &&& s@.daily == daily
                &&& s@.yearly == yearly@
                &&& s.today == counts.last()
                &&& s.current_streak == crate::stats::current_streak_of(counts)
                &&& s.longest_streak == crate::stats::longest_streak_of(counts)
                &&& s.high_score@.score == high_score_of_raw(raw).0
                &&& s.high_score@.date == high_score_of_raw(raw).1
                &&& s.quartiles@ == crate::stats::quartiles_of(counts)
                &&& stats_wf(s)
            }))
        }),
{
    let ghost tips_v = crate::text::pair_views(tooltips@);
    let ghost cells_v = crate::text::pair_views(cells@);
    let ghost raw = raw_records_of(tips_v, cells_v);
    let n = cells.len();
    let mut dated: Vec<(String, u32, String)> = Vec::new();
    let mut hs_score: u32 = 0;
    let mut hs_date: String = String::new();
    let mut i: usize = 0;
    proof {
        assert(rec_views(dated@) =~= dated_only(raw.take(0)));
        assert(raw.take(0) =~= Seq::<RecView>::empty());
    }
    while i < n
        invariant
            i <= n,
            n == cells@.len(),
            tips_v == crate::text::pair_views(tooltips@),
            cells_v == crate::text::pair_views(cells@),
            raw == raw_records_of(tips_v, cells_v),
            raw.len() == n,
            dated@.len() <= i,
            rec_views(dated@) == dated_only(raw.take(i as int)),
            hs_score == high_score_of_raw(raw.take(i as int)).0,
            hs_date@ == high_score_of_raw(raw.take(i as int)).1,
        decreases n - i,
    {
        let cell = &cells[i];
        let tip = crate::text::lookup_last(tooltips, cell.1.as_str());
        let count: u32;
        let label: String;
        match tip {
            Some(t) => {
                count = match parse_contribution_count(t.as_str()) {
                    Some(c) => c,
                    None => 0,
                };
                label = t;
            },
            None => {
                count = 0;
                label = String::new();
            },
        }
        proof {
            assert(cells_v[i as int] == (cell.0@, cell.1@));
            assert(raw[i as int] == (cell.0@, cell_count(tips_v, cell.1@), cell_label(
                tips_v,
                cell.1@,
            )));
            assert(count == cell_count(tips_v, cell.1@));
            assert(label@ == cell_label(tips_v, cell.1@));
            assert(raw.take(i + 1).drop_last() =~= raw.take(i as int));
            assert(raw.take(i + 1).last() == raw[i as int]);
        }
        if count > hs_score {
            hs_score = count;
            hs_date = cell.0.clone();
        }
        if !cell.0.as_str().is_empty() {
            let ghost pre = rec_views(dated@);
            dated.push((cell.0.clone(), count, label));
            proof {
                assert(rec_views(dated@) =~~= pre.push(raw[i as int]));
            }
        } else {
            proof {
                assert(raw[i as int].0.len() == 0);
            }
        }
        i = i + 1;
    }
    proof {
        assert(raw.take(n as int) =~= raw);
    }
    if dated.len() == 0 {
        proof {
            assert(dated_only(raw).len() == 0);
        }
        return Err(FetchError::NoDataFound);
    }
    let ghost filtered = dated_only(raw);
    let sorted = crate::stats::sort_records(dated);
    let ghost daily = crate::sorting::isort(filtered, date_le());
    let counts = crate::stats::counts_vec(&sorted);
    proof {
        lemma_date_le_props();
        crate::sorting::lemma_isort_multiset(filtered, date_le());
        crate::sorting::lemma_isort_sorted(filtered, date_le());
        assert(counts@.len() == daily.len());
        assert(counts@.len() > 0);
    }
    let today = counts[counts.len() - 1];
    let streaks = crate::stats::compute_streaks(&counts);
    let quartiles = crate::stats::compute_quartiles(&counts);
    proof {
        crate::stats::lemma_quartiles_nondecreasing(counts@);
    }
    let result = ContributionStats {
        username: username.to_owned(),
        today,
        current_streak: streaks.0,
        longest_streak: streaks.1,
        high_score: HighScore { score: hs_score, date: hs_date },
        quartiles,
        daily_contributions: sorted,
        yearly_contributions: yearly,
    };
    Ok(result)
}

/// The maximum count and the date of its first occurrence over the raw cell
/// scan (empty-date cells included); `(0, "")` when no count is positive.
pub open spec fn high_score_of_raw(recs: Seq<RecView>) -> (u32, Seq<char>)
    decreases recs.len(),
{
    if recs.len() == 0 {
        (0u32, Seq::<char>::empty())
    } else {
        let prev = high_score_of_raw(recs.drop_last());
        if recs.last().1 > prev.0 {
            (recs.last().1, recs.last().0)
        } else {
            prev
        }
    }
}

/// The yearly-total text carried by the summary heading: the first
/// whitespace-delimited token of its text, empty when the page has no such
/// heading.
pub open spec fn yearly_of_heading(h: Option<Seq<char>>) -> Seq<char> {
    match h {
        Some(t) => crate::text::first_token(t),
        None => Seq::empty(),
    }
}

/// Extract a user's statistics from fetched markup: parse the document,
/// collect tooltip and day-cell data, and derive the aggregates.  Every
/// success is a well-formed snapshot for that user; the only failure is
/// `NoDataFound`, raised when the markup holds no dated day cells (or, far
/// beyond any real page, more day cells than the streak counters can hold).
pub fn stats_from_markup(username: &str, markup: &str) -> (r: Result<ContributionStats, FetchError>)
    ensures
        r is Ok ==> stats_wf(r.unwrap()) && r.unwrap().username@ == username@,
        r is Err ==> r == Err::<ContributionStats, FetchError>(FetchError::NoDataFound),
        ({
            let raw = raw_records_of(
                crate::extract::tooltip_pairs_of(markup@),
                crate::extract::day_cell_pairs_of(markup@),
            );
            let filtered = dated_only(raw);
            crate::extract::day_cell_pairs_of(markup@).len() <= u32::MAX ==> {
                &&& (r is Err <==> filtered.len() == 0)
                &&& (r is Ok ==> ({
                    let s = r.unwrap();
                    let daily = crate::sorting::isort(filtered, date_le());
                    let counts = crate::stats::counts_of(daily);
                    &&& s@.daily == daily
                    &&& s@.yearly == yearly_of_heading(crate::extract::heading_text_of(markup@))
                    &&& s.today == counts.last()
                    &&& s.current_streak == crate::stats::current_streak_of(counts)
                    &&& s.longest_streak == crate::stats::longest_streak_of(counts)
                    &&& s.high_score@.score == high_score_of_raw(raw).0
                    &&& s.high_score@.date == high_score_of_raw(raw).1
                    &&& s.quartiles@ == crate::stats::quartiles_of(counts)
                }))
            }
        }),
{
    let tooltips = crate::extract::tooltip_entries(markup);
    let cells = crate::extract::day_cell_entries(markup);
    let yearly = match crate::extract::summary_heading_text(markup) {
        Some(t) => crate::text::first_token_str(t.as_str()),
        None => String::new(),
    };
    proof {
        assert(yearly@ == yearly_of_heading(crate::extract::heading_text_of(markup@)));
    }
    if cells.len() as u64 > u32::MAX as u64 {
        return Err(FetchError::NoDataFound);
    }
    build_contribution_stats(username, &tooltips, &cells, yearly)
}

} // verus!
