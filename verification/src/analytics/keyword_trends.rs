//! Keyword frequencies over time.
//!
//! A keyword's counts are kept in time order, one count per moment (a Unix
//! time in seconds). Averages, slopes and normalized values are real
//! numbers; the caller computes them from the sums, counts and ranges that
//! the series gives here.
use vstd::prelude::*;
use crate::clock::{utc_display, utc_text};
use crate::text::{chars_of, decimal, push_decimal, push_str, same_chars, string_of, extend_chars};

verus! {

/// Trend direction indicator.
#[derive(Debug, Clone, Copy, PartialEq, Eq, Structural)]
pub enum TrendDirection {
    /// Strongly increasing
    Rising,
    /// Slightly increasing
    SlightlyRising,
    /// Stable, no significant change
    Stable,
    /// Slightly decreasing
    SlightlyFalling,
    /// Strongly decreasing
    Falling,
}

/// Errors of trend analysis.
#[derive(Debug)]
pub enum TrendError {
    /// At least `.0` points are needed, `.1` were there.
    InsufficientData(usize, usize),
    /// The start of a range is not before its end.
    InvalidTimeRange(i64, i64),
    /// The moving-average window size is unusable.
    InvalidWindowSize(usize),
    /// No data where data was asked for.
    KeywordNotFound(String),
}

/// A moment written in decimal, with a minus sign when negative.
pub open spec fn signed_decimal(t: int) -> Seq<char> {
    if t >= 0 { decimal(t as nat) } else { seq!['-'] + decimal((-t) as nat) }
}

/// How a moment is shown in messages: as chrono shows it, or in decimal
/// outside chrono's range.
pub open spec fn shown_time(t: i64) -> Seq<char> {
    match utc_text(t) {
        Some(s) => s,
        None => signed_decimal(t as int),
    }
}

fn push_time(out: &mut Vec<char>, t: i64)
    ensures
        final(out)@ == old(out)@ + shown_time(t),
{
    match utc_display(t) {
        Some(s) => {
            let c = chars_of(s.as_str());
            extend_chars(out, c.as_slice());
        },
        None => {
            if t >= 0 {
                push_decimal(out, t as u64);
            } else {
                out.push('-');
                let m: i128 = -(t as i128);
                push_decimal(out, m as u64);
                proof {
                    assert(seq!['-'] + decimal((-t) as nat) =~= seq!['-'] + decimal(m as u64 as nat));
                }
            }
        },
    }
    proof {
        assert(final(out)@ =~= old(out)@ + shown_time(t));
    }
}

/// The message of a trend error.
pub open spec fn trend_error_text(e: TrendError) -> Seq<char> {
    match e {
        TrendError::InsufficientData(need, got) => "Insufficient data points: need at least "@ + decimal(
            need as nat,
        ) + ", got "@ + decimal(got as nat),
        TrendError::InvalidTimeRange(start, end) => "Invalid time range: start "@ + shown_time(start)
            + " is after end "@ + shown_time(end),
        TrendError::InvalidWindowSize(n) => "Invalid window size: "@ + decimal(n as nat),
        TrendError::KeywordNotFound(k) => "Keyword not found: "@ + k@,
    }
}

impl TrendError {
    /// The error's message.
    pub fn message(&self) -> (r: String)
        ensures
            r@ == trend_error_text(*self),
    {
        let mut m: Vec<char> = Vec::new();
        match self {
            TrendError::InsufficientData(need, got) => {
                push_str(&mut m, "Insufficient data points: need at least ");
                push_decimal(&mut m, *need as u64);
                push_str(&mut m, ", got ");
                push_decimal(&mut m, *got as u64);
            },
            TrendError::InvalidTimeRange(start, end) => {
                push_str(&mut m, "Invalid time range: start ");
                push_time(&mut m, *start);
                push_str(&mut m, " is after end ");
                push_time(&mut m, *end);
            },
            TrendError::InvalidWindowSize(n) => {
                push_str(&mut m, "Invalid window size: ");
                push_decimal(&mut m, *n as u64);
            },
            TrendError::KeywordNotFound(k) => {
                push_str(&mut m, "Keyword not found: ");
                push_str(&mut m, k.as_str());
            },
        }
        string_of(m.as_slice())
    }
}

/// The count of a keyword at one moment.
#[derive(Debug, Clone, Copy, PartialEq, Eq, Structural)]
pub struct DataPoint {
    /// Unix time in seconds
    pub timestamp: i64,
    /// Frequency count at this time
    pub count: u64,
}

impl DataPoint {
    /// Create a new data point.
    pub fn new(timestamp: i64, count: u64) -> (r: Self)
        ensures
            r.timestamp == timestamp,
            r.count == count,
    {
        DataPoint { timestamp, count }
    }
}

/// Points in strictly increasing time.
pub open spec fn time_ordered(s: Seq<DataPoint>) -> bool {
    forall|i: int, j: int| 0 <= i < j < s.len() ==> (#[trigger] s[i]).timestamp < (#[trigger] s[j]).timestamp
}

/// `k` is where a point at time `t` belongs: after every earlier point and
/// before the others.
pub open spec fn is_slot(s: Seq<DataPoint>, t: i64, k: int) -> bool {
    &&& 0 <= k <= s.len()
    &&& forall|j: int| 0 <= j < k ==> (#[trigger] s[j]).timestamp < t
    &&& forall|j: int| k <= j < s.len() ==> (#[trigger] s[j]).timestamp >= t
}

/// Where a point at time `t` belongs.
pub open spec fn slot(s: Seq<DataPoint>, t: i64) -> int {
    choose|k: int| is_slot(s, t, k)
}

/// The series with point `p` recorded: it replaces the point at the same
/// time, or is put in its place in time order.
pub open spec fn placed(s: Seq<DataPoint>, p: DataPoint) -> Seq<DataPoint> {
    let k = slot(s, p.timestamp);
    if k < s.len() && s[k].timestamp == p.timestamp {
        s.update(k, p)
    } else {
        s.insert(k, p)
    }
}

/// Some point is at time `t`.
pub open spec fn has_time(s: Seq<DataPoint>, t: i64) -> bool {
    exists|i: int| 0 <= i < s.len() && (#[trigger] s[i]).timestamp == t
}

/// The position of the point at time `t` (when there is one).
pub open spec fn time_index(s: Seq<DataPoint>, t: i64) -> int {
    choose|i: int| 0 <= i < s.len() && (#[trigger] s[i]).timestamp == t
}

/// The count recorded at time `t`, if any.
pub open spec fn count_at(s: Seq<DataPoint>, t: i64) -> Option<u64> {
    if has_time(s, t) {
        Some(s[time_index(s, t)].count)
    } else {
        None
    }
}

/// The sum of the counts of some points.
pub open spec fn sum_counts(s: Seq<DataPoint>) -> int
    decreases s.len(),
{
    if s.len() == 0 {
        0
    } else {
        sum_counts(s.drop_last()) + s.last().count
    }
}

/// The counts of some points, in order.
pub open spec fn counts_of(s: Seq<DataPoint>) -> Seq<u64> {
    s.map_values(|p: DataPoint| p.count)
}

/// The points whose time lies in `[start, end]`, in order.
pub open spec fn points_between(s: Seq<DataPoint>, start: i64, end: i64) -> Seq<DataPoint>
    decreases s.len(),
{
    if s.len() == 0 {
        s
    } else if start <= s.last().timestamp <= end {
        points_between(s.drop_last(), start, end).push(s.last())
    } else {
        points_between(s.drop_last(), start, end)
    }
}

proof fn lemma_slot(s: Seq<DataPoint>, t: i64, k: int)
    requires
        is_slot(s, t, k),
    ensures
        slot(s, t) == k,
{
    let c = slot(s, t);
    assert(is_slot(s, t, c));
    if c < k {
        assert(s[c].timestamp < t);
    } else if k < c {
        assert(s[k].timestamp < t);
    }
}

proof fn lemma_slot_exists(s: Seq<DataPoint>, t: i64)
    requires
        time_ordered(s),
    ensures
        is_slot(s, t, slot(s, t)),
    decreases s.len(),
{
    if s.len() == 0 {
        assert(is_slot(s, t, 0));
    } else {
        let d = s.drop_last();
        assert(time_ordered(d)) by {
            assert forall|i: int, j: int| 0 <= i < j < d.len() implies (#[trigger] d[i]).timestamp < (
            #[trigger] d[j]).timestamp by {
                assert(d[i] == s[i] && d[j] == s[j]);
            }
        }
        lemma_slot_exists(d, t);
        let k = slot(d, t);
        if s.last().timestamp < t {
            assert forall|j: int| 0 <= j < s.len() implies (#[trigger] s[j]).timestamp < t by {
                if j < s.len() - 1 {
                    assert(s[j].timestamp < s[s.len() - 1].timestamp);
                }
            }
            assert(is_slot(s, t, s.len() as int));
        } else {
            assert forall|j: int| 0 <= j < k implies (#[trigger] s[j]).timestamp < t by {
                assert(d[j] == s[j]);
            }
            assert forall|j: int| k <= j < s.len() implies (#[trigger] s[j]).timestamp >= t by {
                if j < s.len() - 1 {
                    assert(d[j] == s[j]);
                }
            }
            assert(is_slot(s, t, k));
        }
    }
}

proof fn lemma_time_index(s: Seq<DataPoint>, t: i64, i: int)
    requires
        time_ordered(s),
        0 <= i < s.len(),
        s[i].timestamp == t,
    ensures
        has_time(s, t),
        time_index(s, t) == i,
        count_at(s, t) == Some(s[i].count),
{
    let j = time_index(s, t);
    assert(0 <= j < s.len() && s[j].timestamp == t);
    if j < i {
        assert(s[j].timestamp < s[i].timestamp);
    } else if i < j {
        assert(s[i].timestamp < s[j].timestamp);
    }
}

proof fn lemma_placed(s: Seq<DataPoint>, p: DataPoint)
    requires
        time_ordered(s),
    ensures
        time_ordered(placed(s, p)),
        count_at(placed(s, p), p.timestamp) == Some(p.count),
        forall|t: i64| t != p.timestamp ==> #[trigger] count_at(placed(s, p), t) == count_at(s, t),
        placed(s, p).len() == s.len() + if has_time(s, p.timestamp) { 0int } else { 1int },
{
    lemma_slot_exists(s, p.timestamp);
    let k = slot(s, p.timestamp);
    let n = placed(s, p);
    let t0 = p.timestamp;
    if k < s.len() && s[k].timestamp == t0 {
        assert(n == s.update(k, p));
        assert forall|i: int, j: int| 0 <= i < j < n.len() implies (#[trigger] n[i]).timestamp < (
        #[trigger] n[j]).timestamp by {
            assert(s[i].timestamp < s[j].timestamp);
        }
        lemma_time_index(n, t0, k);
        lemma_time_index(s, t0, k);
        assert forall|t: i64| t != t0 implies #[trigger] count_at(n, t) == count_at(s, t) by {
            if has_time(s, t) {
                let i = time_index(s, t);
                assert(n[i] == s[i]);
                lemma_time_index(n, t, i);
            } else if has_time(n, t) {
                let i = time_index(n, t);
                assert(n[i] == s[i]);
            }
        }
    } else {
        assert(n == s.insert(k, p));
        assert forall|j: int| k <= j < s.len() implies (#[trigger] s[j]).timestamp > t0 by {
            if j > k {
                assert(s[k].timestamp < s[j].timestamp);
            }
        }
        assert forall|i: int, j: int| 0 <= i < j < n.len() implies (#[trigger] n[i]).timestamp < (
        #[trigger] n[j]).timestamp by {
            if j < k {
                assert(s[i].timestamp < s[j].timestamp);
            } else if j == k {
                assert(s[i].timestamp < t0);
            } else if i < k {
                assert(n[j] == s[j - 1]);
                assert(s[i].timestamp < t0);
            } else if i == k {
                assert(n[j] == s[j - 1]);
            } else {
                assert(n[i] == s[i - 1] && n[j] == s[j - 1]);
                assert(s[i - 1].timestamp < s[j - 1].timestamp);
            }
        }
        assert(n[k] == p);
        lemma_time_index(n, t0, k);
        assert(!has_time(s, t0)) by {
            if has_time(s, t0) {
                let i = time_index(s, t0);
                if i < k {
                    assert(s[i].timestamp < t0);
                } else {
                    assert(s[i].timestamp > t0);
                }
            }
        }
        assert forall|t: i64| t != t0 implies #[trigger] count_at(n, t) == count_at(s, t) by {
            if has_time(s, t) {
                let i = time_index(s, t);
                let i2 = if i < k { i } else { i + 1 };
                assert(n[i2] == s[i]);
                lemma_time_index(n, t, i2);
            } else if has_time(n, t) {
                let i = time_index(n, t);
                if i < k {
                    assert(n[i] == s[i]);
                } else if i > k {
                    assert(n[i] == s[i - 1]);
                }
            }
        }
    }
}

/// Where the moving-average window ending at position `pos` starts.
pub open spec fn window_start(pos: int, window: int) -> int {
    if pos >= window - 1 { pos - (window - 1) } else { 0 }
}

fn no_data_at(t: i64) -> (r: String)
    ensures
        r@ == "No data at "@ + shown_time(t),
{
    let mut m: Vec<char> = Vec::new();
    push_str(&mut m, "No data at ");
    push_time(&mut m, t);
    string_of(m.as_slice())
}

/// A keyword's counts over time.
#[derive(Debug)]
pub struct KeywordTrend {
    keyword: String,
    data: Vec<DataPoint>,
    window_size: usize,
}

impl KeywordTrend {
    /// The keyword being tracked.
    pub closed spec fn spec_keyword(&self) -> String {
        self.keyword
    }

    /// The keyword being tracked.
    pub fn keyword(&self) -> (r: &String)
        ensures
            *r == self.spec_keyword(),
    {
        &self.keyword
    }

    /// The points, in time order.
    pub closed spec fn series(&self) -> Seq<DataPoint> {
        self.data@
    }

    /// The number of points a moving average spans.
    pub closed spec fn spec_window(&self) -> usize {
        self.window_size
    }

    /// The points are in strictly increasing time.
    pub open spec fn wf(&self) -> bool {
        time_ordered(self.series())
    }

    /// A tracker for `keyword` with no points; the moving average spans
    /// `window_size` points (7 by default).
    pub fn new(keyword: String, window_size: Option<usize>) -> (r: Self)
        ensures
            r.wf(),
            r.spec_keyword() == keyword,
            r.series().len() == 0,
            r.spec_window() == match window_size {
                Some(w) => w,
                None => 7,
            },
    {
        let w = match window_size {
            Some(w) => w,
            None => 7,
        };
        KeywordTrend { keyword, data: Vec::new(), window_size: w }
    }

    /// Record the count at a moment, replacing a count recorded at the same
    /// moment.
    pub fn add_point(&mut self, timestamp: i64, count: u64)
        requires
            old(self).wf(),
        ensures
            final(self).wf(),
            final(self).spec_keyword() == old(self).spec_keyword(),
            final(self).spec_window() == old(self).spec_window(),
            final(self).series() == placed(old(self).series(), DataPoint { timestamp, count }),
    {
        let p = DataPoint::new(timestamp, count);
        let mut k: usize = 0;
        let n = self.data.len();
        while k < n && self.data[k].timestamp < timestamp
            invariant
                n == self.data@.len(),
                k <= n,
                forall|j: int| 0 <= j < k ==> (#[trigger] self.data@[j]).timestamp < timestamp,
            decreases n - k,
        {
            k = k + 1;
        }
        proof {
            let s = self.data@;
            assert forall|j: int| k <= j < s.len() implies (#[trigger] s[j]).timestamp >= timestamp by {
                if j > k {
                    assert(s[k as int].timestamp < s[j].timestamp);
                }
            }
            assert(is_slot(s, timestamp, k as int));
            lemma_slot(s, timestamp, k as int);
            lemma_placed(s, p);
        }
        if k < n && self.data[k].timestamp == timestamp {
            self.data.set(k, p);
        } else {
            self.data.insert(k, p);
        }
    }

    /// Record several counts, in order.
    pub fn add_points(&mut self, points: Vec<(i64, u64)>)
        requires
            old(self).wf(),
        ensures
            final(self).wf(),
            final(self).spec_keyword() == old(self).spec_keyword(),
            final(self).spec_window() == old(self).spec_window(),
            final(self).series() == all_placed(old(self).series(), points@),
    {
        let mut i: usize = 0;
        while i < points.len()
            invariant
                i <= points@.len(),
                self.wf(),
                self.spec_keyword() == old(self).spec_keyword(),
                self.spec_window() == old(self).spec_window(),
                self.series() == all_placed(old(self).series(), points@.take(i as int)),
            decreases points@.len() - i,
        {
            let (t, c) = points[i];
            self.add_point(t, c);
            proof {
                assert(points@.take(i + 1).drop_last() =~= points@.take(i as int));
            }
            i = i + 1;
        }
        proof {
            assert(points@.take(points@.len() as int) =~= points@);
        }
    }

    /// The number of points a moving average spans.
    pub fn window_size(&self) -> (r: usize)
        ensures
            r == self.spec_window(),
    {
        self.window_size
    }

    /// Get the number of data points.
    pub fn len(&self) -> (r: usize)
        ensures
            r == self.series().len(),
    {
        self.data.len()
    }

    /// Check if there are no data points.
    pub fn is_empty(&self) -> (r: bool)
        ensures
            r == (self.series().len() == 0),
    {
        self.data.len() == 0
    }

    fn find_time(&self, t: i64) -> (r: Option<usize>)
        requires
            self.wf(),
        ensures
            match r {
                Some(i) => i < self.series().len() && self.series()[i as int].timestamp == t && time_index(
                    self.series(),
                    t,
                ) == i && has_time(self.series(), t),
                None => !has_time(self.series(), t),
            },
    {
        let mut i: usize = 0;
        while i < self.data.len()
            invariant
                i <= self.data@.len(),
                time_ordered(self.data@),
                forall|j: int| 0 <= j < i ==> (#[trigger] self.data@[j]).timestamp != t,
            decreases self.data@.len() - i,
        {
            if self.data[i].timestamp == t {
                proof {
                    lemma_time_index(self.data@, t, i as int);
                }
                return Some(i);
            }
            i = i + 1;
        }
        None
    }

    /// The points whose time lies in `[start, end]`, in time order.
    pub fn data_range(&self, start: i64, end: i64) -> (r: Vec<DataPoint>)
        ensures
            r@ == points_between(self.series(), start, end),
    {
        let mut out: Vec<DataPoint> = Vec::new();
        let mut i: usize = 0;
        while i < self.data.len()
            invariant
                i <= self.data@.len(),
                out@ == points_between(self.data@.take(i as int), start, end),
            decreases self.data@.len() - i,
        {
            let p = self.data[i];
            proof {
                assert(self.data@.take(i + 1).drop_last() =~= self.data@.take(i as int));
            }
            if start <= p.timestamp && p.timestamp <= end {
                out.push(p);
            }
            i = i + 1;
        }
        proof {
            assert(self.data@.take(self.data@.len() as int) =~= self.data@);
        }
        out
    }

    /// The moving-average window ending at the point at `timestamp`: the
    /// sum of the counts of that point and of up to `window - 1` points
    /// before it, and how many points that is. `None` when no point is at
    /// `timestamp`.
    pub fn moving_window(&self, timestamp: i64) -> (r: Option<(u128, usize)>)
        requires
            self.wf(),
            self.spec_window() > 0,
        ensures
            r is Some == has_time(self.series(), timestamp),
            r matches Some((sum, n)) ==> {
                let pos = time_index(self.series(), timestamp);
                let start = window_start(pos, self.spec_window() as int);
                &&& n == pos - start + 1
                &&& sum == sum_counts(self.series().subrange(start, pos + 1))
            },
    {
        let pos = match self.find_time(timestamp) {
            Some(p) => p,
            None => {
                return None;
            },
        };
        let w1 = self.window_size - 1;
        let start: usize = if pos >= w1 {
            pos - w1
        } else {
            0
        };
        let len = self.data.len();
        let mut sum: u128 = 0;
        let mut i: usize = start;
        while i <= pos
            invariant
                start <= i <= pos + 1,
                len == self.data@.len(),
                pos < len,
                sum == sum_counts(self.data@.subrange(start as int, i as int)),
                sum <= (i - start) * 0xFFFF_FFFF_FFFF_FFFFu64,
            decreases pos + 1 - i,
        {
            let c = self.data[i].count;
            proof {
                assert(self.data@.subrange(start as int, i + 1).drop_last() =~= self.data@.subrange(
                    start as int,
                    i as int,
                ));
                assert((i - start + 1) * 0xFFFF_FFFF_FFFF_FFFFu64 <= 0xFFFF_FFFF_FFFF_FFFFu64 * 0xFFFF_FFFF_FFFF_FFFFu64)
                    by (nonlinear_arith)
                    requires
                        i - start + 1 <= 0xFFFF_FFFF_FFFF_FFFFu64,
                ;
                assert(sum + c <= (i - start + 1) * 0xFFFF_FFFF_FFFF_FFFFu64) by (nonlinear_arith)
                    requires
                        sum <= (i - start) * 0xFFFF_FFFF_FFFF_FFFFu64,
                        c <= 0xFFFF_FFFF_FFFF_FFFFu64,
                ;
            }
            sum = sum + c as u128;
            i = i + 1;
        }
        Some((sum, pos - start + 1))
    }

    /// The counts of the last `recent_points` points (the window size when
    /// not given), oldest first. At least two points are needed, in the
    /// series and among those taken.
    pub fn recent_counts(&self, recent_points: Option<usize>) -> (r: Result<Vec<u64>, TrendError>)
        ensures
            ({
                let s = self.series();
                let n = match recent_points {
                    Some(n) => n as int,
                    None => self.spec_window() as int,
                };
                let take = if n < s.len() { n } else { s.len() as int };
                if s.len() < 2 {
                    r matches Err(TrendError::InsufficientData(need, got)) && need == 2 && got == s.len()
                } else if take < 2 {
                    r matches Err(TrendError::InsufficientData(need, got)) && need == 2 && got == take
                } else {
                    r matches Ok(v) && v@ == counts_of(s.subrange(s.len() - take, s.len() as int))
                }
            }),
    {
        let len = self.data.len();
        if len < 2 {
            return Err(TrendError::InsufficientData(2, len));
        }
        let n = match recent_points {
            Some(n) => n,
            None => self.window_size,
        };
        let take = if n < len {
            n
        } else {
            len
        };
        if take < 2 {
            return Err(TrendError::InsufficientData(2, take));
        }
        let from = len - take;
        let mut out: Vec<u64> = Vec::new();
        let mut i: usize = from;
        while i < len
            invariant
                from <= i <= len,
                len == self.data@.len(),
                out@ == counts_of(self.data@.subrange(from as int, i as int)),
            decreases len - i,
        {
            out.push(self.data[i].count);
            proof {
                assert(counts_of(self.data@.subrange(from as int, i + 1)) =~= counts_of(
                    self.data@.subrange(from as int, i as int),
                ).push(self.data@[i as int].count));
            }
            i = i + 1;
        }
        Ok(out)
    }

    /// The counts at `start` and at `end`, from which the percent change
    /// between them is computed. The start must come before the end, and
    /// both moments must have a point.
    pub fn change_counts(&self, start: i64, end: i64) -> (r: Result<(u64, u64), TrendError>)
        requires
            self.wf(),
        ensures
            start >= end ==> (r matches Err(TrendError::InvalidTimeRange(a, b)) && a == start && b == end),
            start < end && !has_time(self.series(), start) ==> (r matches Err(TrendError::KeywordNotFound(m))
                && m@ == "No data at "@ + shown_time(start)),
            start < end && has_time(self.series(), start) && !has_time(self.series(), end) ==> (r matches Err(
                TrendError::KeywordNotFound(m),
            ) && m@ == "No data at "@ + shown_time(end)),
            start < end && has_time(self.series(), start) && has_time(self.series(), end) ==> r == Ok::<
                (u64, u64),
                TrendError,
            >((count_at(self.series(), start)->0, count_at(self.series(), end)->0)),
    {
        if start >= end {
            return Err(TrendError::InvalidTimeRange(start, end));
        }
        let a = match self.find_time(start) {
            Some(i) => self.data[i].count,
            None => {
                return Err(TrendError::KeywordNotFound(no_data_at(start)));
            },
        };
        let b = match self.find_time(end) {
            Some(i) => self.data[i].count,
            None => {
                return Err(TrendError::KeywordNotFound(no_data_at(end)));
            },
        };
        Ok((a, b))
    }

    /// The smallest and the largest count, from which counts are normalized
    /// to `[0, 1]`; `None` without points.
    pub fn count_range(&self) -> (r: Option<(u64, u64)>)
        ensures
            r is None == (self.series().len() == 0),
            r matches Some((lo, hi)) ==> {
                &&& exists|i: int| 0 <= i < self.series().len() && (#[trigger] self.series()[i]).count == lo
                &&& exists|i: int| 0 <= i < self.series().len() && (#[trigger] self.series()[i]).count == hi
                &&& forall|i: int| 0 <= i < self.series().len() ==> lo <= (#[trigger] self.series()[i]).count <= hi
            },
    {
        if self.data.len() == 0 {
            return None;
        }
        let mut lo = self.data[0].count;
        let mut hi = self.data[0].count;
        let mut ilo: usize = 0;
        let mut ihi: usize = 0;
        let mut i: usize = 1;
        while i < self.data.len()
            invariant
                1 <= i <= self.data@.len(),
                ilo < i && ihi < i,
                self.data@[ilo as int].count == lo,
                self.data@[ihi as int].count == hi,
                forall|j: int| 0 <= j < i ==> lo <= (#[trigger] self.data@[j]).count <= hi,
            decreases self.data@.len() - i,
        {
            let c = self.data[i].count;
            if c < lo {
                lo = c;
                ilo = i;
            }
            if c > hi {
                hi = c;
                ihi = i;
            }
            i = i + 1;
        }
        proof {
            assert(self.series()[ilo as int].count == lo);
            assert(self.series()[ihi as int].count == hi);
        }
        Some((lo, hi))
    }

    /// All data points, in time order.
    pub fn data_points(&self) -> (r: Vec<DataPoint>)
        ensures
            r@ == self.series(),
    {
        self.data.clone()
    }
}

/// The series after recording the (time, count) pairs in order.
pub open spec fn all_placed(s: Seq<DataPoint>, points: Seq<(i64, u64)>) -> Seq<DataPoint>
    decreases points.len(),
{
    if points.len() == 0 {
        s
    } else {
        placed(all_placed(s, points.drop_last()), DataPoint { timestamp: points.last().0, count: points.last().1 })
    }
}

/// Some trend tracks keyword `k`.
pub open spec fn has_keyword(ts: Seq<KeywordTrend>, k: Seq<char>) -> bool {
    exists|i: int| 0 <= i < ts.len() && (#[trigger] ts[i]).spec_keyword()@ == k
}

/// The position of the trend of keyword `k` (when there is one).
pub open spec fn keyword_index(ts: Seq<KeywordTrend>, k: Seq<char>) -> int {
    choose|i: int| 0 <= i < ts.len() && (#[trigger] ts[i]).spec_keyword()@ == k
}

/// Each keyword is tracked once.
pub open spec fn keywords_distinct(ts: Seq<KeywordTrend>) -> bool {
    forall|i: int, j: int|
        0 <= i < j < ts.len() ==> (#[trigger] ts[i]).spec_keyword()@ != (#[trigger] ts[j]).spec_keyword()@
}

proof fn lemma_keyword_index(ts: Seq<KeywordTrend>, k: Seq<char>, i: int)
    requires
        keywords_distinct(ts),
        0 <= i < ts.len(),
        ts[i].spec_keyword()@ == k,
    ensures
        has_keyword(ts, k),
        keyword_index(ts, k) == i,
{
    let j = keyword_index(ts, k);
    assert(0 <= j < ts.len() && ts[j].spec_keyword()@ == k);
    if j < i {
        assert(ts[j].spec_keyword()@ != ts[i].spec_keyword()@);
    } else if i < j {
        assert(ts[i].spec_keyword()@ != ts[j].spec_keyword()@);
    }
}

/// The trends after point `p` of keyword `k` is recorded: the keyword's
/// trend gets the point; a new keyword gets a trend of its own, last, with
/// just that point. The other trends stay as they were.
pub open spec fn observed(olds: Seq<KeywordTrend>, news: Seq<KeywordTrend>, k: Seq<char>, p: DataPoint) -> bool {
    if has_keyword(olds, k) {
        let i = keyword_index(olds, k);
        &&& news.len() == olds.len()
        &&& forall|j: int| 0 <= j < olds.len() && j != i ==> #[trigger] news[j] == olds[j]
        &&& news[i].spec_keyword() == olds[i].spec_keyword()
        &&& news[i].series() == placed(olds[i].series(), p)
    } else {
        &&& news.len() == olds.len() + 1
        &&& forall|j: int| 0 <= j < olds.len() ==> #[trigger] news[j] == olds[j]
        &&& news.last().spec_keyword()@ == k
        &&& news.last().series() == seq![p]
    }
}

/// The trends of many keywords.
#[derive(Debug)]
pub struct TrendAnalyzer {
    trends: Vec<KeywordTrend>,
    default_window_size: usize,
}

impl TrendAnalyzer {
    /// The trends, in the order their keywords were first seen.
    pub closed spec fn spec_trends(&self) -> Seq<KeywordTrend> {
        self.trends@
    }

    /// The window size of new trends.
    pub closed spec fn spec_default_window(&self) -> usize {
        self.default_window_size
    }

    /// Each keyword once, every trend in time order with the default window.
    pub open spec fn wf(&self) -> bool {
        &&& keywords_distinct(self.spec_trends())
        &&& forall|i: int| 0 <= i < self.spec_trends().len() ==> (#[trigger] self.spec_trends()[i]).wf()
        &&& forall|i: int|
            0 <= i < self.spec_trends().len() ==> (#[trigger] self.spec_trends()[i]).spec_window()
                == self.spec_default_window()
    }

    /// An analyzer with no keywords; new trends average over `window_size`
    /// points (7 by default).
    pub fn new(window_size: Option<usize>) -> (r: Self)
        ensures
            r.wf(),
            r.spec_trends().len() == 0,
            r.spec_default_window() == match window_size {
                Some(w) => w,
                None => 7,
            },
    {
        let w = match window_size {
            Some(w) => w,
            None => 7,
        };
        TrendAnalyzer { trends: Vec::new(), default_window_size: w }
    }

    fn find(&self, k: &[char]) -> (r: Option<usize>)
        ensures
            match r {
                Some(i) => i < self.trends@.len() && self.trends@[i as int].spec_keyword()@ == k@,
                None => !has_keyword(self.trends@, k@),
            },
    {
        let mut i: usize = 0;
        while i < self.trends.len()
            invariant
                i <= self.trends@.len(),
                forall|j: int| 0 <= j < i ==> (#[trigger] self.trends@[j]).spec_keyword()@ != k@,
            decreases self.trends@.len() - i,
        {
            let name = chars_of(self.trends[i].keyword().as_str());
            if same_chars(name.as_slice(), k) {
                return Some(i);
            }
            i = i + 1;
        }
        None
    }

    /// Record the count of a keyword at a moment, starting a trend for a
    /// new keyword.
    pub fn add_observation(&mut self, keyword: &str, timestamp: i64, count: u64)
        requires
            old(self).wf(),
        ensures
            final(self).wf(),
            final(self).spec_default_window() == old(self).spec_default_window(),
            observed(old(self).spec_trends(), final(self).spec_trends(), keyword@, DataPoint { timestamp, count }),
    {
        let k = chars_of(keyword);
        let ghost olds = self.trends@;
        match self.find(k.as_slice()) {
            Some(i) => {
                proof {
                    lemma_keyword_index(olds, keyword@, i as int);
                }
                let mut t = KeywordTrend::new(String::new(), None);
                std::mem::swap(&mut t, &mut self.trends[i]);
                proof {
                    assert(t == olds[i as int]);
                }
                t.add_point(timestamp, count);
                std::mem::swap(&mut t, &mut self.trends[i]);
                proof {
                    let ns = self.trends@;
                    assert(ns == olds.update(i as int, ns[i as int]));
                    assert(ns[i as int].series() == placed(olds[i as int].series(), DataPoint { timestamp, count }));
                    assert forall|a: int, b: int| 0 <= a < b < ns.len() implies (#[trigger] ns[a]).spec_keyword()@
                        != (#[trigger] ns[b]).spec_keyword()@ by {
                        assert(olds[a].spec_keyword()@ != olds[b].spec_keyword()@);
                    }
                }
            },
            None => {
                let mut t = KeywordTrend::new(string_of(k.as_slice()), Some(self.default_window_size));
                proof {
                    assert(t.series() =~= Seq::<DataPoint>::empty());
                }
                t.add_point(timestamp, count);
                proof {
                    let e = Seq::<DataPoint>::empty();
                    lemma_slot(e, timestamp, 0);
                    assert(placed(e, DataPoint { timestamp, count }) =~= seq![DataPoint { timestamp, count }]);
                }
                self.trends.push(t);
                proof {
                    let ns = self.trends@;
                    assert forall|a: int, b: int| 0 <= a < b < ns.len() implies (#[trigger] ns[a]).spec_keyword()@
                        != (#[trigger] ns[b]).spec_keyword()@ by {
                        if b == ns.len() - 1 {
                            assert(ns[a] == olds[a]);
                        } else {
                            assert(olds[a].spec_keyword()@ != olds[b].spec_keyword()@);
                        }
                    }
                }
            },
        }
    }

    /// The trend of a keyword.
    pub fn get_trend(&self, keyword: &str) -> (r: Option<&KeywordTrend>)
        requires
            self.wf(),
        ensures
            r is Some == has_keyword(self.spec_trends(), keyword@),
            r matches Some(t) ==> *t == self.spec_trends()[keyword_index(self.spec_trends(), keyword@)],
    {
        let k = chars_of(keyword);
        match self.find(k.as_slice()) {
            Some(i) => {
                proof {
                    lemma_keyword_index(self.trends@, keyword@, i as int);
                }
                Some(&self.trends[i])
            },
            None => None,
        }
    }

    /// The trend of a keyword, to change in place. What the caller does
    /// with it becomes the keyword's trend.
    pub fn get_trend_mut(&mut self, keyword: &str) -> (r: Option<&mut KeywordTrend>)
        requires
            old(self).wf(),
        ensures
            r is Some == has_keyword(old(self).spec_trends(), keyword@),
            final(self).spec_default_window() == old(self).spec_default_window(),
            match r {
                Some(t) => {
                    let i = keyword_index(old(self).spec_trends(), keyword@);
                    &&& *t == old(self).spec_trends()[i]
                    &&& final(self).spec_trends() == old(self).spec_trends().update(i, *final(t))
                },
                None => final(self).spec_trends() == old(self).spec_trends(),
            },
    {
        let k = chars_of(keyword);
        match self.find(k.as_slice()) {
            Some(i) => {
                proof {
                    lemma_keyword_index(self.trends@, keyword@, i as int);
                }
                Some(&mut self.trends[i])
            },
            None => None,
        }
    }

    /// The keywords tracked, in the order they were first seen.
    pub fn keywords(&self) -> (r: Vec<String>)
        ensures
            r@.len() == self.spec_trends().len(),
            forall|i: int| 0 <= i < r@.len() ==> (#[trigger] r@[i])@ == self.spec_trends()[i].spec_keyword()@,
    {
        let mut out: Vec<String> = Vec::new();
        let mut i: usize = 0;
        while i < self.trends.len()
            invariant
                i <= self.trends@.len(),
                out@.len() == i,
                forall|j: int| 0 <= j < i ==> (#[trigger] out@[j])@ == self.trends@[j].spec_keyword()@,
            decreases self.trends@.len() - i,
        {
            let c = chars_of(self.trends[i].keyword().as_str());
            out.push(string_of(c.as_slice()));
            i = i + 1;
        }
        out
    }
}

/// Recording a count keeps the series in time order; the count is read
/// back at its moment, and every other moment keeps its count.
pub proof fn recorded_count_is_read_back(before: KeywordTrend, after: KeywordTrend, timestamp: i64, count: u64, t: i64)
    requires
        before.wf(),
        after.series() == placed(before.series(), DataPoint { timestamp, count }),
    ensures
        after.wf(),
        count_at(after.series(), timestamp) == Some(count),
        t != timestamp ==> count_at(after.series(), t) == count_at(before.series(), t),
        after.series().len() == before.series().len() + if has_time(before.series(), timestamp) {
            0int
        } else {
            1int
        },
{
    lemma_placed(before.series(), DataPoint { timestamp, count });
}

/// After an observation, the keyword has a trend, and that trend reads
/// back the observed count at the observed moment.
pub proof fn observation_is_read_back(before: TrendAnalyzer, after: TrendAnalyzer, keyword: Seq<char>, timestamp: i64, count: u64)
    requires
        before.wf(),
        after.wf(),
        observed(before.spec_trends(), after.spec_trends(), keyword, DataPoint { timestamp, count }),
    ensures
        has_keyword(after.spec_trends(), keyword),
        count_at(after.spec_trends()[keyword_index(after.spec_trends(), keyword)].series(), timestamp) == Some(count),
{
    let olds = before.spec_trends();
    let news = after.spec_trends();
    let p = DataPoint { timestamp, count };
    if has_keyword(olds, keyword) {
        let i = keyword_index(olds, keyword);
        lemma_keyword_index(news, keyword, i);
        lemma_placed(olds[i].series(), p);
    } else {
        let i = news.len() - 1;
        lemma_keyword_index(news, keyword, i);
        lemma_time_index(news[i].series(), timestamp, 0);
    }
}

} // verus!
