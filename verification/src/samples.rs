//! Gaze samples, caller filter bundles, and the semantics of the filtered,
//! paged gaze query: which rows come back, in which order, for every filter
//! bundle and overlay state.

use vstd::prelude::*;

use crate::overlay::DisabledSlice;
use crate::overlay::DisabledStore;
use crate::text::lex_le;
use crate::text::str_in;
use crate::text::str_in_vec;
use crate::text::str_le;

verus! {

/// One gaze sample row.  Coordinates pass through as rendered text: the
/// query layer never computes with them.
#[derive(Debug)]
pub struct GazeData {
    pub gaze_x: Option<String>,
    pub gaze_y: Option<String>,
    pub box_name: String,
    pub media_name: String,
    pub timeline: String,
    pub participant: String,
    pub recording: String,
    pub timestamp: String,
    pub test_name: String,
}

impl GazeData {
    /// A copy equal to `self`.
    pub fn duplicate(&self) -> (r: GazeData)
        ensures
            r == *self,
    {
        let r = GazeData {
            gaze_x: self.gaze_x.clone(),
            gaze_y: self.gaze_y.clone(),
            box_name: self.box_name.clone(),
            media_name: self.media_name.clone(),
            timeline: self.timeline.clone(),
            participant: self.participant.clone(),
            recording: self.recording.clone(),
            timestamp: self.timestamp.clone(),
            test_name: self.test_name.clone(),
        };
        proof {
            assert(r.gaze_x == self.gaze_x);
            assert(r.gaze_y == self.gaze_y);
        }
        r
    }
}

/// The errors a query or overlay operation can surface.
#[derive(Debug)]
pub enum QueryError {
    /// No connection could be acquired before the pool timeout.
    ConnectionPoolExhausted(String),
    /// A required filter field was absent; nothing was executed.
    MissingParameter(String),
    /// The underlying store reported an error; no partial rows are returned.
    QueryExecutionFailure(String),
    /// The overlay could not be written to durable storage; the previous
    /// overlay state is retained.
    PersistFailure(String),
}

/// A caller's filter bundle.  `test_name_alt` mirrors the camel-cased alias
/// callers may supply instead of `test_name`; the first present one wins.
#[derive(Debug)]
pub struct GazeFilter {
    pub test_name: Option<String>,
    pub test_name_alt: Option<String>,
    pub participants: Vec<String>,
    pub timeline: Option<String>,
    pub recording: Option<String>,
    pub limit: Option<i64>,
    pub offset: Option<i64>,
}

impl GazeFilter {
    /// The required test identifier, from whichever field supplies it.
    pub open spec fn resolved_test_spec(&self) -> Option<String> {
        if self.test_name is Some {
            self.test_name
        } else {
            self.test_name_alt
        }
    }

    /// The effective limit: absent means 0, which means unbounded.
    pub open spec fn limit_spec(&self) -> i64 {
        match self.limit {
            Some(l) => l,
            None => 0,
        }
    }

    /// The effective offset: absent means 0.
    pub open spec fn offset_spec(&self) -> i64 {
        match self.offset {
            Some(o) => o,
            None => 0,
        }
    }

    pub fn resolved_test(&self) -> (r: Option<String>)
        ensures
            r == self.resolved_test_spec(),
    {
        match &self.test_name {
            Some(t) => {
                let c = self.test_name.clone();
                assert(c == self.test_name);
                c
            },
            None => {
                let c = self.test_name_alt.clone();
                assert(c == self.test_name_alt);
                c
            },
        }
    }
}

/// Whether a sample matches the supplied filter dimensions.  An empty
/// participant list restricts nothing.
pub open spec fn sample_matches(
    g: GazeData,
    test: Seq<char>,
    participants: Seq<String>,
    timeline: Option<String>,
    recording: Option<String>,
) -> bool {
    &&& g.test_name@ == test
    &&& (participants.len() == 0 || str_in(participants, g.participant@))
    &&& (match timeline {
        Some(tl) => g.timeline@ == tl@,
        None => true,
    })
    &&& (match recording {
        Some(rc) => g.recording@ == rc@,
        None => true,
    })
}

/// Whether a sample's slice is excluded by the overlay.
pub open spec fn sample_excluded(
    g: GazeData,
    excl: Set<(Seq<char>, Seq<char>, Seq<char>)>,
) -> bool {
    excl.contains((g.test_name@, g.recording@, g.participant@))
}

/// The filter predicate of the gaze query: matching and not excluded.
pub open spec fn sample_selected(
    g: GazeData,
    test: Seq<char>,
    participants: Seq<String>,
    timeline: Option<String>,
    recording: Option<String>,
    excl: Set<(Seq<char>, Seq<char>, Seq<char>)>,
) -> bool {
    sample_matches(g, test, participants, timeline, recording) && !sample_excluded(g, excl)
}

/// The matching, non-excluded samples, in source order.
pub open spec fn selected_samples(
    samples: Seq<GazeData>,
    test: Seq<char>,
    participants: Seq<String>,
    timeline: Option<String>,
    recording: Option<String>,
    excl: Set<(Seq<char>, Seq<char>, Seq<char>)>,
) -> Seq<GazeData> {
    samples.filter(|g: GazeData| sample_selected(g, test, participants, timeline, recording, excl))
}

/// Timestamp order between two samples.
pub open spec fn ts_le(a: GazeData, b: GazeData) -> bool {
    lex_le(a.timestamp@, b.timestamp@)
}

/// Stable insertion of `x` into a timestamp-sorted sequence: `x` comes
/// before any later sample with the same timestamp.
pub open spec fn insert_by_ts(x: GazeData, s: Seq<GazeData>) -> Seq<GazeData>
    decreases s.len(),
{
    if s.len() == 0 {
        seq![x]
    } else if ts_le(x, s[0]) {
        seq![x] + s
    } else {
        seq![s[0]] + insert_by_ts(x, s.drop_first())
    }
}

/// Stable sort by ascending timestamp.
pub open spec fn sort_by_ts(s: Seq<GazeData>) -> Seq<GazeData>
    decreases s.len(),
{
    if s.len() == 0 {
        s
    } else {
        insert_by_ts(s[0], sort_by_ts(s.drop_first()))
    }
}

/// Paging policy: a limit of 0 (or less) returns everything, whatever the
/// offset; with a positive limit, a positive offset skips that many rows.
pub open spec fn page_spec(s: Seq<GazeData>, limit: i64, offset: i64) -> Seq<GazeData> {
    if limit <= 0 {
        s
    } else {
        let start: int = if offset > 0 {
            offset as int
        } else {
            0
        };
        let stop: int = if start + limit > s.len() {
            s.len() as int
        } else {
            start + limit
        };
        if start >= s.len() {
            Seq::empty()
        } else {
            s.subrange(start, stop)
        }
    }
}

/// Everything the gaze query returns: the selected samples, sorted by
/// ascending timestamp, then paged.
pub open spec fn gaze_query_result(
    samples: Seq<GazeData>,
    test: Seq<char>,
    participants: Seq<String>,
    timeline: Option<String>,
    recording: Option<String>,
    excl: Set<(Seq<char>, Seq<char>, Seq<char>)>,
    limit: i64,
    offset: i64,
) -> Seq<GazeData> {
    page_spec(
        sort_by_ts(selected_samples(samples, test, participants, timeline, recording, excl)),
        limit,
        offset,
    )
}

/// Evaluates the filter predicate on one sample.
fn sample_selected_exec(
    g: &GazeData,
    test: &String,
    participants: &Vec<String>,
    timeline: &Option<String>,
    recording: &Option<String>,
    overlay: &DisabledStore,
) -> (r: bool)
    ensures
        r == sample_selected(
            *g,
            test@,
            participants@,
            *timeline,
            *recording,
            overlay@,
        ),
{
    if !(g.test_name == *test) {
        return false;
    }
    if participants.len() > 0 && !str_in_vec(participants, &g.participant) {
        return false;
    }
    match timeline {
        Some(tl) => {
            if !(g.timeline == *tl) {
                return false;
            }
        },
        None => {},
    }
    match recording {
        Some(rc) => {
            if !(g.recording == *rc) {
                return false;
            }
        },
        None => {},
    }
    let probe = DisabledSlice::new(
        g.test_name.clone(),
        g.recording.clone(),
        g.participant.clone(),
    );
    !overlay.contains(&probe)
}

/// Unfolding `insert_by_ts` at the insertion point: with everything before
/// `i` strictly earlier than `x`, the insertion lands exactly at `i`.
proof fn lemma_insert_by_ts_at(x: GazeData, s: Seq<GazeData>, i: int)
    requires
        0 <= i <= s.len(),
        forall|j: int| 0 <= j < i ==> !ts_le(x, #[trigger] s[j]),
        i < s.len() ==> ts_le(x, s[i]),
    ensures
        insert_by_ts(x, s) == s.take(i) + seq![x] + s.skip(i),
    decreases i,
{
    if i == 0 {
        if s.len() == 0 {
            assert(insert_by_ts(x, s) =~= s.take(0) + seq![x] + s.skip(0));
        } else {
            assert(ts_le(x, s[0]));
            assert(insert_by_ts(x, s) =~= s.take(0) + seq![x] + s.skip(0));
        }
    } else {
        assert(!ts_le(x, s[0]));
        let rest = s.drop_first();
        assert forall|j: int| 0 <= j < i - 1 implies !ts_le(x, #[trigger] rest[j]) by {
            assert(rest[j] == s[j + 1]);
        }
        assert(i - 1 < rest.len() ==> ts_le(x, rest[i - 1]));
        lemma_insert_by_ts_at(x, rest, i - 1);
        assert(seq![s[0]] + (rest.take(i - 1) + seq![x] + rest.skip(i - 1)) =~= s.take(i)
            + seq![x] + s.skip(i));
    }
}

/// Inserts one sample into a vector at its stable sorted position.
fn insert_gaze_sorted(v: &mut Vec<GazeData>, x: GazeData)
    ensures
        final(v)@ == insert_by_ts(x, old(v)@),
{
    let mut i: usize = 0;
    while i < v.len()
        invariant
            v@ == old(v)@,
            i <= v@.len(),
            forall|j: int| 0 <= j < i ==> !ts_le(x, #[trigger] v@[j]),
        decreases v@.len() - i,
    {
        if str_le(x.timestamp.as_str(), v[i].timestamp.as_str()) {
            proof {
                lemma_insert_by_ts_at(x, v@, i as int);
            }
            v.insert(i, x);
            proof {
                assert(v@ =~= old(v)@.take(i as int) + seq![x] + old(v)@.skip(i as int));
            }
            return ;
        }
        i = i + 1;
    }
    proof {
        lemma_insert_by_ts_at(x, v@, v@.len() as int);
    }
    v.push(x);
    proof {
        assert(v@ =~= old(v)@.take(old(v)@.len() as int) + seq![x] + old(v)@.skip(
            old(v)@.len() as int,
        ));
    }
}

/// Sorts the samples by ascending timestamp, stably.
fn sort_gaze_samples(v: Vec<GazeData>) -> (r: Vec<GazeData>)
    ensures
        r@ == sort_by_ts(v@),
{
    let mut r: Vec<GazeData> = Vec::new();
    let mut i: usize = v.len();
    proof {
        assert(v@.skip(v@.len() as int) =~= Seq::<GazeData>::empty());
    }
    while i > 0
        invariant
            i <= v@.len(),
            r@ == sort_by_ts(v@.skip(i as int)),
        decreases i,
    {
        i = i - 1;
        insert_gaze_sorted(&mut r, v[i].duplicate());
        proof {
            let tail = v@.skip(i as int);
            assert(tail[0] == v@[i as int]);
            assert(tail.drop_first() =~= v@.skip(i + 1));
        }
    }
    proof {
        assert(v@.skip(0) =~= v@);
    }
    r
}

/// The matching, non-excluded samples, in source order.
pub fn select_gaze_samples(
    samples: &Vec<GazeData>,
    test: &String,
    participants: &Vec<String>,
    timeline: &Option<String>,
    recording: &Option<String>,
    overlay: &DisabledStore,
) -> (r: Vec<GazeData>)
    ensures
        r@ == selected_samples(samples@, test@, participants@, *timeline, *recording, overlay@),
{
    let ghost pred = |g: GazeData|
        sample_selected(g, test@, participants@, *timeline, *recording, overlay@);
    let mut picked: Vec<GazeData> = Vec::new();
    let mut i: usize = 0;
    proof {
        reveal(Seq::filter);
        assert(samples@.take(0) =~= Seq::<GazeData>::empty());
    }
    while i < samples.len()
        invariant
            i <= samples@.len(),
            pred == (|g: GazeData|
                sample_selected(g, test@, participants@, *timeline, *recording, overlay@)),
            picked@ == samples@.take(i as int).filter(pred),
        decreases samples@.len() - i,
    {
        let g = &samples[i];
        if sample_selected_exec(g, test, participants, timeline, recording, overlay) {
            picked.push(g.duplicate());
        }
        proof {
            reveal(Seq::filter);
            let taken = samples@.take(i + 1);
            assert(taken.drop_last() =~= samples@.take(i as int));
            assert(taken.last() == samples@[i as int]);
        }
        i = i + 1;
    }
    proof {
        assert(samples@.take(samples@.len() as int) =~= samples@);
    }
    picked
}

/// The filtered, sorted, paged gaze stream, computed over in-memory samples.
/// Fails exactly when the filter supplies no test identifier.
pub fn get_gaze_data(
    samples: &Vec<GazeData>,
    filter: &GazeFilter,
    overlay: &DisabledStore,
) -> (r: Result<Vec<GazeData>, QueryError>)
    ensures
        match r {
            Ok(rows) => {
                &&& filter.resolved_test_spec() is Some
                &&& rows@ == gaze_query_result(
                    samples@,
                    filter.resolved_test_spec()->0@,
                    filter.participants@,
                    filter.timeline,
                    filter.recording,
                    overlay@,
                    filter.limit_spec(),
                    filter.offset_spec(),
                )
            },
            Err(e) => filter.resolved_test_spec() is None && e matches
                QueryError::MissingParameter(_),
        },
{
    let test = match filter.resolved_test() {
        Some(t) => t,
        None => {
            return Err(
                QueryError::MissingParameter(String::from_str("missing param: test_name/testName")),
            );
        },
    };
    let picked = select_gaze_samples(
        samples,
        &test,
        &filter.participants,
        &filter.timeline,
        &filter.recording,
        overlay,
    );
    let sorted = sort_gaze_samples(picked);
    let limit: i64 = match filter.limit {
        Some(l) => l,
        None => 0,
    };
    let offset: i64 = match filter.offset {
        Some(o) => o,
        None => 0,
    };
    let paged = page_gaze_samples(sorted, limit, offset);
    Ok(paged)
}

/// Applies the paging policy to an already ordered vector.
fn page_gaze_samples(v: Vec<GazeData>, limit: i64, offset: i64) -> (r: Vec<GazeData>)
    ensures
        r@ == page_spec(v@, limit, offset),
{
    if limit <= 0 {
        return v;
    }
    let len: usize = v.len();
    if offset > 0 && offset as u64 >= len as u64 {
        let r: Vec<GazeData> = Vec::new();
        proof {
            assert(r@ =~= page_spec(v@, limit, offset));
        }
        return r;
    }
    let start: usize = if offset > 0 {
        offset as usize
    } else {
        0
    };
    if start >= len {
        let r: Vec<GazeData> = Vec::new();
        proof {
            assert(r@ =~= page_spec(v@, limit, offset));
        }
        return r;
    }
    let remaining: usize = len - start;
    let take: usize = if (limit as u64) < (remaining as u64) {
        limit as usize
    } else {
        remaining
    };
    let stop: usize = start + take;
    let mut r: Vec<GazeData> = Vec::new();
    let mut k: usize = start;
    while k < stop
        invariant
            start <= k <= stop <= v@.len(),
            r@ == v@.subrange(start as int, k as int),
        decreases stop - k,
    {
        r.push(v[k].duplicate());
        proof {
            assert(v@.subrange(start as int, k + 1) =~= v@.subrange(start as int, k as int)
                + seq![v@[k as int]]);
        }
        k = k + 1;
    }
    proof {
        assert(r@ =~= page_spec(v@, limit, offset));
    }
    r
}

/// With an empty participant list, no participant is restricted: every
/// matching, non-excluded sample of any participant is in the unpaged
/// result.
pub proof fn lemma_empty_participants_include_all(
    samples: Seq<GazeData>,
    test: Seq<char>,
    timeline: Option<String>,
    recording: Option<String>,
    excl: Set<(Seq<char>, Seq<char>, Seq<char>)>,
    offset: i64,
    k: int,
)
    requires
        0 <= k < samples.len(),
        sample_matches(samples[k], test, Seq::<String>::empty(), timeline, recording),
        !sample_excluded(samples[k], excl),
    ensures
        gaze_query_result(
            samples,
            test,
            Seq::<String>::empty(),
            timeline,
            recording,
            excl,
            0,
            offset,
        ).contains(samples[k]),
{
    let pred = |g: GazeData|
        sample_selected(g, test, Seq::<String>::empty(), timeline, recording, excl);
    broadcast use vstd::seq_lib::group_filter_ensures;

    samples.lemma_filter_len(pred);
    let picked = samples.filter(pred);
    assert(picked.contains(samples[k]));
    lemma_sort_by_ts_contains(picked, samples[k]);
}

/// Sorting neither loses nor invents samples.
pub proof fn lemma_sort_by_ts_contains(s: Seq<GazeData>, g: GazeData)
    ensures
        sort_by_ts(s).contains(g) <==> s.contains(g),
    decreases s.len(),
{
    if s.len() > 0 {
        lemma_sort_by_ts_contains(s.drop_first(), g);
        lemma_insert_by_ts_contains(s[0], sort_by_ts(s.drop_first()), g);
        assert forall|w: int| 0 <= w < s.len() && #[trigger] s[w] == g implies (s[0] == g
            || s.drop_first().contains(g)) by {
            if w > 0 {
                assert(s.drop_first()[w - 1] == g);
            }
        }
        if s[0] == g || s.drop_first().contains(g) {
            if s.drop_first().contains(g) {
                let w = choose|w: int| 0 <= w < s.drop_first().len() && s.drop_first()[w] == g;
                assert(s[w + 1] == g);
            }
        }
    }
}

/// Insertion neither loses nor invents samples.
proof fn lemma_insert_by_ts_contains(x: GazeData, s: Seq<GazeData>, g: GazeData)
    ensures
        insert_by_ts(x, s).contains(g) <==> (g == x || s.contains(g)),
    decreases s.len(),
{
    let out = insert_by_ts(x, s);
    if s.len() == 0 {
        assert(out =~= seq![x]);
        if g == x {
            assert(out[0] == g);
        }
    } else if ts_le(x, s[0]) {
        assert(out =~= seq![x] + s);
        if out.contains(g) {
            let w = choose|w: int| 0 <= w < out.len() && out[w] == g;
            if w > 0 {
                assert(s[w - 1] == g);
            }
        }
        if g == x {
            assert(out[0] == g);
        }
        if s.contains(g) {
            let w = choose|w: int| 0 <= w < s.len() && s[w] == g;
            assert(out[w + 1] == g);
        }
    } else {
        lemma_insert_by_ts_contains(x, s.drop_first(), g);
        let rec = insert_by_ts(x, s.drop_first());
        assert(out =~= seq![s[0]] + rec);
        if out.contains(g) {
            let w = choose|w: int| 0 <= w < out.len() && out[w] == g;
            if w > 0 {
                assert(rec[w - 1] == g);
            }
            if w == 0 {
                assert(s[0] == g);
            }
        }
        if g == x {
            assert(rec.contains(g));
            let w = choose|w: int| 0 <= w < rec.len() && rec[w] == g;
            assert(out[w + 1] == g);
        }
        if s.contains(g) {
            let w = choose|w: int| 0 <= w < s.len() && s[w] == g;
            if w == 0 {
                assert(out[0] == g);
            } else {
                assert(s.drop_first()[w - 1] == g);
                assert(rec.contains(g));
                let u = choose|u: int| 0 <= u < rec.len() && rec[u] == g;
                assert(out[u + 1] == g);
            }
        }
    }
}

/// A limit of zero returns every row, whatever the offset says.
pub proof fn lemma_limit_zero_returns_all(s: Seq<GazeData>, offset: i64)
    ensures
        page_spec(s, 0, offset) == s,
{
}

} // verus!
