//! Search listings: the per-test and per-slice enrichment that joins the
//! free-text catalog with duration sums from the media table.
//!
//! Durations are integer microseconds; sums saturate at the integer's
//! ceiling instead of wrapping.  A triple counts as an occurrence only when
//! both media kinds are present for it.

use vstd::prelude::*;

use crate::rows::insert_row_sorted;
use crate::rows::keys_lt;
use crate::rows::row_in;
use crate::rows::row_key;
use crate::rows::rows_uniform;
use crate::rows::sorted_distinct_rows;
use crate::text::MediaKind;
use crate::text::is_mp4_name;
use crate::text::is_png_name;
use crate::text::lex_le;
use crate::text::media_kind;
use crate::text::str_le;

verus! {

/// One raw catalog row for a test.
#[derive(Debug)]
pub struct CatalogRow {
    pub test_name: String,
    pub group: Option<String>,
    pub image_name: Option<String>,
    pub sentence: Option<String>,
}

/// One raw media-duration row.
#[derive(Debug)]
pub struct DurationRow {
    pub test_name: String,
    pub recording_name: String,
    pub participant_name: String,
    pub media_name: String,
    pub duration_micros: u64,
}

/// Per-slice duration summary: one entry per distinct triple.
#[derive(Debug)]
pub struct SliceDuration {
    pub test_name: String,
    pub recording_name: String,
    pub participant_name: String,
    pub mp4_micros: u64,
    pub png_micros: u64,
    pub mp4_present: bool,
    pub png_present: bool,
}

/// Addition clamped to the integer's ceiling.
pub open spec fn sat_add64(a: int, b: int) -> int {
    if a + b > u64::MAX {
        u64::MAX as int
    } else {
        a + b
    }
}

/// Saturating addition on machine integers.
pub fn sat_add_u64(a: u64, b: u64) -> (r: u64)
    ensures
        r as int == sat_add64(a as int, b as int),
{
    if a > u64::MAX - b {
        u64::MAX
    } else {
        a + b
    }
}

/// Whether a media name belongs to the asked-for kind.
pub open spec fn kind_matches(name: Seq<char>, mp4: bool) -> bool {
    if mp4 {
        is_mp4_name(name)
    } else {
        is_png_name(name)
    }
}

/// The saturating sum of one kind's durations over all rows of a triple.
pub open spec fn kind_sum(
    durs: Seq<DurationRow>,
    t: Seq<char>,
    rc: Seq<char>,
    p: Seq<char>,
    mp4: bool,
) -> int
    decreases durs.len(),
{
    if durs.len() == 0 {
        0
    } else {
        let rest = kind_sum(durs.drop_last(), t, rc, p, mp4);
        let last = durs.last();
        if last.test_name@ == t && last.recording_name@ == rc && last.participant_name@ == p
            && kind_matches(last.media_name@, mp4) {
            sat_add64(rest, last.duration_micros as int)
        } else {
            rest
        }
    }
}

/// Whether any row of the triple carries the asked-for kind.
pub open spec fn kind_present(
    durs: Seq<DurationRow>,
    t: Seq<char>,
    rc: Seq<char>,
    p: Seq<char>,
    mp4: bool,
) -> bool {
    exists|i: int|
        0 <= i < durs.len() && (#[trigger] durs[i]).test_name@ == t && durs[i].recording_name@
            == rc && durs[i].participant_name@ == p && kind_matches(durs[i].media_name@, mp4)
}

/// Whether the duration table holds any row for the triple.
pub open spec fn dur_triple_in(
    durs: Seq<DurationRow>,
    t: Seq<char>,
    rc: Seq<char>,
    p: Seq<char>,
) -> bool {
    exists|i: int|
        0 <= i < durs.len() && (#[trigger] durs[i]).test_name@ == t && durs[i].recording_name@
            == rc && durs[i].participant_name@ == p
}

/// The sort key of a summary entry.
pub open spec fn slice_duration_key(s: SliceDuration) -> Seq<Seq<char>> {
    seq![s.test_name@, s.recording_name@, s.participant_name@]
}

/// What it means for `sl` to summarise `durs`: one entry per distinct
/// triple, ordered, with that triple's kind sums and presence flags.
pub open spec fn slice_summary_of(sl: Seq<SliceDuration>, durs: Seq<DurationRow>) -> bool {
    &&& (forall|i: int, j: int|
        0 <= i < j < sl.len() ==> keys_lt(
            slice_duration_key(#[trigger] sl[i]),
            slice_duration_key(#[trigger] sl[j]),
        ))
    &&& sl.len() <= durs.len()
    &&& (forall|t: Seq<char>, rc: Seq<char>, p: Seq<char>|
        (exists|i: int|
            0 <= i < sl.len() && (#[trigger] sl[i]).test_name@ == t && sl[i].recording_name@ == rc
                && sl[i].participant_name@ == p) <==> dur_triple_in(durs, t, rc, p))
    &&& (forall|i: int|
        0 <= i < sl.len() ==> {
            let e = #[trigger] sl[i];
            &&& e.mp4_micros as int == kind_sum(
                durs,
                e.test_name@,
                e.recording_name@,
                e.participant_name@,
                true,
            )
            &&& e.png_micros as int == kind_sum(
                durs,
                e.test_name@,
                e.recording_name@,
                e.participant_name@,
                false,
            )
            &&& e.mp4_present == kind_present(
                durs,
                e.test_name@,
                e.recording_name@,
                e.participant_name@,
                true,
            )
            &&& e.png_present == kind_present(
                durs,
                e.test_name@,
                e.recording_name@,
                e.participant_name@,
                false,
            )
        })
}

/// Sums one triple's durations by kind and notes which kinds occur.
fn triple_sums(durs: &Vec<DurationRow>, t: &String, rc: &String, p: &String) -> (r: (
    u64,
    u64,
    bool,
    bool,
))
    ensures
        r.0 as int == kind_sum(durs@, t@, rc@, p@, true),
        r.1 as int == kind_sum(durs@, t@, rc@, p@, false),
        r.2 == kind_present(durs@, t@, rc@, p@, true),
        r.3 == kind_present(durs@, t@, rc@, p@, false),
{
    let mut mp4: u64 = 0;
    let mut png: u64 = 0;
    let mut has_mp4 = false;
    let mut has_png = false;
    let mut i: usize = 0;
    proof {
        assert(durs@.take(0) =~= Seq::<DurationRow>::empty());
    }
    while i < durs.len()
        invariant
            i <= durs@.len(),
            mp4 as int == kind_sum(durs@.take(i as int), t@, rc@, p@, true),
            png as int == kind_sum(durs@.take(i as int), t@, rc@, p@, false),
            has_mp4 == kind_present(durs@.take(i as int), t@, rc@, p@, true),
            has_png == kind_present(durs@.take(i as int), t@, rc@, p@, false),
        decreases durs@.len() - i,
    {
        let ghost taken: Seq<DurationRow> = durs@.take(i as int);
        let ghost taken1: Seq<DurationRow> = durs@.take(i + 1);
        proof {
            assert(taken1.drop_last() =~= taken);
            assert(taken1.last() == durs@[i as int]);
        }
        let d = &durs[i];
        if d.test_name == *t && d.recording_name == *rc && d.participant_name == *p {
            match media_kind(d.media_name.as_str()) {
                MediaKind::Mp4 => {
                    mp4 = sat_add_u64(mp4, d.duration_micros);
                    has_mp4 = true;
                    proof {
                        assert(taken1[i as int] == durs@[i as int]);
                    }
                },
                MediaKind::Png => {
                    png = sat_add_u64(png, d.duration_micros);
                    has_png = true;
                    proof {
                        assert(taken1[i as int] == durs@[i as int]);
                    }
                },
                MediaKind::Other => {
                    proof {
                        assert forall|w: int|
                            0 <= w < taken1.len() && (#[trigger] taken1[w]).test_name@ == t@
                                && taken1[w].recording_name@ == rc@
                                && taken1[w].participant_name@ == p@ && kind_matches(
                                taken1[w].media_name@,
                                true,
                            ) implies w < i as int by {}
                        assert forall|w: int|
                            0 <= w < taken1.len() && (#[trigger] taken1[w]).test_name@ == t@
                                && taken1[w].recording_name@ == rc@
                                && taken1[w].participant_name@ == p@ && kind_matches(
                                taken1[w].media_name@,
                                false,
                            ) implies w < i as int by {}
                    }
                },
            }
        } else {
            proof {
                assert forall|w: int|
                    0 <= w < taken1.len() && (#[trigger] taken1[w]).test_name@ == t@
                        && taken1[w].recording_name@ == rc@ && taken1[w].participant_name@ == p@
                        implies w < i as int by {}
            }
        }
        proof {
            assert forall|w: int| 0 <= w < i implies #[trigger] taken1[w] == taken[w] by {}
        }
        i = i + 1;
    }
    proof {
        assert(durs@.take(durs@.len() as int) =~= durs@);
    }
    (mp4, png, has_mp4, has_png)
}

/// Builds the per-slice duration summary: one ordered entry per distinct
/// triple of the duration table.
pub fn duration_slices(durs: &Vec<DurationRow>) -> (sl: Vec<SliceDuration>)
    ensures
        slice_summary_of(sl@, durs@),
{
    let mut acc: Vec<Vec<String>> = Vec::new();
    let mut i: usize = 0;
    while i < durs.len()
        invariant
            i <= durs@.len(),
            sorted_distinct_rows(acc@),
            rows_uniform(acc@, 3),
            acc@.len() <= i,
            forall|k: Seq<Seq<char>>|
                row_in(acc@, k) <==> exists|j: int|
                    0 <= j < i && k == seq![
                        (#[trigger] durs@[j]).test_name@,
                        durs@[j].recording_name@,
                        durs@[j].participant_name@,
                    ],
        decreases durs@.len() - i,
    {
        let ghost prev: Seq<Vec<String>> = acc@;
        let d = &durs[i];
        let mut row: Vec<String> = Vec::new();
        row.push(d.test_name.clone());
        row.push(d.recording_name.clone());
        row.push(d.participant_name.clone());
        proof {
            assert(row_key(row@) =~= seq![
                durs@[i as int].test_name@,
                durs@[i as int].recording_name@,
                durs@[i as int].participant_name@,
            ]);
        }
        insert_row_sorted(&mut acc, row);
        proof {
            let iv: int = i as int;
            assert forall|k: Seq<Seq<char>>|
                row_in(acc@, k) <==> exists|j: int|
                    0 <= j < iv + 1 && k == seq![
                        (#[trigger] durs@[j]).test_name@,
                        durs@[j].recording_name@,
                        durs@[j].participant_name@,
                    ] by {
                if row_in(acc@, k) && !row_in(prev, k) {
                    assert(k == seq![
                        durs@[iv].test_name@,
                        durs@[iv].recording_name@,
                        durs@[iv].participant_name@,
                    ]);
                }
                if exists|j: int|
                    0 <= j < iv + 1 && k == seq![
                        (#[trigger] durs@[j]).test_name@,
                        durs@[j].recording_name@,
                        durs@[j].participant_name@,
                    ] {
                    let j = choose|j: int|
                        0 <= j < iv + 1 && k == seq![
                            (#[trigger] durs@[j]).test_name@,
                            durs@[j].recording_name@,
                            durs@[j].participant_name@,
                        ];
                    if j < iv {
                        assert(row_in(prev, k));
                    }
                }
            }
        }
        i = i + 1;
    }
    let mut sl: Vec<SliceDuration> = Vec::new();
    let mut w: usize = 0;
    while w < acc.len()
        invariant
            w <= acc@.len(),
            sl@.len() == w,
            rows_uniform(acc@, 3),
            forall|n: int|
                0 <= n < w ==> {
                    let e = #[trigger] sl@[n];
                    &&& e.test_name@ == acc@[n]@[0]@
                    &&& e.recording_name@ == acc@[n]@[1]@
                    &&& e.participant_name@ == acc@[n]@[2]@
                    &&& e.mp4_micros as int == kind_sum(durs@, e.test_name@, e.recording_name@, e.participant_name@, true)
                    &&& e.png_micros as int == kind_sum(durs@, e.test_name@, e.recording_name@, e.participant_name@, false)
                    &&& e.mp4_present == kind_present(durs@, e.test_name@, e.recording_name@, e.participant_name@, true)
                    &&& e.png_present == kind_present(durs@, e.test_name@, e.recording_name@, e.participant_name@, false)
                },
        decreases acc@.len() - w,
    {
        let t = acc[w][0].clone();
        let rc = acc[w][1].clone();
        let p = acc[w][2].clone();
        let sums = triple_sums(durs, &t, &rc, &p);
        sl.push(
            SliceDuration {
                test_name: t,
                recording_name: rc,
                participant_name: p,
                mp4_micros: sums.0,
                png_micros: sums.1,
                mp4_present: sums.2,
                png_present: sums.3,
            },
        );
        w = w + 1;
    }
    proof {
        assert forall|n: int| 0 <= n < sl@.len() implies slice_duration_key(#[trigger] sl@[n])
            == row_key(acc@[n]@) by {
            assert(row_key(acc@[n]@) =~= seq![acc@[n]@[0]@, acc@[n]@[1]@, acc@[n]@[2]@]);
            assert(slice_duration_key(sl@[n]) =~= row_key(acc@[n]@));
        }
        assert forall|t: Seq<char>, rc: Seq<char>, p: Seq<char>|
            (exists|n: int|
                0 <= n < sl@.len() && (#[trigger] sl@[n]).test_name@ == t
                    && sl@[n].recording_name@ == rc && sl@[n].participant_name@ == p)
                <==> #[trigger] dur_triple_in(durs@, t, rc, p) by {
            if exists|n: int|
                0 <= n < sl@.len() && (#[trigger] sl@[n]).test_name@ == t
                    && sl@[n].recording_name@ == rc && sl@[n].participant_name@ == p {
                let n = choose|n: int|
                    0 <= n < sl@.len() && (#[trigger] sl@[n]).test_name@ == t
                        && sl@[n].recording_name@ == rc && sl@[n].participant_name@ == p;
                assert(row_key(acc@[n]@) == slice_duration_key(sl@[n]));
                assert(slice_duration_key(sl@[n]) =~= seq![t, rc, p]);
                assert(row_in(acc@, seq![t, rc, p]));
                let j = choose|j: int|
                    0 <= j < durs@.len() && seq![t, rc, p] == seq![
                        (#[trigger] durs@[j]).test_name@,
                        durs@[j].recording_name@,
                        durs@[j].participant_name@,
                    ];
                assert(durs@[j].test_name@ == seq![t, rc, p][0]);
                assert(durs@[j].recording_name@ == seq![t, rc, p][1]);
                assert(durs@[j].participant_name@ == seq![t, rc, p][2]);
            }
            if dur_triple_in(durs@, t, rc, p) {
                let j = choose|j: int|
                    0 <= j < durs@.len() && (#[trigger] durs@[j]).test_name@ == t
                        && durs@[j].recording_name@ == rc && durs@[j].participant_name@ == p;
                assert(seq![t, rc, p] =~= seq![
                    durs@[j].test_name@,
                    durs@[j].recording_name@,
                    durs@[j].participant_name@,
                ]);
                assert(row_in(acc@, seq![t, rc, p]));
                let n = choose|n: int|
                    0 <= n < acc@.len() && row_key((#[trigger] acc@[n])@) == seq![t, rc, p];
                assert(row_key(acc@[n]@) =~= seq![acc@[n]@[0]@, acc@[n]@[1]@, acc@[n]@[2]@]);
                assert(acc@[n]@[0]@ == seq![t, rc, p][0]);
                assert(acc@[n]@[1]@ == seq![t, rc, p][1]);
                assert(acc@[n]@[2]@ == seq![t, rc, p][2]);
                assert(sl@[n].test_name@ == t && sl@[n].recording_name@ == rc
                    && sl@[n].participant_name@ == p);
            }
        }
    }
    sl
}

/// An empty text value counts as absent, as the catalog queries treat it.
pub open spec fn opt_nonblank(o: Option<String>) -> Option<Seq<char>> {
    match o {
        Some(s) => if s@.len() > 0 {
            Some(s@)
        } else {
            None
        },
        None => None,
    }
}

/// The lexicographically smaller of two optional values; absent loses.
pub open spec fn min_opt(a: Option<Seq<char>>, b: Option<Seq<char>>) -> Option<Seq<char>> {
    match (a, b) {
        (Option::None, x) => x,
        (x, Option::None) => x,
        (Option::Some(x), Option::Some(y)) => if lex_le(x, y) {
            Some(x)
        } else {
            Some(y)
        },
    }
}

/// The least non-blank `group` value among a test's catalog rows.
pub open spec fn group_min(cat: Seq<CatalogRow>, t: Seq<char>) -> Option<Seq<char>>
    decreases cat.len(),
{
    if cat.len() == 0 {
        None
    } else {
        let rest = group_min(cat.drop_last(), t);
        if cat.last().test_name@ == t {
            min_opt(rest, opt_nonblank(cat.last().group))
        } else {
            rest
        }
    }
}

/// The least non-blank `image_name` value among a test's catalog rows.
pub open spec fn image_min(cat: Seq<CatalogRow>, t: Seq<char>) -> Option<Seq<char>>
    decreases cat.len(),
{
    if cat.len() == 0 {
        None
    } else {
        let rest = image_min(cat.drop_last(), t);
        if cat.last().test_name@ == t {
            min_opt(rest, opt_nonblank(cat.last().image_name))
        } else {
            rest
        }
    }
}

/// The least non-blank `sentence` value among a test's catalog rows.
pub open spec fn sentence_min(cat: Seq<CatalogRow>, t: Seq<char>) -> Option<Seq<char>>
    decreases cat.len(),
{
    if cat.len() == 0 {
        None
    } else {
        let rest = sentence_min(cat.drop_last(), t);
        if cat.last().test_name@ == t {
            min_opt(rest, opt_nonblank(cat.last().sentence))
        } else {
            rest
        }
    }
}

/// The view of a nullable string.
pub open spec fn opt_view(o: Option<String>) -> Option<Seq<char>> {
    match o {
        Some(s) => Some(s@),
        None => None,
    }
}

/// Whether the catalog has any row for the test.
pub open spec fn test_in_catalog(cat: Seq<CatalogRow>, t: Seq<char>) -> bool {
    exists|i: int| 0 <= i < cat.len() && (#[trigger] cat[i]).test_name@ == t
}

/// Whether the duration table has any row for the test.
pub open spec fn test_in_durs(durs: Seq<DurationRow>, t: Seq<char>) -> bool {
    exists|i: int| 0 <= i < durs.len() && (#[trigger] durs[i]).test_name@ == t
}

/// How many of a test's slices have both media kinds.
pub open spec fn occ_count(sl: Seq<SliceDuration>, t: Seq<char>) -> int
    decreases sl.len(),
{
    if sl.len() == 0 {
        0
    } else {
        occ_count(sl.drop_last(), t) + if sl.last().test_name@ == t && sl.last().mp4_present
            && sl.last().png_present {
            1int
        } else {
            0int
        }
    }
}

/// How many of a test's slices have the asked-for kind.
pub open spec fn kind_count(sl: Seq<SliceDuration>, t: Seq<char>, mp4: bool) -> int
    decreases sl.len(),
{
    if sl.len() == 0 {
        0
    } else {
        kind_count(sl.drop_last(), t, mp4) + if sl.last().test_name@ == t && (if mp4 {
            sl.last().mp4_present
        } else {
            sl.last().png_present
        }) {
            1int
        } else {
            0int
        }
    }
}

/// The saturating total of paired durations over a test's qualifying
/// slices: those with both kinds present.
pub open spec fn pair_total(sl: Seq<SliceDuration>, t: Seq<char>) -> int
    decreases sl.len(),
{
    if sl.len() == 0 {
        0
    } else {
        let rest = pair_total(sl.drop_last(), t);
        if sl.last().test_name@ == t && sl.last().mp4_present && sl.last().png_present {
            sat_add64(
                rest,
                sat_add64(sl.last().mp4_micros as int, sl.last().png_micros as int),
            )
        } else {
            rest
        }
    }
}

/// The non-blank value, cloned; an empty or absent one yields nothing.
fn nonblank(o: &Option<String>) -> (r: Option<String>)
    ensures
        opt_view(r) == opt_nonblank(*o),
{
    match o {
        Some(s) => {
            if s.as_str().is_empty() {
                None
            } else {
                Some(s.clone())
            }
        },
        None => None,
    }
}

/// The smaller optional value, cloned out.
fn min_opt_exec(a: Option<String>, b: Option<String>) -> (r: Option<String>)
    ensures
        opt_view(r) == min_opt(opt_view(a), opt_view(b)),
{
    match (a, b) {
        (Option::None, x) => x,
        (x, Option::None) => x,
        (Option::Some(x), Option::Some(y)) => {
            if str_le(x.as_str(), y.as_str()) {
                Some(x)
            } else {
                Some(y)
            }
        },
    }
}

/// The three least non-blank catalog fields of one test.
fn catalog_mins(cat: &Vec<CatalogRow>, t: &String) -> (r: (
    Option<String>,
    Option<String>,
    Option<String>,
))
    ensures
        opt_view(r.0) == group_min(cat@, t@),
        opt_view(r.1) == image_min(cat@, t@),
        opt_view(r.2) == sentence_min(cat@, t@),
{
    let mut g: Option<String> = None;
    let mut im: Option<String> = None;
    let mut se: Option<String> = None;
    let mut i: usize = 0;
    proof {
        assert(cat@.take(0) =~= Seq::<CatalogRow>::empty());
    }
    while i < cat.len()
        invariant
            i <= cat@.len(),
            opt_view(g) == group_min(cat@.take(i as int), t@),
            opt_view(im) == image_min(cat@.take(i as int), t@),
            opt_view(se) == sentence_min(cat@.take(i as int), t@),
        decreases cat@.len() - i,
    {
        proof {
            assert(cat@.take(i + 1).drop_last() =~= cat@.take(i as int));
            assert(cat@.take(i + 1).last() == cat@[i as int]);
        }
        let row = &cat[i];
        if row.test_name == *t {
            g = min_opt_exec(g, nonblank(&row.group));
            im = min_opt_exec(im, nonblank(&row.image_name));
            se = min_opt_exec(se, nonblank(&row.sentence));
        }
        i = i + 1;
    }
    proof {
        assert(cat@.take(cat@.len() as int) =~= cat@);
    }
    (g, im, se)
}

/// Whether the duration table mentions the test at all.
fn test_in_durs_exec(durs: &Vec<DurationRow>, t: &String) -> (r: bool)
    ensures
        r == test_in_durs(durs@, t@),
{
    let mut i: usize = 0;
    while i < durs.len()
        invariant
            i <= durs@.len(),
            forall|j: int| 0 <= j < i ==> (#[trigger] durs@[j]).test_name@ != t@,
        decreases durs@.len() - i,
    {
        if durs[i].test_name == *t {
            assert(durs@[i as int].test_name@ == t@);
            return true;
        }
        i = i + 1;
    }
    false
}

/// Whether the duration table has any row for the triple.
fn dur_triple_in_exec(durs: &Vec<DurationRow>, t: &String, rc: &String, p: &String) -> (r: bool)
    ensures
        r == dur_triple_in(durs@, t@, rc@, p@),
{
    let mut i: usize = 0;
    while i < durs.len()
        invariant
            i <= durs@.len(),
            forall|j: int|
                0 <= j < i ==> !((#[trigger] durs@[j]).test_name@ == t@ && durs@[j].recording_name@
                    == rc@ && durs@[j].participant_name@ == p@),
        decreases durs@.len() - i,
    {
        let d = &durs[i];
        if d.test_name == *t && d.recording_name == *rc && d.participant_name == *p {
            assert(durs@[i as int].test_name@ == t@);
            return true;
        }
        i = i + 1;
    }
    false
}

/// One test's duration aggregates over the slice summary.
fn test_aggregates(sl: &Vec<SliceDuration>, t: &String) -> (r: (u64, u64, u64, u64))
    requires
        sl@.len() <= 0x7fff_ffff_ffff_ffff,
    ensures
        r.0 as int == occ_count(sl@, t@),
        r.1 as int == kind_count(sl@, t@, true),
        r.2 as int == kind_count(sl@, t@, false),
        r.3 as int == pair_total(sl@, t@),
        r.0 <= sl@.len(),
        r.1 <= sl@.len(),
        r.2 <= sl@.len(),
{
    let mut occ: u64 = 0;
    let mut m4: u64 = 0;
    let mut pg: u64 = 0;
    let mut total: u64 = 0;
    let mut i: usize = 0;
    proof {
        assert(sl@.take(0) =~= Seq::<SliceDuration>::empty());
    }
    while i < sl.len()
        invariant
            i <= sl@.len(),
            occ as int == occ_count(sl@.take(i as int), t@),
            m4 as int == kind_count(sl@.take(i as int), t@, true),
            pg as int == kind_count(sl@.take(i as int), t@, false),
            total as int == pair_total(sl@.take(i as int), t@),
            occ <= i,
            m4 <= i,
            pg <= i,
            sl@.len() <= 0x7fff_ffff_ffff_ffff,
        decreases sl@.len() - i,
    {
        proof {
            assert(sl@.take(i + 1).drop_last() =~= sl@.take(i as int));
            assert(sl@.take(i + 1).last() == sl@[i as int]);
        }
        let e = &sl[i];
        if e.test_name == *t {
            if e.mp4_present && e.png_present {
                occ = occ + 1;
                total = sat_add_u64(total, sat_add_u64(e.mp4_micros, e.png_micros));
            }
            if e.mp4_present {
                m4 = m4 + 1;
            }
            if e.png_present {
                pg = pg + 1;
            }
        }
        i = i + 1;
    }
    proof {
        assert(sl@.take(sl@.len() as int) =~= sl@);
    }
    (occ, m4, pg, total)
}

/// One enriched search listing row per test.
#[derive(Debug)]
pub struct SearchTestRow {
    pub test_name: String,
    pub group: Option<String>,
    pub image_name: Option<String>,
    pub sentence: Option<String>,
    pub pair_duration_total_micros: Option<u64>,
    pub occurrences: Option<i64>,
    pub mp4_triples: Option<i64>,
    pub png_triples: Option<i64>,
}

/// The enriched per-test search listing: every test named by the catalog
/// or the duration table, ordered by name, joined with the least non-blank
/// catalog fields and the duration aggregates.  A test absent from the
/// duration table keeps null aggregates rather than disappearing; the
/// paired total is null when no slice has both kinds.
pub fn search_tests(catalog: &Vec<CatalogRow>, durs: &Vec<DurationRow>) -> (rows: Vec<
    SearchTestRow,
>)
    requires
        durs@.len() <= 0x7fff_ffff_ffff_ffff,
    ensures
        forall|i: int, j: int|
            0 <= i < j < rows@.len() ==> crate::text::lex_lt(
                (#[trigger] rows@[i]).test_name@,
                (#[trigger] rows@[j]).test_name@,
            ),
        forall|t: Seq<char>|
            (exists|i: int| 0 <= i < rows@.len() && (#[trigger] rows@[i]).test_name@ == t) <==> (
            test_in_catalog(catalog@, t) || test_in_durs(durs@, t)),
        forall|i: int|
            0 <= i < rows@.len() ==> {
                let r = #[trigger] rows@[i];
                &&& opt_view(r.group) == group_min(catalog@, r.test_name@)
                &&& opt_view(r.image_name) == image_min(catalog@, r.test_name@)
                &&& opt_view(r.sentence) == sentence_min(catalog@, r.test_name@)
            },
        exists|sl: Seq<SliceDuration>|
            slice_summary_of(sl, durs@) && (forall|i: int|
                0 <= i < rows@.len() ==> {
                    let r = #[trigger] rows@[i];
                    if test_in_durs(durs@, r.test_name@) {
                        &&& r.occurrences == Some(occ_count(sl, r.test_name@) as i64)
                        &&& r.mp4_triples == Some(kind_count(sl, r.test_name@, true) as i64)
                        &&& r.png_triples == Some(kind_count(sl, r.test_name@, false) as i64)
                        &&& r.pair_duration_total_micros == (if occ_count(sl, r.test_name@) > 0 {
                            Some(pair_total(sl, r.test_name@) as u64)
                        } else {
                            Option::<u64>::None
                        })
                    } else {
                        &&& r.occurrences is None
                        &&& r.mp4_triples is None
                        &&& r.png_triples is None
                        &&& r.pair_duration_total_micros is None
                    }
                }),
{
    let mut names: Vec<String> = Vec::new();
    let mut i: usize = 0;
    while i < durs.len()
        invariant
            i <= durs@.len(),
            crate::text::sorted_distinct_strs(names@),
            forall|t: Seq<char>|
                crate::text::str_in(names@, t) <==> exists|j: int|
                    0 <= j < i && (#[trigger] durs@[j]).test_name@ == t,
        decreases durs@.len() - i,
    {
        let ghost prev: Seq<String> = names@;
        crate::text::insert_str_sorted(&mut names, durs[i].test_name.clone());
        proof {
            let iv: int = i as int;
            assert forall|t: Seq<char>|
                crate::text::str_in(names@, t) <==> exists|j: int|
                    0 <= j < iv + 1 && (#[trigger] durs@[j]).test_name@ == t by {
                if crate::text::str_in(names@, t) && !crate::text::str_in(prev, t) {
                    assert(durs@[iv].test_name@ == t);
                }
                if exists|j: int| 0 <= j < iv + 1 && (#[trigger] durs@[j]).test_name@ == t {
                    let j = choose|j: int|
                        0 <= j < iv + 1 && (#[trigger] durs@[j]).test_name@ == t;
                    if j < iv {
                        assert(crate::text::str_in(prev, t));
                    }
                }
            }
        }
        i = i + 1;
    }
    let ghost dur_names: Seq<String> = names@;
    let mut i2: usize = 0;
    while i2 < catalog.len()
        invariant
            i2 <= catalog@.len(),
            crate::text::sorted_distinct_strs(names@),
            forall|t: Seq<char>|
                crate::text::str_in(names@, t) <==> (test_in_durs(durs@, t) || exists|j: int|
                    0 <= j < i2 && (#[trigger] catalog@[j]).test_name@ == t),
        decreases catalog@.len() - i2,
    {
        let ghost prev: Seq<String> = names@;
        crate::text::insert_str_sorted(&mut names, catalog[i2].test_name.clone());
        proof {
            let iv: int = i2 as int;
            assert forall|t: Seq<char>|
                crate::text::str_in(names@, t) <==> (test_in_durs(durs@, t) || exists|j: int|
                    0 <= j < iv + 1 && (#[trigger] catalog@[j]).test_name@ == t) by {
                if crate::text::str_in(names@, t) && !crate::text::str_in(prev, t) {
                    assert(catalog@[iv].test_name@ == t);
                }
                if !crate::text::str_in(prev, t) && (exists|j: int|
                    0 <= j < iv + 1 && (#[trigger] catalog@[j]).test_name@ == t) && !test_in_durs(
                    durs@,
                    t,
                ) {
                    let j = choose|j: int|
                        0 <= j < iv + 1 && (#[trigger] catalog@[j]).test_name@ == t;
                    assert(j == iv);
                }
            }
        }
        i2 = i2 + 1;
    }
    let sl = duration_slices(durs);
    let mut rows: Vec<SearchTestRow> = Vec::new();
    let mut w: usize = 0;
    while w < names.len()
        invariant
            w <= names@.len(),
            rows@.len() == w,
            slice_summary_of(sl@, durs@),
            sl@.len() <= 0x7fff_ffff_ffff_ffff,
            crate::text::sorted_distinct_strs(names@),
            forall|n: int| 0 <= n < w ==> (#[trigger] rows@[n]).test_name == names@[n],
            forall|n: int|
                0 <= n < w ==> {
                    let r = #[trigger] rows@[n];
                    &&& opt_view(r.group) == group_min(catalog@, r.test_name@)
                    &&& opt_view(r.image_name) == image_min(catalog@, r.test_name@)
                    &&& opt_view(r.sentence) == sentence_min(catalog@, r.test_name@)
                    &&& (if test_in_durs(durs@, r.test_name@) {
                        &&& r.occurrences == Some(occ_count(sl@, r.test_name@) as i64)
                        &&& r.mp4_triples == Some(kind_count(sl@, r.test_name@, true) as i64)
                        &&& r.png_triples == Some(kind_count(sl@, r.test_name@, false) as i64)
                        &&& r.pair_duration_total_micros == (if occ_count(sl@, r.test_name@)
                            > 0 {
                            Some(pair_total(sl@, r.test_name@) as u64)
                        } else {
                            Option::<u64>::None
                        })
                    } else {
                        &&& r.occurrences is None
                        &&& r.mp4_triples is None
                        &&& r.png_triples is None
                        &&& r.pair_duration_total_micros is None
                    })
                },
        decreases names@.len() - w,
    {
        let name = names[w].clone();
        let mins = catalog_mins(catalog, &name);
        let has_durs = test_in_durs_exec(durs, &name);
        let row = if has_durs {
            let agg = test_aggregates(&sl, &name);
            SearchTestRow {
                test_name: name,
                group: mins.0,
                image_name: mins.1,
                sentence: mins.2,
                pair_duration_total_micros: if agg.0 > 0 {
                    Some(agg.3)
                } else {
                    None
                },
                occurrences: Some(agg.0 as i64),
                mp4_triples: Some(agg.1 as i64),
                png_triples: Some(agg.2 as i64),
            }
        } else {
            SearchTestRow {
                test_name: name,
                group: mins.0,
                image_name: mins.1,
                sentence: mins.2,
                pair_duration_total_micros: None,
                occurrences: None,
                mp4_triples: None,
                png_triples: None,
            }
        };
        rows.push(row);
        w = w + 1;
    }
    proof {
        assert forall|t: Seq<char>|
            (exists|i3: int| 0 <= i3 < rows@.len() && (#[trigger] rows@[i3]).test_name@ == t)
                <==> (test_in_catalog(catalog@, t) || test_in_durs(durs@, t)) by {
            if exists|i3: int| 0 <= i3 < rows@.len() && (#[trigger] rows@[i3]).test_name@ == t {
                let n = choose|n: int|
                    0 <= n < rows@.len() && (#[trigger] rows@[n]).test_name@ == t;
                assert(names@[n]@ == t);
                assert(crate::text::str_in(names@, t));
            }
            if test_in_catalog(catalog@, t) || test_in_durs(durs@, t) {
                assert(crate::text::str_in(names@, t));
                let n = choose|n: int| 0 <= n < names@.len() && (#[trigger] names@[n])@ == t;
                assert(rows@[n].test_name@ == t);
            }
        }
        assert forall|i3: int, j3: int| 0 <= i3 < j3 < rows@.len() implies crate::text::lex_lt(
            (#[trigger] rows@[i3]).test_name@,
            (#[trigger] rows@[j3]).test_name@,
        ) by {
            assert(rows@[i3].test_name == names@[i3]);
            assert(rows@[j3].test_name == names@[j3]);
        }
    }
    rows
}

/// One enriched search listing row per gaze slice.
#[derive(Debug)]
pub struct SearchSliceRow {
    pub test_name: String,
    pub recording_name: String,
    pub participant_name: String,
    pub group: Option<String>,
    pub image_name: Option<String>,
    pub sentence: Option<String>,
    pub pair_duration_micros: Option<u64>,
    pub mp4_duration_micros: Option<u64>,
    pub png_duration_micros: Option<u64>,
}

/// Whether one gaze triple passes the optional test and participant
/// filters.  Triples carry (test, recording, participant).
pub open spec fn slice_row_listed(
    tr: (String, String, String),
    test: Option<String>,
    participants: Seq<String>,
) -> bool {
    &&& (match test {
        Some(t) => tr.0@ == t@,
        None => true,
    })
    &&& (participants.len() == 0 || crate::text::str_in(participants, tr.2@))
}

/// The sort key of a slice listing row: test, then participant, then
/// recording.
pub open spec fn search_slice_key(r: SearchSliceRow) -> Seq<Seq<char>> {
    seq![r.test_name@, r.participant_name@, r.recording_name@]
}

/// Whether the listing holds a row for the triple `(t, rc, p)`.
pub open spec fn slice_row_in(
    rows: Seq<SearchSliceRow>,
    t: Seq<char>,
    rc: Seq<char>,
    p: Seq<char>,
) -> bool {
    exists|i: int|
        0 <= i < rows.len() && (#[trigger] rows[i]).test_name@ == t && rows[i].recording_name@
            == rc && rows[i].participant_name@ == p
}

/// Whether some gaze triple `(t, rc, p)` passes the filters.
pub open spec fn triple_listed_in(
    triples: Seq<(String, String, String)>,
    test: Option<String>,
    participants: Seq<String>,
    t: Seq<char>,
    rc: Seq<char>,
    p: Seq<char>,
) -> bool {
    exists|w: int|
        0 <= w < triples.len() && slice_row_listed(#[trigger] triples[w], test, participants)
            && triples[w].0@ == t && triples[w].1@ == rc && triples[w].2@ == p
}

/// The enriched per-slice search listing: every distinct gaze triple under
/// the optional filters, ordered by test, participant and recording, each
/// joined with its test's catalog fields and its own duration sums.  A
/// triple without duration rows keeps null durations rather than
/// disappearing.
pub fn search_slices(
    triples: &Vec<(String, String, String)>,
    catalog: &Vec<CatalogRow>,
    durs: &Vec<DurationRow>,
    test: &Option<String>,
    participants: &Vec<String>,
) -> (rows: Vec<SearchSliceRow>)
    ensures
        forall|i: int, j: int|
            0 <= i < j < rows@.len() ==> keys_lt(
                search_slice_key(#[trigger] rows@[i]),
                search_slice_key(#[trigger] rows@[j]),
            ),
        forall|t: Seq<char>, rc: Seq<char>, p: Seq<char>|
            slice_row_in(rows@, t, rc, p) <==> triple_listed_in(
                triples@,
                *test,
                participants@,
                t,
                rc,
                p,
            ),
        forall|i: int|
            0 <= i < rows@.len() ==> {
                let r = #[trigger] rows@[i];
                &&& opt_view(r.group) == group_min(catalog@, r.test_name@)
                &&& opt_view(r.image_name) == image_min(catalog@, r.test_name@)
                &&& opt_view(r.sentence) == sentence_min(catalog@, r.test_name@)
                &&& (if dur_triple_in(durs@, r.test_name@, r.recording_name@, r.participant_name@) {
                    &&& r.mp4_duration_micros == Some(
                        kind_sum(
                            durs@,
                            r.test_name@,
                            r.recording_name@,
                            r.participant_name@,
                            true,
                        ) as u64,
                    )
                    &&& r.png_duration_micros == Some(
                        kind_sum(
                            durs@,
                            r.test_name@,
                            r.recording_name@,
                            r.participant_name@,
                            false,
                        ) as u64,
                    )
                    &&& r.pair_duration_micros == Some(
                        sat_add64(
                            kind_sum(
                                durs@,
                                r.test_name@,
                                r.recording_name@,
                                r.participant_name@,
                                true,
                            ),
                            kind_sum(
                                durs@,
                                r.test_name@,
                                r.recording_name@,
                                r.participant_name@,
                                false,
                            ),
                        ) as u64,
                    )
                } else {
                    &&& r.mp4_duration_micros is None
                    &&& r.png_duration_micros is None
                    &&& r.pair_duration_micros is None
                })
            },
{
    let mut acc: Vec<Vec<String>> = Vec::new();
    let mut i: usize = 0;
    while i < triples.len()
        invariant
            i <= triples@.len(),
            sorted_distinct_rows(acc@),
            rows_uniform(acc@, 3),
            forall|k: Seq<Seq<char>>|
                row_in(acc@, k) <==> exists|j: int|
                    0 <= j < i && slice_row_listed(#[trigger] triples@[j], *test, participants@)
                        && k == seq![triples@[j].0@, triples@[j].2@, triples@[j].1@],
        decreases triples@.len() - i,
    {
        let ghost prev: Seq<Vec<String>> = acc@;
        let tr = &triples[i];
        let mut keep = true;
        match test {
            Some(t) => {
                if !(tr.0 == *t) {
                    keep = false;
                }
            },
            None => {},
        }
        if keep && participants.len() > 0 && !crate::text::str_in_vec(participants, &tr.2) {
            keep = false;
        }
        proof {
            assert(keep == slice_row_listed(triples@[i as int], *test, participants@));
        }
        if keep {
            let mut row: Vec<String> = Vec::new();
            row.push(tr.0.clone());
            row.push(tr.2.clone());
            row.push(tr.1.clone());
            proof {
                assert(row_key(row@) =~= seq![
                    triples@[i as int].0@,
                    triples@[i as int].2@,
                    triples@[i as int].1@,
                ]);
            }
            insert_row_sorted(&mut acc, row);
        }
        proof {
            let iv: int = i as int;
            assert forall|k: Seq<Seq<char>>|
                row_in(acc@, k) <==> exists|j: int|
                    0 <= j < iv + 1 && slice_row_listed(
                        #[trigger] triples@[j],
                        *test,
                        participants@,
                    ) && k == seq![triples@[j].0@, triples@[j].2@, triples@[j].1@] by {
                if row_in(acc@, k) && !row_in(prev, k) {
                    assert(slice_row_listed(triples@[iv], *test, participants@));
                }
                if exists|j: int|
                    0 <= j < iv + 1 && slice_row_listed(
                        #[trigger] triples@[j],
                        *test,
                        participants@,
                    ) && k == seq![triples@[j].0@, triples@[j].2@, triples@[j].1@] {
                    let j = choose|j: int|
                        0 <= j < iv + 1 && slice_row_listed(
                            #[trigger] triples@[j],
                            *test,
                            participants@,
                        ) && k == seq![triples@[j].0@, triples@[j].2@, triples@[j].1@];
                    if j < iv {
                        assert(row_in(prev, k));
                    }
                }
            }
        }
        i = i + 1;
    }
    let mut rows: Vec<SearchSliceRow> = Vec::new();
    let mut w: usize = 0;
    while w < acc.len()
        invariant
            w <= acc@.len(),
            rows@.len() == w,
            rows_uniform(acc@, 3),
            forall|n: int|
                0 <= n < w ==> {
                    let r = #[trigger] rows@[n];
                    &&& r.test_name@ == acc@[n]@[0]@
                    &&& r.participant_name@ == acc@[n]@[1]@
                    &&& r.recording_name@ == acc@[n]@[2]@
                    &&& opt_view(r.group) == group_min(catalog@, r.test_name@)
                    &&& opt_view(r.image_name) == image_min(catalog@, r.test_name@)
                    &&& opt_view(r.sentence) == sentence_min(catalog@, r.test_name@)
                    &&& (if dur_triple_in(
                        durs@,
                        r.test_name@,
                        r.recording_name@,
                        r.participant_name@,
                    ) {
                        &&& r.mp4_duration_micros == Some(
                            kind_sum(
                                durs@,
                                r.test_name@,
                                r.recording_name@,
                                r.participant_name@,
                                true,
                            ) as u64,
                        )
                        &&& r.png_duration_micros == Some(
                            kind_sum(
                                durs@,
                                r.test_name@,
                                r.recording_name@,
                                r.participant_name@,
                                false,
                            ) as u64,
                        )
                        &&& r.pair_duration_micros == Some(
                            sat_add64(
                                kind_sum(
                                    durs@,
                                    r.test_name@,
                                    r.recording_name@,
                                    r.participant_name@,
                                    true,
                                ),
                                kind_sum(
                                    durs@,
                                    r.test_name@,
                                    r.recording_name@,
                                    r.participant_name@,
                                    false,
                                ),
                            ) as u64,
                        )
                    } else {
                        &&& r.mp4_duration_micros is None
                        &&& r.png_duration_micros is None
                        &&& r.pair_duration_micros is None
                    })
                },
        decreases acc@.len() - w,
    {
        let t = acc[w][0].clone();
        let p = acc[w][1].clone();
        let rc = acc[w][2].clone();
        let mins = catalog_mins(catalog, &t);
        let has = dur_triple_in_exec(durs, &t, &rc, &p);
        let row = if has {
            let sums = triple_sums(durs, &t, &rc, &p);
            SearchSliceRow {
                test_name: t,
                recording_name: rc,
                participant_name: p,
                group: mins.0,
                image_name: mins.1,
                sentence: mins.2,
                pair_duration_micros: Some(sat_add_u64(sums.0, sums.1)),
                mp4_duration_micros: Some(sums.0),
                png_duration_micros: Some(sums.1),
            }
        } else {
            SearchSliceRow {
                test_name: t,
                recording_name: rc,
                participant_name: p,
                group: mins.0,
                image_name: mins.1,
                sentence: mins.2,
                pair_duration_micros: None,
                mp4_duration_micros: None,
                png_duration_micros: None,
            }
        };
        rows.push(row);
        w = w + 1;
    }
    proof {
        assert forall|n: int| 0 <= n < rows@.len() implies search_slice_key(#[trigger] rows@[n])
            == row_key(acc@[n]@) by {
            assert(row_key(acc@[n]@) =~= seq![acc@[n]@[0]@, acc@[n]@[1]@, acc@[n]@[2]@]);
            assert(search_slice_key(rows@[n]) =~= row_key(acc@[n]@));
        }
        assert forall|t: Seq<char>, rc: Seq<char>, p: Seq<char>|
            slice_row_in(rows@, t, rc, p) <==> triple_listed_in(
                triples@,
                *test,
                participants@,
                t,
                rc,
                p,
            ) by {
            if slice_row_in(rows@, t, rc, p) {
                let n = choose|n: int|
                    0 <= n < rows@.len() && (#[trigger] rows@[n]).test_name@ == t
                        && rows@[n].recording_name@ == rc && rows@[n].participant_name@ == p;
                assert(row_key(acc@[n]@) == search_slice_key(rows@[n]));
                assert(search_slice_key(rows@[n]) =~= seq![t, p, rc]);
                assert(row_in(acc@, seq![t, p, rc]));
                let j = choose|j: int|
                    0 <= j < triples@.len() && slice_row_listed(
                        #[trigger] triples@[j],
                        *test,
                        participants@,
                    ) && seq![t, p, rc] == seq![triples@[j].0@, triples@[j].2@, triples@[j].1@];
                assert(triples@[j].0@ == seq![t, p, rc][0]);
                assert(triples@[j].2@ == seq![t, p, rc][1]);
                assert(triples@[j].1@ == seq![t, p, rc][2]);
                assert(triple_listed_in(triples@, *test, participants@, t, rc, p));
            }
            if triple_listed_in(triples@, *test, participants@, t, rc, p) {
                let j = choose|j: int|
                    0 <= j < triples@.len() && slice_row_listed(
                        #[trigger] triples@[j],
                        *test,
                        participants@,
                    ) && triples@[j].0@ == t && triples@[j].1@ == rc && triples@[j].2@ == p;
                assert(seq![t, p, rc] =~= seq![triples@[j].0@, triples@[j].2@, triples@[j].1@]);
                assert(row_in(acc@, seq![t, p, rc]));
                let n = choose|n: int|
                    0 <= n < acc@.len() && row_key((#[trigger] acc@[n])@) == seq![t, p, rc];
                assert(row_key(acc@[n]@) =~= seq![acc@[n]@[0]@, acc@[n]@[1]@, acc@[n]@[2]@]);
                assert(acc@[n]@[0]@ == seq![t, p, rc][0]);
                assert(acc@[n]@[1]@ == seq![t, p, rc][1]);
                assert(acc@[n]@[2]@ == seq![t, p, rc][2]);
                assert(rows@[n].test_name@ == t && rows@[n].recording_name@ == rc
                    && rows@[n].participant_name@ == p);
                assert(slice_row_in(rows@, t, rc, p));
            }
        }
    }
    rows
}

} // verus!
