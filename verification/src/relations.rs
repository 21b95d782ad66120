//! Distinct, ordered lookups over the gaze data — timeline/recording pairs,
//! participant sessions, slice listings, and the test↔participant relation
//! maps — every one honouring the exclusion overlay.

use vstd::prelude::*;

use crate::overlay::DisabledSlice;
use crate::overlay::DisabledStore;
use crate::rows::insert_row_sorted;
use crate::rows::keys_lt;
use crate::rows::row_in;
use crate::rows::row_key;
use crate::rows::rows_uniform;
use crate::rows::sorted_distinct_rows;
use crate::samples::GazeData;
use crate::samples::GazeFilter;
use crate::samples::QueryError;
use crate::samples::sample_selected;
use crate::samples::select_gaze_samples;
use crate::text::str_in;
use crate::text::str_in_vec;

verus! {

/// One distinct (timeline, recording) pair of a test.
#[derive(Debug)]
pub struct TimelineRecording {
    pub timeline: String,
    pub recording: String,
}

/// One distinct (participant, test, timeline, recording) session.
#[derive(Debug)]
pub struct ParticipantSession {
    pub participant: String,
    pub test_name: String,
    pub timeline: String,
    pub recording: String,
}

/// Whether the pair `(tl, rc)` occurs in `rows`.
pub open spec fn tr_in(rows: Seq<TimelineRecording>, tl: Seq<char>, rc: Seq<char>) -> bool {
    exists|i: int|
        0 <= i < rows.len() && (#[trigger] rows[i]).timeline@ == tl && rows[i].recording@ == rc
}

/// The sort key of a `TimelineRecording`.
pub open spec fn tr_key(r: TimelineRecording) -> Seq<Seq<char>> {
    seq![r.timeline@, r.recording@]
}

/// The distinct (timeline, recording) pairs of the samples matching the
/// test and participant filter, with excluded slices dropped, ordered by
/// timeline then recording.
pub fn get_timeline_recordings(
    samples: &Vec<GazeData>,
    filter: &GazeFilter,
    overlay: &DisabledStore,
) -> (r: Result<Vec<TimelineRecording>, QueryError>)
    ensures
        match r {
            Ok(rows) => {
                &&& filter.resolved_test_spec() is Some
                &&& (forall|i: int, j: int|
                    0 <= i < j < rows@.len() ==> keys_lt(
                        tr_key(#[trigger] rows@[i]),
                        tr_key(#[trigger] rows@[j]),
                    ))
                &&& (forall|tl: Seq<char>, rc: Seq<char>|
                    tr_in(rows@, tl, rc) <==> exists|w: int|
                        0 <= w < samples@.len() && sample_selected(
                            #[trigger] samples@[w],
                            filter.resolved_test_spec()->0@,
                            filter.participants@,
                            None,
                            None,
                            overlay@,
                        ) && samples@[w].timeline@ == tl && samples@[w].recording@ == rc)
            },
            Err(e) => filter.resolved_test_spec() is None && e matches
                QueryError::MissingParameter(_),
        },
{
    let test = match filter.resolved_test() {
        Some(t) => t,
        None => {
            return Err(
                QueryError::MissingParameter(String::from_str("missing param: test_name/testName")),
            );
        },
    };
    let no_tl: Option<String> = None;
    let no_rc: Option<String> = None;
    let sel = select_gaze_samples(samples, &test, &filter.participants, &no_tl, &no_rc, overlay);
    let ghost pred = |g: GazeData|
        sample_selected(g, test@, filter.participants@, None, None, overlay@);
    proof {
        broadcast use vstd::seq_lib::group_filter_ensures;

        samples@.lemma_filter_len(pred);
        assert(sel@ == samples@.filter(pred));
    }
    let mut acc: Vec<Vec<String>> = Vec::new();
    let mut i: usize = 0;
    while i < sel.len()
        invariant
            i <= sel@.len(),
            sorted_distinct_rows(acc@),
            rows_uniform(acc@, 2),
            forall|k: Seq<Seq<char>>|
                row_in(acc@, k) <==> exists|j: int|
                    0 <= j < i && k == seq![(#[trigger] sel@[j]).timeline@, sel@[j].recording@],
        decreases sel@.len() - i,
    {
        let ghost prev: Seq<Vec<String>> = acc@;
        let mut row: Vec<String> = Vec::new();
        row.push(sel[i].timeline.clone());
        row.push(sel[i].recording.clone());
        proof {
            assert(row@.len() == 2);
            assert(row_key(row@) =~= seq![sel@[i as int].timeline@, sel@[i as int].recording@]);
        }
        insert_row_sorted(&mut acc, row);
        proof {
            let iv: int = i as int;
            assert forall|k: Seq<Seq<char>>|
                row_in(acc@, k) <==> exists|j: int|
                    0 <= j < iv + 1 && k == seq![
                        (#[trigger] sel@[j]).timeline@,
                        sel@[j].recording@,
                    ] by {
                if row_in(acc@, k) {
                    if row_in(prev, k) {
                        let j = choose|j: int|
                            0 <= j < iv && k == seq![
                                (#[trigger] sel@[j]).timeline@,
                                sel@[j].recording@,
                            ];
                        assert(k == seq![sel@[j].timeline@, sel@[j].recording@]);
                    } else {
                        assert(k == seq![sel@[iv].timeline@, sel@[iv].recording@]);
                    }
                }
                if exists|j: int|
                    0 <= j < iv + 1 && k == seq![
                        (#[trigger] sel@[j]).timeline@,
                        sel@[j].recording@,
                    ] {
                    let j = choose|j: int|
                        0 <= j < iv + 1 && k == seq![
                            (#[trigger] sel@[j]).timeline@,
                            sel@[j].recording@,
                        ];
                    if j < iv {
                        assert(row_in(prev, k));
                    }
                }
            }
        }
        i = i + 1;
    }
    let mut rows: Vec<TimelineRecording> = Vec::new();
    let mut w: usize = 0;
    while w < acc.len()
        invariant
            w <= acc@.len(),
            rows@.len() == w,
            rows_uniform(acc@, 2),
            forall|n: int|
                0 <= n < w ==> (#[trigger] rows@[n]).timeline@ == acc@[n]@[0]@
                    && rows@[n].recording@ == acc@[n]@[1]@,
        decreases acc@.len() - w,
    {
        rows.push(
            TimelineRecording { timeline: acc[w][0].clone(), recording: acc[w][1].clone() },
        );
        w = w + 1;
    }
    proof {
        assert forall|n: int| 0 <= n < rows@.len() implies tr_key(#[trigger] rows@[n])
            == row_key(acc@[n]@) by {
            assert(row_key(acc@[n]@) =~= seq![acc@[n]@[0]@, acc@[n]@[1]@]);
            assert(tr_key(rows@[n]) =~= seq![acc@[n]@[0]@, acc@[n]@[1]@]);
        }
        assert forall|tl: Seq<char>, rc: Seq<char>|
            tr_in(rows@, tl, rc) <==> row_in(acc@, seq![tl, rc]) by {
            if tr_in(rows@, tl, rc) {
                let n = choose|n: int|
                    0 <= n < rows@.len() && (#[trigger] rows@[n]).timeline@ == tl
                        && rows@[n].recording@ == rc;
                assert(row_key(acc@[n]@) == tr_key(rows@[n]));
                assert(tr_key(rows@[n]) =~= seq![tl, rc]);
            }
            if row_in(acc@, seq![tl, rc]) {
                let n = choose|n: int|
                    0 <= n < acc@.len() && row_key((#[trigger] acc@[n])@) == seq![tl, rc];
                assert(row_key(acc@[n]@) =~= seq![acc@[n]@[0]@, acc@[n]@[1]@]);
                assert(acc@[n]@[0]@ == seq![tl, rc][0]);
                assert(acc@[n]@[1]@ == seq![tl, rc][1]);
                assert(rows@[n].timeline@ == tl && rows@[n].recording@ == rc);
            }
        }
        assert forall|tl: Seq<char>, rc: Seq<char>|
            tr_in(rows@, tl, rc) <==> exists|x: int|
                0 <= x < samples@.len() && pred(#[trigger] samples@[x]) && samples@[x].timeline@
                    == tl && samples@[x].recording@ == rc by {
            if tr_in(rows@, tl, rc) {
                let j = choose|j: int|
                    0 <= j < sel@.len() && seq![tl, rc] == seq![
                        (#[trigger] sel@[j]).timeline@,
                        sel@[j].recording@,
                    ];
                assert(samples@.filter(pred).contains(sel@[j]));
                crate::rows::lemma_filter_is_subset(samples@, pred, sel@[j]);
                let x = choose|x: int|
                    0 <= x < samples@.len() && samples@[x] == sel@[j];
                assert(seq![tl, rc][0] == sel@[j].timeline@);
                assert(seq![tl, rc][1] == sel@[j].recording@);
                assert(pred(samples@[x]));
            }
            if exists|x: int|
                0 <= x < samples@.len() && pred(#[trigger] samples@[x]) && samples@[x].timeline@
                    == tl && samples@[x].recording@ == rc {
                let x = choose|x: int|
                    0 <= x < samples@.len() && pred(#[trigger] samples@[x])
                        && samples@[x].timeline@ == tl && samples@[x].recording@ == rc;
                assert(sel@.contains(samples@[x]));
                let j = choose|j: int| 0 <= j < sel@.len() && sel@[j] == samples@[x];
                assert(seq![tl, rc] == seq![sel@[j].timeline@, sel@[j].recording@]);
                assert(row_in(acc@, seq![tl, rc]));
            }
        }
    }
    Ok(rows)
}

/// Whether the session `(p, t, tl, rc)` occurs in `rows`.
pub open spec fn session_in(
    rows: Seq<ParticipantSession>,
    p: Seq<char>,
    t: Seq<char>,
    tl: Seq<char>,
    rc: Seq<char>,
) -> bool {
    exists|i: int|
        0 <= i < rows.len() && (#[trigger] rows[i]).participant@ == p && rows[i].test_name@ == t
            && rows[i].timeline@ == tl && rows[i].recording@ == rc
}

/// The sort key of a `ParticipantSession`.
pub open spec fn session_key(r: ParticipantSession) -> Seq<Seq<char>> {
    seq![r.participant@, r.test_name@, r.timeline@, r.recording@]
}

/// Whether one sample belongs to the session listing for `tests` and
/// `participants`: both lists name it, and its slice is not excluded.
pub open spec fn session_sample(
    g: GazeData,
    tests: Seq<String>,
    participants: Seq<String>,
    excl: Set<(Seq<char>, Seq<char>, Seq<char>)>,
) -> bool {
    &&& tests.len() > 0
    &&& participants.len() > 0
    &&& str_in(tests, g.test_name@)
    &&& str_in(participants, g.participant@)
    &&& !excl.contains((g.test_name@, g.recording@, g.participant@))
}

/// All distinct participant sessions for several tests in one pass, ordered
/// by participant, test, timeline, recording.  An empty test or participant
/// list yields an empty listing.
pub fn get_all_participant_sessions(
    samples: &Vec<GazeData>,
    tests: &Vec<String>,
    participants: &Vec<String>,
    overlay: &DisabledStore,
) -> (rows: Vec<ParticipantSession>)
    ensures
        forall|i: int, j: int|
            0 <= i < j < rows@.len() ==> keys_lt(
                session_key(#[trigger] rows@[i]),
                session_key(#[trigger] rows@[j]),
            ),
        forall|p: Seq<char>, t: Seq<char>, tl: Seq<char>, rc: Seq<char>|
            session_in(rows@, p, t, tl, rc) <==> exists|w: int|
                0 <= w < samples@.len() && session_sample(
                    #[trigger] samples@[w],
                    tests@,
                    participants@,
                    overlay@,
                ) && samples@[w].participant@ == p && samples@[w].test_name@ == t
                    && samples@[w].timeline@ == tl && samples@[w].recording@ == rc,
{
    let mut rows: Vec<ParticipantSession> = Vec::new();
    if tests.len() == 0 || participants.len() == 0 {
        return rows;
    }
    let mut acc: Vec<Vec<String>> = Vec::new();
    let mut i: usize = 0;
    while i < samples.len()
        invariant
            i <= samples@.len(),
            tests@.len() > 0,
            participants@.len() > 0,
            sorted_distinct_rows(acc@),
            rows_uniform(acc@, 4),
            forall|k: Seq<Seq<char>>|
                row_in(acc@, k) <==> exists|j: int|
                    0 <= j < i && session_sample(
                        #[trigger] samples@[j],
                        tests@,
                        participants@,
                        overlay@,
                    ) && k == seq![
                        samples@[j].participant@,
                        samples@[j].test_name@,
                        samples@[j].timeline@,
                        samples@[j].recording@,
                    ],
        decreases samples@.len() - i,
    {
        let ghost prev: Seq<Vec<String>> = acc@;
        let g = &samples[i];
        let probe = DisabledSlice::new(
            g.test_name.clone(),
            g.recording.clone(),
            g.participant.clone(),
        );
        let keep = str_in_vec(tests, &g.test_name) && str_in_vec(participants, &g.participant)
            && !overlay.contains(&probe);
        if keep {
            let mut row: Vec<String> = Vec::new();
            row.push(g.participant.clone());
            row.push(g.test_name.clone());
            row.push(g.timeline.clone());
            row.push(g.recording.clone());
            proof {
                assert(row_key(row@) =~= seq![
                    samples@[i as int].participant@,
                    samples@[i as int].test_name@,
                    samples@[i as int].timeline@,
                    samples@[i as int].recording@,
                ]);
            }
            insert_row_sorted(&mut acc, row);
        }
        proof {
            let iv: int = i as int;
            assert forall|k: Seq<Seq<char>>|
                row_in(acc@, k) <==> exists|j: int|
                    0 <= j < iv + 1 && session_sample(
                        #[trigger] samples@[j],
                        tests@,
                        participants@,
                        overlay@,
                    ) && k == seq![
                        samples@[j].participant@,
                        samples@[j].test_name@,
                        samples@[j].timeline@,
                        samples@[j].recording@,
                    ] by {
                if row_in(acc@, k) {
                    if row_in(prev, k) {
                        let j = choose|j: int|
                            0 <= j < iv && session_sample(
                                #[trigger] samples@[j],
                                tests@,
                                participants@,
                                overlay@,
                            ) && k == seq![
                                samples@[j].participant@,
                                samples@[j].test_name@,
                                samples@[j].timeline@,
                                samples@[j].recording@,
                            ];
                        assert(session_sample(samples@[j], tests@, participants@, overlay@));
                    } else {
                        assert(session_sample(samples@[iv], tests@, participants@, overlay@));
                    }
                }
                if exists|j: int|
                    0 <= j < iv + 1 && session_sample(
                        #[trigger] samples@[j],
                        tests@,
                        participants@,
                        overlay@,
                    ) && k == seq![
                        samples@[j].participant@,
                        samples@[j].test_name@,
                        samples@[j].timeline@,
                        samples@[j].recording@,
                    ] {
                    let j = choose|j: int|
                        0 <= j < iv + 1 && session_sample(
                            #[trigger] samples@[j],
                            tests@,
                            participants@,
                            overlay@,
                        ) && k == seq![
                            samples@[j].participant@,
                            samples@[j].test_name@,
                            samples@[j].timeline@,
                            samples@[j].recording@,
                        ];
                    if j < iv {
                        assert(row_in(prev, k));
                    }
                }
            }
        }
        i = i + 1;
    }
    let mut w: usize = 0;
    while w < acc.len()
        invariant
            w <= acc@.len(),
            rows@.len() == w,
            rows_uniform(acc@, 4),
            forall|n: int|
                0 <= n < w ==> (#[trigger] rows@[n]).participant@ == acc@[n]@[0]@
                    && rows@[n].test_name@ == acc@[n]@[1]@ && rows@[n].timeline@ == acc@[n]@[2]@
                    && rows@[n].recording@ == acc@[n]@[3]@,
        decreases acc@.len() - w,
    {
        rows.push(
            ParticipantSession {
                participant: acc[w][0].clone(),
                test_name: acc[w][1].clone(),
                timeline: acc[w][2].clone(),
                recording: acc[w][3].clone(),
            },
        );
        w = w + 1;
    }
    proof {
        assert forall|n: int| 0 <= n < rows@.len() implies session_key(#[trigger] rows@[n])
            == row_key(acc@[n]@) by {
            assert(row_key(acc@[n]@) =~= seq![
                acc@[n]@[0]@,
                acc@[n]@[1]@,
                acc@[n]@[2]@,
                acc@[n]@[3]@,
            ]);
            assert(session_key(rows@[n]) =~= row_key(acc@[n]@));
        }
        assert forall|p: Seq<char>, t: Seq<char>, tl: Seq<char>, rc: Seq<char>|
            session_in(rows@, p, t, tl, rc) <==> row_in(acc@, seq![p, t, tl, rc]) by {
            if session_in(rows@, p, t, tl, rc) {
                let n = choose|n: int|
                    0 <= n < rows@.len() && (#[trigger] rows@[n]).participant@ == p
                        && rows@[n].test_name@ == t && rows@[n].timeline@ == tl
                        && rows@[n].recording@ == rc;
                assert(row_key(acc@[n]@) == session_key(rows@[n]));
                assert(session_key(rows@[n]) =~= seq![p, t, tl, rc]);
            }
            if row_in(acc@, seq![p, t, tl, rc]) {
                let n = choose|n: int|
                    0 <= n < acc@.len() && row_key((#[trigger] acc@[n])@) == seq![p, t, tl, rc];
                assert(row_key(acc@[n]@) =~= seq![
                    acc@[n]@[0]@,
                    acc@[n]@[1]@,
                    acc@[n]@[2]@,
                    acc@[n]@[3]@,
                ]);
                assert(acc@[n]@[0]@ == seq![p, t, tl, rc][0]);
                assert(acc@[n]@[1]@ == seq![p, t, tl, rc][1]);
                assert(acc@[n]@[2]@ == seq![p, t, tl, rc][2]);
                assert(acc@[n]@[3]@ == seq![p, t, tl, rc][3]);
                assert(rows@[n].participant@ == p && rows@[n].test_name@ == t
                    && rows@[n].timeline@ == tl && rows@[n].recording@ == rc);
            }
        }
    }
    rows
}

/// Whether one sample is listed by `list_gaze_slices` under the optional
/// test and participant filter.
pub open spec fn slice_listed(
    g: GazeData,
    test: Option<String>,
    participants: Seq<String>,
) -> bool {
    &&& (match test {
        Some(t) => g.test_name@ == t@,
        None => true,
    })
    &&& (participants.len() == 0 || str_in(participants, g.participant@))
}

/// Whether the slice key `(t, rc, p)` occurs among `rows`.
pub open spec fn slice_in(rows: Seq<DisabledSlice>, t: Seq<char>, rc: Seq<char>, p: Seq<char>) -> bool {
    exists|i: int|
        0 <= i < rows.len() && (#[trigger] rows[i]).test_name@ == t && rows[i].recording_name@
            == rc && rows[i].participant_name@ == p
}

/// The sort key of a listed slice.
pub open spec fn listed_slice_key(r: DisabledSlice) -> Seq<Seq<char>> {
    seq![r.test_name@, r.recording_name@, r.participant_name@]
}

/// Every distinct (test, recording, participant) slice occurring in the
/// gaze data under the optional filters, ordered by the triple.  The
/// overlay is not consulted: the listing feeds the panel that toggles it.
pub fn list_gaze_slices(
    samples: &Vec<GazeData>,
    test: &Option<String>,
    participants: &Vec<String>,
) -> (rows: Vec<DisabledSlice>)
    ensures
        forall|i: int, j: int|
            0 <= i < j < rows@.len() ==> keys_lt(
                listed_slice_key(#[trigger] rows@[i]),
                listed_slice_key(#[trigger] rows@[j]),
            ),
        forall|t: Seq<char>, rc: Seq<char>, p: Seq<char>|
            slice_in(rows@, t, rc, p) <==> exists|w: int|
                0 <= w < samples@.len() && slice_listed(#[trigger] samples@[w], *test, participants@)
                    && samples@[w].test_name@ == t && samples@[w].recording@ == rc
                    && samples@[w].participant@ == p,
{
    let mut acc: Vec<Vec<String>> = Vec::new();
    let mut i: usize = 0;
    while i < samples.len()
        invariant
            i <= samples@.len(),
            sorted_distinct_rows(acc@),
            rows_uniform(acc@, 3),
            forall|k: Seq<Seq<char>>|
                row_in(acc@, k) <==> exists|j: int|
                    0 <= j < i && slice_listed(#[trigger] samples@[j], *test, participants@) && k
                        == seq![
                        samples@[j].test_name@,
                        samples@[j].recording@,
                        samples@[j].participant@,
                    ],
        decreases samples@.len() - i,
    {
        let ghost prev: Seq<Vec<String>> = acc@;
        let g = &samples[i];
        let mut keep = true;
        match test {
            Some(t) => {
                if !(g.test_name == *t) {
                    keep = false;
                }
            },
            None => {},
        }
        if keep && participants.len() > 0 && !str_in_vec(participants, &g.participant) {
            keep = false;
        }
        proof {
            assert(keep == slice_listed(samples@[i as int], *test, participants@));
        }
        if keep {
            let mut row: Vec<String> = Vec::new();
            row.push(g.test_name.clone());
            row.push(g.recording.clone());
            row.push(g.participant.clone());
            proof {
                assert(row_key(row@) =~= seq![
                    samples@[i as int].test_name@,
                    samples@[i as int].recording@,
                    samples@[i as int].participant@,
                ]);
            }
            insert_row_sorted(&mut acc, row);
        }
        proof {
            let iv: int = i as int;
            assert forall|k: Seq<Seq<char>>|
                row_in(acc@, k) <==> exists|j: int|
                    0 <= j < iv + 1 && slice_listed(#[trigger] samples@[j], *test, participants@)
                        && k == seq![
                        samples@[j].test_name@,
                        samples@[j].recording@,
                        samples@[j].participant@,
                    ] by {
                if row_in(acc@, k) && !row_in(prev, k) {
                    assert(slice_listed(samples@[iv], *test, participants@));
                }
                if exists|j: int|
                    0 <= j < iv + 1 && slice_listed(#[trigger] samples@[j], *test, participants@)
                        && k == seq![
                        samples@[j].test_name@,
                        samples@[j].recording@,
                        samples@[j].participant@,
                    ] {
                    let j = choose|j: int|
                        0 <= j < iv + 1 && slice_listed(
                            #[trigger] samples@[j],
                            *test,
                            participants@,
                        ) && k == seq![
                            samples@[j].test_name@,
                            samples@[j].recording@,
                            samples@[j].participant@,
                        ];
                    if j < iv {
                        assert(row_in(prev, k));
                    }
                }
            }
        }
        i = i + 1;
    }
    let mut rows: Vec<DisabledSlice> = Vec::new();
    let mut w: usize = 0;
    while w < acc.len()
        invariant
            w <= acc@.len(),
            rows@.len() == w,
            rows_uniform(acc@, 3),
            forall|n: int|
                0 <= n < w ==> (#[trigger] rows@[n]).test_name@ == acc@[n]@[0]@
                    && rows@[n].recording_name@ == acc@[n]@[1]@ && rows@[n].participant_name@
                    == acc@[n]@[2]@,
        decreases acc@.len() - w,
    {
        rows.push(
            DisabledSlice::new(acc[w][0].clone(), acc[w][1].clone(), acc[w][2].clone()),
        );
        w = w + 1;
    }
    proof {
        assert forall|n: int| 0 <= n < rows@.len() implies listed_slice_key(#[trigger] rows@[n])
            == row_key(acc@[n]@) by {
            assert(row_key(acc@[n]@) =~= seq![acc@[n]@[0]@, acc@[n]@[1]@, acc@[n]@[2]@]);
            assert(listed_slice_key(rows@[n]) =~= row_key(acc@[n]@));
        }
        assert forall|t: Seq<char>, rc: Seq<char>, p: Seq<char>|
            slice_in(rows@, t, rc, p) <==> row_in(acc@, seq![t, rc, p]) by {
            if slice_in(rows@, t, rc, p) {
                let n = choose|n: int|
                    0 <= n < rows@.len() && (#[trigger] rows@[n]).test_name@ == t
                        && rows@[n].recording_name@ == rc && rows@[n].participant_name@ == p;
                assert(row_key(acc@[n]@) == listed_slice_key(rows@[n]));
                assert(listed_slice_key(rows@[n]) =~= seq![t, rc, p]);
            }
            if row_in(acc@, seq![t, rc, p]) {
                let n = choose|n: int|
                    0 <= n < acc@.len() && row_key((#[trigger] acc@[n])@) == seq![t, rc, p];
                assert(row_key(acc@[n]@) =~= seq![acc@[n]@[0]@, acc@[n]@[1]@, acc@[n]@[2]@]);
                assert(acc@[n]@[0]@ == seq![t, rc, p][0]);
                assert(acc@[n]@[1]@ == seq![t, rc, p][1]);
                assert(acc@[n]@[2]@ == seq![t, rc, p][2]);
                assert(rows@[n].test_name@ == t && rows@[n].recording_name@ == rc
                    && rows@[n].participant_name@ == p);
            }
        }
    }
    rows
}

/// The sorted distinct participants of one test, keeping a participant as
/// long as at least one of their recordings for the test is not excluded.
pub fn get_participants_for_test(
    samples: &Vec<GazeData>,
    test: &String,
    overlay: &DisabledStore,
) -> (r: Vec<String>)
    ensures
        crate::text::sorted_distinct_strs(r@),
        forall|p: Seq<char>|
            str_in(r@, p) <==> exists|w: int|
                0 <= w < samples@.len() && (#[trigger] samples@[w]).test_name@ == test@
                    && samples@[w].participant@ == p && !overlay@.contains(
                    (test@, samples@[w].recording@, p),
                ),
{
    let mut r: Vec<String> = Vec::new();
    let mut i: usize = 0;
    while i < samples.len()
        invariant
            i <= samples@.len(),
            crate::text::sorted_distinct_strs(r@),
            forall|p: Seq<char>|
                str_in(r@, p) <==> exists|w: int|
                    0 <= w < i && (#[trigger] samples@[w]).test_name@ == test@
                        && samples@[w].participant@ == p && !overlay@.contains(
                        (test@, samples@[w].recording@, p),
                    ),
        decreases samples@.len() - i,
    {
        let ghost prev: Seq<String> = r@;
        let g = &samples[i];
        let probe = DisabledSlice::new(test.clone(), g.recording.clone(), g.participant.clone());
        let keep = g.test_name == *test && !overlay.contains(&probe);
        if keep {
            crate::text::insert_str_sorted(&mut r, g.participant.clone());
        }
        proof {
            let iv: int = i as int;
            assert forall|p: Seq<char>|
                str_in(r@, p) <==> exists|w: int|
                    0 <= w < iv + 1 && (#[trigger] samples@[w]).test_name@ == test@
                        && samples@[w].participant@ == p && !overlay@.contains(
                        (test@, samples@[w].recording@, p),
                    ) by {
                if str_in(r@, p) && !str_in(prev, p) {
                    assert(samples@[iv].test_name@ == test@ && samples@[iv].participant@ == p
                        && !overlay@.contains((test@, samples@[iv].recording@, p)));
                }
                if exists|w: int|
                    0 <= w < iv + 1 && (#[trigger] samples@[w]).test_name@ == test@
                        && samples@[w].participant@ == p && !overlay@.contains(
                        (test@, samples@[w].recording@, p),
                    ) {
                    let w = choose|w: int|
                        0 <= w < iv + 1 && (#[trigger] samples@[w]).test_name@ == test@
                            && samples@[w].participant@ == p && !overlay@.contains(
                            (test@, samples@[w].recording@, p),
                        );
                    if w < iv {
                        assert(str_in(prev, p));
                    }
                }
            }
        }
        i = i + 1;
    }
    r
}

/// The sorted distinct tests of one participant, keeping a test as long as
/// at least one of its recordings for the participant is not excluded.
pub fn get_tests_for_participant(
    samples: &Vec<GazeData>,
    participant: &String,
    overlay: &DisabledStore,
) -> (r: Vec<String>)
    ensures
        crate::text::sorted_distinct_strs(r@),
        forall|t: Seq<char>|
            str_in(r@, t) <==> exists|w: int|
                0 <= w < samples@.len() && (#[trigger] samples@[w]).participant@ == participant@
                    && samples@[w].test_name@ == t && !overlay@.contains(
                    (t, samples@[w].recording@, participant@),
                ),
{
    let mut r: Vec<String> = Vec::new();
    let mut i: usize = 0;
    while i < samples.len()
        invariant
            i <= samples@.len(),
            crate::text::sorted_distinct_strs(r@),
            forall|t: Seq<char>|
                str_in(r@, t) <==> exists|w: int|
                    0 <= w < i && (#[trigger] samples@[w]).participant@ == participant@
                        && samples@[w].test_name@ == t && !overlay@.contains(
                        (t, samples@[w].recording@, participant@),
                    ),
        decreases samples@.len() - i,
    {
        let ghost prev: Seq<String> = r@;
        let g = &samples[i];
        let probe = DisabledSlice::new(
            g.test_name.clone(),
            g.recording.clone(),
            participant.clone(),
        );
        let keep = g.participant == *participant && !overlay.contains(&probe);
        if keep {
            crate::text::insert_str_sorted(&mut r, g.test_name.clone());
        }
        proof {
            let iv: int = i as int;
            assert forall|t: Seq<char>|
                str_in(r@, t) <==> exists|w: int|
                    0 <= w < iv + 1 && (#[trigger] samples@[w]).participant@ == participant@
                        && samples@[w].test_name@ == t && !overlay@.contains(
                        (t, samples@[w].recording@, participant@),
                    ) by {
                if str_in(r@, t) && !str_in(prev, t) {
                    assert(samples@[iv].participant@ == participant@ && samples@[iv].test_name@
                        == t && !overlay@.contains(
                        (t, samples@[iv].recording@, participant@),
                    ));
                }
                if exists|w: int|
                    0 <= w < iv + 1 && (#[trigger] samples@[w]).participant@ == participant@
                        && samples@[w].test_name@ == t && !overlay@.contains(
                        (t, samples@[w].recording@, participant@),
                    ) {
                    let w = choose|w: int|
                        0 <= w < iv + 1 && (#[trigger] samples@[w]).participant@ == participant@
                            && samples@[w].test_name@ == t && !overlay@.contains(
                            (t, samples@[w].recording@, participant@),
                        );
                    if w < iv {
                        assert(str_in(prev, t));
                    }
                }
            }
        }
        i = i + 1;
    }
    r
}

/// A relation map: each key carries its sorted distinct related names.
pub type RelationMap = Vec<(String, Vec<String>)>;

/// Whether a non-excluded triple relates test `t` to participant `p`.
/// Triples carry (test, participant, recording); the overlay is keyed by
/// (test, recording, participant).
pub open spec fn relation_has(
    triples: Seq<(String, String, String)>,
    excl: Set<(Seq<char>, Seq<char>, Seq<char>)>,
    t: Seq<char>,
    p: Seq<char>,
) -> bool {
    exists|i: int|
        0 <= i < triples.len() && (#[trigger] triples[i]).0@ == t && triples[i].1@ == p
            && !excl.contains((t, triples[i].2@, p))
}

/// The key column of a relation map.
pub open spec fn map_keys(m: Seq<(String, Vec<String>)>) -> Seq<String> {
    m.map_values(|e: (String, Vec<String>)| e.0)
}

/// Whether the map holds `p` under the key `t`.
pub open spec fn map_pair_in(m: Seq<(String, Vec<String>)>, t: Seq<char>, p: Seq<char>) -> bool {
    exists|i: int| 0 <= i < m.len() && (#[trigger] m[i]).0@ == t && str_in(m[i].1@, p)
}

/// Builds the test → participants map from the distinct triples, dropping
/// every triple whose slice the overlay excludes.  A (test, participant)
/// pair is present exactly when at least one of its recordings survives:
/// only a pair all of whose recordings are excluded disappears.
pub fn participants_by_test(
    triples: &Vec<(String, String, String)>,
    overlay: &DisabledStore,
) -> (m: RelationMap)
    ensures
        crate::text::sorted_distinct_strs(map_keys(m@)),
        forall|i: int|
            0 <= i < m@.len() ==> crate::text::sorted_distinct_strs((#[trigger] m@[i]).1@),
        forall|t: Seq<char>, p: Seq<char>|
            map_pair_in(m@, t, p) <==> relation_has(triples@, overlay@, t, p),
{
    let mut keys: Vec<String> = Vec::new();
    let mut i: usize = 0;
    while i < triples.len()
        invariant
            i <= triples@.len(),
            crate::text::sorted_distinct_strs(keys@),
            forall|t: Seq<char>|
                str_in(keys@, t) <==> exists|w: int|
                    0 <= w < i && (#[trigger] triples@[w]).0@ == t && !overlay@.contains(
                        (t, triples@[w].2@, triples@[w].1@),
                    ),
        decreases triples@.len() - i,
    {
        let ghost prev: Seq<String> = keys@;
        let tr = &triples[i];
        let probe = DisabledSlice::new(tr.0.clone(), tr.2.clone(), tr.1.clone());
        if !overlay.contains(&probe) {
            crate::text::insert_str_sorted(&mut keys, tr.0.clone());
        }
        proof {
            let iv: int = i as int;
            assert forall|t: Seq<char>|
                str_in(keys@, t) <==> exists|w: int|
                    0 <= w < iv + 1 && (#[trigger] triples@[w]).0@ == t && !overlay@.contains(
                        (t, triples@[w].2@, triples@[w].1@),
                    ) by {
                if str_in(keys@, t) && !str_in(prev, t) {
                    assert(triples@[iv].0@ == t && !overlay@.contains(
                        (t, triples@[iv].2@, triples@[iv].1@),
                    ));
                }
                if exists|w: int|
                    0 <= w < iv + 1 && (#[trigger] triples@[w]).0@ == t && !overlay@.contains(
                        (t, triples@[w].2@, triples@[w].1@),
                    ) {
                    let w = choose|w: int|
                        0 <= w < iv + 1 && (#[trigger] triples@[w]).0@ == t && !overlay@.contains(
                            (t, triples@[w].2@, triples@[w].1@),
                        );
                    if w < iv {
                        assert(str_in(prev, t));
                    }
                }
            }
        }
        i = i + 1;
    }
    let mut m: RelationMap = Vec::new();
    let mut w: usize = 0;
    while w < keys.len()
        invariant
            w <= keys@.len(),
            m@.len() == w,
            crate::text::sorted_distinct_strs(keys@),
            forall|t: Seq<char>|
                str_in(keys@, t) <==> exists|x: int|
                    0 <= x < triples@.len() && (#[trigger] triples@[x]).0@ == t
                        && !overlay@.contains((t, triples@[x].2@, triples@[x].1@)),
            forall|n: int| 0 <= n < w ==> (#[trigger] m@[n]).0 == keys@[n],
            forall|n: int|
                0 <= n < w ==> crate::text::sorted_distinct_strs((#[trigger] m@[n]).1@),
            forall|n: int, p: Seq<char>|
                0 <= n < w ==> (#[trigger] str_in(m@[n].1@, p) <==> relation_has(
                    triples@,
                    overlay@,
                    keys@[n]@,
                    p,
                )),
        decreases keys@.len() - w,
    {
        let key = &keys[w];
        let mut vals: Vec<String> = Vec::new();
        let mut i2: usize = 0;
        while i2 < triples.len()
            invariant
                i2 <= triples@.len(),
                crate::text::sorted_distinct_strs(vals@),
                forall|p: Seq<char>|
                    str_in(vals@, p) <==> exists|x: int|
                        0 <= x < i2 && (#[trigger] triples@[x]).0@ == key@ && triples@[x].1@ == p
                            && !overlay@.contains((key@, triples@[x].2@, p)),
            decreases triples@.len() - i2,
        {
            let ghost prev: Seq<String> = vals@;
            let tr = &triples[i2];
            let probe = DisabledSlice::new(tr.0.clone(), tr.2.clone(), tr.1.clone());
            if tr.0 == *key && !overlay.contains(&probe) {
                crate::text::insert_str_sorted(&mut vals, tr.1.clone());
            }
            proof {
                let iv: int = i2 as int;
                assert forall|p: Seq<char>|
                    str_in(vals@, p) <==> exists|x: int|
                        0 <= x < iv + 1 && (#[trigger] triples@[x]).0@ == key@ && triples@[x].1@
                            == p && !overlay@.contains((key@, triples@[x].2@, p)) by {
                    if str_in(vals@, p) && !str_in(prev, p) {
                        assert(triples@[iv].0@ == key@ && triples@[iv].1@ == p
                            && !overlay@.contains((key@, triples@[iv].2@, p)));
                    }
                    if exists|x: int|
                        0 <= x < iv + 1 && (#[trigger] triples@[x]).0@ == key@ && triples@[x].1@
                            == p && !overlay@.contains((key@, triples@[x].2@, p)) {
                        let x = choose|x: int|
                            0 <= x < iv + 1 && (#[trigger] triples@[x]).0@ == key@
                                && triples@[x].1@ == p && !overlay@.contains(
                                (key@, triples@[x].2@, p),
                            );
                        if x < iv {
                            assert(str_in(prev, p));
                        }
                    }
                }
            }
            i2 = i2 + 1;
        }
        m.push((key.clone(), vals));
        w = w + 1;
    }
    proof {
        assert forall|p2: int, q2: int| 0 <= p2 < q2 < map_keys(m@).len() implies crate::text::lex_lt(
            map_keys(m@)[p2]@,
            map_keys(m@)[q2]@,
        ) by {
            assert(map_keys(m@)[p2] == m@[p2].0);
            assert(map_keys(m@)[q2] == m@[q2].0);
            assert(m@[p2].0 == keys@[p2]);
            assert(m@[q2].0 == keys@[q2]);
        }
        assert forall|t: Seq<char>, p: Seq<char>|
            map_pair_in(m@, t, p) <==> relation_has(triples@, overlay@, t, p) by {
            if map_pair_in(m@, t, p) {
                let n = choose|n: int|
                    0 <= n < m@.len() && (#[trigger] m@[n]).0@ == t && str_in(m@[n].1@, p);
                assert(keys@[n]@ == t);
                assert(relation_has(triples@, overlay@, keys@[n]@, p));
            }
            if relation_has(triples@, overlay@, t, p) {
                let x = choose|x: int|
                    0 <= x < triples@.len() && (#[trigger] triples@[x]).0@ == t && triples@[x].1@
                        == p && !overlay@.contains((t, triples@[x].2@, p));
                assert(triples@[x].0@ == t && !overlay@.contains((t, triples@[x].2@, triples@[x].1@)));
                assert(str_in(keys@, t));
                let n = choose|n: int| 0 <= n < keys@.len() && keys@[n]@ == t;
                assert(m@[n].0@ == t);
                assert(str_in(m@[n].1@, p));
            }
        }
    }
    m
}

/// Builds the participant → tests map from the distinct triples, dropping
/// every triple whose slice the overlay excludes.
pub fn tests_by_participant(
    triples: &Vec<(String, String, String)>,
    overlay: &DisabledStore,
) -> (m: RelationMap)
    ensures
        crate::text::sorted_distinct_strs(map_keys(m@)),
        forall|i: int|
            0 <= i < m@.len() ==> crate::text::sorted_distinct_strs((#[trigger] m@[i]).1@),
        forall|p: Seq<char>, t: Seq<char>|
            map_pair_in(m@, p, t) <==> relation_has(triples@, overlay@, t, p),
{
    let mut keys: Vec<String> = Vec::new();
    let mut i: usize = 0;
    while i < triples.len()
        invariant
            i <= triples@.len(),
            crate::text::sorted_distinct_strs(keys@),
            forall|p: Seq<char>|
                str_in(keys@, p) <==> exists|w: int|
                    0 <= w < i && (#[trigger] triples@[w]).1@ == p && !overlay@.contains(
                        (triples@[w].0@, triples@[w].2@, p),
                    ),
        decreases triples@.len() - i,
    {
        let ghost prev: Seq<String> = keys@;
        let tr = &triples[i];
        let probe = DisabledSlice::new(tr.0.clone(), tr.2.clone(), tr.1.clone());
        if !overlay.contains(&probe) {
            crate::text::insert_str_sorted(&mut keys, tr.1.clone());
        }
        proof {
            let iv: int = i as int;
            assert forall|p: Seq<char>|
                str_in(keys@, p) <==> exists|w: int|
                    0 <= w < iv + 1 && (#[trigger] triples@[w]).1@ == p && !overlay@.contains(
                        (triples@[w].0@, triples@[w].2@, p),
                    ) by {
                if str_in(keys@, p) && !str_in(prev, p) {
                    assert(triples@[iv].1@ == p && !overlay@.contains(
                        (triples@[iv].0@, triples@[iv].2@, p),
                    ));
                }
                if exists|w: int|
                    0 <= w < iv + 1 && (#[trigger] triples@[w]).1@ == p && !overlay@.contains(
                        (triples@[w].0@, triples@[w].2@, p),
                    ) {
                    let w = choose|w: int|
                        0 <= w < iv + 1 && (#[trigger] triples@[w]).1@ == p && !overlay@.contains(
                            (triples@[w].0@, triples@[w].2@, p),
                        );
                    if w < iv {
                        assert(str_in(prev, p));
                    }
                }
            }
        }
        i = i + 1;
    }
    let mut m: RelationMap = Vec::new();
    let mut w: usize = 0;
    while w < keys.len()
        invariant
            w <= keys@.len(),
            m@.len() == w,
            crate::text::sorted_distinct_strs(keys@),
            forall|p: Seq<char>|
                str_in(keys@, p) <==> exists|x: int|
                    0 <= x < triples@.len() && (#[trigger] triples@[x]).1@ == p
                        && !overlay@.contains((triples@[x].0@, triples@[x].2@, p)),
            forall|n: int| 0 <= n < w ==> (#[trigger] m@[n]).0 == keys@[n],
            forall|n: int|
                0 <= n < w ==> crate::text::sorted_distinct_strs((#[trigger] m@[n]).1@),
            forall|n: int, t: Seq<char>|
                0 <= n < w ==> (#[trigger] str_in(m@[n].1@, t) <==> relation_has(
                    triples@,
                    overlay@,
                    t,
                    keys@[n]@,
                )),
        decreases keys@.len() - w,
    {
        let key = &keys[w];
        let mut vals: Vec<String> = Vec::new();
        let mut i2: usize = 0;
        while i2 < triples.len()
            invariant
                i2 <= triples@.len(),
                crate::text::sorted_distinct_strs(vals@),
                forall|t: Seq<char>|
                    str_in(vals@, t) <==> exists|x: int|
                        0 <= x < i2 && (#[trigger] triples@[x]).1@ == key@ && triples@[x].0@ == t
                            && !overlay@.contains((t, triples@[x].2@, key@)),
            decreases triples@.len() - i2,
        {
            let ghost prev: Seq<String> = vals@;
            let tr = &triples[i2];
            let probe = DisabledSlice::new(tr.0.clone(), tr.2.clone(), tr.1.clone());
            if tr.1 == *key && !overlay.contains(&probe) {
                crate::text::insert_str_sorted(&mut vals, tr.0.clone());
            }
            proof {
                let iv: int = i2 as int;
                assert forall|t: Seq<char>|
                    str_in(vals@, t) <==> exists|x: int|
                        0 <= x < iv + 1 && (#[trigger] triples@[x]).1@ == key@ && triples@[x].0@
                            == t && !overlay@.contains((t, triples@[x].2@, key@)) by {
                    if str_in(vals@, t) && !str_in(prev, t) {
                        assert(triples@[iv].1@ == key@ && triples@[iv].0@ == t
                            && !overlay@.contains((t, triples@[iv].2@, key@)));
                    }
                    if exists|x: int|
                        0 <= x < iv + 1 && (#[trigger] triples@[x]).1@ == key@ && triples@[x].0@
                            == t && !overlay@.contains((t, triples@[x].2@, key@)) {
                        let x = choose|x: int|
                            0 <= x < iv + 1 && (#[trigger] triples@[x]).1@ == key@
                                && triples@[x].0@ == t && !overlay@.contains(
                                (t, triples@[x].2@, key@),
                            );
                        if x < iv {
                            assert(str_in(prev, t));
                        }
                    }
                }
            }
            i2 = i2 + 1;
        }
        m.push((key.clone(), vals));
        w = w + 1;
    }
    proof {
        assert forall|p2: int, q2: int|
            0 <= p2 < q2 < map_keys(m@).len() implies crate::text::lex_lt(
            map_keys(m@)[p2]@,
            map_keys(m@)[q2]@,
        ) by {
            assert(map_keys(m@)[p2] == m@[p2].0);
            assert(map_keys(m@)[q2] == m@[q2].0);
            assert(m@[p2].0 == keys@[p2]);
            assert(m@[q2].0 == keys@[q2]);
        }
        assert forall|p: Seq<char>, t: Seq<char>|
            map_pair_in(m@, p, t) <==> relation_has(triples@, overlay@, t, p) by {
            if map_pair_in(m@, p, t) {
                let n = choose|n: int|
                    0 <= n < m@.len() && (#[trigger] m@[n]).0@ == p && str_in(m@[n].1@, t);
                assert(keys@[n]@ == p);
                assert(relation_has(triples@, overlay@, t, keys@[n]@));
            }
            if relation_has(triples@, overlay@, t, p) {
                let x = choose|x: int|
                    0 <= x < triples@.len() && (#[trigger] triples@[x]).0@ == t && triples@[x].1@
                        == p && !overlay@.contains((t, triples@[x].2@, p));
                assert(triples@[x].1@ == p && !overlay@.contains(
                    (triples@[x].0@, triples@[x].2@, p),
                ));
                assert(str_in(keys@, p));
                let n = choose|n: int| 0 <= n < keys@.len() && keys@[n]@ == p;
                assert(m@[n].0@ == p);
                assert(str_in(m@[n].1@, t));
            }
        }
    }
    m
}

/// A (test, participant) pair is related exactly when not every one of its
/// recordings is covered by the overlay: one non-excluded recording keeps
/// the pair, and only full coverage removes it.
pub proof fn lemma_pair_present_iff_not_covered(
    triples: Seq<(String, String, String)>,
    excl: Set<(Seq<char>, Seq<char>, Seq<char>)>,
    t: Seq<char>,
    p: Seq<char>,
)
    ensures
        relation_has(triples, excl, t, p) <==> !(forall|i: int|
            0 <= i < triples.len() && (#[trigger] triples[i]).0@ == t && triples[i].1@ == p
                ==> excl.contains((t, triples[i].2@, p))),
{
}

} // verus!
