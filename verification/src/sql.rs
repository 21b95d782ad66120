//! The query builder: parameterized, overlay-aware read queries assembled
//! from a filter bundle.
//!
//! Bound values never reach the query text: the text of every built query
//! is a function of counts and flags alone (see the `*_sql` spec
//! functions), and the value list is pinned beside it, fragment by
//! fragment, so placeholders and parameters cannot drift apart.

use vstd::prelude::*;

use crate::overlay::DisabledSlice;
use crate::overlay::DisabledStore;
use crate::overlay::distinct_keys;
use crate::overlay::key_in;
use crate::samples::GazeFilter;
use crate::samples::QueryError;
use crate::text::str_in;
use crate::text::str_in_vec;

verus! {

/// One bound query parameter.
#[derive(Debug)]
pub enum SqlParam {
    Text(String),
    Int(i64),
}

/// A parameterized query: text with placeholders, and the values bound to
/// them, in placeholder order.
#[derive(Debug)]
pub struct SqlQuery {
    pub text: String,
    pub params: Vec<SqlParam>,
}

/// `n` question-mark placeholders, comma-separated.
pub open spec fn placeholders(n: int) -> Seq<char>
    decreases n,
{
    if n <= 0 {
        Seq::empty()
    } else if n == 1 {
        "?"@
    } else {
        placeholders(n - 1) + ",?"@
    }
}

/// The participant values as text parameters, in order.
pub open spec fn text_params(v: Seq<String>) -> Seq<SqlParam> {
    v.map_values(|s: String| SqlParam::Text(s))
}

/// The three names of each slice as text parameters, slice by slice.
pub open spec fn slice_params(ds: Seq<DisabledSlice>) -> Seq<SqlParam>
    decreases ds.len(),
{
    if ds.len() == 0 {
        Seq::empty()
    } else {
        slice_params(ds.drop_last()) + seq![
            SqlParam::Text(ds.last().test_name),
            SqlParam::Text(ds.last().recording_name),
            SqlParam::Text(ds.last().participant_name),
        ]
    }
}

/// The `AND NOT (...)` exclusion clause for `n` slices; empty for none.
pub open spec fn excl_clause(n: int) -> Seq<char> {
    if n <= 0 {
        Seq::empty()
    } else {
        " AND NOT ("@ + excl_disjuncts(n) + ")"@
    }
}

/// `n` per-slice equality conjunctions, joined by OR.
pub open spec fn excl_disjuncts(n: int) -> Seq<char>
    decreases n,
{
    let one =
        "(\"Test Name\" = ? AND \"Recording name\" = ? AND \"Participant name\" = ?)"@;
    if n <= 1 {
        one
    } else {
        excl_disjuncts(n - 1) + " OR "@ + one
    }
}

/// An `AND <col> IN (...)` clause for `n` values; empty for none.
pub open spec fn in_clause(col: Seq<char>, n: int) -> Seq<char> {
    if n <= 0 {
        Seq::empty()
    } else {
        " AND \""@ + col + "\" IN ("@ + placeholders(n) + ")"@
    }
}

/// The trailing LIMIT/OFFSET fragment of the paging policy: no limit means
/// no clause at all, and an offset binds only beside a positive limit.
pub open spec fn paging_clause(limit: i64, offset: i64) -> Seq<char> {
    if limit > 0 {
        if offset > 0 {
            " LIMIT ? OFFSET ?"@
        } else {
            " LIMIT ?"@
        }
    } else {
        Seq::empty()
    }
}

/// The parameters the paging fragment binds.
pub open spec fn paging_params(limit: i64, offset: i64) -> Seq<SqlParam> {
    if limit > 0 {
        if offset > 0 {
            seq![SqlParam::Int(limit), SqlParam::Int(offset)]
        } else {
            seq![SqlParam::Int(limit)]
        }
    } else {
        Seq::empty()
    }
}

/// Whether an overlay key concerns the filtered slice of the data: its
/// test matches, its participant is allowed, and, when a recording filter
/// is set, its recording matches.
pub open spec fn slice_compatible(
    k: (Seq<char>, Seq<char>, Seq<char>),
    test: Seq<char>,
    participants: Seq<String>,
    recording: Option<String>,
) -> bool {
    &&& k.0 == test
    &&& (participants.len() == 0 || str_in(participants, k.2))
    &&& (match recording {
        Some(rc) => k.1 == rc@,
        None => true,
    })
}

/// The compatible part of the overlay, one slice per key, in some order.
pub open spec fn relevant_slices_of(
    ds: Seq<DisabledSlice>,
    excl: Set<(Seq<char>, Seq<char>, Seq<char>)>,
    test: Seq<char>,
    participants: Seq<String>,
    recording: Option<String>,
) -> bool {
    &&& distinct_keys(ds)
    &&& (forall|k: (Seq<char>, Seq<char>, Seq<char>)|
        key_in(ds, k) <==> (excl.contains(k) && slice_compatible(
            k,
            test,
            participants,
            recording,
        )))
}

/// Restricts the overlay snapshot to the slices the filter can reach.
fn relevant_slices(
    overlay: &DisabledStore,
    test: &String,
    participants: &Vec<String>,
    recording: &Option<String>,
) -> (ds: Vec<DisabledSlice>)
    ensures
        relevant_slices_of(ds@, overlay@, test@, participants@, *recording),
{
    let snapshot = overlay.get_disabled_slices();
    let mut ds: Vec<DisabledSlice> = Vec::new();
    let mut i: usize = 0;
    while i < snapshot.len()
        invariant
            i <= snapshot@.len(),
            distinct_keys(snapshot@),
            crate::overlay::key_set(snapshot@) == overlay@,
            distinct_keys(ds@),
            forall|k: (Seq<char>, Seq<char>, Seq<char>)|
                key_in(ds@, k) <==> (exists|j: int|
                    0 <= j < i && (#[trigger] snapshot@[j]).key() == k) && slice_compatible(
                    k,
                    test@,
                    participants@,
                    *recording,
                ),
        decreases snapshot@.len() - i,
    {
        let ghost prev: Seq<DisabledSlice> = ds@;
        let s = &snapshot[i];
        let mut keep = s.test_name == *test;
        if keep && participants.len() > 0 && !str_in_vec(participants, &s.participant_name) {
            keep = false;
        }
        match recording {
            Some(rc) => {
                if !(s.recording_name == *rc) {
                    keep = false;
                }
            },
            None => {},
        }
        proof {
            assert(keep == slice_compatible(
                snapshot@[i as int].key(),
                test@,
                participants@,
                *recording,
            ));
        }
        if keep {
            proof {
                if key_in(prev, snapshot@[i as int].key()) {
                    let j = choose|j: int|
                        0 <= j < i && (#[trigger] snapshot@[j]).key() == snapshot@[i as int].key();
                    assert(false);
                }
            }
            ds.push(s.duplicate());
        }
        proof {
            let iv: int = i as int;
            assert forall|k: (Seq<char>, Seq<char>, Seq<char>)|
                key_in(ds@, k) <==> (exists|j: int|
                    0 <= j < iv + 1 && (#[trigger] snapshot@[j]).key() == k) && slice_compatible(
                    k,
                    test@,
                    participants@,
                    *recording,
                ) by {
                if key_in(ds@, k) {
                    let w = choose|w: int| 0 <= w < ds@.len() && (#[trigger] ds@[w]).key() == k;
                    if w < prev.len() {
                        assert(key_in(prev, k));
                    } else {
                        assert(snapshot@[iv].key() == k);
                    }
                }
                if (exists|j: int| 0 <= j < iv + 1 && (#[trigger] snapshot@[j]).key() == k)
                    && slice_compatible(k, test@, participants@, *recording) {
                    let j = choose|j: int|
                        0 <= j < iv + 1 && (#[trigger] snapshot@[j]).key() == k;
                    if j < iv {
                        assert(key_in(prev, k));
                        let w = choose|w: int|
                            0 <= w < prev.len() && (#[trigger] prev[w]).key() == k;
                        assert(ds@[w].key() == k);
                    } else {
                        if keep {
                            assert(ds@[ds@.len() - 1].key() == k);
                        }
                    }
                }
            }
        }
        i = i + 1;
    }
    proof {
        assert forall|k: (Seq<char>, Seq<char>, Seq<char>)|
            key_in(ds@, k) <==> (overlay@.contains(k) && slice_compatible(
                k,
                test@,
                participants@,
                *recording,
            )) by {
            assert(overlay@.contains(k) == key_in(snapshot@, k));
        }
    }
    ds
}

/// Appends the exclusion clause for `ds` and binds each slice's names.
fn push_excl(q: &mut SqlQuery, ds: &Vec<DisabledSlice>)
    ensures
        final(q).text@ == old(q).text@ + excl_clause(ds@.len() as int),
        final(q).params@ == old(q).params@ + slice_params(ds@),
{
    if ds.len() == 0 {
        proof {
            assert(final(q).text@ =~= old(q).text@ + excl_clause(0));
            assert(final(q).params@ =~= old(q).params@ + slice_params(ds@));
        }
        return ;
    }
    q.text.append(" AND NOT (");
    let mut i: usize = 0;
    while i < ds.len()
        invariant
            1 <= ds@.len(),
            i <= ds@.len(),
            q.text@ == old(q).text@ + " AND NOT ("@ + (if i == 0 {
                Seq::<char>::empty()
            } else {
                excl_disjuncts(i as int)
            }),
            q.params@ == old(q).params@ + slice_params(ds@.take(i as int)),
        decreases ds@.len() - i,
    {
        if i > 0 {
            q.text.append(" OR ");
        }
        q.text.append("(\"Test Name\" = ? AND \"Recording name\" = ? AND \"Participant name\" = ?)");
        q.params.push(SqlParam::Text(ds[i].test_name.clone()));
        q.params.push(SqlParam::Text(ds[i].recording_name.clone()));
        q.params.push(SqlParam::Text(ds[i].participant_name.clone()));
        proof {
            let iv: int = i as int;
            assert(ds@.take(iv + 1).drop_last() =~= ds@.take(iv));
            assert(ds@.take(iv + 1).last() == ds@[iv]);
            assert(ds@[iv].test_name == ds@.take(iv + 1).last().test_name);
            assert(q.params@ =~= old(q).params@ + slice_params(ds@.take(iv + 1)));
            if iv == 0 {
                assert(q.text@ =~= old(q).text@ + " AND NOT ("@ + excl_disjuncts(1));
            } else {
                assert(q.text@ =~= old(q).text@ + " AND NOT ("@ + (excl_disjuncts(iv) + " OR "@
                    + "(\"Test Name\" = ? AND \"Recording name\" = ? AND \"Participant name\" = ?)"@));
            }
        }
        i = i + 1;
    }
    q.text.append(")");
    proof {
        assert(ds@.take(ds@.len() as int) =~= ds@);
        assert(q.text@ =~= old(q).text@ + excl_clause(ds@.len() as int));
    }
}

/// Appends an `AND <col> IN (...)` clause and binds the values.
fn push_in_clause(q: &mut SqlQuery, col: &str, values: &Vec<String>)
    ensures
        final(q).text@ == old(q).text@ + in_clause(col@, values@.len() as int),
        final(q).params@ == old(q).params@ + text_params(values@),
{
    if values.len() == 0 {
        proof {
            assert(final(q).text@ =~= old(q).text@ + in_clause(col@, 0));
            assert(text_params(values@) =~= Seq::<SqlParam>::empty());
            assert(final(q).params@ =~= old(q).params@ + text_params(values@));
        }
        return ;
    }
    q.text.append(" AND \"");
    q.text.append(col);
    q.text.append("\" IN (");
    let mut i: usize = 0;
    while i < values.len()
        invariant
            1 <= values@.len(),
            i <= values@.len(),
            q.text@ == old(q).text@ + " AND \""@ + col@ + "\" IN ("@ + placeholders(i as int),
            q.params@ == old(q).params@ + text_params(values@.take(i as int)),
        decreases values@.len() - i,
    {
        if i == 0 {
            q.text.append("?");
        } else {
            q.text.append(",?");
        }
        q.params.push(SqlParam::Text(values[i].clone()));
        proof {
            let iv: int = i as int;
            assert(q.params@ =~= old(q).params@ + text_params(values@.take(iv + 1))) by {
                assert(values@.take(iv + 1) =~= values@.take(iv).push(values@[iv]));
                assert(text_params(values@.take(iv + 1)) =~= text_params(values@.take(iv)).push(
                    SqlParam::Text(values@[iv]),
                ));
            }
            if iv == 0 {
                assert(q.text@ =~= old(q).text@ + " AND \""@ + col@ + "\" IN ("@
                    + placeholders(1));
            } else {
                assert(q.text@ =~= old(q).text@ + " AND \""@ + col@ + "\" IN ("@ + (placeholders(
                    iv,
                ) + ",?"@));
            }
        }
        i = i + 1;
    }
    q.text.append(")");
    proof {
        assert(values@.take(values@.len() as int) =~= values@);
        assert(final(q).text@ =~= old(q).text@ + in_clause(col@, values@.len() as int));
    }
}

/// The gaze stream query's full text, as a function of counts and flags
/// alone: no bound value can reach it.
pub open spec fn gaze_sql(
    n_parts: int,
    has_tl: bool,
    has_rc: bool,
    n_excl: int,
    limit: i64,
    offset: i64,
) -> Seq<char> {
    "SELECT \"Gaze point X\", \"Gaze point Y\", Box, \"Presented Media name\", \"Timeline name\", \"Participant name\", \"Recording name\", \"Exact time\", \"Test Name\" FROM gaze_data WHERE \"Test Name\" = ?1"@
        + in_clause("Participant name"@, n_parts) + (if has_tl {
        " AND \"Timeline name\" = ?"@
    } else {
        Seq::empty()
    }) + (if has_rc {
        " AND \"Recording name\" = ?"@
    } else {
        Seq::empty()
    }) + excl_clause(n_excl) + " ORDER BY \"Exact time\""@ + paging_clause(limit, offset)
}

/// Builds the filtered, overlay-aware, paged gaze query.  The text follows
/// `gaze_sql` over the filter's shape; the parameter list binds, in order:
/// the test, the allowed participants, the optional timeline and recording,
/// the three names of each compatible excluded slice, and the paging
/// bounds.  Fails exactly when no test identifier is supplied.
pub fn gaze_query(filter: &GazeFilter, overlay: &DisabledStore) -> (r: Result<
    SqlQuery,
    QueryError,
>)
    ensures
        match r {
            Ok(q) => {
                &&& filter.resolved_test_spec() is Some
                &&& exists|ds: Seq<DisabledSlice>|
                    {
                        &&& relevant_slices_of(
                            ds,
                            overlay@,
                            filter.resolved_test_spec()->0@,
                            filter.participants@,
                            filter.recording,
                        )
                        &&& q.text@ == gaze_sql(
                            filter.participants@.len() as int,
                            filter.timeline is Some,
                            filter.recording is Some,
                            ds.len() as int,
                            filter.limit_spec(),
                            filter.offset_spec(),
                        )
                        &&& q.params@ == seq![
                            SqlParam::Text(filter.resolved_test_spec()->0),
                        ] + text_params(filter.participants@) + (match filter.timeline {
                            Some(tl) => seq![SqlParam::Text(tl)],
                            None => Seq::empty(),
                        }) + (match filter.recording {
                            Some(rc) => seq![SqlParam::Text(rc)],
                            None => Seq::empty(),
                        }) + slice_params(ds) + paging_params(
                            filter.limit_spec(),
                            filter.offset_spec(),
                        )
                    }
            },
            Err(e) => filter.resolved_test_spec() is None && e matches
                QueryError::MissingParameter(_),
        },
{
    let test = match filter.resolved_test() {
        Some(t) => t,
        None => {
            return Err(
                QueryError::MissingParameter(String::from_str("missing param: test_name/testName")),
            );
        },
    };
    let mut q = SqlQuery { text: String::new(), params: Vec::new() };
    q.text.append(
        "SELECT \"Gaze point X\", \"Gaze point Y\", Box, \"Presented Media name\", \"Timeline name\", \"Participant name\", \"Recording name\", \"Exact time\", \"Test Name\" FROM gaze_data WHERE \"Test Name\" = ?1",
    );
    q.params.push(SqlParam::Text(test.clone()));
    push_in_clause(&mut q, "Participant name", &filter.participants);
    match &filter.timeline {
        Some(tl) => {
            q.text.append(" AND \"Timeline name\" = ?");
            q.params.push(SqlParam::Text(tl.clone()));
        },
        None => {},
    }
    match &filter.recording {
        Some(rc) => {
            q.text.append(" AND \"Recording name\" = ?");
            q.params.push(SqlParam::Text(rc.clone()));
        },
        None => {},
    }
    let ds = relevant_slices(overlay, &test, &filter.participants, &filter.recording);
    push_excl(&mut q, &ds);
    q.text.append(" ORDER BY \"Exact time\"");
    let limit: i64 = match filter.limit {
        Some(l) => l,
        None => 0,
    };
    let offset: i64 = match filter.offset {
        Some(o) => o,
        None => 0,
    };
    if limit > 0 {
        if offset > 0 {
            q.text.append(" LIMIT ? OFFSET ?");
            q.params.push(SqlParam::Int(limit));
            q.params.push(SqlParam::Int(offset));
        } else {
            q.text.append(" LIMIT ?");
            q.params.push(SqlParam::Int(limit));
        }
    }
    proof {
        assert(q.text@ =~= gaze_sql(
            filter.participants@.len() as int,
            filter.timeline is Some,
            filter.recording is Some,
            ds@.len() as int,
            filter.limit_spec(),
            filter.offset_spec(),
        ));
        assert(q.params@ =~= seq![SqlParam::Text(filter.resolved_test_spec()->0)] + text_params(
            filter.participants@,
        ) + (match filter.timeline {
            Some(tl) => seq![SqlParam::Text(tl)],
            None => Seq::<SqlParam>::empty(),
        }) + (match filter.recording {
            Some(rc) => seq![SqlParam::Text(rc)],
            None => Seq::<SqlParam>::empty(),
        }) + slice_params(ds@) + paging_params(filter.limit_spec(), filter.offset_spec()));
    }
    Ok(q)
}

/// The box statistics query's full text.
pub open spec fn box_stats_sql(n_parts: int, has_tl: bool, has_rc: bool, n_excl: int) -> Seq<
    char,
> {
    "SELECT Box, COUNT(*) AS count FROM gaze_data WHERE \"Test Name\" = ?1"@ + in_clause(
        "Participant name"@,
        n_parts,
    ) + (if has_tl {
        " AND \"Timeline name\" = ?"@
    } else {
        Seq::empty()
    }) + (if has_rc {
        " AND \"Recording name\" = ?"@
    } else {
        Seq::empty()
    }) + excl_clause(n_excl) + " GROUP BY Box"@
}

/// Builds the grouped box-count query for a filtered slice.
pub fn box_stats_query(filter: &GazeFilter, overlay: &DisabledStore) -> (r: Result<
    SqlQuery,
    QueryError,
>)
    ensures
        match r {
            Ok(q) => {
                &&& filter.resolved_test_spec() is Some
                &&& exists|ds: Seq<DisabledSlice>|
                    {
                        &&& relevant_slices_of(
                            ds,
                            overlay@,
                            filter.resolved_test_spec()->0@,
                            filter.participants@,
                            filter.recording,
                        )
                        &&& q.text@ == box_stats_sql(
                            filter.participants@.len() as int,
                            filter.timeline is Some,
                            filter.recording is Some,
                            ds.len() as int,
                        )
                        &&& q.params@ == seq![
                            SqlParam::Text(filter.resolved_test_spec()->0),
                        ] + text_params(filter.participants@) + (match filter.timeline {
                            Some(tl) => seq![SqlParam::Text(tl)],
                            None => Seq::empty(),
                        }) + (match filter.recording {
                            Some(rc) => seq![SqlParam::Text(rc)],
                            None => Seq::empty(),
                        }) + slice_params(ds)
                    }
            },
            Err(e) => filter.resolved_test_spec() is None && e matches
                QueryError::MissingParameter(_),
        },
{
    let test = match filter.resolved_test() {
        Some(t) => t,
        None => {
            return Err(
                QueryError::MissingParameter(String::from_str("missing param: test_name/testName")),
            );
        },
    };
    let mut q = SqlQuery { text: String::new(), params: Vec::new() };
    q.text.append("SELECT Box, COUNT(*) AS count FROM gaze_data WHERE \"Test Name\" = ?1");
    q.params.push(SqlParam::Text(test.clone()));
    push_in_clause(&mut q, "Participant name", &filter.participants);
    match &filter.timeline {
        Some(tl) => {
            q.text.append(" AND \"Timeline name\" = ?");
            q.params.push(SqlParam::Text(tl.clone()));
        },
        None => {},
    }
    match &filter.recording {
        Some(rc) => {
            q.text.append(" AND \"Recording name\" = ?");
            q.params.push(SqlParam::Text(rc.clone()));
        },
        None => {},
    }
    let ds = relevant_slices(overlay, &test, &filter.participants, &filter.recording);
    push_excl(&mut q, &ds);
    q.text.append(" GROUP BY Box");
    proof {
        assert(q.text@ =~= box_stats_sql(
            filter.participants@.len() as int,
            filter.timeline is Some,
            filter.recording is Some,
            ds@.len() as int,
        ));
        assert(q.params@ =~= seq![SqlParam::Text(filter.resolved_test_spec()->0)] + text_params(
            filter.participants@,
        ) + (match filter.timeline {
            Some(tl) => seq![SqlParam::Text(tl)],
            None => Seq::<SqlParam>::empty(),
        }) + (match filter.recording {
            Some(rc) => seq![SqlParam::Text(rc)],
            None => Seq::<SqlParam>::empty(),
        }) + slice_params(ds@));
    }
    Ok(q)
}

/// The timeline/recording listing query's full text.
pub open spec fn timeline_recordings_sql(n_parts: int, n_excl: int) -> Seq<char> {
    "SELECT DISTINCT \"Timeline name\", \"Recording name\" FROM gaze_data WHERE \"Test Name\" = ?1"@
        + in_clause("Participant name"@, n_parts) + excl_clause(n_excl)
        + " ORDER BY \"Timeline name\", \"Recording name\""@
}

/// Builds the distinct (timeline, recording) query for a test.  The
/// exclusion clause is restricted by test and participants only: no
/// recording filter applies here.
pub fn timeline_recordings_query(filter: &GazeFilter, overlay: &DisabledStore) -> (r: Result<
    SqlQuery,
    QueryError,
>)
    ensures
        match r {
            Ok(q) => {
                &&& filter.resolved_test_spec() is Some
                &&& exists|ds: Seq<DisabledSlice>|
                    {
                        &&& relevant_slices_of(
                            ds,
                            overlay@,
                            filter.resolved_test_spec()->0@,
                            filter.participants@,
                            None,
                        )
                        &&& q.text@ == timeline_recordings_sql(
                            filter.participants@.len() as int,
                            ds.len() as int,
                        )
                        &&& q.params@ == seq![
                            SqlParam::Text(filter.resolved_test_spec()->0),
                        ] + text_params(filter.participants@) + slice_params(ds)
                    }
            },
            Err(e) => filter.resolved_test_spec() is None && e matches
                QueryError::MissingParameter(_),
        },
{
    let test = match filter.resolved_test() {
        Some(t) => t,
        None => {
            return Err(
                QueryError::MissingParameter(String::from_str("missing param: test_name/testName")),
            );
        },
    };
    let mut q = SqlQuery { text: String::new(), params: Vec::new() };
    q.text.append(
        "SELECT DISTINCT \"Timeline name\", \"Recording name\" FROM gaze_data WHERE \"Test Name\" = ?1",
    );
    q.params.push(SqlParam::Text(test.clone()));
    push_in_clause(&mut q, "Participant name", &filter.participants);
    let no_rc: Option<String> = None;
    let ds = relevant_slices(overlay, &test, &filter.participants, &no_rc);
    push_excl(&mut q, &ds);
    q.text.append(" ORDER BY \"Timeline name\", \"Recording name\"");
    proof {
        assert(q.text@ =~= timeline_recordings_sql(
            filter.participants@.len() as int,
            ds@.len() as int,
        ));
        assert(q.params@ =~= seq![SqlParam::Text(filter.resolved_test_spec()->0)] + text_params(
            filter.participants@,
        ) + slice_params(ds@));
    }
    Ok(q)
}

/// Whether an overlay key concerns any of several tests and participants.
pub open spec fn session_compatible(
    k: (Seq<char>, Seq<char>, Seq<char>),
    tests: Seq<String>,
    participants: Seq<String>,
) -> bool {
    str_in(tests, k.0) && str_in(participants, k.2)
}

/// The compatible part of the overlay for the multi-test session listing.
pub open spec fn session_slices_of(
    ds: Seq<DisabledSlice>,
    excl: Set<(Seq<char>, Seq<char>, Seq<char>)>,
    tests: Seq<String>,
    participants: Seq<String>,
) -> bool {
    &&& distinct_keys(ds)
    &&& (forall|k: (Seq<char>, Seq<char>, Seq<char>)|
        key_in(ds, k) <==> (excl.contains(k) && session_compatible(k, tests, participants)))
}

/// The participant sessions query's full text.
pub open spec fn sessions_sql(n_tests: int, n_parts: int, n_excl: int) -> Seq<char> {
    "SELECT DISTINCT \"Participant name\", \"Test Name\", \"Timeline name\", \"Recording name\" FROM gaze_data WHERE 1=1"@
        + in_clause("Test Name"@, n_tests) + in_clause("Participant name"@, n_parts)
        + excl_clause(n_excl)
        + " ORDER BY \"Participant name\", \"Test Name\", \"Timeline name\", \"Recording name\""@
}

/// Builds the one-shot session listing query for several tests.  An empty
/// test or participant list builds nothing: the listing is empty without
/// touching the store.
pub fn sessions_query(
    tests: &Vec<String>,
    participants: &Vec<String>,
    overlay: &DisabledStore,
) -> (r: Option<SqlQuery>)
    ensures
        r is Some <==> tests@.len() > 0 && participants@.len() > 0,
        match r {
            Some(q) => exists|ds: Seq<DisabledSlice>|
                {
                    &&& session_slices_of(ds, overlay@, tests@, participants@)
                    &&& q.text@ == sessions_sql(
                        tests@.len() as int,
                        participants@.len() as int,
                        ds.len() as int,
                    )
                    &&& q.params@ == text_params(tests@) + text_params(participants@)
                        + slice_params(ds)
                },
            None => true,
        },
{
    if tests.len() == 0 || participants.len() == 0 {
        return None;
    }
    let mut q = SqlQuery { text: String::new(), params: Vec::new() };
    q.text.append(
        "SELECT DISTINCT \"Participant name\", \"Test Name\", \"Timeline name\", \"Recording name\" FROM gaze_data WHERE 1=1",
    );
    push_in_clause(&mut q, "Test Name", tests);
    push_in_clause(&mut q, "Participant name", participants);
    let snapshot = overlay.get_disabled_slices();
    let mut ds: Vec<DisabledSlice> = Vec::new();
    let mut i: usize = 0;
    while i < snapshot.len()
        invariant
            i <= snapshot@.len(),
            distinct_keys(snapshot@),
            crate::overlay::key_set(snapshot@) == overlay@,
            distinct_keys(ds@),
            forall|k: (Seq<char>, Seq<char>, Seq<char>)|
                key_in(ds@, k) <==> (exists|j: int|
                    0 <= j < i && (#[trigger] snapshot@[j]).key() == k) && session_compatible(
                    k,
                    tests@,
                    participants@,
                ),
        decreases snapshot@.len() - i,
    {
        let ghost prev: Seq<DisabledSlice> = ds@;
        let s = &snapshot[i];
        let keep = str_in_vec(tests, &s.test_name) && str_in_vec(
            participants,
            &s.participant_name,
        );
        if keep {
            proof {
                if key_in(prev, snapshot@[i as int].key()) {
                    let j = choose|j: int|
                        0 <= j < i && (#[trigger] snapshot@[j]).key() == snapshot@[i as int].key();
                    assert(false);
                }
            }
            ds.push(s.duplicate());
        }
        proof {
            let iv: int = i as int;
            assert forall|k: (Seq<char>, Seq<char>, Seq<char>)|
                key_in(ds@, k) <==> (exists|j: int|
                    0 <= j < iv + 1 && (#[trigger] snapshot@[j]).key() == k) && session_compatible(
                    k,
                    tests@,
                    participants@,
                ) by {
                if key_in(ds@, k) {
                    let w = choose|w: int| 0 <= w < ds@.len() && (#[trigger] ds@[w]).key() == k;
                    if w < prev.len() {
                        assert(key_in(prev, k));
                    } else {
                        assert(snapshot@[iv].key() == k);
                    }
                }
                if (exists|j: int| 0 <= j < iv + 1 && (#[trigger] snapshot@[j]).key() == k)
                    && session_compatible(k, tests@, participants@) {
                    let j = choose|j: int|
                        0 <= j < iv + 1 && (#[trigger] snapshot@[j]).key() == k;
                    if j < iv {
                        assert(key_in(prev, k));
                        let w = choose|w: int|
                            0 <= w < prev.len() && (#[trigger] prev[w]).key() == k;
                        assert(ds@[w].key() == k);
                    } else {
                        if keep {
                            assert(ds@[ds@.len() - 1].key() == k);
                        }
                    }
                }
            }
        }
        i = i + 1;
    }
    proof {
        assert forall|k: (Seq<char>, Seq<char>, Seq<char>)|
            key_in(ds@, k) <==> (overlay@.contains(k) && session_compatible(
                k,
                tests@,
                participants@,
            )) by {
            assert(overlay@.contains(k) == key_in(snapshot@, k));
        }
    }
    push_excl(&mut q, &ds);
    q.text.append(
        " ORDER BY \"Participant name\", \"Test Name\", \"Timeline name\", \"Recording name\"",
    );
    proof {
        assert(session_slices_of(ds@, overlay@, tests@, participants@));
        assert(q.text@ =~= sessions_sql(
            tests@.len() as int,
            participants@.len() as int,
            ds@.len() as int,
        ));
        assert(q.params@ =~= text_params(tests@) + text_params(participants@) + slice_params(
            ds@,
        ));
    }
    Some(q)
}

/// The slice listing query's full text.
pub open spec fn list_slices_sql(has_test: bool, n_parts: int) -> Seq<char> {
    "SELECT DISTINCT \"Test Name\", \"Recording name\", \"Participant name\" FROM gaze_data WHERE 1=1"@
        + (if has_test {
        " AND \"Test Name\" = ?"@
    } else {
        Seq::empty()
    }) + in_clause("Participant name"@, n_parts) + " ORDER BY 1,2,3"@
}

/// Builds the distinct slice listing query; the test filter is optional
/// here and the overlay is not consulted.
pub fn list_slices_query(test: &Option<String>, participants: &Vec<String>) -> (q: SqlQuery)
    ensures
        q.text@ == list_slices_sql(*test is Some, participants@.len() as int),
        q.params@ == (match *test {
            Some(t) => seq![SqlParam::Text(t)],
            None => Seq::empty(),
        }) + text_params(participants@),
{
    let mut q = SqlQuery { text: String::new(), params: Vec::new() };
    q.text.append(
        "SELECT DISTINCT \"Test Name\", \"Recording name\", \"Participant name\" FROM gaze_data WHERE 1=1",
    );
    match test {
        Some(t) => {
            q.text.append(" AND \"Test Name\" = ?");
            q.params.push(SqlParam::Text(t.clone()));
        },
        None => {},
    }
    push_in_clause(&mut q, "Participant name", participants);
    q.text.append(" ORDER BY 1,2,3");
    proof {
        assert(q.text@ =~= list_slices_sql(*test is Some, participants@.len() as int));
        assert(q.params@ =~= (match *test {
            Some(t) => seq![SqlParam::Text(t)],
            None => Seq::<SqlParam>::empty(),
        }) + text_params(participants@));
    }
    q
}

/// The table existence probe: one bound name, never interpolated.
pub fn table_exists_query(name: &String) -> (q: SqlQuery)
    ensures
        q.text@ == "SELECT 1 FROM sqlite_master WHERE type='table' AND name=?1 LIMIT 1"@,
        q.params@ == seq![SqlParam::Text(*name)],
{
    let mut q = SqlQuery { text: String::new(), params: Vec::new() };
    q.text.append("SELECT 1 FROM sqlite_master WHERE type='table' AND name=?1 LIMIT 1");
    q.params.push(SqlParam::Text(name.clone()));
    proof {
        assert(q.text@ =~= "SELECT 1 FROM sqlite_master WHERE type='table' AND name=?1 LIMIT 1"@);
        assert(q.params@ =~= seq![SqlParam::Text(*name)]);
    }
    q
}

/// The column-discovery pragma for one table; the name is the caller's own
/// constant, never caller-supplied data.
pub fn pragma_columns_query(table: &str) -> (q: SqlQuery)
    ensures
        q.text@ == "PRAGMA table_info("@ + table@ + ")"@,
        q.params@ == Seq::<SqlParam>::empty(),
{
    let mut q = SqlQuery { text: String::new(), params: Vec::new() };
    q.text.append("PRAGMA table_info(");
    q.text.append(table);
    q.text.append(")");
    proof {
        assert(q.text@ =~= "PRAGMA table_info("@ + table@ + ")"@);
        assert(q.params@ =~= Seq::<SqlParam>::empty());
    }
    q
}

/// The quoted column list of a SELECT over discovered columns.
pub open spec fn column_list(cols: Seq<String>) -> Seq<char>
    decreases cols.len(),
{
    if cols.len() == 0 {
        Seq::empty()
    } else if cols.len() == 1 {
        "\""@ + cols.last()@ + "\""@
    } else {
        column_list(cols.drop_last()) + ",\""@ + cols.last()@ + "\""@
    }
}

/// Builds the full-table dump over the discovered columns, each quoted.
pub fn dump_select_query(table: &str, cols: &Vec<String>) -> (q: SqlQuery)
    requires
        cols@.len() > 0,
    ensures
        q.text@ == "SELECT "@ + column_list(cols@) + " FROM "@ + table@,
        q.params@ == Seq::<SqlParam>::empty(),
{
    let mut q = SqlQuery { text: String::new(), params: Vec::new() };
    q.text.append("SELECT ");
    let mut i: usize = 0;
    while i < cols.len()
        invariant
            i <= cols@.len(),
            q.text@ == "SELECT "@ + (if i == 0 {
                Seq::<char>::empty()
            } else {
                column_list(cols@.take(i as int))
            }),
            q.params@.len() == 0,
        decreases cols@.len() - i,
    {
        if i > 0 {
            q.text.append(",\"");
        } else {
            q.text.append("\"");
        }
        q.text.append(cols[i].as_str());
        q.text.append("\"");
        proof {
            let iv: int = i as int;
            assert(cols@.take(iv + 1).drop_last() =~= cols@.take(iv));
            assert(cols@.take(iv + 1).last() == cols@[iv]);
            if iv == 0 {
                assert(q.text@ =~= "SELECT "@ + column_list(cols@.take(1)));
            } else {
                assert(q.text@ =~= "SELECT "@ + (column_list(cols@.take(iv)) + ",\""@
                    + cols@[iv]@ + "\""@));
            }
        }
        i = i + 1;
    }
    q.text.append(" FROM ");
    q.text.append(table);
    proof {
        assert(cols@.take(cols@.len() as int) =~= cols@);
        assert(q.text@ =~= "SELECT "@ + column_list(cols@) + " FROM "@ + table@);
        assert(q.params@ =~= Seq::<SqlParam>::empty());
    }
    q
}

/// One untrimmed column of a table, for the distinct-value helpers; the
/// shaping (trim, de-blank, sort, dedup) happens in verified code.
pub fn column_values_query(table: &str, col: &str) -> (q: SqlQuery)
    ensures
        q.text@ == "SELECT \""@ + col@ + "\" FROM "@ + table@,
        q.params@ == Seq::<SqlParam>::empty(),
{
    let mut q = SqlQuery { text: String::new(), params: Vec::new() };
    q.text.append("SELECT \"");
    q.text.append(col);
    q.text.append("\" FROM ");
    q.text.append(table);
    proof {
        assert(q.text@ =~= "SELECT \""@ + col@ + "\" FROM "@ + table@);
        assert(q.params@ =~= Seq::<SqlParam>::empty());
    }
    q
}

/// The one-shot distinct triple query feeding the relation maps: blank and
/// null names are dropped at the source.
pub fn static_triples_query() -> (q: SqlQuery)
    ensures
        q.text@
            == "SELECT DISTINCT \"Test Name\", \"Participant name\", \"Recording name\" FROM gaze_data WHERE \"Test Name\" IS NOT NULL AND TRIM(\"Test Name\") <> '' AND \"Participant name\" IS NOT NULL AND TRIM(\"Participant name\") <> '' AND \"Recording name\" IS NOT NULL AND TRIM(\"Recording name\") <> ''"@,
        q.params@ == Seq::<SqlParam>::empty(),
{
    let mut q = SqlQuery { text: String::new(), params: Vec::new() };
    q.text.append(
        "SELECT DISTINCT \"Test Name\", \"Participant name\", \"Recording name\" FROM gaze_data WHERE \"Test Name\" IS NOT NULL AND TRIM(\"Test Name\") <> '' AND \"Participant name\" IS NOT NULL AND TRIM(\"Participant name\") <> '' AND \"Recording name\" IS NOT NULL AND TRIM(\"Recording name\") <> ''",
    );
    proof {
        assert(q.params@ =~= Seq::<SqlParam>::empty());
    }
    q
}

/// How many placeholder marks a query text holds.
pub open spec fn qmark_count(s: Seq<char>) -> int
    decreases s.len(),
{
    if s.len() == 0 {
        0
    } else {
        qmark_count(s.drop_last()) + (if s.last() == '?' {
            1int
        } else {
            0int
        })
    }
}

/// Counting distributes over concatenation.
pub proof fn lemma_qmark_concat(a: Seq<char>, b: Seq<char>)
    ensures
        qmark_count(a + b) == qmark_count(a) + qmark_count(b),
    decreases b.len(),
{
    if b.len() == 0 {
        assert(a + b =~= a);
    } else {
        lemma_qmark_concat(a, b.drop_last());
        assert((a + b).drop_last() =~= a + b.drop_last());
        assert((a + b).last() == b.last());
    }
}

/// A placeholder list built for `n` values spends exactly `n` marks: the
/// variable-length clauses cannot drift away from the values bound for
/// them.
pub proof fn lemma_qmark_placeholders(n: int)
    ensures
        qmark_count(placeholders(n)) == (if n <= 0 {
            0int
        } else {
            n
        }),
    decreases n,
{
    reveal_strlit("?");
    reveal_strlit(",?");
    reveal_with_fuel(qmark_count, 4);
    if n <= 0 {
        assert(qmark_count(placeholders(n)) == 0);
    } else if n == 1 {
        assert(qmark_count("?"@) == 1);
    } else {
        lemma_qmark_placeholders(n - 1);
        lemma_qmark_concat(placeholders(n - 1), ",?"@);
        assert(qmark_count(",?"@) == 1);
    }
}

/// Three bound names for every slice.
proof fn lemma_slice_params_len(ds: Seq<DisabledSlice>)
    ensures
        slice_params(ds).len() == 3 * ds.len(),
    decreases ds.len(),
{
    if ds.len() > 0 {
        lemma_slice_params_len(ds.drop_last());
    }
}

/// Placeholders and bound values stay in step: a gaze query built for a
/// filter binds exactly one value for the test, one per allowed
/// participant, one per optional timeline or recording, three per
/// compatible excluded slice, and the paging bounds -- the same tally,
/// clause for clause, by which `gaze_sql` spends its placeholders.
pub proof fn lemma_gaze_query_params_len(
    test: String,
    participants: Seq<String>,
    timeline: Option<String>,
    recording: Option<String>,
    ds: Seq<DisabledSlice>,
    limit: i64,
    offset: i64,
)
    ensures
        (seq![SqlParam::Text(test)] + text_params(participants) + (match timeline {
            Some(tl) => seq![SqlParam::Text(tl)],
            None => Seq::empty(),
        }) + (match recording {
            Some(rc) => seq![SqlParam::Text(rc)],
            None => Seq::empty(),
        }) + slice_params(ds) + paging_params(limit, offset)).len() == 1 + participants.len() + (
        if timeline is Some {
            1int
        } else {
            0int
        }) + (if recording is Some {
            1int
        } else {
            0int
        }) + 3 * ds.len() + (if limit > 0 {
            if offset > 0 {
                2int
            } else {
                1int
            }
        } else {
            0int
        }),
{
    lemma_slice_params_len(ds);
}

} // verus!
