//! Box-occupancy statistics: grouping the filtered, non-excluded samples by
//! box label and computing each box's share of the filtered total.
//!
//! Shares are held as integers in hundredths of a percent, rounded to the
//! nearest (`pct_spec`), so the exact ratios they stand for sum to one
//! whenever any samples match.

use vstd::prelude::*;

use crate::overlay::DisabledStore;
use crate::samples::GazeData;
use crate::samples::GazeFilter;
use crate::samples::QueryError;
use crate::samples::select_gaze_samples;
use crate::samples::selected_samples;
use crate::text::lex_lt;
use crate::text::str_le;

verus! {

/// How many samples of `s` carry the box label `b`.
pub open spec fn count_of(s: Seq<GazeData>, b: Seq<char>) -> int {
    s.filter(|g: GazeData| g.box_name@ == b).len() as int
}

/// A box's share of the total, in hundredths of a percent, rounded to the
/// nearest: 2 of 3 samples give 6667, standing for 66.67%.
pub open spec fn pct_spec(count: int, total: int) -> int
    recommends
        total > 0,
{
    (count * 10000 + total / 2) / total
}

/// Every share lies between 0% and 100%: a box's count never exceeds the
/// total it is measured against, so its rounded share stays within
/// 0..=10000 hundredths.  Together with the counts summing to the total
/// (see `box_counts`), the shares account for the whole filtered slice.
pub proof fn lemma_pct_in_range(count: int, total: int)
    requires
        0 <= count <= total,
        total > 0,
    ensures
        0 <= pct_spec(count, total) <= 10000,
{
    assert(count * 10000 + total / 2 < 10001 * total) by (nonlinear_arith)
        requires
            0 <= count <= total,
            total > 0,
    ;
    assert(0 <= pct_spec(count, total) && pct_spec(count, total) <= 10000) by (nonlinear_arith)
        requires
            pct_spec(count, total) == (count * 10000 + total / 2) / total,
            count * 10000 + total / 2 < 10001 * total,
            0 <= count,
            total > 0,
    ;
}

/// The sum of the counter values of `m`.
pub open spec fn sum_counts(m: Seq<(String, u64)>) -> int
    decreases m.len(),
{
    if m.len() == 0 {
        0
    } else {
        sum_counts(m.drop_last()) + m.last().1
    }
}

/// Strictly ascending keys: sorted and duplicate-free.
pub open spec fn sorted_distinct_keys(m: Seq<(String, u64)>) -> bool {
    forall|i: int, j: int| 0 <= i < j < m.len() ==> lex_lt((#[trigger] m[i]).0@, (#[trigger] m[j]).0@)
}

/// Whether `m` holds the key `b`.
pub open spec fn counts_key_in(m: Seq<(String, u64)>, b: Seq<char>) -> bool {
    exists|i: int| 0 <= i < m.len() && (#[trigger] m[i]).0@ == b
}

/// Box statistics for a filtered slice: per-box shares in hundredths of a
/// percent, and the number of matching points.
#[derive(Debug)]
pub struct GazeStats {
    pub box_percentages: Vec<(String, u64)>,
    pub total_points: i64,
}

/// Summing is unchanged by reordering one element to the end.
proof fn lemma_sum_counts_remove(m: Seq<(String, u64)>, i: int)
    requires
        0 <= i < m.len(),
    ensures
        sum_counts(m) == sum_counts(m.remove(i)) + m[i].1,
    decreases m.len(),
{
    if i == m.len() - 1 {
        assert(m.remove(i) =~= m.drop_last());
    } else {
        lemma_sum_counts_remove(m.drop_last(), i);
        assert(m.remove(i).drop_last() =~= m.drop_last().remove(i));
        assert(m.remove(i).last() == m.last());
    }
}

/// Inserting one counter adds its value to the sum.
proof fn lemma_sum_counts_insert(m: Seq<(String, u64)>, i: int, p: (String, u64))
    requires
        0 <= i <= m.len(),
    ensures
        sum_counts(m.insert(i, p)) == sum_counts(m) + p.1,
{
    lemma_sum_counts_remove(m.insert(i, p), i);
    assert(m.insert(i, p).remove(i) =~= m);
    assert(m.insert(i, p)[i] == p);
}

/// Counts every selected sample by its box label.  Keys are sorted and
/// unique; a key is present exactly when some sample carries it; the counter
/// values cover the whole input: they sum to `sel` length.
pub fn box_counts(sel: &Vec<GazeData>) -> (r: Vec<(String, u64)>)
    requires
        sel@.len() <= u64::MAX,
    ensures
        sorted_distinct_keys(r@),
        forall|b: Seq<char>| counts_key_in(r@, b) <==> count_of(sel@, b) > 0,
        forall|i: int| 0 <= i < r@.len() ==> (#[trigger] r@[i]).1 == count_of(sel@, r@[i].0@),
        sum_counts(r@) == sel@.len(),
{
    let mut m: Vec<(String, u64)> = Vec::new();
    let mut i: usize = 0;
    proof {
        reveal(Seq::filter);
        assert(sel@.take(0) =~= Seq::<GazeData>::empty());
        assert forall|b: Seq<char>| count_of(sel@.take(0), b) == 0 by {
            reveal(Seq::filter);
        }
    }
    while i < sel.len()
        invariant
            i <= sel@.len(),
            sel@.len() <= u64::MAX,
            sorted_distinct_keys(m@),
            forall|b: Seq<char>| counts_key_in(m@, b) <==> count_of(sel@.take(i as int), b) > 0,
            forall|k: int|
                0 <= k < m@.len() ==> (#[trigger] m@[k]).1 == count_of(
                    sel@.take(i as int),
                    m@[k].0@,
                ),
            sum_counts(m@) == i,
        decreases sel@.len() - i,
    {
        let ghost prev: Seq<(String, u64)> = m@;
        let ghost taken: Seq<GazeData> = sel@.take(i as int);
        let ghost taken1: Seq<GazeData> = sel@.take(i + 1);
        let b = &sel[i].box_name;
        proof {
            reveal(Seq::filter);
            assert(taken1.drop_last() =~= taken);
            assert(taken1.last() == sel@[i as int]);
            assert forall|x: Seq<char>| true implies #[trigger] count_of(taken1, x) == count_of(
                taken,
                x,
            ) + (if sel@[i as int].box_name@ == x {
                1int
            } else {
                0int
            }) by {
                reveal(Seq::filter);
                let pred = |g: GazeData| g.box_name@ == x;
                assert(taken1.filter(pred) == if pred(taken1.last()) {
                    taken.filter(pred).push(taken1.last())
                } else {
                    taken.filter(pred)
                });
            }
        }
        let mut j: usize = 0;
        let mut placed = false;
        while j < m.len()
            invariant_except_break
                !placed,
            invariant
                j <= m@.len(),
                m@ == prev,
                forall|k: int| 0 <= k < j ==> lex_lt((#[trigger] prev[k]).0@, b@),
            ensures
                m@ == prev,
                j <= m@.len(),
                forall|k: int| 0 <= k < j ==> lex_lt((#[trigger] prev[k]).0@, b@),
                placed ==> j < m@.len() && prev[j as int].0@ == b@,
                !placed ==> (j == m@.len() || lex_lt(b@, prev[j as int].0@)),
            decreases m@.len() - j,
        {
            if m[j].0 == *b {
                placed = true;
                break ;
            }
            if str_le(b.as_str(), m[j].0.as_str()) {
                proof {
                    crate::text::lemma_lex_le_total(b@, prev[j as int].0@);
                }
                break ;
            }
            proof {
                crate::text::lemma_lex_le_total(b@, prev[j as int].0@);
            }
            j = j + 1;
        }
        if placed {
            let mut pair = m.remove(j);
            proof {
                lemma_sum_counts_remove(prev, j as int);
                assert(pair.1 == count_of(taken, b@));
                assert(count_of(taken, b@) <= taken.len()) by {
                    reveal(Seq::filter);
                    taken.lemma_filter_len(|g: GazeData| g.box_name@ == b@);
                }
            }
            pair.1 = pair.1 + 1;
            m.insert(j, pair);
            proof {
                lemma_sum_counts_insert(prev.remove(j as int), j as int, pair);
                assert(prev.remove(j as int).insert(j as int, pair) =~= prev.update(
                    j as int,
                    pair,
                ));
                assert(m@ =~= prev.update(j as int, pair));
                assert forall|p: int, q: int| 0 <= p < q < m@.len() implies lex_lt(
                    (#[trigger] m@[p]).0@,
                    (#[trigger] m@[q]).0@,
                ) by {
                    assert(m@[p].0 == prev[p].0);
                    assert(m@[q].0 == prev[q].0);
                }
                assert forall|x: Seq<char>|
                    counts_key_in(m@, x) <==> count_of(taken1, x) > 0 by {
                    if counts_key_in(m@, x) {
                        let w = choose|w: int| 0 <= w < m@.len() && m@[w].0@ == x;
                        assert(prev[w].0@ == x);
                        assert(counts_key_in(prev, x));
                        assert(count_of(sel@.take(i as int), x) > 0);
                    }
                    if count_of(taken1, x) > 0 {
                        if count_of(taken, x) > 0 {
                            assert(count_of(sel@.take(i as int), x) > 0);
                            assert(counts_key_in(prev, x));
                            let w = choose|w: int| 0 <= w < prev.len() && prev[w].0@ == x;
                            assert(prev[w].0@ == x);
                            assert(m@[w].0@ == x);
                        } else {
                            assert(x == sel@[i as int].box_name@);
                            assert(m@[j as int].0@ == x);
                        }
                    }
                }
                assert forall|k: int|
                    0 <= k < m@.len() implies (#[trigger] m@[k]).1 == count_of(
                    taken1,
                    m@[k].0@,
                ) by {
                    if k != j {
                        assert(m@[k] == prev[k]);
                        assert(prev[k].0@ != b@);
                    }
                }
            }
        } else {
            let pair = (b.clone(), 1u64);
            m.insert(j, pair);
            proof {
                assert(pair.0@ == b@);
                crate::text::lemma_insert_index(prev, j as int, pair);
                lemma_sum_counts_insert(prev, j as int, pair);
                assert(count_of(taken, b@) == 0) by {
                    if count_of(taken, b@) > 0 {
                        assert(count_of(sel@.take(i as int), b@) > 0);
                        assert(counts_key_in(prev, b@));
                        let w = choose|w: int| 0 <= w < prev.len() && prev[w].0@ == b@;
                        assert(prev[w].0@ == b@);
                        if w < j {
                            assert(lex_lt(prev[w].0@, b@));
                        } else {
                            assert(j < prev.len() && lex_lt(b@, prev[j as int].0@));
                            if w > j {
                                assert(lex_lt(prev[j as int].0@, prev[w].0@));
                                crate::text::lemma_lex_le_antisymmetric(b@, prev[j as int].0@);
                            }
                        }
                    }
                }
                let jv: int = j as int;
                assert forall|p: int, q: int| 0 <= p < q < m@.len() implies lex_lt(
                    (#[trigger] m@[p]).0@,
                    (#[trigger] m@[q]).0@,
                ) by {
                    if p < jv {
                        assert(prev.insert(jv, pair)[p] == prev[p]);
                    } else if p > jv {
                        assert(prev.insert(jv, pair)[p] == prev[p - 1]);
                    }
                    if q < jv {
                        assert(prev.insert(jv, pair)[q] == prev[q]);
                    } else if q > jv {
                        assert(prev.insert(jv, pair)[q] == prev[q - 1]);
                    }
                    if p == jv && q > jv {
                        assert(m@[q].0 == prev[q - 1].0);
                        if q - 1 > jv {
                            crate::text::lemma_lex_le_transitive(
                                b@,
                                prev[jv].0@,
                                prev[q - 1].0@,
                            );
                            if b@ == prev[q - 1].0@ {
                                crate::text::lemma_lex_le_antisymmetric(b@, prev[jv].0@);
                            }
                        }
                    }
                }
                assert forall|x: Seq<char>|
                    counts_key_in(m@, x) <==> count_of(taken1, x) > 0 by {
                    if counts_key_in(m@, x) {
                        let w = choose|w: int| 0 <= w < m@.len() && m@[w].0@ == x;
                        if w < jv {
                            assert(prev.insert(jv, pair)[w] == prev[w]);
                            assert(counts_key_in(prev, x));
                        } else if w > jv {
                            assert(prev.insert(jv, pair)[w] == prev[w - 1]);
                            assert(prev[w - 1].0@ == x);
                            assert(counts_key_in(prev, x));
                        } else {
                            assert(x == b@);
                        }
                    }
                    if count_of(taken1, x) > 0 {
                        if count_of(taken, x) > 0 {
                            assert(count_of(sel@.take(i as int), x) > 0);
                            assert(counts_key_in(prev, x));
                            let w = choose|w: int| 0 <= w < prev.len() && prev[w].0@ == x;
                            assert(prev[w].0@ == x);
                            assert(prev.insert(jv, pair)[if w < jv {
                                w
                            } else {
                                w + 1
                            }] == prev[w]);
                            assert(counts_key_in(m@, x));
                        } else {
                            assert(x == sel@[i as int].box_name@);
                            assert(prev.insert(jv, pair)[jv] == pair);
                            assert(m@[jv].0@ == x);
                        }
                    }
                }
                assert forall|k: int|
                    0 <= k < m@.len() implies (#[trigger] m@[k]).1 == count_of(
                    taken1,
                    m@[k].0@,
                ) by {
                    if k < jv {
                        assert(prev.insert(jv, pair)[k] == prev[k]);
                        assert(prev[k].0@ != b@);
                    } else if k > jv {
                        assert(prev.insert(jv, pair)[k] == prev[k - 1]);
                        assert(prev[k - 1].0@ != b@) by {
                            if prev[k - 1].0@ == b@ {
                                assert(counts_key_in(prev, b@));
                                assert(count_of(sel@.take(i as int), b@) > 0);
                            }
                        }
                    } else {
                        assert(prev.insert(jv, pair)[jv] == pair);
                    }
                }
            }
        }
        i = i + 1;
    }
    proof {
        assert(sel@.take(sel@.len() as int) =~= sel@);
    }
    m
}

/// Box statistics over in-memory samples: group the selected samples by box
/// label and compute each box's rounded share of the total.  With no
/// matching samples the map is empty and the total 0; otherwise the counts
/// behind the shares sum exactly to the total.
pub fn get_box_stats(
    samples: &Vec<GazeData>,
    filter: &GazeFilter,
    overlay: &DisabledStore,
) -> (r: Result<GazeStats, QueryError>)
    requires
        samples@.len() <= 0x7fff_ffff_ffff_ffff,
    ensures
        match r {
            Ok(st) => {
                let sel = selected_samples(
                    samples@,
                    filter.resolved_test_spec()->0@,
                    filter.participants@,
                    filter.timeline,
                    filter.recording,
                    overlay@,
                );
                &&& filter.resolved_test_spec() is Some
                &&& st.total_points == sel.len()
                &&& sorted_distinct_keys(st.box_percentages@)
                &&& (forall|b: Seq<char>|
                    counts_key_in(st.box_percentages@, b) <==> count_of(sel, b) > 0)
                &&& (forall|i: int|
                    0 <= i < st.box_percentages@.len() ==> (#[trigger] st.box_percentages@[i]).1
                        == pct_spec(count_of(sel, st.box_percentages@[i].0@), sel.len() as int))
                &&& (sel.len() == 0 ==> st.box_percentages@.len() == 0)
            },
            Err(e) => filter.resolved_test_spec() is None && e matches
                QueryError::MissingParameter(_),
        },
{
    let test = match filter.resolved_test() {
        Some(t) => t,
        None => {
            return Err(
                QueryError::MissingParameter(String::from_str("missing param: test_name/testName")),
            );
        },
    };
    let sel = select_gaze_samples(
        samples,
        &test,
        &filter.participants,
        &filter.timeline,
        &filter.recording,
        overlay,
    );
    proof {
        sel@.lemma_filter_len(|g: GazeData|
            crate::samples::sample_selected(
                g,
                test@,
                filter.participants@,
                filter.timeline,
                filter.recording,
                overlay@,
            ));
        assert(sel@.len() <= samples@.len());
    }
    let counts = box_counts(&sel);
    let total: u64 = sel.len() as u64;
    let mut pcts: Vec<(String, u64)> = Vec::new();
    let mut k: usize = 0;
    if total == 0 {
        proof {
            assert(counts@.len() == 0) by {
                if counts@.len() > 0 {
                    assert(counts_key_in(counts@, counts@[0].0@));
                }
            }
        }
        return Ok(GazeStats { box_percentages: pcts, total_points: 0 });
    }
    while k < counts.len()
        invariant
            k <= counts@.len(),
            total > 0,
            total == sel@.len(),
            sel@.len() <= u64::MAX,
            pcts@.len() == k,
            forall|w: int|
                0 <= w < counts@.len() ==> (#[trigger] counts@[w]).1 == count_of(
                    sel@,
                    counts@[w].0@,
                ),
            forall|w: int|
                0 <= w < k ==> (#[trigger] pcts@[w]).0 == counts@[w].0 && pcts@[w].1 == pct_spec(
                    counts@[w].1 as int,
                    total as int,
                ),
        decreases counts@.len() - k,
    {
        let c: u64 = counts[k].1;
        proof {
            assert(counts@[k as int].1 == count_of(sel@, counts@[k as int].0@));
            sel@.lemma_filter_len(|g: GazeData| g.box_name@ == counts@[k as int].0@);
            assert(c <= total);
        }
        let num: u128 = (c as u128) * 10000 + (total as u128) / 2;
        let p128: u128 = num / (total as u128);
        proof {
            let t: int = total as int;
            assert((c as int) * 10000 + t / 2 < 10001 * t) by (nonlinear_arith)
                requires
                    c as int <= t,
                    t > 0,
            ;
            assert(num == (c as int) * 10000 + t / 2);
            assert(p128 <= 10000) by (nonlinear_arith)
                requires
                    p128 == num as int / t,
                    num < 10001 * t,
                    t > 0,
            ;
            assert(p128 as int == pct_spec(c as int, t));
        }
        let p: u64 = p128 as u64;
        pcts.push((counts[k].0.clone(), p));
        k = k + 1;
    }
    let st = GazeStats { box_percentages: pcts, total_points: total as i64 };
    proof {
        assert forall|p: int, q: int| 0 <= p < q < st.box_percentages@.len() implies lex_lt(
            (#[trigger] st.box_percentages@[p]).0@,
            (#[trigger] st.box_percentages@[q]).0@,
        ) by {
            assert(st.box_percentages@[p].0 == counts@[p].0);
            assert(st.box_percentages@[q].0 == counts@[q].0);
        }
        assert(st.total_points == sel@.len());
        assert forall|w: int|
            0 <= w < st.box_percentages@.len() implies (#[trigger] st.box_percentages@[w]).1
            == pct_spec(count_of(sel@, st.box_percentages@[w].0@), sel@.len() as int) by {
            assert(counts@[w].1 == count_of(sel@, counts@[w].0@));
            assert(st.box_percentages@[w].0 == counts@[w].0);
            assert(st.box_percentages@[w].1 == pct_spec(counts@[w].1 as int, total as int));
        }
        assert forall|b: Seq<char>|
            counts_key_in(st.box_percentages@, b) <==> count_of(sel@, b) > 0 by {
            if counts_key_in(st.box_percentages@, b) {
                let w = choose|w: int|
                    0 <= w < st.box_percentages@.len() && st.box_percentages@[w].0@ == b;
                assert(counts@[w].0@ == b);
                assert(counts_key_in(counts@, b));
            }
            if count_of(sel@, b) > 0 {
                assert(counts_key_in(counts@, b));
                let w = choose|w: int| 0 <= w < counts@.len() && counts@[w].0@ == b;
                assert(st.box_percentages@[w].0@ == b);
            }
        }
    }
    Ok(st)
}

} // verus!
