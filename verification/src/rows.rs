//! Sorted, duplicate-free rows of string components: the shared machinery
//! behind every "distinct values, ordered" result the library returns.

use vstd::prelude::*;

use crate::text::lex_le;
use crate::text::lex_lt;
use crate::text::lemma_lex_le_antisymmetric;
use crate::text::lemma_lex_le_total;
use crate::text::lemma_lex_le_transitive;
use crate::text::str_le;

verus! {

/// The mathematical key of a row: the views of its components.
pub open spec fn row_key(r: Seq<String>) -> Seq<Seq<char>> {
    r.map_values(|s: String| s@)
}

/// Lexicographic order over component lists, component-wise by `lex_le`.
pub open spec fn keys_le(a: Seq<Seq<char>>, b: Seq<Seq<char>>) -> bool
    decreases a.len(),
{
    if a.len() == 0 {
        true
    } else if b.len() == 0 {
        false
    } else if lex_lt(a[0], b[0]) {
        true
    } else if a[0] != b[0] {
        false
    } else {
        keys_le(a.drop_first(), b.drop_first())
    }
}

/// Strict order over component lists.
pub open spec fn keys_lt(a: Seq<Seq<char>>, b: Seq<Seq<char>>) -> bool {
    keys_le(a, b) && a != b
}

/// `keys_le` holds in at least one direction.
pub proof fn lemma_keys_le_total(a: Seq<Seq<char>>, b: Seq<Seq<char>>)
    ensures
        keys_le(a, b) || keys_le(b, a),
    decreases a.len(),
{
    if a.len() != 0 && b.len() != 0 {
        lemma_lex_le_total(a[0], b[0]);
        if a[0] == b[0] {
            lemma_keys_le_total(a.drop_first(), b.drop_first());
        } else {
            if !lex_lt(a[0], b[0]) && !lex_lt(b[0], a[0]) {
                lemma_lex_le_antisymmetric(a[0], b[0]);
            }
        }
    }
}

/// `keys_le` in both directions pins equal-length lists down to equality.
pub proof fn lemma_keys_le_antisymmetric(a: Seq<Seq<char>>, b: Seq<Seq<char>>)
    requires
        keys_le(a, b),
        keys_le(b, a),
        a.len() == b.len(),
    ensures
        a == b,
    decreases a.len(),
{
    if a.len() != 0 {
        if a[0] != b[0] {
            assert(lex_lt(a[0], b[0]));
            assert(lex_lt(b[0], a[0]));
            lemma_lex_le_antisymmetric(a[0], b[0]);
        }
        assert(a[0] == b[0]);
        lemma_keys_le_antisymmetric(a.drop_first(), b.drop_first());
        assert forall|i: int| 0 <= i < a.len() implies a[i] == b[i] by {
            if i > 0 {
                assert(a[i] == a.drop_first()[i - 1]);
                assert(b[i] == b.drop_first()[i - 1]);
            }
        }
        assert(a =~= b);
    } else {
        assert(a =~= b);
    }
}

/// `keys_le` chains across a middle list.
pub proof fn lemma_keys_le_transitive(a: Seq<Seq<char>>, b: Seq<Seq<char>>, c: Seq<Seq<char>>)
    requires
        keys_le(a, b),
        keys_le(b, c),
    ensures
        keys_le(a, c),
    decreases a.len(),
{
    if a.len() != 0 && b.len() != 0 && c.len() != 0 {
        if a[0] == b[0] && b[0] == c[0] {
            lemma_keys_le_transitive(a.drop_first(), b.drop_first(), c.drop_first());
        } else if a[0] == b[0] {
            assert(lex_lt(b[0], c[0]));
        } else if b[0] == c[0] {
            assert(lex_lt(a[0], b[0]));
        } else {
            lemma_lex_le_transitive(a[0], b[0], c[0]);
            if a[0] == c[0] {
                lemma_lex_le_antisymmetric(b[0], c[0]);
            }
        }
    }
}

/// Everything a filter keeps was already present and satisfies the
/// predicate.
pub proof fn lemma_filter_is_subset<A>(s: Seq<A>, pred: spec_fn(A) -> bool, y: A)
    requires
        s.filter(pred).contains(y),
    ensures
        s.contains(y),
        pred(y),
    decreases s.len(),
{
    reveal(Seq::filter);
    if s.len() > 0 {
        let f = s.filter(pred);
        let sub = s.drop_last().filter(pred);
        if pred(s.last()) && y == s.last() {
            assert(s[s.len() - 1] == y);
        } else {
            assert(f == if pred(s.last()) {
                sub.push(s.last())
            } else {
                sub
            });
            let w = choose|w: int| 0 <= w < f.len() && f[w] == y;
            if pred(s.last()) {
                if w < f.len() - 1 {
                    assert(sub[w] == y);
                    lemma_filter_is_subset(s.drop_last(), pred, y);
                    let u = choose|u: int| 0 <= u < s.drop_last().len() && s.drop_last()[u] == y;
                    assert(s[u] == y);
                } else {
                    assert(y == s.last());
                    assert(s[s.len() - 1] == y);
                }
            } else {
                assert(sub[w] == y);
                lemma_filter_is_subset(s.drop_last(), pred, y);
                let u = choose|u: int| 0 <= u < s.drop_last().len() && s.drop_last()[u] == y;
                assert(s[u] == y);
            }
        }
    }
}

/// Whether some row of `v` carries the key `k`.
pub open spec fn row_in(v: Seq<Vec<String>>, k: Seq<Seq<char>>) -> bool {
    exists|i: int| 0 <= i < v.len() && row_key((#[trigger] v[i])@) == k
}

/// Strictly ascending keys: sorted and duplicate-free.
pub open spec fn sorted_distinct_rows(v: Seq<Vec<String>>) -> bool {
    forall|i: int, j: int|
        0 <= i < j < v.len() ==> keys_lt(row_key((#[trigger] v[i])@), row_key((#[trigger] v[j])@))
}

/// All rows have `n` components.
pub open spec fn rows_uniform(v: Seq<Vec<String>>, n: int) -> bool {
    forall|i: int| 0 <= i < v.len() ==> (#[trigger] v[i])@.len() == n
}

/// Compares two rows in the order `keys_le` describes.
fn rows_le(a: &Vec<String>, b: &Vec<String>) -> (r: bool)
    ensures
        r == keys_le(row_key(a@), row_key(b@)),
{
    let ghost ka: Seq<Seq<char>> = row_key(a@);
    let ghost kb: Seq<Seq<char>> = row_key(b@);
    let mut i: usize = 0;
    proof {
        assert(ka.skip(0) =~= ka);
        assert(kb.skip(0) =~= kb);
    }
    loop
        invariant
            i <= a@.len(),
            i <= b@.len(),
            ka == row_key(a@),
            kb == row_key(b@),
            ka.len() == a@.len(),
            kb.len() == b@.len(),
            keys_le(ka, kb) == keys_le(ka.skip(i as int), kb.skip(i as int)),
        decreases a@.len() - i,
    {
        if i == a.len() {
            assert(ka.skip(i as int).len() == 0);
            return true;
        }
        if i == b.len() {
            assert(kb.skip(i as int).len() == 0);
            assert(ka.skip(i as int).len() > 0);
            return false;
        }
        proof {
            assert(ka.skip(i as int)[0] == a@[i as int]@);
            assert(kb.skip(i as int)[0] == b@[i as int]@);
        }
        if !(a[i] == b[i]) {
            let le = str_le(a[i].as_str(), b[i].as_str());
            proof {
                if le {
                    assert(lex_lt(a@[i as int]@, b@[i as int]@));
                } else {
                    assert(!lex_lt(a@[i as int]@, b@[i as int]@));
                }
            }
            return le;
        }
        proof {
            assert(ka.skip(i as int).drop_first() =~= ka.skip(i + 1));
            assert(kb.skip(i as int).drop_first() =~= kb.skip(i + 1));
        }
        i = i + 1;
    }
}

/// Whether two rows carry the same key.
fn rows_same(a: &Vec<String>, b: &Vec<String>) -> (r: bool)
    ensures
        r == (row_key(a@) == row_key(b@)),
{
    if a.len() != b.len() {
        proof {
            assert(row_key(a@).len() != row_key(b@).len());
        }
        return false;
    }
    let mut i: usize = 0;
    while i < a.len()
        invariant
            a@.len() == b@.len(),
            i <= a@.len(),
            forall|j: int| 0 <= j < i ==> (#[trigger] a@[j])@ == b@[j]@,
        decreases a@.len() - i,
    {
        if !(a[i] == b[i]) {
            proof {
                assert(row_key(a@)[i as int] != row_key(b@)[i as int]);
            }
            return false;
        }
        i = i + 1;
    }
    proof {
        assert forall|j: int| 0 <= j < row_key(a@).len() implies row_key(a@)[j] == row_key(
            b@,
        )[j] by {
            assert(a@[j]@ == b@[j]@);
        }
        assert(row_key(a@) =~= row_key(b@));
    }
    true
}

/// Places `row` into the strictly sorted vector `v`, keeping it sorted and
/// duplicate-free; a row whose key is already present is dropped.
#[verifier::rlimit(60)]
pub fn insert_row_sorted(v: &mut Vec<Vec<String>>, row: Vec<String>)
    requires
        sorted_distinct_rows(old(v)@),
        rows_uniform(old(v)@, row@.len() as int),
    ensures
        sorted_distinct_rows(final(v)@),
        rows_uniform(final(v)@, row@.len() as int),
        old(v)@.len() <= final(v)@.len() <= old(v)@.len() + 1,
        forall|k: Seq<Seq<char>>|
            row_in(final(v)@, k) <==> (row_in(old(v)@, k) || k == row_key(row@)),
{
    let ghost orig: Seq<Vec<String>> = v@;
    let mut i: usize = 0;
    while i < v.len()
        invariant
            orig == old(v)@,
            v@ == orig,
            sorted_distinct_rows(orig),
            rows_uniform(orig, row@.len() as int),
            i <= orig.len(),
            forall|j: int| 0 <= j < i ==> keys_lt(row_key((#[trigger] orig[j])@), row_key(row@)),
        decreases v@.len() - i,
    {
        if rows_same(&row, &v[i]) {
            proof {
                assert(row_key(orig[i as int]@) == row_key(row@));
                assert forall|k: Seq<Seq<char>>|
                    row_in(v@, k) <==> (row_in(old(v)@, k) || k == row_key(row@)) by {
                    if k == row_key(row@) {
                        assert(row_key(orig[i as int]@) == k);
                    }
                }
            }
            return ;
        }
        if rows_le(&row, &v[i]) {
            proof {
                assert(keys_lt(row_key(row@), row_key(orig[i as int]@)));
            }
            v.insert(i, row);
            proof {
                let iv: int = i as int;
                let kr = row_key(row@);
                crate::text::lemma_insert_index(orig, iv, row);
                assert forall|p: int, q: int| 0 <= p < q < v@.len() implies keys_lt(
                    row_key((#[trigger] v@[p])@),
                    row_key((#[trigger] v@[q])@),
                ) by {
                    if p < iv {
                        assert(orig.insert(iv, row)[p] == orig[p]);
                    } else if p > iv {
                        assert(orig.insert(iv, row)[p] == orig[p - 1]);
                    }
                    if q < iv {
                        assert(orig.insert(iv, row)[q] == orig[q]);
                    } else if q > iv {
                        assert(orig.insert(iv, row)[q] == orig[q - 1]);
                    }
                    if p == iv && q > iv + 1 {
                        lemma_keys_le_transitive(
                            kr,
                            row_key(orig[iv]@),
                            row_key(orig[q - 1]@),
                        );
                        if kr == row_key(orig[q - 1]@) {
                            lemma_keys_le_antisymmetric(kr, row_key(orig[iv]@));
                        }
                    }
                }
                assert forall|n: int| 0 <= n < v@.len() implies (#[trigger] v@[n])@.len()
                    == row@.len() by {
                    if n < iv {
                        assert(orig.insert(iv, row)[n] == orig[n]);
                    } else if n > iv {
                        assert(orig.insert(iv, row)[n] == orig[n - 1]);
                    }
                }
                assert forall|k: Seq<Seq<char>>|
                    row_in(v@, k) <==> (row_in(old(v)@, k) || k == kr) by {
                    if row_in(v@, k) {
                        let w = choose|w: int| 0 <= w < v@.len() && row_key(v@[w]@) == k;
                        if w < iv {
                            assert(orig.insert(iv, row)[w] == orig[w]);
                            assert(row_key(orig[w]@) == k);
                        } else if w > iv {
                            assert(orig.insert(iv, row)[w] == orig[w - 1]);
                            assert(row_key(orig[w - 1]@) == k);
                        }
                    }
                    if row_in(old(v)@, k) {
                        let w = choose|w: int| 0 <= w < orig.len() && row_key(orig[w]@) == k;
                        if w < iv {
                            assert(orig.insert(iv, row)[w] == orig[w]);
                            assert(row_key(v@[w]@) == k);
                        } else {
                            assert(orig.insert(iv, row)[w + 1] == orig[w]);
                            assert(row_key(v@[w + 1]@) == k);
                        }
                    }
                    if k == kr {
                        assert(orig.insert(iv, row)[iv] == row);
                        assert(row_key(v@[iv]@) == k);
                    }
                }
            }
            return ;
        }
        proof {
            lemma_keys_le_total(row_key(row@), row_key(orig[i as int]@));
            assert(keys_le(row_key(orig[i as int]@), row_key(row@)));
            assert(keys_lt(row_key(orig[i as int]@), row_key(row@)));
        }
        i = i + 1;
    }
    v.push(row);
    proof {
        let kr = row_key(row@);
        assert forall|p: int, q: int| 0 <= p < q < v@.len() implies keys_lt(
            row_key((#[trigger] v@[p])@),
            row_key((#[trigger] v@[q])@),
        ) by {
            if q == v@.len() - 1 {
                assert(v@[p] == orig[p]);
            }
        }
        assert forall|k: Seq<Seq<char>>|
            row_in(v@, k) <==> (row_in(old(v)@, k) || k == kr) by {
            if row_in(v@, k) {
                let w = choose|w: int| 0 <= w < v@.len() && row_key(v@[w]@) == k;
                if w < v@.len() - 1 {
                    assert(row_key(orig[w]@) == k);
                    assert(row_in(old(v)@, k));
                }
            }
            if row_in(old(v)@, k) {
                let w = choose|w: int| 0 <= w < orig.len() && row_key(orig[w]@) == k;
                assert(row_key(v@[w]@) == k);
            }
            if k == kr {
                assert(row_key(v@[v@.len() - 1]@) == k);
            }
        }
    }
}

} // verus!
