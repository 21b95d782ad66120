//! Ordering, trimming and distinct-value helpers for the string data the
//! store hands back: participant names, test identifiers, timestamps.

use vstd::prelude::*;

verus! {

/// Lexicographic "less or equal" on character sequences, by code point.
/// The empty sequence precedes everything.
pub open spec fn lex_le(a: Seq<char>, b: Seq<char>) -> bool
    decreases a.len(),
{
    if a.len() == 0 {
        true
    } else if b.len() == 0 {
        false
    } else if (a[0] as int) < (b[0] as int) {
        true
    } else if (a[0] as int) > (b[0] as int) {
        false
    } else {
        lex_le(a.drop_first(), b.drop_first())
    }
}

/// `lex_le` holds in at least one direction: the order is total.
pub proof fn lemma_lex_le_total(a: Seq<char>, b: Seq<char>)
    ensures
        lex_le(a, b) || lex_le(b, a),
    decreases a.len(),
{
    if a.len() != 0 && b.len() != 0 && (a[0] as int) == (b[0] as int) {
        lemma_lex_le_total(a.drop_first(), b.drop_first());
    }
}

/// `lex_le` in both directions pins the sequences down to equality.
pub proof fn lemma_lex_le_antisymmetric(a: Seq<char>, b: Seq<char>)
    requires
        lex_le(a, b),
        lex_le(b, a),
    ensures
        a == b,
    decreases a.len(),
{
    if a.len() != 0 && b.len() != 0 {
        lemma_lex_le_antisymmetric(a.drop_first(), b.drop_first());
        assert(a.drop_first().len() == b.drop_first().len());
        assert(a.len() == b.len());
        assert forall|i: int| 0 <= i < a.len() implies a[i] == b[i] by {
            if i == 0 {
                assert(lex_le(a, b));
                assert(lex_le(b, a));
                assert((a[0] as int) == (b[0] as int));
            } else {
                assert(a[i] == a.drop_first()[i - 1]);
                assert(b[i] == b.drop_first()[i - 1]);
            }
        }
        assert(a =~= b);
    } else {
        assert(a =~= b);
    }
}

/// `lex_le` chains across a middle sequence.
pub proof fn lemma_lex_le_transitive(a: Seq<char>, b: Seq<char>, c: Seq<char>)
    requires
        lex_le(a, b),
        lex_le(b, c),
    ensures
        lex_le(a, c),
    decreases a.len(),
{
    if a.len() != 0 && b.len() != 0 && c.len() != 0 {
        if (a[0] as int) == (b[0] as int) && (b[0] as int) == (c[0] as int) {
            lemma_lex_le_transitive(a.drop_first(), b.drop_first(), c.drop_first());
        }
    }
}

/// Strict lexicographic "less than": `lex_le` without equality.
pub open spec fn lex_lt(a: Seq<char>, b: Seq<char>) -> bool {
    lex_le(a, b) && a != b
}

/// Whether the character sequence `x` occurs among the views of `v`.
pub open spec fn str_in(v: Seq<String>, x: Seq<char>) -> bool {
    exists|i: int| 0 <= i < v.len() && v[i]@ == x
}

/// Strictly ascending lexicographic order: sorted and duplicate-free.
pub open spec fn sorted_distinct_strs(v: Seq<String>) -> bool {
    forall|i: int, j: int| 0 <= i < j < v.len() ==> lex_lt(#[trigger] v[i]@, #[trigger] v[j]@)
}

/// Compares two strings in the order `lex_le` describes.
pub fn str_le(a: &str, b: &str) -> (r: bool)
    ensures
        r == lex_le(a@, b@),
{
    let a_len: usize = a.unicode_len();
    let b_len: usize = b.unicode_len();
    let mut i: usize = 0;
    proof {
        assert(a@.skip(0) =~= a@);
        assert(b@.skip(0) =~= b@);
    }
    loop
        invariant
            i <= a_len,
            i <= b_len,
            a_len == a@.len(),
            b_len == b@.len(),
            forall|j: int| 0 <= j < i ==> a@[j] == b@[j],
            lex_le(a@, b@) == lex_le(a@.skip(i as int), b@.skip(i as int)),
        decreases a_len - i,
    {
        if i == a_len {
            assert(a@.skip(i as int).len() == 0);
            return true;
        }
        if i == b_len {
            assert(b@.skip(i as int).len() == 0);
            assert(a@.skip(i as int).len() > 0);
            return false;
        }
        let ca = a.get_char(i);
        let cb = b.get_char(i);
        assert(a@.skip(i as int)[0] == ca);
        assert(b@.skip(i as int)[0] == cb);
        if (ca as u32) < (cb as u32) {
            return true;
        }
        if (ca as u32) > (cb as u32) {
            return false;
        }
        proof {
            assert(a@.skip(i as int).drop_first() =~= a@.skip(i + 1));
            assert(b@.skip(i as int).drop_first() =~= b@.skip(i + 1));
        }
        i = i + 1;
    }
}

/// Index-wise description of `Seq::insert`, with the shifted indices stated
/// directly so later proofs can cite them.
pub proof fn lemma_insert_index<A>(s: Seq<A>, pos: int, elt: A)
    requires
        0 <= pos <= s.len(),
    ensures
        s.insert(pos, elt).len() == s.len() + 1,
        forall|k: int| 0 <= k < pos ==> #[trigger] s.insert(pos, elt)[k] == s[k],
        forall|k: int| pos < k < s.len() + 1 ==> #[trigger] s.insert(pos, elt)[k] == s[k - 1],
        s.insert(pos, elt)[pos] == elt,
{
    s.insert_ensures(pos, elt);
    assert forall|k: int| pos < k < s.len() + 1 implies #[trigger] s.insert(pos, elt)[k] == s[k
        - 1] by {
        assert(s.insert(pos, elt)[(k - 1) + 1] == s[k - 1]);
    }
}

/// The whitespace characters that value trimming strips.
pub open spec fn is_space_char(c: char) -> bool {
    c == ' ' || c == '\t' || c == '\r' || c == '\n'
}

/// `s` without its leading whitespace.
pub open spec fn trim_start_spec(s: Seq<char>) -> Seq<char>
    decreases s.len(),
{
    if s.len() > 0 && is_space_char(s[0]) {
        trim_start_spec(s.drop_first())
    } else {
        s
    }
}

/// `s` without its trailing whitespace.
pub open spec fn trim_end_spec(s: Seq<char>) -> Seq<char>
    decreases s.len(),
{
    if s.len() > 0 && is_space_char(s[s.len() - 1]) {
        trim_end_spec(s.drop_last())
    } else {
        s
    }
}

/// `s` without leading and trailing whitespace.
pub open spec fn trim_spec(s: Seq<char>) -> Seq<char> {
    trim_end_spec(trim_start_spec(s))
}

/// Strips leading and trailing whitespace, as `trim_spec` describes.
pub fn trim_str(s: &str) -> (r: String)
    ensures
        r@ == trim_spec(s@),
{
    let len: usize = s.unicode_len();
    let mut start: usize = 0;
    proof {
        assert(s@.skip(0) =~= s@);
    }
    while start < len
        invariant
            start <= len,
            len == s@.len(),
            trim_start_spec(s@) == trim_start_spec(s@.skip(start as int)),
        ensures
            start <= len,
            trim_start_spec(s@) == trim_start_spec(s@.skip(start as int)),
            start == len || !is_space_char(s@[start as int]),
        decreases len - start,
    {
        let c = s.get_char(start);
        if !(c == ' ' || c == '\t' || c == '\r' || c == '\n') {
            proof {
                assert(s@.skip(start as int)[0] == c);
            }
            break ;
        }
        proof {
            assert(s@.skip(start as int)[0] == c);
            assert(s@.skip(start as int).drop_first() =~= s@.skip(start + 1));
        }
        start = start + 1;
    }
    proof {
        if start < len {
            assert(s@.skip(start as int)[0] == s@[start as int]);
        }
        assert(trim_start_spec(s@) == s@.skip(start as int));
    }
    let ghost start_snap: int = start as int;
    let mut end: usize = len;
    proof {
        assert(s@.subrange(start as int, len as int) =~= s@.skip(start as int));
    }
    while end > start
        invariant
            start as int == start_snap,
            start <= end <= len,
            len == s@.len(),
            trim_end_spec(s@.skip(start as int)) == trim_end_spec(
                s@.subrange(start as int, end as int),
            ),
        ensures
            start as int == start_snap,
            start <= end <= len,
            trim_end_spec(s@.skip(start as int)) == trim_end_spec(
                s@.subrange(start as int, end as int),
            ),
            end == start || !is_space_char(s@[end - 1]),
        decreases end,
    {
        let c = s.get_char(end - 1);
        if !(c == ' ' || c == '\t' || c == '\r' || c == '\n') {
            break ;
        }
        proof {
            let sub = s@.subrange(start as int, end as int);
            assert(sub[sub.len() - 1] == c);
            assert(sub.drop_last() =~= s@.subrange(start as int, end - 1));
        }
        end = end - 1;
    }
    proof {
        let sub = s@.subrange(start as int, end as int);
        if end > start {
            assert(sub[sub.len() - 1] == s@[end - 1]);
        }
        assert(trim_end_spec(s@.subrange(start as int, end as int)) == s@.subrange(
            start as int,
            end as int,
        ));
    }
    s.substring_char(start, end).to_owned()
}

/// Collects the trimmed, non-blank values of `vals` into a lexicographically
/// sorted vector without duplicates.
pub fn distinct_sorted_nonblank(vals: &Vec<Option<String>>) -> (r: Vec<String>)
    ensures
        sorted_distinct_strs(r@),
        forall|x: Seq<char>|
            str_in(r@, x) <==> (x.len() > 0 && exists|j: int|
                0 <= j < vals@.len() && vals@[j] is Some && trim_spec(vals@[j]->0@) == x),
{
    let mut r: Vec<String> = Vec::new();
    let mut i: usize = 0;
    while i < vals.len()
        invariant
            i <= vals@.len(),
            sorted_distinct_strs(r@),
            forall|x: Seq<char>|
                str_in(r@, x) <==> (x.len() > 0 && exists|j: int|
                    0 <= j < i && vals@[j] is Some && trim_spec(vals@[j]->0@) == x),
        decreases vals@.len() - i,
    {
        let ghost prev: Seq<String> = r@;
        match &vals[i] {
            Some(sv) => {
                let t = trim_str(sv.as_str());
                if !t.as_str().is_empty() {
                    insert_str_sorted(&mut r, t);
                    proof {
                        let iv: int = i as int;
                        assert forall|x: Seq<char>|
                            str_in(r@, x) <==> (x.len() > 0 && exists|j: int|
                                0 <= j < iv + 1 && vals@[j] is Some && trim_spec(vals@[j]->0@)
                                    == x) by {
                            if str_in(r@, x) {
                                if x == trim_spec(vals@[iv]->0@) {
                                    assert(vals@[iv] is Some && trim_spec(vals@[iv]->0@) == x);
                                }
                            }
                            if x.len() > 0 && exists|j: int|
                                0 <= j < iv + 1 && vals@[j] is Some && trim_spec(vals@[j]->0@)
                                    == x {
                                let j = choose|j: int|
                                    0 <= j < iv + 1 && vals@[j] is Some && trim_spec(
                                        vals@[j]->0@,
                                    ) == x;
                                if j < iv {
                                    assert(str_in(prev, x));
                                }
                            }
                        }
                    }
                } else {
                    proof {
                        let iv: int = i as int;
                        assert forall|x: Seq<char>|
                            str_in(r@, x) <==> (x.len() > 0 && exists|j: int|
                                0 <= j < iv + 1 && vals@[j] is Some && trim_spec(vals@[j]->0@)
                                    == x) by {
                            if x.len() > 0 && exists|j: int|
                                0 <= j < iv + 1 && vals@[j] is Some && trim_spec(vals@[j]->0@)
                                    == x {
                                let j = choose|j: int|
                                    0 <= j < iv + 1 && vals@[j] is Some && trim_spec(
                                        vals@[j]->0@,
                                    ) == x;
                                if j < iv {
                                    assert(str_in(r@, x));
                                }
                            }
                        }
                    }
                }
            },
            None => {
                proof {
                    let iv: int = i as int;
                    assert forall|x: Seq<char>|
                        str_in(r@, x) <==> (x.len() > 0 && exists|j: int|
                            0 <= j < iv + 1 && vals@[j] is Some && trim_spec(vals@[j]->0@)
                                == x) by {
                        if x.len() > 0 && exists|j: int|
                            0 <= j < iv + 1 && vals@[j] is Some && trim_spec(vals@[j]->0@) == x {
                            let j = choose|j: int|
                                0 <= j < iv + 1 && vals@[j] is Some && trim_spec(vals@[j]->0@)
                                    == x;
                            assert(j < iv);
                        }
                    }
                }
            },
        }
        i = i + 1;
    }
    r
}

/// A media name's kind, read off its file extension.
#[derive(Clone, Copy, Debug, PartialEq, Eq, Structural)]
pub enum MediaKind {
    Mp4,
    Png,
    Other,
}

/// The name ends in `.mp4`, ignoring ASCII case.
pub open spec fn is_mp4_name(s: Seq<char>) -> bool {
    s.len() >= 4 && s[s.len() - 4] == '.' && (s[s.len() - 3] == 'm' || s[s.len() - 3] == 'M') && (
    s[s.len() - 2] == 'p' || s[s.len() - 2] == 'P') && s[s.len() - 1] == '4'
}

/// The name ends in `.png`, ignoring ASCII case.
pub open spec fn is_png_name(s: Seq<char>) -> bool {
    s.len() >= 4 && s[s.len() - 4] == '.' && (s[s.len() - 3] == 'p' || s[s.len() - 3] == 'P') && (
    s[s.len() - 2] == 'n' || s[s.len() - 2] == 'N') && (s[s.len() - 1] == 'g' || s[s.len() - 1]
        == 'G')
}

/// Classifies a presented-media name by its extension, ignoring ASCII case.
pub fn media_kind(name: &str) -> (k: MediaKind)
    ensures
        k == MediaKind::Mp4 <==> is_mp4_name(name@),
        k == MediaKind::Png <==> is_png_name(name@),
{
    let n: usize = name.unicode_len();
    if n < 4 {
        return MediaKind::Other;
    }
    let dot = name.get_char(n - 4);
    let c1 = name.get_char(n - 3);
    let c2 = name.get_char(n - 2);
    let c3 = name.get_char(n - 1);
    if dot == '.' && (c1 == 'm' || c1 == 'M') && (c2 == 'p' || c2 == 'P') && c3 == '4' {
        MediaKind::Mp4
    } else if dot == '.' && (c1 == 'p' || c1 == 'P') && (c2 == 'n' || c2 == 'N') && (c3 == 'g' || c3
        == 'G') {
        MediaKind::Png
    } else {
        MediaKind::Other
    }
}

/// Whether some string of `v` has the same characters as `x`.
pub fn str_in_vec(v: &Vec<String>, x: &String) -> (r: bool)
    ensures
        r == str_in(v@, x@),
{
    let mut i: usize = 0;
    while i < v.len()
        invariant
            i <= v@.len(),
            forall|j: int| 0 <= j < i ==> (#[trigger] v@[j])@ != x@,
        decreases v@.len() - i,
    {
        if v[i] == *x {
            assert(v@[i as int]@ == x@);
            return true;
        }
        i = i + 1;
    }
    false
}

/// Places `s` into the strictly sorted vector `v`, keeping it sorted and
/// duplicate-free; a value already present is left alone.
#[verifier::rlimit(60)]
pub fn insert_str_sorted(v: &mut Vec<String>, s: String)
    requires
        sorted_distinct_strs(old(v)@),
    ensures
        sorted_distinct_strs(final(v)@),
        forall|x: Seq<char>| str_in(final(v)@, x) <==> (str_in(old(v)@, x) || x == s@),
{
    let ghost orig: Seq<String> = v@;
    let mut i: usize = 0;
    while i < v.len()
        invariant
            orig == old(v)@,
            v@ == orig,
            sorted_distinct_strs(orig),
            i <= orig.len(),
            forall|j: int| 0 <= j < i ==> lex_lt(#[trigger] orig[j]@, s@),
        decreases v@.len() - i,
    {
        if s == v[i] {
            proof {
                assert(orig[i as int]@ == s@);
                assert forall|x: Seq<char>| str_in(v@, x) <==> (str_in(orig, x) || x == s@) by {
                    if x == s@ {
                        assert(orig[i as int]@ == x);
                    }
                }
            }
            return ;
        }
        if str_le(s.as_str(), &v[i].as_str()) {
            assert(lex_lt(s@, orig[i as int]@));
            v.insert(i, s);
            proof {
                let iv: int = i as int;
                lemma_insert_index(orig, iv, s);
                assert forall|p: int, q: int| 0 <= p < q < v@.len() implies lex_lt(
                    #[trigger] v@[p]@,
                    #[trigger] v@[q]@,
                ) by {
                    if p < iv {
                        assert(orig.insert(iv, s)[p] == orig[p]);
                    } else if p > iv {
                        assert(orig.insert(iv, s)[p] == orig[p - 1]);
                    }
                    if q < iv {
                        assert(orig.insert(iv, s)[q] == orig[q]);
                    } else if q > iv {
                        assert(orig.insert(iv, s)[q] == orig[q - 1]);
                    }
                    if p == iv && q > iv + 1 {
                        lemma_lex_le_transitive(s@, orig[iv]@, orig[q - 1]@);
                        if s@ == orig[q - 1]@ {
                            lemma_lex_le_antisymmetric(s@, orig[iv]@);
                        }
                    }
                }
                assert forall|x: Seq<char>| str_in(v@, x) <==> (str_in(orig, x) || x == s@) by {
                    if str_in(v@, x) {
                        let k = choose|k: int| 0 <= k < v@.len() && v@[k]@ == x;
                        if k < iv {
                            assert(orig.insert(iv, s)[k] == orig[k]);
                            assert(orig[k]@ == x);
                        } else if k > iv {
                            assert(orig.insert(iv, s)[k] == orig[k - 1]);
                            assert(orig[k - 1]@ == x);
                        }
                    }
                    if str_in(orig, x) {
                        let k = choose|k: int| 0 <= k < orig.len() && orig[k]@ == x;
                        if k < iv {
                            assert(orig.insert(iv, s)[k] == orig[k]);
                            assert(v@[k]@ == x);
                        } else {
                            assert(orig.insert(iv, s)[k + 1] == orig[k]);
                            assert(v@[k + 1]@ == x);
                        }
                    }
                    if x == s@ {
                        assert(orig.insert(iv, s)[iv] == s);
                        assert(v@[iv]@ == x);
                    }
                }
            }
            return ;
        }
        proof {
            lemma_lex_le_total(s@, orig[i as int]@);
        }
        i = i + 1;
    }
    v.push(s);
    proof {
        assert forall|p: int, q: int| 0 <= p < q < v@.len() implies lex_lt(
            #[trigger] v@[p]@,
            #[trigger] v@[q]@,
        ) by {
            if q == v@.len() - 1 {
                assert(v@[p]@ == orig[p]@);
            }
        }
        assert forall|x: Seq<char>| str_in(v@, x) <==> (str_in(old(v)@, x) || x == s@) by {
            if str_in(v@, x) {
                let k = choose|k: int| 0 <= k < v@.len() && v@[k]@ == x;
                if k < v@.len() - 1 {
                    assert(orig[k]@ == x);
                    assert(str_in(old(v)@, x));
                }
            }
            if str_in(old(v)@, x) {
                let k = choose|k: int| 0 <= k < orig.len() && orig[k]@ == x;
                assert(v@[k]@ == x);
            }
            if x == s@ {
                assert(v@[v@.len() - 1]@ == x);
            }
        }
    }
}

} // verus!
