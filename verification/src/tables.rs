//! Reference tables with runtime-discovered schemas: rows become ordered
//! column → nullable-text records, and the bootstrap payload assembles the
//! small tables with the derived relation maps.

use vstd::prelude::*;

use crate::overlay::DisabledStore;
use crate::relations::RelationMap;
use crate::relations::map_keys;
use crate::relations::map_pair_in;
use crate::relations::participants_by_test;
use crate::relations::relation_has;
use crate::relations::tests_by_participant;
use crate::text::distinct_sorted_nonblank;
use crate::text::sorted_distinct_strs;
use crate::text::str_in;
use crate::text::trim_spec;

verus! {

/// The decimal digits of a non-negative number, most significant first.
pub open spec fn dec_str_rec(n: int) -> Seq<char>
    recommends
        n >= 0,
    decreases n,
{
    if n < 10 {
        seq![((48 + n) as u8) as char]
    } else {
        dec_str_rec(n / 10).push(((48 + n % 10) as u8) as char)
    }
}

/// The decimal rendering of a signed number.
pub open spec fn i64_dec_str(v: int) -> Seq<char> {
    if v < 0 {
        seq!['-'] + dec_str_rec(-v)
    } else {
        dec_str_rec(v)
    }
}

/// One decimal digit as text.
fn digit_str(d: u64) -> (r: &'static str)
    requires
        d < 10,
    ensures
        r@ == seq![((48 + d) as u8) as char],
{
    let r: &'static str = match d {
        0 => "0",
        1 => "1",
        2 => "2",
        3 => "3",
        4 => "4",
        5 => "5",
        6 => "6",
        7 => "7",
        8 => "8",
        _ => "9",
    };
    proof {
        reveal_strlit("0");
        reveal_strlit("1");
        reveal_strlit("2");
        reveal_strlit("3");
        reveal_strlit("4");
        reveal_strlit("5");
        reveal_strlit("6");
        reveal_strlit("7");
        reveal_strlit("8");
        reveal_strlit("9");
        assert(r@ =~= seq![((48 + d) as u8) as char]);
    }
    r
}

/// Renders a non-negative number in decimal.
fn u64_to_string(n: u64) -> (r: String)
    ensures
        r@ == dec_str_rec(n as int),
{
    let mut acc = String::new();
    let mut cur: u64 = n;
    while cur >= 10
        invariant
            dec_str_rec(n as int) == dec_str_rec(cur as int) + acc@,
        decreases cur,
    {
        let ghost acc0: Seq<char> = acc@;
        let d = digit_str(cur % 10);
        let joined = String::from_str(d).concat(acc.as_str());
        acc = joined;
        proof {
            assert(dec_str_rec(cur as int) =~= dec_str_rec(cur as int / 10) + d@);
            assert(dec_str_rec(cur as int / 10) + acc@ =~= (dec_str_rec(cur as int / 10) + d@)
                + acc0);
        }
        cur = cur / 10;
    }
    let d = digit_str(cur);
    let r = String::from_str(d).concat(acc.as_str());
    proof {
        assert(dec_str_rec(cur as int) == seq![((48 + cur as int) as u8) as char]);
        assert(r@ =~= dec_str_rec(n as int));
    }
    r
}

/// Renders a signed number in decimal, with a leading minus when negative.
pub fn i64_to_string(v: i64) -> (r: String)
    ensures
        r@ == i64_dec_str(v as int),
{
    if v >= 0 {
        u64_to_string(v as u64)
    } else {
        let mag: u64 = (-(v as i128)) as u64;
        let s = u64_to_string(mag);
        let r = String::from_str("-").concat(s.as_str());
        proof {
            reveal_strlit("-");
            assert(r@ =~= seq!['-'] + dec_str_rec(mag as int));
            assert(mag as int == -(v as int));
        }
        r
    }
}

/// What standard base64 encoding of the bytes yields; a function of the
/// bytes alone.
pub uninterp spec fn base64_of(b: Seq<u8>) -> Seq<char>;

/// Relies on the base64 crate's `STANDARD` engine: the padded encoding is a
/// function of the bytes alone and spends four characters on every started
/// group of three bytes.
#[verifier::external_body]
fn base64_encode(b: &Vec<u8>) -> (r: String)
    requires
        4 * ((b@.len() + 2) / 3) <= usize::MAX,
    ensures
        r@ == base64_of(b@),
        r@.len() == 4 * ((b@.len() + 2) / 3),
{
    base64::Engine::encode(&base64::engine::general_purpose::STANDARD, b)
}

/// A raw column value as the store hands it over.  A floating-point value
/// arrives already rendered as text, the form the record keeps anyway.
#[derive(Debug)]
pub enum DbValue {
    Null,
    Int(i64),
    Real(String),
    Text(String),
    Blob(Vec<u8>),
}

/// The nullable text a value turns into.
pub open spec fn value_str_spec(v: DbValue) -> Option<Seq<char>> {
    match v {
        DbValue::Null => None,
        DbValue::Int(i) => Some(i64_dec_str(i as int)),
        DbValue::Real(s) => Some(s@),
        DbValue::Text(s) => Some(s@),
        DbValue::Blob(b) => Some(base64_of(b@)),
    }
}

/// The view of a nullable string.
pub open spec fn opt_str_view(o: Option<String>) -> Option<Seq<char>> {
    match o {
        Some(s) => Some(s@),
        None => None,
    }
}

/// Converts one raw value to nullable text: numbers in decimal, text as
/// itself, blobs base64-encoded, null staying null.
pub fn value_to_string(v: DbValue) -> (r: Option<String>)
    requires
        v matches DbValue::Blob(b) ==> 4 * ((b@.len() + 2) / 3) <= usize::MAX,
    ensures
        opt_str_view(r) == value_str_spec(v),
{
    match v {
        DbValue::Null => None,
        DbValue::Int(i) => Some(i64_to_string(i)),
        DbValue::Real(s) => Some(s),
        DbValue::Text(s) => Some(s),
        DbValue::Blob(b) => Some(base64_encode(&b)),
    }
}

/// A table row with its schema discovered at runtime: ordered pairs of
/// column name and nullable text.
pub type RowMap = Vec<(String, Option<String>)>;

/// Pairs each column name with its converted value, in column order.
pub fn build_row(cols: &Vec<String>, vals: Vec<DbValue>) -> (r: RowMap)
    requires
        vals@.len() == cols@.len(),
        forall|i: int|
            0 <= i < vals@.len() ==> ((#[trigger] vals@[i]) matches DbValue::Blob(b) ==> 4 * ((
            b@.len() + 2) / 3) <= usize::MAX),
    ensures
        r@.len() == cols@.len(),
        forall|i: int|
            0 <= i < r@.len() ==> (#[trigger] r@[i]).0@ == cols@[i]@ && opt_str_view(r@[i].1)
                == value_str_spec(vals@[i]),
{
    let ghost orig: Seq<DbValue> = vals@;
    let mut vs = vals;
    let mut r: RowMap = Vec::new();
    let mut i: usize = 0;
    while i < cols.len()
        invariant
            i <= cols@.len(),
            orig.len() == cols@.len(),
            vs@ =~= orig.skip(i as int),
            r@.len() == i,
            forall|j: int|
                0 <= j < orig.len() ==> ((#[trigger] orig[j]) matches DbValue::Blob(b) ==> 4 * ((
                b@.len() + 2) / 3) <= usize::MAX),
            forall|j: int|
                0 <= j < i ==> (#[trigger] r@[j]).0@ == cols@[j]@ && opt_str_view(r@[j].1)
                    == value_str_spec(orig[j]),
        decreases cols@.len() - i,
    {
        let v = vs.remove(0);
        proof {
            assert(v == orig.skip(i as int)[0]);
            assert(orig.skip(i as int)[0] == orig[i as int]);
            assert(orig.skip(i as int).remove(0) =~= orig.skip(i + 1));
        }
        let s = value_to_string(v);
        r.push((cols[i].clone(), s));
        i = i + 1;
    }
    r
}

/// Which table the participants listing should come from: the primary
/// table when it exists, else the legacy one, else none.
#[derive(Debug, PartialEq, Eq, Structural)]
pub enum ParticipantsTable {
    Primary,
    Legacy,
    Absent,
}

/// The fallback rule for the participants listing.
pub fn participants_table(has_participants: bool, has_legacy: bool) -> (r: ParticipantsTable)
    ensures
        r == (if has_participants {
            ParticipantsTable::Primary
        } else if has_legacy {
            ParticipantsTable::Legacy
        } else {
            ParticipantsTable::Absent
        }),
{
    if has_participants {
        ParticipantsTable::Primary
    } else if has_legacy {
        ParticipantsTable::Legacy
    } else {
        ParticipantsTable::Absent
    }
}

/// The bootstrap payload: small reference tables plus the derived relation
/// maps.
#[derive(Debug)]
pub struct StaticData {
    pub test_catalog: Vec<RowMap>,
    pub test_group: Vec<RowMap>,
    pub recordings: Vec<RowMap>,
    pub participants: Vec<String>,
    pub test_names: Vec<String>,
    pub participants_by_test: RelationMap,
    pub tests_by_participant: RelationMap,
}

/// Assembles the bootstrap payload.  The catalog and recordings dumps pass
/// through unchanged; the bulky group table is deliberately left empty; the
/// distinct lists are trimmed, de-blanked, sorted and unique; the relation
/// maps honour the overlay as it stands at bootstrap time.
pub fn get_static_data(
    test_catalog: Vec<RowMap>,
    recordings: Vec<RowMap>,
    participant_vals: &Vec<Option<String>>,
    test_name_vals: &Vec<Option<String>>,
    triples: &Vec<(String, String, String)>,
    overlay: &DisabledStore,
) -> (r: StaticData)
    ensures
        r.test_catalog == test_catalog,
        r.test_group@.len() == 0,
        r.recordings == recordings,
        sorted_distinct_strs(r.participants@),
        forall|x: Seq<char>|
            str_in(r.participants@, x) <==> (x.len() > 0 && exists|j: int|
                0 <= j < participant_vals@.len() && (#[trigger] participant_vals@[j]) is Some
                    && trim_spec(participant_vals@[j]->0@) == x),
        sorted_distinct_strs(r.test_names@),
        forall|x: Seq<char>|
            str_in(r.test_names@, x) <==> (x.len() > 0 && exists|j: int|
                0 <= j < test_name_vals@.len() && (#[trigger] test_name_vals@[j]) is Some
                    && trim_spec(test_name_vals@[j]->0@) == x),
        sorted_distinct_strs(map_keys(r.participants_by_test@)),
        forall|t: Seq<char>, p: Seq<char>|
            map_pair_in(r.participants_by_test@, t, p) <==> relation_has(
                triples@,
                overlay@,
                t,
                p,
            ),
        sorted_distinct_strs(map_keys(r.tests_by_participant@)),
        forall|p: Seq<char>, t: Seq<char>|
            map_pair_in(r.tests_by_participant@, p, t) <==> relation_has(
                triples@,
                overlay@,
                t,
                p,
            ),
{
    let participants = distinct_sorted_nonblank(participant_vals);
    let test_names = distinct_sorted_nonblank(test_name_vals);
    let by_test = participants_by_test(triples, overlay);
    let by_part = tests_by_participant(triples, overlay);
    StaticData {
        test_catalog,
        test_group: Vec::new(),
        recordings,
        participants,
        test_names,
        participants_by_test: by_test,
        tests_by_participant: by_part,
    }
}

} // verus!
