//! The exclusion overlay: an in-memory set of disabled
//! `(test, recording, participant)` slices that every data path consults.
//!
//! The store models a set keyed by the three names.  Mutations follow a
//! persist-before-commit discipline: the caller renders the prospective set,
//! writes it to durable storage, and only then commits it in memory, so a
//! failed write leaves the previous state observable.

use vstd::prelude::*;

verus! {

/// One disabled slice: the unit of exclusion.
#[derive(Debug)]
pub struct DisabledSlice {
    pub test_name: String,
    pub recording_name: String,
    pub participant_name: String,
}

impl DisabledSlice {
    /// The slice's identity: the views of its three names.
    pub open spec fn key(self) -> (Seq<char>, Seq<char>, Seq<char>) {
        (self.test_name@, self.recording_name@, self.participant_name@)
    }

    pub fn new(test_name: String, recording_name: String, participant_name: String) -> (r:
        DisabledSlice)
        ensures
            r.key() == (test_name@, recording_name@, participant_name@),
    {
        DisabledSlice { test_name, recording_name, participant_name }
    }

    /// A copy carrying the same key.
    pub fn duplicate(&self) -> (r: DisabledSlice)
        ensures
            r.key() == self.key(),
    {
        DisabledSlice {
            test_name: self.test_name.clone(),
            recording_name: self.recording_name.clone(),
            participant_name: self.participant_name.clone(),
        }
    }
}

impl PartialEq for DisabledSlice {
    fn eq(&self, other: &Self) -> (r: bool) {
        self.test_name == other.test_name && self.recording_name == other.recording_name
            && self.participant_name == other.participant_name
    }
}

impl Eq for DisabledSlice {

}

impl vstd::std_specs::cmp::PartialEqSpecImpl for DisabledSlice {
    open spec fn obeys_eq_spec() -> bool {
        true
    }

    open spec fn eq_spec(&self, other: &Self) -> bool {
        self.key() == other.key()
    }
}

/// Whether some slice in `v` carries the key `k`.
pub open spec fn key_in(v: Seq<DisabledSlice>, k: (Seq<char>, Seq<char>, Seq<char>)) -> bool {
    exists|i: int| 0 <= i < v.len() && v[i].key() == k
}

/// The set of keys occurring in `v`.
pub open spec fn key_set(v: Seq<DisabledSlice>) -> Set<(Seq<char>, Seq<char>, Seq<char>)> {
    Set::new(|k: (Seq<char>, Seq<char>, Seq<char>)| key_in(v, k))
}

/// No two slices of `v` carry the same key.
pub open spec fn distinct_keys(v: Seq<DisabledSlice>) -> bool {
    forall|i: int, j: int|
        0 <= i < j < v.len() ==> (#[trigger] v[i]).key() != (#[trigger] v[j]).key()
}

/// The in-memory exclusion overlay, viewed as the set of its slices' keys.
pub struct DisabledStore {
    slices: Vec<DisabledSlice>,
}

impl View for DisabledStore {
    type V = Set<(Seq<char>, Seq<char>, Seq<char>)>;

    closed spec fn view(&self) -> Set<(Seq<char>, Seq<char>, Seq<char>)> {
        key_set(self.slices@)
    }
}

/// Removes duplicate keys, keeping the first slice of each key.
fn dedup_slices(slices: Vec<DisabledSlice>) -> (r: Vec<DisabledSlice>)
    ensures
        distinct_keys(r@),
        key_set(r@) == key_set(slices@),
{
    let mut r: Vec<DisabledSlice> = Vec::new();
    let mut i: usize = 0;
    while i < slices.len()
        invariant
            i <= slices@.len(),
            distinct_keys(r@),
            forall|k: (Seq<char>, Seq<char>, Seq<char>)|
                key_in(r@, k) <==> exists|j: int| 0 <= j < i && slices@[j].key() == k,
        decreases slices@.len() - i,
    {
        let ghost prev: Seq<DisabledSlice> = r@;
        let cur = slices[i].duplicate();
        if !contains_key(&r, &cur) {
            r.push(cur);
        }
        proof {
            let iv: int = i as int;
            assert forall|k: (Seq<char>, Seq<char>, Seq<char>)|
                key_in(r@, k) <==> exists|j: int| 0 <= j < iv + 1 && slices@[j].key() == k by {
                if key_in(r@, k) {
                    let w = choose|w: int| 0 <= w < r@.len() && r@[w].key() == k;
                    if w < prev.len() {
                        assert(key_in(prev, k));
                    } else {
                        assert(slices@[iv].key() == k);
                    }
                }
                if exists|j: int| 0 <= j < iv + 1 && slices@[j].key() == k {
                    let j = choose|j: int| 0 <= j < iv + 1 && slices@[j].key() == k;
                    if j < iv {
                        assert(slices@[j].key() == k);
                        assert(key_in(prev, k));
                        let w = choose|w: int| 0 <= w < prev.len() && prev[w].key() == k;
                        assert(prev[w].key() == k);
                        assert(r@[w].key() == k);
                    } else {
                        if key_in(prev, cur.key()) {
                            let w = choose|w: int| 0 <= w < prev.len() && prev[w].key()
                                == cur.key();
                            assert(r@[w].key() == k);
                        } else {
                            assert(r@[r@.len() - 1].key() == k);
                        }
                    }
                }
            }
        }
        i = i + 1;
    }
    proof {
        assert(key_set(r@) =~= key_set(slices@));
    }
    r
}

/// Whether `v` holds a slice with `slice`'s key.
fn contains_key(v: &Vec<DisabledSlice>, slice: &DisabledSlice) -> (r: bool)
    ensures
        r == key_in(v@, slice.key()),
{
    let mut i: usize = 0;
    while i < v.len()
        invariant
            i <= v@.len(),
            forall|j: int| 0 <= j < i ==> (#[trigger] v@[j]).key() != slice.key(),
        decreases v@.len() - i,
    {
        if v[i] == *slice {
            assert(v@[i as int].key() == slice.key());
            return true;
        }
        i = i + 1;
    }
    false
}

impl DisabledStore {
    #[verifier::type_invariant]
    spec fn wf(self) -> bool {
        distinct_keys(self.slices@)
    }

    /// An empty overlay.
    pub fn new() -> (r: DisabledStore)
        ensures
            r@ == Set::<(Seq<char>, Seq<char>, Seq<char>)>::empty(),
    {
        let r = DisabledStore { slices: Vec::new() };
        proof {
            assert(r@ =~= Set::<(Seq<char>, Seq<char>, Seq<char>)>::empty());
        }
        r
    }

    /// The overlay holding exactly the keys of `slices`; duplicates collapse.
    pub fn from_slices(slices: Vec<DisabledSlice>) -> (r: DisabledStore)
        ensures
            r@ == key_set(slices@),
    {
        DisabledStore { slices: dedup_slices(slices) }
    }

    /// Membership test for one slice.
    pub fn contains(&self, slice: &DisabledSlice) -> (r: bool)
        ensures
            r == self@.contains(slice.key()),
    {
        contains_key(&self.slices, slice)
    }

    /// A copy of the overlay with the same key set.
    pub fn duplicate(&self) -> (r: DisabledStore)
        ensures
            r@ == self@,
    {
        proof {
            use_type_invariant(self);
        }
        let mut v: Vec<DisabledSlice> = Vec::new();
        let mut i: usize = 0;
        while i < self.slices.len()
            invariant
                i <= self.slices@.len(),
                v@.len() == i,
                forall|j: int| 0 <= j < i ==> (#[trigger] v@[j]).key() == self.slices@[j].key(),
                distinct_keys(self.slices@),
            decreases self.slices@.len() - i,
        {
            v.push(self.slices[i].duplicate());
            i = i + 1;
        }
        let r = DisabledStore { slices: v };
        proof {
            assert forall|k: (Seq<char>, Seq<char>, Seq<char>)|
                key_in(v@, k) <==> key_in(self.slices@, k) by {
                if key_in(v@, k) {
                    let w = choose|w: int| 0 <= w < v@.len() && v@[w].key() == k;
                    assert(self.slices@[w].key() == k);
                }
                if key_in(self.slices@, k) {
                    let w = choose|w: int|
                        0 <= w < self.slices@.len() && self.slices@[w].key() == k;
                    assert(v@[w].key() == k);
                }
            }
            assert(r@ =~= self@);
        }
        r
    }

    /// Point-in-time snapshot of the disabled slices, one per key.
    pub fn get_disabled_slices(&self) -> (r: Vec<DisabledSlice>)
        ensures
            distinct_keys(r@),
            key_set(r@) == self@,
    {
        let d = self.duplicate();
        proof {
            use_type_invariant(&d);
        }
        let DisabledStore { slices } = d;
        slices
    }

    /// Replaces the whole overlay with the keys of `slices`.
    pub fn set_disabled_slices(&mut self, slices: Vec<DisabledSlice>)
        ensures
            final(self)@ == key_set(slices@),
    {
        self.slices = dedup_slices(slices);
    }

    /// Inserts (`disabled` true) or removes (`disabled` false) one slice.
    pub fn toggle_disabled_slice(&mut self, slice: DisabledSlice, disabled: bool)
        ensures
            final(self)@ == if disabled {
                old(self)@.insert(slice.key())
            } else {
                old(self)@.remove(slice.key())
            },
    {
        proof {
            use_type_invariant(&*self);
        }
        if disabled {
            if !contains_key(&self.slices, &slice) {
                let ghost prev: Seq<DisabledSlice> = self.slices@;
                let mut v: Vec<DisabledSlice> = Vec::new();
                core::mem::swap(&mut v, &mut self.slices);
                v.push(slice);
                proof {
                    assert forall|k: (Seq<char>, Seq<char>, Seq<char>)|
                        key_in(v@, k) <==> (key_in(prev, k) || k == v@[v@.len() - 1].key()) by {
                        if key_in(v@, k) {
                            let w = choose|w: int| 0 <= w < v@.len() && v@[w].key() == k;
                            if w < prev.len() {
                                assert(prev[w].key() == k);
                            }
                        }
                        if key_in(prev, k) {
                            let w = choose|w: int| 0 <= w < prev.len() && prev[w].key() == k;
                            assert(v@[w].key() == k);
                        }
                    }
                    assert(distinct_keys(v@));
                }
                self.slices = v;
                proof {
                    assert(self@ =~= old(self)@.insert(slice.key()));
                }
            } else {
                proof {
                    assert(self@ =~= old(self)@.insert(slice.key()));
                }
            }
        } else {
            let ghost prev: Seq<DisabledSlice> = self.slices@;
            let mut i: usize = 0;
            while i < self.slices.len()
                invariant
                    !disabled,
                    self.slices@ == prev,
                    prev == old(self).slices@,
                    i <= prev.len(),
                    distinct_keys(prev),
                    forall|j: int| 0 <= j < i ==> (#[trigger] prev[j]).key() != slice.key(),
                decreases prev.len() - i,
            {
                if self.slices[i] == slice {
                    let ghost iv: int = i as int;
                    assert(prev[iv].key() == slice.key());
                    let mut v: Vec<DisabledSlice> = Vec::new();
                    core::mem::swap(&mut v, &mut self.slices);
                    v.remove(i);
                    proof {
                        prev.remove_ensures(iv);
                        assert forall|k: (Seq<char>, Seq<char>, Seq<char>)|
                            key_in(v@, k) <==> (key_in(prev, k) && k != slice.key()) by {
                            if key_in(v@, k) {
                                let w = choose|w: int| 0 <= w < v@.len() && v@[w].key() == k;
                                if w < iv {
                                    assert(prev.remove(iv)[w] == prev[w]);
                                    assert(prev[w].key() == k);
                                } else {
                                    assert(prev.remove(iv)[w] == prev[w + 1]);
                                    assert(prev[w + 1].key() == k);
                                    assert(prev[w + 1].key() != prev[iv].key());
                                }
                            }
                            if key_in(prev, k) && k != slice.key() {
                                let w = choose|w: int|
                                    0 <= w < prev.len() && prev[w].key() == k;
                                if w < iv {
                                    assert(prev.remove(iv)[w] == prev[w]);
                                    assert(v@[w].key() == k);
                                } else {
                                    assert(w > iv);
                                    assert(prev.remove(iv)[w - 1] == prev[w]);
                                    assert(v@[w - 1].key() == k);
                                }
                            }
                        }
                        assert(distinct_keys(v@));
                    }
                    self.slices = v;
                    proof {
                        assert(self@ =~= old(self)@.remove(slice.key()));
                    }
                    return ;
                }
                i = i + 1;
            }
            proof {
                assert(!key_in(prev, slice.key()));
                assert(self@ =~= old(self)@.remove(slice.key()));
            }
        }
    }
}

/// Toggling a slice to the opposite state and back restores the overlay's
/// original membership: disabling then re-enabling a slice that was enabled,
/// or re-enabling then disabling one that was disabled, is a no-op on the set.
pub proof fn lemma_toggle_round_trip(
    s: Set<(Seq<char>, Seq<char>, Seq<char>)>,
    k: (Seq<char>, Seq<char>, Seq<char>),
)
    ensures
        !s.contains(k) ==> s.insert(k).remove(k) == s,
        s.contains(k) ==> s.remove(k).insert(k) == s,
{
    if !s.contains(k) {
        assert(s.insert(k).remove(k) =~= s);
    } else {
        assert(s.remove(k).insert(k) =~= s);
    }
}

} // verus!
