//! What a species' entry in the dipdex shows: its description, or a note that
//! none was written, and the foods it reacts to, grouped by how it rates them.
use vstd::prelude::*;

verus! {

/// The text key shown as a species' description: its own key when the text
/// database holds it, else the key of the note that no description exists.
pub fn description_key(species_key: String, known: bool, missing_key: &str) -> (k: String)
    ensures
        k@ == if known {
            species_key@
        } else {
            missing_key@
        },
{
    if known {
        species_key
    } else {
        String::from_str(missing_key)
    }
}

/// A sequence of numbers that only goes up.
pub open spec fn strictly_increasing(s: Seq<u64>) -> bool {
    forall|i: int, j: int| 0 <= i < j < s.len() ==> s[i] < s[j]
}

/// Whether one of the first `n` sensations rates food kind `kind` with
/// `rating`. A sensation is a food kind and a rating, each given by its place
/// in the list of kinds and of ratings.
pub open spec fn rated_before(sensations: Seq<(u64, u64)>, kind: u64, rating: u64, n: int) -> bool {
    exists|j: int| 0 <= j < n && #[trigger] sensations[j] == (kind, rating)
}

/// Whether some sensation has rating `rating`.
pub open spec fn has_rating(sensations: Seq<(u64, u64)>, rating: u64) -> bool {
    exists|j: int| 0 <= j < sensations.len() && (#[trigger] sensations[j]).1 == rating
}

/// The food kinds of a species that share one rating, in the order of kinds.
#[derive(Debug, PartialEq, Eq)]
pub struct SensationGroup {
    pub rating: u64,
    pub kinds: Vec<u64>,
}

/// Puts `x` into an increasing list at its place.
fn insert_sorted(v: &mut Vec<u64>, x: u64)
    requires
        strictly_increasing(old(v)@),
        !old(v)@.contains(x),
    ensures
        strictly_increasing(final(v)@),
        final(v)@.len() == old(v)@.len() + 1,
        forall|t: u64| #[trigger] final(v)@.contains(t) <==> (old(v)@.contains(t) || t == x),
{
    let mut idx: usize = 0;
    while idx < v.len() && v[idx] < x
        invariant
            idx <= v@.len(),
            v@ == old(v)@,
            forall|j: int| 0 <= j < idx ==> v@[j] < x,
        decreases v@.len() - idx,
    {
        idx = idx + 1;
    }
    let ghost o = v@;
    proof {
        if idx < o.len() {
            assert(o[idx as int] != x);
            assert forall|j: int| idx <= j < o.len() implies o[j] > x by {
                if j > idx {
                    assert(o[idx as int] < o[j]);
                }
            }
        }
    }
    v.insert(idx, x);
    proof {
        let n = v@;
        assert(n == o.insert(idx as int, x));
        assert forall|a: int, b: int| 0 <= a < b < n.len() implies n[a] < n[b] by {
            if b < idx {
                assert(n[a] == o[a] && n[b] == o[b]);
            } else if b == idx {
                assert(n[a] == o[a]);
            } else if a < idx {
                assert(n[a] == o[a] && n[b] == o[b - 1]);
            } else if a == idx {
                assert(n[b] == o[b - 1]);
            } else {
                assert(n[a] == o[a - 1] && n[b] == o[b - 1]);
            }
        }
        assert forall|t: u64| #[trigger] n.contains(t) <==> (o.contains(t) || t == x) by {
            if n.contains(t) {
                let k = choose|k: int| 0 <= k < n.len() && n[k] == t;
                if k < idx {
                    assert(o[k] == t);
                } else if k > idx {
                    assert(o[k - 1] == t);
                }
            }
            if o.contains(t) {
                let k = choose|k: int| 0 <= k < o.len() && o[k] == t;
                if k < idx {
                    assert(n[k] == t);
                } else {
                    assert(n[k + 1] == t);
                }
            }
            if t == x {
                assert(n[idx as int] == x);
            }
        }
    }
}

/// The food kinds with rating `rating`, in the order of kinds.
fn kinds_rated(sensations: &Vec<(u64, u64)>, rating: u64) -> (kinds: Vec<u64>)
    requires
        forall|i: int, j: int|
            0 <= i < j < sensations@.len() ==> sensations@[i].0 != sensations@[j].0,
    ensures
        strictly_increasing(kinds@),
        forall|t: u64|
            #[trigger] kinds@.contains(t) <==> rated_before(
                sensations@,
                t,
                rating,
                sensations@.len() as int,
            ),
{
    let mut kinds: Vec<u64> = Vec::new();
    let mut i: usize = 0;
    while i < sensations.len()
        invariant
            0 <= i <= sensations@.len(),
            forall|a: int, b: int|
                0 <= a < b < sensations@.len() ==> sensations@[a].0 != sensations@[b].0,
            strictly_increasing(kinds@),
            forall|t: u64| #[trigger] kinds@.contains(t) <==> rated_before(sensations@, t, rating, i as int),
        decreases sensations@.len() - i,
    {
        let (kind, r) = sensations[i];
        if r == rating {
            proof {
                if kinds@.contains(kind) {
                    let j = choose|j: int| 0 <= j < i && #[trigger] sensations@[j] == (kind, rating);
                    assert(sensations@[j].0 == sensations@[i as int].0);
                }
            }
            insert_sorted(&mut kinds, kind);
        }
        proof {
            assert forall|t: u64| #[trigger] kinds@.contains(t) <==> rated_before(
                sensations@,
                t,
                rating,
                i + 1,
            ) by {
                if rated_before(sensations@, t, rating, i + 1) {
                    let j = choose|j: int| 0 <= j < i + 1 && #[trigger] sensations@[j] == (t, rating);
                    if j < i {
                        assert(rated_before(sensations@, t, rating, i as int));
                    }
                }
                if rated_before(sensations@, t, rating, i as int) {
                    let j = choose|j: int| 0 <= j < i && #[trigger] sensations@[j] == (t, rating);
                    assert(rated_before(sensations@, t, rating, i + 1));
                }
                if r == rating && t == kind {
                    assert(sensations@[i as int] == (t, rating));
                }
            }
        }
        i = i + 1;
    }
    kinds
}

/// The sensations of a species as the dipdex lists them: for each of the
/// `ratings` ratings in order, the food kinds with that rating in the order
/// of kinds; ratings that no kind has are left out. Each food kind appears in
/// at most one sensation.
pub fn sensation_groups(sensations: &Vec<(u64, u64)>, ratings: u64) -> (g: Vec<SensationGroup>)
    requires
        forall|i: int, j: int|
            0 <= i < j < sensations@.len() ==> sensations@[i].0 != sensations@[j].0,
    ensures
        forall|k: int|
            0 <= k < g@.len() ==> {
                let grp = #[trigger] g@[k];
                &&& grp.rating < ratings
                &&& grp.kinds@.len() > 0
                &&& strictly_increasing(grp.kinds@)
                &&& forall|t: u64|
                    #[trigger] grp.kinds@.contains(t) <==> rated_before(
                        sensations@,
                        t,
                        grp.rating,
                        sensations@.len() as int,
                    )
            },
        forall|a: int, b: int| 0 <= a < b < g@.len() ==> g@[a].rating < g@[b].rating,
        forall|q: u64|
            q < ratings && has_rating(sensations@, q) ==> exists|k: int|
                0 <= k < g@.len() && (#[trigger] g@[k]).rating == q,
        forall|k: int| 0 <= k < g@.len() ==> has_rating(sensations@, (#[trigger] g@[k]).rating),
{
    let mut g: Vec<SensationGroup> = Vec::new();
    let mut r: u64 = 0;
    while r < ratings
        invariant
            r <= ratings,
            forall|i: int, j: int|
                0 <= i < j < sensations@.len() ==> sensations@[i].0 != sensations@[j].0,
            forall|k: int|
                0 <= k < g@.len() ==> {
                    let grp = #[trigger] g@[k];
                    &&& grp.rating < r
                    &&& grp.kinds@.len() > 0
                    &&& strictly_increasing(grp.kinds@)
                    &&& forall|t: u64|
                        #[trigger] grp.kinds@.contains(t) <==> rated_before(
                            sensations@,
                            t,
                            grp.rating,
                            sensations@.len() as int,
                        )
                },
            forall|a: int, b: int| 0 <= a < b < g@.len() ==> g@[a].rating < g@[b].rating,
            forall|q: u64|
                q < r && has_rating(sensations@, q) ==> exists|k: int|
                    0 <= k < g@.len() && (#[trigger] g@[k]).rating == q,
            forall|k: int| 0 <= k < g@.len() ==> has_rating(sensations@, (#[trigger] g@[k]).rating),
        decreases ratings - r,
    {
        let kinds = kinds_rated(sensations, r);
        let ghost g0 = g@;
        proof {
            if has_rating(sensations@, r) {
                let j = choose|j: int| 0 <= j < sensations@.len() && (#[trigger] sensations@[j]).1 == r;
                assert(sensations@[j] == (sensations@[j].0, r));
                assert(rated_before(sensations@, sensations@[j].0, r, sensations@.len() as int));
                assert(kinds@.contains(sensations@[j].0));
            }
        }
        if kinds.len() > 0 {
            proof {
                let t = kinds@[0];
                assert(kinds@.contains(t));
                let j = choose|j: int|
                    0 <= j < sensations@.len() && #[trigger] sensations@[j] == (t, r);
                assert(sensations@[j].1 == r);
            }
            g.push(SensationGroup { rating: r, kinds });
            proof {
                assert forall|q: u64| q < r + 1 && has_rating(sensations@, q) implies exists|k: int|
                    0 <= k < g@.len() && (#[trigger] g@[k]).rating == q by {
                    if q < r {
                        let k = choose|k: int| 0 <= k < g0.len() && (#[trigger] g0[k]).rating == q;
                        assert(g@[k] == g0[k]);
                    } else {
                        assert(g@[g0.len() as int].rating == q);
                    }
                }
                assert forall|k: int| 0 <= k < g@.len() implies has_rating(
                    sensations@,
                    (#[trigger] g@[k]).rating,
                ) by {
                    if k < g0.len() {
                        assert(g@[k] == g0[k]);
                    }
                }
            }
        } else {
            proof {
                assert(!has_rating(sensations@, r));
            }
        }
        r = r + 1;
    }
    g
}

} // verus!
