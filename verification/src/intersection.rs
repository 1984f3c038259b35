//! Intersection records and the selection of the nearest visible hit.
//!
//! `Intersections` keeps its records sorted ascending by the ray parameter
//! `t`; `hit` returns the first record with nonnegative `t`, the nearest
//! surface in front of the ray origin.

use vstd::prelude::*;
use vstd::seq_lib::{to_multiset_build, to_multiset_contains, to_multiset_remove};
use crate::fixed::Field;
use crate::sphere::Sphere;

verus! {

/// One crossing of a ray with a sphere: the ray parameter and the sphere.
#[derive(Clone, Copy, PartialEq, Eq, Structural, Debug)]
pub struct Intersection {
    pub t: Field,
    pub object: Sphere,
}

impl Intersection {
    /// The record with the given parameter and object.
    pub fn new(t: Field, object: Sphere) -> (r: Intersection)
        ensures
            r == (Intersection { t, object }),
    {
        Intersection { t, object }
    }
}

/// True when the records are sorted ascending by `t`.
pub open spec fn sorted(s: Seq<Intersection>) -> bool {
    forall|a: int, b: int| 0 <= a < b < s.len() ==> s[a].t.raw <= s[b].t.raw
}

/// The first record with nonnegative `t`, scanning left to right.
pub open spec fn hit_spec(s: Seq<Intersection>) -> Option<Intersection>
    decreases s.len(),
{
    if s.len() == 0 {
        None
    } else if s[0].t.raw >= 0 {
        Some(s[0])
    } else {
        hit_spec(s.drop_first())
    }
}

/// A collection of intersection records, sorted ascending by `t`.
pub struct Intersections {
    intersections: Vec<Intersection>,
}

impl Intersections {
    /// The stored records, in order.
    pub closed spec fn items(self) -> Seq<Intersection> {
        self.intersections@
    }

    /// Sorts the given records ascending by `t` (selection sort); the
    /// result holds exactly the given records.
    pub fn from(items: Vec<Intersection>) -> (r: Intersections)
        ensures
            sorted(r.items()),
            r.items().to_multiset() == items@.to_multiset(),
            r.items().len() == items@.len(),
    {
        let mut src = items;
        let mut out: Vec<Intersection> = Vec::new();
        let ghost all = src@.to_multiset();
        proof {
            broadcast use vstd::multiset::group_multiset_axioms;

            assert forall|a: Intersection| out@.to_multiset().count(a) == 0 by {
                to_multiset_contains(out@, a);
            }
            assert(out@.to_multiset().add(src@.to_multiset()) =~= all);
        }
        while src.len() > 0
            invariant
                out@.to_multiset().add(src@.to_multiset()) == all,
                all == items@.to_multiset(),
                out@.len() + src@.len() == items@.len(),
                sorted(out@),
                forall|a: int, b: int|
                    0 <= a < out@.len() && 0 <= b < src@.len() ==> out@[a].t.raw
                        <= src@[b].t.raw,
            decreases src.len(),
        {
            let mut mi: usize = 0;
            let mut k: usize = 1;
            while k < src.len()
                invariant
                    src@.len() > 0,
                    mi < k <= src@.len(),
                    forall|j: int| 0 <= j < k ==> src@[mi as int].t.raw <= src@[j].t.raw,
                decreases src@.len() - k,
            {
                if src[k].t.raw < src[mi].t.raw {
                    mi = k;
                }
                k = k + 1;
            }
            let ghost old_src = src@;
            let ghost old_out = out@;
            let x = src.remove(mi);
            out.push(x);
            proof {
                broadcast use vstd::multiset::group_multiset_axioms;

                to_multiset_build(old_out, x);
                to_multiset_remove(old_src, mi as int);
                to_multiset_contains(old_src, x);
                assert(old_src.contains(x));
                assert(out@.to_multiset().add(src@.to_multiset()) =~= old_out.to_multiset().add(
                    old_src.to_multiset(),
                ));
                assert forall|b: int| 0 <= b < src@.len() implies x.t.raw <= src@[b].t.raw by {
                    if b < mi {
                        assert(src@[b] == old_src[b]);
                    } else {
                        assert(src@[b] == old_src[b + 1]);
                    }
                }
            }
        }
        proof {
            broadcast use vstd::multiset::group_multiset_axioms;

            assert forall|a: Intersection| src@.to_multiset().count(a) == 0 by {
                to_multiset_contains(src@, a);
            }
            assert(out@.to_multiset() =~= out@.to_multiset().add(src@.to_multiset()));
        }
        Intersections { intersections: out }
    }

    /// The first stored record with nonnegative `t`, or `None` when every
    /// record lies behind the ray origin.
    pub fn hit(&self) -> (r: Option<Intersection>)
        ensures
            r == hit_spec(self.items()),
    {
        let n = self.intersections.len();
        let mut i: usize = 0;
        proof {
            assert(self.items().skip(0) =~= self.items());
        }
        while i < n
            invariant
                n == self.items().len(),
                i <= n,
                hit_spec(self.items()) == hit_spec(self.items().skip(i as int)),
            decreases n - i,
        {
            let x = self.intersections[i];
            if x.t.raw >= 0 {
                proof {
                    assert(self.items().skip(i as int)[0] == x);
                }
                return Some(x);
            }
            proof {
                assert(self.items().skip(i as int).drop_first() =~= self.items().skip(i + 1));
            }
            i = i + 1;
        }
        proof {
            assert(self.items().skip(i as int) =~= Seq::<Intersection>::empty());
        }
        None
    }
}

/// The scan finds no record exactly when every record lies behind the
/// ray origin.
pub proof fn lemma_hit_none(s: Seq<Intersection>)
    ensures
        (hit_spec(s) is None) <==> (forall|j: int| 0 <= j < s.len() ==> s[j].t.raw < 0),
    decreases s.len(),
{
    if s.len() > 0 && s[0].t.raw < 0 {
        lemma_hit_none(s.drop_first());
        if hit_spec(s) is None {
            assert forall|j: int| 0 <= j < s.len() implies s[j].t.raw < 0 by {
                if j >= 1 {
                    assert(s.drop_first()[j - 1] == s[j]);
                }
            }
        }
        if forall|j: int| 0 <= j < s.len() ==> s[j].t.raw < 0 {
            assert forall|j: int|
                0 <= j < s.drop_first().len() implies s.drop_first()[j].t.raw < 0 by {
                assert(s.drop_first()[j] == s[j + 1]);
            }
        }
    }
}

/// On records sorted by `t`, the selected hit is a stored record with the
/// smallest nonnegative `t`.
pub proof fn lemma_hit_min(s: Seq<Intersection>)
    requires
        sorted(s),
        hit_spec(s) is Some,
    ensures
        s.contains(hit_spec(s)->0),
        hit_spec(s)->0.t.raw >= 0,
        forall|j: int| 0 <= j < s.len() && s[j].t.raw >= 0 ==> hit_spec(s)->0.t.raw <= s[j].t.raw,
    decreases s.len(),
{
    if s[0].t.raw >= 0 {
    } else {
        lemma_hit_min(s.drop_first());
        let x = hit_spec(s)->0;
        assert(s.drop_first().contains(x));
        let k = choose|k: int| 0 <= k < s.drop_first().len() && s.drop_first()[k] == x;
        assert(s.drop_first()[k] == s[k + 1]);
        assert(s.contains(x));
        assert forall|j: int|
            0 <= j < s.len() && s[j].t.raw >= 0 implies x.t.raw <= s[j].t.raw by {
            if j >= 1 {
                assert(s.drop_first()[j - 1] == s[j]);
            }
        }
    }
}

/// The selected hit does not depend on the order in which the records
/// were handed to the sort: two sorted collections holding the same
/// records agree on whether there is a hit and on its parameter `t`; and
/// when no two distinct records share a `t`, they agree on the hit record
/// itself.
pub proof fn lemma_hit_order_independent(s1: Seq<Intersection>, s2: Seq<Intersection>)
    requires
        sorted(s1),
        sorted(s2),
        s1.to_multiset() == s2.to_multiset(),
    ensures
        (hit_spec(s1) is Some) == (hit_spec(s2) is Some),
        hit_spec(s1) is Some ==> hit_spec(s1)->0.t.raw == hit_spec(s2)->0.t.raw,
        (forall|i: int, j: int|
            0 <= i < s1.len() && 0 <= j < s1.len() && s1[i].t == s1[j].t ==> s1[i] == s1[j])
            ==> hit_spec(s1) == hit_spec(s2),
{
    lemma_hit_none(s1);
    lemma_hit_none(s2);
    assert forall|a: Intersection| s1.contains(a) implies s2.contains(a) by {
        to_multiset_contains(s1, a);
        to_multiset_contains(s2, a);
    }
    assert forall|a: Intersection| s2.contains(a) implies s1.contains(a) by {
        to_multiset_contains(s1, a);
        to_multiset_contains(s2, a);
    }
    if hit_spec(s1) is None {
        assert forall|j: int| 0 <= j < s2.len() implies s2[j].t.raw < 0 by {
            assert(s2.contains(s2[j]));
            let k = choose|k: int| 0 <= k < s1.len() && s1[k] == s2[j];
        }
    } else if hit_spec(s2) is None {
        assert forall|j: int| 0 <= j < s1.len() implies s1[j].t.raw < 0 by {
            assert(s1.contains(s1[j]));
            let k = choose|k: int| 0 <= k < s2.len() && s2[k] == s1[j];
        }
        assert(hit_spec(s1) is None);
    } else {
        lemma_hit_min(s1);
        lemma_hit_min(s2);
        let a = hit_spec(s1)->0;
        let b = hit_spec(s2)->0;
        let ka = choose|k: int| 0 <= k < s2.len() && s2[k] == a;
        assert(b.t.raw <= s2[ka].t.raw);
        let kb = choose|k: int| 0 <= k < s1.len() && s1[k] == b;
        assert(a.t.raw <= s1[kb].t.raw);
        assert(a.t.raw == b.t.raw);
        if forall|i: int, j: int|
            0 <= i < s1.len() && 0 <= j < s1.len() && s1[i].t == s1[j].t ==> s1[i] == s1[j] {
            let ia = choose|k: int| 0 <= k < s1.len() && s1[k] == a;
            assert(s1[ia] == a && s1[kb] == b && a.t == b.t);
            assert(a == b);
        }
    }
}

} // verus!
