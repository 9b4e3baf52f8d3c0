//! Sweep-and-prune broadphase: incremental maintenance of the candidate
//! colliding pairs among a growing set of tracked boxes.
//!
//! The structure keeps, for each axis, one endpoint sequence sorted
//! ascending by encoded value and permanently bounded by a minimum and a
//! maximum sentinel, plus the set of candidate pairs.  Objects are keyed
//! by stable integer handles, and a pair is stored once, smaller handle
//! first, which makes pair equality symmetric for free.
//!
//! The pair set is kept exact: after any sequence of [`SweepAndPrune::batch_insert`]
//! calls it holds a pair exactly when the two boxes' projections overlap
//! on both axes, as a brute-force pairwise intersection test would
//! decide.  Each new box is verified against the boxes already tracked
//! with a live intersection test rather than inferred from crossing
//! order alone, so the set cannot go stale as objects accumulate.

use vstd::multiset::Multiset;
use vstd::prelude::*;

use crate::collision::intersect::Intersect;
use crate::collision::project::{Project2d, ProjectedBox2d};
use crate::util::lemma_insert_to_multiset;

verus! {

broadcast use vstd::seq_lib::group_to_multiset_ensures;

/// Container is a trait that represents the qualities necessary for
/// objects to have in order for them to be processed by broadphase
/// collision algorithms: axis projections and a stable integer identity.
pub trait Container: Project2d {
    /// The stable handle the broadphase keys this object by.
    spec fn id_spec(&self) -> u64;

    /// Returns the object's stable handle.
    fn id(&self) -> (r: u64)
        ensures
            r == self.id_spec(),
    ;
}

/// A ready-made [`Container`]: a stable handle together with the
/// projected box it stands for.
#[derive(Clone, Copy, Debug)]
pub struct TrackedObject {
    pub id: u64,
    pub projections: ProjectedBox2d,
}

impl TrackedObject {
    /// Bundles a handle with its projections.
    pub fn new(id: u64, projections: ProjectedBox2d) -> (o: TrackedObject)
        ensures
            o == (TrackedObject { id, projections }),
    {
        TrackedObject { id, projections }
    }
}

impl Project2d for TrackedObject {
    open spec fn projections2d_spec(&self) -> ProjectedBox2d {
        self.projections
    }

    fn projections2d(&self) -> (p: ProjectedBox2d) {
        self.projections
    }
}

impl Container for TrackedObject {
    open spec fn id_spec(&self) -> u64 {
        self.id
    }

    fn id(&self) -> (r: u64) {
        self.id
    }
}

/// IdPair is an unordered pair of tracked-object handles, used by
/// broadphase collision algorithms to represent possibly colliding
/// objects.  The smaller handle is always stored first, so equality of
/// `IdPair` values is equality of unordered pairs.
#[derive(Clone, Copy, Debug, PartialEq, Eq, Hash, Structural)]
pub struct IdPair(pub u64, pub u64);

/// `p` names the unordered pair `{a, b}`.
pub open spec fn pair_matches(p: IdPair, a: u64, b: u64) -> bool {
    (p.0 == a && p.1 == b) || (p.0 == b && p.1 == a)
}

/// Some entry of `ps` names the unordered pair `{a, b}`.
pub open spec fn pair_in(ps: Seq<IdPair>, a: u64, b: u64) -> bool {
    exists|m: int| 0 <= m < ps.len() && pair_matches(ps[m], a, b)
}

impl IdPair {
    /// Canonicalizes an unordered pair of distinct handles.
    pub fn new(a: u64, b: u64) -> (p: IdPair)
        requires
            a != b,
        ensures
            p.0 < p.1,
            pair_matches(p, a, b),
    {
        if a < b {
            IdPair(a, b)
        } else {
            IdPair(b, a)
        }
    }
}

/// SweepPoint is a struct containing information necessary to perform
/// the sweep and prune broadphase collision algorithm.  Endpoint values
/// are encoded as integers so that comparisons are made using the CPU
/// rather than the FPU.  The two sentinels carry no owner.
#[derive(Clone, Copy, Debug)]
pub struct SweepPoint {
    pub owner: Option<u64>,
    pub is_start: bool,
    pub val: i64,
}

impl SweepPoint {
    /// Returns a SweepPoint that represents the minimum sentinel value
    /// for SweepPoints.
    pub fn min_sentinel() -> (p: SweepPoint)
        ensures
            p == (SweepPoint { owner: None::<u64>, is_start: false, val: i64::MIN }),
    {
        SweepPoint { owner: None, is_start: false, val: i64::MIN }
    }

    /// Returns a SweepPoint that represents the maximum sentinel value
    /// for SweepPoints.
    pub fn max_sentinel() -> (p: SweepPoint)
        ensures
            p == (SweepPoint { owner: None::<u64>, is_start: false, val: i64::MAX }),
    {
        SweepPoint { owner: None, is_start: false, val: i64::MAX }
    }

    /// Returns a comparison ordering between two SweepPoints, by their
    /// encoded values: the order the axis sequences are kept in.
    pub fn compare(a: &SweepPoint, b: &SweepPoint) -> (r: core::cmp::Ordering)
        ensures
            r == core::cmp::Ordering::Less <==> a.val < b.val,
            r == core::cmp::Ordering::Equal <==> a.val == b.val,
            r == core::cmp::Ordering::Greater <==> a.val > b.val,
    {
        if a.val < b.val {
            core::cmp::Ordering::Less
        } else if a.val == b.val {
            core::cmp::Ordering::Equal
        } else {
            core::cmp::Ordering::Greater
        }
    }
}

/// The sequence is sorted ascending by encoded value.
pub open spec fn axis_sorted(s: Seq<SweepPoint>) -> bool {
    forall|k: int, l: int| #![trigger s[k], s[l]] 0 <= k <= l < s.len() ==> s[k].val <= s[l].val
}

/// The sequence begins with the minimum sentinel and ends with the
/// maximum sentinel; neither is ever removed or treated as a tracked
/// object.
pub open spec fn sentinel_bounded(s: Seq<SweepPoint>) -> bool {
    &&& s.len() >= 2
    &&& s[0] == (SweepPoint { owner: None::<u64>, is_start: false, val: i64::MIN })
    &&& s[s.len() - 1] == (SweepPoint { owner: None::<u64>, is_start: false, val: i64::MAX })
}

/// The real endpoints of an axis sequence: everything between the two
/// sentinels.
pub open spec fn interior(s: Seq<SweepPoint>) -> Seq<SweepPoint> {
    s.subrange(1, s.len() - 1)
}

/// The start endpoint `item` contributes to the given axis.
pub open spec fn start_point(item: (u64, ProjectedBox2d), x_axis: bool) -> SweepPoint {
    SweepPoint {
        owner: Some(item.0),
        is_start: true,
        val: if x_axis {
            item.1.x.start
        } else {
            item.1.y.start
        },
    }
}

/// The end endpoint `item` contributes to the given axis.
pub open spec fn end_point(item: (u64, ProjectedBox2d), x_axis: bool) -> SweepPoint {
    SweepPoint {
        owner: Some(item.0),
        is_start: false,
        val: if x_axis {
            item.1.x.end
        } else {
            item.1.y.end
        },
    }
}

/// All endpoints the tracked items contribute to the given axis: one
/// start and one end per item.
pub open spec fn endpoints_multiset(items: Seq<(u64, ProjectedBox2d)>, x_axis: bool) -> Multiset<
    SweepPoint,
>
    decreases items.len(),
{
    if items.len() == 0 {
        Multiset::empty()
    } else {
        endpoints_multiset(items.drop_last(), x_axis).insert(
            start_point(items.last(), x_axis),
        ).insert(end_point(items.last(), x_axis))
    }
}

/// Some tracked item carries the handle `id`.
pub open spec fn has_id(items: Seq<(u64, ProjectedBox2d)>, id: u64) -> bool {
    exists|t: int| 0 <= t < items.len() && (#[trigger] items[t]).0 == id
}

/// No two tracked items share a handle.
pub open spec fn ids_distinct(items: Seq<(u64, ProjectedBox2d)>) -> bool {
    forall|k: int, l: int|
        #![trigger items[k], items[l]]
        0 <= k < l < items.len() ==> items[k].0 != items[l].0
}

/// Every pair of tracked items whose boxes intersect, and no other, is
/// recorded in `ps`.
pub open spec fn pairs_complete(items: Seq<(u64, ProjectedBox2d)>, ps: Seq<IdPair>) -> bool {
    forall|k: int, l: int|
        #![trigger items[k], items[l]]
        0 <= k < l < items.len() ==> (pair_in(ps, items[k].0, items[l].0)
            <==> items[k].1.intersect_spec(&items[l].1))
}

/// `p` names two items of `items`, in order, whose boxes intersect.
pub open spec fn pair_witnessed(items: Seq<(u64, ProjectedBox2d)>, p: IdPair) -> bool {
    exists|k: int, l: int|
        #![trigger items[k], items[l]]
        0 <= k < l < items.len() && pair_matches(p, items[k].0, items[l].0)
            && items[k].1.intersect_spec(&items[l].1)
}

/// Every recorded pair names two distinct tracked items whose boxes
/// intersect.
pub open spec fn pairs_sound(items: Seq<(u64, ProjectedBox2d)>, ps: Seq<IdPair>) -> bool {
    forall|m: int| 0 <= m < ps.len() ==> pair_witnessed(items, #[trigger] ps[m])
}

/// A witness among the first `nb` items is a witness among all of them.
proof fn lemma_witness_take(t: Seq<(u64, ProjectedBox2d)>, nb: int, p: IdPair)
    requires
        0 <= nb <= t.len(),
        pair_witnessed(t.take(nb), p),
    ensures
        pair_witnessed(t, p),
{
    let s = t.take(nb);
    let (k, l) = choose|k: int, l: int|
        #![trigger s[k], s[l]]
        0 <= k < l < s.len() && pair_matches(p, s[k].0, s[l].0) && s[k].1.intersect_spec(
            &s[l].1,
        );
    assert(t[k] == s[k] && t[l] == s[l]);
    assert(0 <= k < l < t.len() && pair_matches(p, t[k].0, t[l].0) && t[k].1.intersect_spec(
        &t[l].1,
    ));
}

/// A witnessed pair never names a handle the items do not carry.
proof fn lemma_witness_no_fresh(items: Seq<(u64, ProjectedBox2d)>, p: IdPair, id: u64)
    requires
        pair_witnessed(items, p),
        !has_id(items, id),
    ensures
        p.0 != id,
        p.1 != id,
{
    let (k, l) = choose|k: int, l: int|
        #![trigger items[k], items[l]]
        0 <= k < l < items.len() && pair_matches(p, items[k].0, items[l].0)
            && items[k].1.intersect_spec(&items[l].1);
    if items[k].0 == id {
        assert(has_id(items, id));
    }
    if items[l].0 == id {
        assert(has_id(items, id));
    }
}

/// Pairs are stored smaller handle first and no pair is stored twice, so
/// the list is a set of unordered pairs.
pub open spec fn pairs_canonical(ps: Seq<IdPair>) -> bool {
    &&& forall|m: int| 0 <= m < ps.len() ==> (#[trigger] ps[m]).0 < ps[m].1
    &&& forall|m: int, m2: int|
        #![trigger ps[m], ps[m2]]
        0 <= m < m2 < ps.len() ==> ps[m] != ps[m2]
}

/// The tracked items after a batch is folded in: an item whose handle is
/// already present is skipped, the rest are appended in batch order.
pub open spec fn insert_all(
    items: Seq<(u64, ProjectedBox2d)>,
    objs: Seq<(u64, ProjectedBox2d)>,
) -> Seq<(u64, ProjectedBox2d)>
    decreases objs.len(),
{
    if objs.len() == 0 {
        items
    } else {
        let prev = insert_all(items, objs.drop_last());
        if has_id(prev, objs.last().0) {
            prev
        } else {
            prev.push(objs.last())
        }
    }
}

/// The handle and projections each batch entry reports.
pub open spec fn mapped<T: Container>(objs: Seq<T>) -> Seq<(u64, ProjectedBox2d)> {
    objs.map_values(|o: T| (o.id_spec(), o.projections2d_spec()))
}

/// SweepAndPrune is a struct that holds information necessary to perform
/// sweep and prune broadphase operations and return possibly colliding
/// pairs of tracked objects.
#[derive(Debug)]
pub struct SweepAndPrune {
    /// Endpoint sequence for the x axis, sorted, sentinel-bounded.
    pub xs: Vec<SweepPoint>,
    /// Endpoint sequence for the y axis, sorted, sentinel-bounded.
    pub ys: Vec<SweepPoint>,
    /// The candidate pairs: exactly the tracked pairs whose boxes
    /// intersect on both axes.
    pub pairs: Vec<IdPair>,
    /// The tracked objects: handle and projected box, in insertion
    /// order, handles distinct.
    pub objects: Vec<(u64, ProjectedBox2d)>,
}

impl SweepAndPrune {
    /// The structure's invariant: handles are distinct, the pair list is
    /// a canonical set holding exactly the intersecting tracked pairs,
    /// and each axis sequence is sorted, sentinel-bounded, and holds
    /// exactly the tracked items' endpoints between its sentinels.
    pub open spec fn wf(self) -> bool {
        &&& ids_distinct(self.objects@)
        &&& pairs_complete(self.objects@, self.pairs@)
        &&& pairs_sound(self.objects@, self.pairs@)
        &&& pairs_canonical(self.pairs@)
        &&& axis_sorted(self.xs@)
        &&& sentinel_bounded(self.xs@)
        &&& axis_sorted(self.ys@)
        &&& sentinel_bounded(self.ys@)
        &&& interior(self.xs@).to_multiset() == endpoints_multiset(self.objects@, true)
        &&& interior(self.ys@).to_multiset() == endpoints_multiset(self.objects@, false)
    }

    /// Returns a new empty instance of a SweepAndPrune struct.
    pub fn new() -> (s: SweepAndPrune)
        ensures
            s.wf(),
            s.objects@.len() == 0,
            s.pairs@.len() == 0,
    {
        let mut xs: Vec<SweepPoint> = Vec::new();
        xs.push(SweepPoint::min_sentinel());
        xs.push(SweepPoint::max_sentinel());
        let mut ys: Vec<SweepPoint> = Vec::new();
        ys.push(SweepPoint::min_sentinel());
        ys.push(SweepPoint::max_sentinel());
        let s = SweepAndPrune { xs, ys, pairs: Vec::new(), objects: Vec::new() };
        proof {
            assert(interior(s.xs@) =~= Seq::<SweepPoint>::empty());
            assert(interior(s.ys@) =~= Seq::<SweepPoint>::empty());
            assert(interior(s.xs@).to_multiset() =~= endpoints_multiset(s.objects@, true));
            assert(interior(s.ys@).to_multiset() =~= endpoints_multiset(s.objects@, false));
        }
        s
    }

    /// Performs a batch insert of the passed in projecters into the
    /// SweepAndPrune struct.  This function updates the possibly
    /// colliding pairs given the new projecters: each genuinely new
    /// object (one whose handle is not yet tracked) is merged into both
    /// axis sequences and checked against every object already tracked;
    /// an entry whose handle is already tracked is skipped.  An empty
    /// batch is a no-op.
    pub fn batch_insert<T: Container>(&mut self, projecters: &[T])
        requires
            old(self).wf(),
        ensures
            final(self).wf(),
            final(self).objects@ == insert_all(old(self).objects@, mapped(projecters@)),
    {
        let n = projecters.len();
        let mut i: usize = 0;
        while i < n
            invariant
                self.wf(),
                n == projecters@.len(),
                0 <= i <= n,
                self.objects@ == insert_all(old(self).objects@, mapped(projecters@).take(i as int)),
            decreases n - i,
        {
            let o = &projecters[i];
            let pb = o.projections2d();
            let oid = o.id();
            proof {
                assert(mapped(projecters@).take(i + 1).drop_last() =~= mapped(
                    projecters@,
                ).take(i as int));
                assert(mapped(projecters@).take(i + 1).last() == (oid, pb));
            }
            if !contains_id(&self.objects, oid) {
                self.insert_object(oid, pb);
            }
            i = i + 1;
        }
        proof {
            assert(mapped(projecters@).take(n as int) =~= mapped(projecters@));
        }
    }

    /// Law: broadphase soundness.  After any sequence of batch inserts
    /// the structure is well-formed, and then its pair set holds an
    /// unordered pair of tracked objects exactly when a brute-force
    /// pairwise intersection test on their current projected boxes
    /// succeeds.
    pub proof fn lemma_pairs_exact(self, k: int, l: int)
        requires
            self.wf(),
            0 <= k < l < self.objects@.len(),
        ensures
            pair_in(self.pairs@, self.objects@[k].0, self.objects@[l].0)
                <==> self.objects@[k].1.intersect_spec(&self.objects@[l].1),
    {
    }

    /// Merges one genuinely new object into both axis sequences and
    /// records its intersections with everything already tracked.
    fn insert_object(&mut self, oid: u64, pb: ProjectedBox2d)
        requires
            old(self).wf(),
            !has_id(old(self).objects@, oid),
        ensures
            final(self).wf(),
            final(self).objects@ == old(self).objects@.push((oid, pb)),
    {
        let ghost items0 = self.objects@;
        let n_before = self.objects.len();
        self.objects.push((oid, pb));
        insert_endpoint(
            &mut self.xs,
            SweepPoint { owner: Some(oid), is_start: true, val: pb.x.start },
        );
        insert_endpoint(
            &mut self.xs,
            SweepPoint { owner: Some(oid), is_start: false, val: pb.x.end },
        );
        insert_endpoint(
            &mut self.ys,
            SweepPoint { owner: Some(oid), is_start: true, val: pb.y.start },
        );
        insert_endpoint(
            &mut self.ys,
            SweepPoint { owner: Some(oid), is_start: false, val: pb.y.end },
        );
        let ghost t = self.objects@;
        let ghost nb = items0.len() as int;
        proof {
            assert(t.drop_last() =~= items0);
            assert(t.last() == (oid, pb));
            assert(endpoints_multiset(t, true) == endpoints_multiset(items0, true).insert(
                start_point((oid, pb), true),
            ).insert(end_point((oid, pb), true)));
            assert(interior(self.xs@).to_multiset() =~= endpoints_multiset(t, true));
            assert(endpoints_multiset(t, false) == endpoints_multiset(items0, false).insert(
                start_point((oid, pb), false),
            ).insert(end_point((oid, pb), false)));
            assert(interior(self.ys@).to_multiset() =~= endpoints_multiset(t, false));
            // Handles stay distinct: the new one is fresh.
            assert forall|k1: int, l1: int|
                #![trigger t[k1], t[l1]]
                0 <= k1 < l1 < t.len() implies t[k1].0 != t[l1].0 by {
                if l1 == nb {
                    if t[k1].0 == oid {
                        assert(items0[k1].0 == oid);
                        assert(has_id(items0, oid));
                    }
                } else {
                    assert(t[k1] == items0[k1] && t[l1] == items0[l1]);
                }
            }
            assert(t.take(nb) =~= items0);
        }
        self.record_pairs(oid, pb, n_before);
    }

    /// Checks the freshly added object against every object tracked
    /// before it and records each intersecting pair once, canonically:
    /// the incremental step that keeps the pair set exact.
    fn record_pairs(&mut self, oid: u64, pb: ProjectedBox2d, n_before: usize)
        requires
            old(self).objects@.len() == n_before + 1,
            old(self).objects@[n_before as int] == (oid, pb),
            ids_distinct(old(self).objects@),
            pairs_canonical(old(self).pairs@),
            pairs_sound(old(self).objects@.take(n_before as int), old(self).pairs@),
            pairs_complete(old(self).objects@.take(n_before as int), old(self).pairs@),
        ensures
            final(self).xs@ == old(self).xs@,
            final(self).ys@ == old(self).ys@,
            final(self).objects@ == old(self).objects@,
            pairs_canonical(final(self).pairs@),
            pairs_sound(final(self).objects@, final(self).pairs@),
            pairs_complete(final(self).objects@, final(self).pairs@),
    {
        let ghost t = self.objects@;
        let ghost nb = n_before as int;
        let ghost items0 = t.take(nb);
        proof {
            assert(forall|k1: int| 0 <= k1 < nb ==> #[trigger] t[k1] == items0[k1]);
            // The appended handle is fresh with respect to the items
            // before it.
            assert forall|k1: int| 0 <= k1 < nb implies (#[trigger] t[k1]).0 != oid by {
                assert(t[k1].0 != t[nb].0);
            }
            assert(!has_id(items0, oid));
            // Soundness carries over to the extended item list.
            assert forall|m: int| 0 <= m < self.pairs@.len() implies pair_witnessed(
                t,
                #[trigger] self.pairs@[m],
            ) by {
                lemma_witness_take(t, nb, self.pairs@[m]);
            }
            // Completeness over the old items, restated on the extended
            // list.
            assert forall|k1: int, l1: int|
                #![trigger t[k1], t[l1]]
                0 <= k1 < l1 < nb implies (pair_in(self.pairs@, t[k1].0, t[l1].0)
                <==> t[k1].1.intersect_spec(&t[l1].1)) by {
                assert(items0[k1] == t[k1] && items0[l1] == t[l1]);
            }
            // No existing pair mentions the fresh handle.
            assert forall|k1: int| 0 <= k1 < nb implies !pair_in(
                self.pairs@,
                (#[trigger] t[k1]).0,
                oid,
            ) by {
                if pair_in(self.pairs@, t[k1].0, oid) {
                    let m = choose|m: int|
                        0 <= m < self.pairs@.len() && pair_matches(self.pairs@[m], t[k1].0, oid);
                    lemma_witness_no_fresh(t, self.pairs@[m], oid);
                }
            }
        }
        let mut k: usize = 0;
        while k < n_before
            invariant
                0 <= k <= n_before,
                nb == n_before as int,
                t == self.objects@,
                t.len() == nb + 1,
                t[nb] == (oid, pb),
                ids_distinct(t),
                self.xs@ == old(self).xs@,
                self.ys@ == old(self).ys@,
                self.objects@ == old(self).objects@,
                pairs_canonical(self.pairs@),
                pairs_sound(t, self.pairs@),
                forall|k1: int, l1: int|
                    #![trigger t[k1], t[l1]]
                    0 <= k1 < l1 < nb ==> (pair_in(self.pairs@, t[k1].0, t[l1].0)
                        <==> t[k1].1.intersect_spec(&t[l1].1)),
                forall|k1: int|
                    0 <= k1 < nb ==> (pair_in(self.pairs@, (#[trigger] t[k1]).0, oid) <==> (k1
                        < k && t[k1].1.intersect_spec(&pb))),
            decreases n_before - k,
        {
            let ghost ps_before = self.pairs@;
            let candidate = self.objects[k];
            proof {
                assert(candidate == t[k as int]);
                assert(candidate.0 != oid);
            }
            if candidate.1.intersect(&pb) {
                let p = IdPair::new(candidate.0, oid);
                proof {
                    // The new pair is not already present.
                    assert(!pair_in(ps_before, t[k as int].0, oid));
                }
                self.pairs.push(p);
                proof {
                    lemma_pair_scan_step(t, ps_before, self.pairs@, p, k as int, nb, oid, pb);
                }
            } else {
                proof {
                    // Nothing changed; only the bound on processed items
                    // moves.
                    assert forall|k1: int| 0 <= k1 < nb implies (pair_in(
                        self.pairs@,
                        (#[trigger] t[k1]).0,
                        oid,
                    ) <==> (k1 < k + 1 && t[k1].1.intersect_spec(&pb))) by {
                        if k1 == k as int {
                            assert(!t[k1].1.intersect_spec(&pb));
                        }
                    }
                }
            }
            k = k + 1;
        }
        proof {
            // Completeness over the extended item list.
            assert forall|k1: int, l1: int|
                #![trigger t[k1], t[l1]]
                0 <= k1 < l1 < t.len() implies (pair_in(self.pairs@, t[k1].0, t[l1].0)
                <==> t[k1].1.intersect_spec(&t[l1].1)) by {
                if l1 == nb {
                    assert(pair_in(self.pairs@, t[k1].0, oid) <==> t[k1].1.intersect_spec(&pb));
                }
            }
        }
    }
}

/// One step of the pair scan: pushing the canonical pair for the
/// candidate at index `k` preserves every bookkeeping invariant.
proof fn lemma_pair_scan_step(
    t: Seq<(u64, ProjectedBox2d)>,
    ps0: Seq<IdPair>,
    ps1: Seq<IdPair>,
    p: IdPair,
    k: int,
    nb: int,
    oid: u64,
    pb: ProjectedBox2d,
)
    requires
        ps1 == ps0.push(p),
        0 <= k < nb,
        t.len() == nb + 1,
        t[nb] == (oid, pb),
        ids_distinct(t),
        p.0 < p.1,
        pair_matches(p, t[k].0, oid),
        t[k].1.intersect_spec(&pb),
        pairs_canonical(ps0),
        pairs_sound(t, ps0),
        forall|k1: int, l1: int|
            #![trigger t[k1], t[l1]]
            0 <= k1 < l1 < nb ==> (pair_in(ps0, t[k1].0, t[l1].0) <==> t[k1].1.intersect_spec(
                &t[l1].1,
            )),
        forall|k1: int|
            0 <= k1 < nb ==> (pair_in(ps0, (#[trigger] t[k1]).0, oid) <==> (k1 < k
                && t[k1].1.intersect_spec(&pb))),
    ensures
        pairs_canonical(ps1),
        pairs_sound(t, ps1),
        forall|k1: int, l1: int|
            #![trigger t[k1], t[l1]]
            0 <= k1 < l1 < nb ==> (pair_in(ps1, t[k1].0, t[l1].0) <==> t[k1].1.intersect_spec(
                &t[l1].1,
            )),
        forall|k1: int|
            0 <= k1 < nb ==> (pair_in(ps1, (#[trigger] t[k1]).0, oid) <==> (k1 < k + 1
                && t[k1].1.intersect_spec(&pb))),
{
    assert(ps1[ps0.len() as int] == p);
    assert(forall|m: int| 0 <= m < ps0.len() ==> ps1[m] == ps0[m]);
    assert forall|k1: int| 0 <= k1 < nb implies (#[trigger] t[k1]).0 != oid by {
        assert(t[k1].0 != t[nb].0);
    }
    // Canonical: the new pair equals no old one, since no old pair names
    // the unordered pair now being recorded.
    assert forall|m: int, m2: int|
        #![trigger ps1[m], ps1[m2]]
        0 <= m < m2 < ps1.len() implies ps1[m] != ps1[m2] by {
        if m2 == ps0.len() {
            if ps1[m] == p {
                assert(pair_matches(ps0[m], t[k].0, oid));
                assert(pair_in(ps0, t[k].0, oid));
            }
        }
    }
    // Soundness: the new entry has its witness.
    assert forall|m: int| 0 <= m < ps1.len() implies pair_witnessed(t, #[trigger] ps1[m]) by {
        if m == ps0.len() {
            assert(0 <= k < nb < t.len() && pair_matches(p, t[k].0, t[nb].0)
                && t[k].1.intersect_spec(&t[nb].1));
        } else {
            assert(ps1[m] == ps0[m]);
            assert(pair_witnessed(t, ps0[m]));
        }
    }
    // Old-item completeness: the new pair mentions the fresh handle, so
    // it matches no pair of old items.
    assert forall|k1: int, l1: int|
        #![trigger t[k1], t[l1]]
        0 <= k1 < l1 < nb implies (pair_in(ps1, t[k1].0, t[l1].0) <==> t[k1].1.intersect_spec(
        &t[l1].1,
    )) by {
        assert(t[k1].0 != oid && t[l1].0 != oid);
        if pair_in(ps1, t[k1].0, t[l1].0) {
            let m = choose|m: int|
                0 <= m < ps1.len() && pair_matches(ps1[m], t[k1].0, t[l1].0);
            if m == ps0.len() {
                assert(pair_matches(p, t[k1].0, t[l1].0));
                assert(p.0 == oid || p.1 == oid);
            } else {
                assert(pair_in(ps0, t[k1].0, t[l1].0));
            }
        }
        if pair_in(ps0, t[k1].0, t[l1].0) {
            let m = choose|m: int|
                0 <= m < ps0.len() && pair_matches(ps0[m], t[k1].0, t[l1].0);
            assert(pair_matches(ps1[m], t[k1].0, t[l1].0));
        }
    }
    // New-item progress: exactly the processed intersecting candidates.
    assert forall|k1: int| 0 <= k1 < nb implies (pair_in(ps1, (#[trigger] t[k1]).0, oid) <==> (
    k1 < k + 1 && t[k1].1.intersect_spec(&pb))) by {
        if k1 == k {
            assert(pair_matches(ps1[ps0.len() as int], t[k1].0, oid));
        } else {
            if pair_in(ps1, t[k1].0, oid) {
                let m = choose|m: int|
                    0 <= m < ps1.len() && pair_matches(ps1[m], t[k1].0, oid);
                if m == ps0.len() {
                    assert(pair_matches(p, t[k1].0, oid));
                    assert(pair_matches(p, t[k].0, oid));
                    assert(t[k1].0 == oid || t[k1].0 == t[k].0);
                } else {
                    assert(pair_in(ps0, t[k1].0, oid));
                }
            }
            if pair_in(ps0, t[k1].0, oid) {
                let m = choose|m: int|
                    0 <= m < ps0.len() && pair_matches(ps0[m], t[k1].0, oid);
                assert(pair_matches(ps1[m], t[k1].0, oid));
            }
        }
    }
}

/// Linear scan for a handle among the tracked items.
fn contains_id(items: &Vec<(u64, ProjectedBox2d)>, id: u64) -> (r: bool)
    ensures
        r == has_id(items@, id),
{
    let n = items.len();
    let mut j: usize = 0;
    while j < n
        invariant
            0 <= j <= n,
            n == items@.len(),
            forall|m: int| 0 <= m < j ==> (#[trigger] items@[m]).0 != id,
        decreases n - j,
    {
        if items[j].0 == id {
            return true;
        }
        j = j + 1;
    }
    false
}

/// Inserts one endpoint into a sorted, sentinel-bounded axis sequence,
/// walking from the tail toward the front past every larger element, as
/// an insertion-sort merge step.
fn insert_endpoint(v: &mut Vec<SweepPoint>, pt: SweepPoint)
    requires
        axis_sorted(old(v)@),
        sentinel_bounded(old(v)@),
    ensures
        axis_sorted(final(v)@),
        sentinel_bounded(final(v)@),
        interior(final(v)@).to_multiset() == interior(old(v)@).to_multiset().insert(pt),
{
    let ghost s0 = v@;
    let mut j: usize = v.len() - 1;
    while j > 1 && v[j - 1].val > pt.val
        invariant
            1 <= j <= s0.len() - 1,
            v@ == s0,
            axis_sorted(s0),
            sentinel_bounded(s0),
            forall|m: int| j <= m <= s0.len() - 2 ==> (#[trigger] s0[m]).val > pt.val,
        decreases j,
    {
        j = j - 1;
    }
    proof {
        assert(s0[j - 1].val <= pt.val);
    }
    v.insert(j, pt);
    proof {
        s0.insert_ensures(j as int, pt);
        let s1 = v@;
        assert(s1 == s0.insert(j as int, pt));
        assert forall|k: int, l: int|
            #![trigger s1[k], s1[l]]
            0 <= k <= l < s1.len() implies s1[k].val <= s1[l].val by {
            let ji = j as int;
            if k < ji && l < ji {
                assert(s1[k] == s0[k] && s1[l] == s0[l]);
            } else if k < ji && l == ji {
                assert(s1[k] == s0[k] && s1[l] == pt);
                assert(s0[k].val <= s0[ji - 1].val);
            } else if k < ji && l > ji {
                assert(s1[k] == s0[k] && s1[l] == s0[l - 1]);
            } else if k == ji && l == ji {
            } else if k == ji && l > ji {
                assert(s1[l] == s0[l - 1]);
                if l - 1 <= s0.len() - 2 {
                    assert(s0[l - 1].val > pt.val);
                } else {
                    assert(s0[l - 1].val == i64::MAX);
                }
            } else {
                assert(s1[k] == s0[k - 1] && s1[l] == s0[l - 1]);
            }
        }
        assert(s1[0] == s0[0]);
        assert(s1[s1.len() - 1] == s0[s0.len() - 1]);
        assert(interior(s1) =~= interior(s0).insert(j - 1, pt)) by {
            interior(s0).insert_ensures(j - 1, pt);
        }
        lemma_insert_to_multiset(interior(s0), j - 1, pt);
    }
}

} // verus!
