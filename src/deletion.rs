//! Which regions and chunks a trimming pass deletes.
//!
//! A region is kept when it lies in the rectangle of regions spanned by the
//! corners of some persistent area; a chunk is kept when it lies in some
//! area. Regions that are not kept are deleted whole; in the regions that are
//! kept, the chunks that are not kept are deleted one by one.

use vstd::prelude::*;
use crate::area::{kept_chunk, contains_any, PersistentArea};
use crate::coord::{region_of, Coord};

verus! {

/// Whether region `r` lies in the rectangle of regions between the regions of
/// the corners of `a`.
pub open spec fn region_span_has<B>(a: PersistentArea<B>, r: Coord<i64>) -> bool {
    &&& region_of(a.tl().x as int) <= r.x <= region_of(a.br().x as int)
    &&& region_of(a.tl().z as int) <= r.z <= region_of(a.br().z as int)
}

/// Whether region `r` is kept: some area's region rectangle holds it.
pub open spec fn kept_region<B>(areas: Seq<PersistentArea<B>>, r: Coord<i64>) -> bool {
    exists|i: int| 0 <= i < areas.len() && region_span_has(#[trigger] areas[i], r)
}

/// The region that holds chunk `c`.
pub open spec fn region_of_chunk(c: Coord<i64>) -> Coord<i64> {
    Coord { x: region_of(c.x as int) as i64, z: region_of(c.z as int) as i64 }
}

/// Of the regions `regions`, those that a pass deletes whole.
pub open spec fn region_deletions<B>(regions: Set<Coord<i64>>, areas: Seq<PersistentArea<B>>) -> Set<
    Coord<i64>,
> {
    regions.filter(|r: Coord<i64>| !kept_region(areas, r))
}

/// Of the chunks `chunks` of a kept region, those that a pass deletes.
pub open spec fn chunk_deletions<B>(chunks: Set<Coord<i64>>, areas: Seq<PersistentArea<B>>) -> Set<
    Coord<i64>,
> {
    chunks.filter(|c: Coord<i64>| !kept_chunk(areas, c))
}

/// A dimension's storage after a pass, where `store` maps each region on disk
/// to the set of its occupied chunks: regions that are not kept are gone,
/// and kept regions lose the chunks that are not kept.
pub open spec fn after_deletion<B>(
    store: Map<Coord<i64>, Set<Coord<i64>>>,
    areas: Seq<PersistentArea<B>>,
) -> Map<Coord<i64>, Set<Coord<i64>>> {
    Map::new(
        |r: Coord<i64>| store.contains_key(r) && !region_deletions(store.dom(), areas).contains(r),
        |r: Coord<i64>| store[r].difference(chunk_deletions(store[r], areas)),
    )
}

/// The region rectangle of an area covers the region of every chunk of the
/// area, so a kept chunk always lies in a kept region; the rectangle may
/// cover more than the area itself.
pub proof fn lemma_kept_chunk_in_kept_region<B>(areas: Seq<PersistentArea<B>>, c: Coord<i64>)
    requires
        kept_chunk(areas, c),
    ensures
        kept_region(areas, region_of_chunk(c)),
{
    let i = choose|i: int| 0 <= i < areas.len() && (#[trigger] areas[i]).has(c);
    let a = areas[i];
    lemma_region_of_ordered(a.tl().x as int, c.x as int);
    lemma_region_of_ordered(c.x as int, a.br().x as int);
    lemma_region_of_ordered(a.tl().z as int, c.z as int);
    lemma_region_of_ordered(c.z as int, a.br().z as int);
    lemma_region_of_i64(c.x);
    lemma_region_of_i64(c.z);
    assert(region_span_has(areas[i], region_of_chunk(c)));
}

proof fn lemma_region_of_ordered(a: int, b: int)
    requires
        a <= b,
    ensures
        region_of(a) <= region_of(b),
{
    vstd::arithmetic::div_mod::lemma_div_is_ordered(a, b, 32);
}

proof fn lemma_region_of_i64(v: i64)
    ensures
        i64::MIN <= region_of(v as int) <= i64::MAX,
{
}

/// Completeness of a pass: afterwards no region holds a chunk that lies
/// outside every area, and every chunk inside an area that was stored in its
/// region is still stored there.
pub proof fn lemma_deletion_complete<B>(
    store: Map<Coord<i64>, Set<Coord<i64>>>,
    areas: Seq<PersistentArea<B>>,
    c: Coord<i64>,
)
    ensures
        !kept_chunk(areas, c) ==> forall|r: Coord<i64>|
            #[trigger] after_deletion(store, areas).contains_key(r) ==> !after_deletion(
                store,
                areas,
            )[r].contains(c),
        kept_chunk(areas, c) && store.contains_key(region_of_chunk(c)) && store[region_of_chunk(
            c,
        )].contains(c) ==> {
            &&& after_deletion(store, areas).contains_key(region_of_chunk(c))
            &&& after_deletion(store, areas)[region_of_chunk(c)].contains(c)
        },
{
    if kept_chunk(areas, c) {
        lemma_kept_chunk_in_kept_region(areas, c);
    }
}

/// Idempotence of a pass: a second pass with the same areas finds no region
/// and no chunk to delete, and leaves the storage as the first left it.
pub proof fn lemma_deletion_idempotent<B>(
    store: Map<Coord<i64>, Set<Coord<i64>>>,
    areas: Seq<PersistentArea<B>>,
)
    ensures
        region_deletions(after_deletion(store, areas).dom(), areas).is_empty(),
        forall|r: Coord<i64>|
            #[trigger] after_deletion(store, areas).contains_key(r) ==> chunk_deletions(
                after_deletion(store, areas)[r],
                areas,
            ).is_empty(),
        after_deletion(after_deletion(store, areas), areas) == after_deletion(store, areas),
{
    let once = after_deletion(store, areas);
    assert(region_deletions(once.dom(), areas) =~= Set::empty());
    assert forall|r: Coord<i64>| #[trigger] once.contains_key(r) implies chunk_deletions(
        once[r],
        areas,
    ).is_empty() by {
        assert(chunk_deletions(once[r], areas) =~= Set::empty());
    }
    let twice = after_deletion(once, areas);
    assert forall|r: Coord<i64>| #[trigger] twice.contains_key(r) implies twice[r] == once[r] by {
        assert(chunk_deletions(once[r], areas) =~= Set::empty());
        assert(once[r].difference(Set::empty()) =~= once[r]);
    }
    assert(twice =~= once);
}

/// Whether `v` holds `c`.
fn vec_has(v: &Vec<Coord<i64>>, c: Coord<i64>) -> (r: bool)
    ensures
        r == v@.contains(c),
{
    let mut i: usize = 0;
    while i < v.len()
        invariant
            i <= v@.len(),
            forall|k: int| 0 <= k < i ==> v@[k] != c,
        decreases v@.len() - i,
    {
        if v[i] == c {
            return true;
        }
        i += 1;
    }
    false
}

/// Appends `c` unless `v` already holds it.
fn push_unique(v: &mut Vec<Coord<i64>>, c: Coord<i64>)
    requires
        old(v)@.no_duplicates(),
    ensures
        final(v)@.no_duplicates(),
        forall|y: Coord<i64>| final(v)@.contains(y) <==> (old(v)@.contains(y) || y == c),
{
    if !vec_has(v, c) {
        v.push(c);
        proof {
            assert forall|y: Coord<i64>| v@.contains(y) <==> (old(v)@.contains(y) || y == c) by {
                if v@.contains(y) {
                    let k = choose|k: int| 0 <= k < v@.len() && v@[k] == y;
                    if k < old(v)@.len() {
                        assert(old(v)@[k] == y);
                    }
                }
                if old(v)@.contains(y) {
                    let k = choose|k: int| 0 <= k < old(v)@.len() && old(v)@[k] == y;
                    assert(v@[k] == y);
                }
                if y == c {
                    assert(v@[old(v)@.len() as int] == y);
                }
            }
        }
    }
}

/// The regions that the areas keep, each once: for every area, the
/// rectangle of regions between the regions of its two corners.
pub fn kept_regions<B>(areas: &Vec<PersistentArea<B>>) -> (r: Vec<Coord<i64>>)
    ensures
        r@.no_duplicates(),
        forall|c: Coord<i64>| r@.contains(c) <==> kept_region(areas@, c),
{
    let mut out: Vec<Coord<i64>> = Vec::new();
    let mut i: usize = 0;
    while i < areas.len()
        invariant
            i <= areas@.len(),
            out@.no_duplicates(),
            forall|c: Coord<i64>| out@.contains(c) <==> exists|k: int| 0 <= k < i && region_span_has(#[trigger] areas@[k], c),
        decreases areas@.len() - i,
    {
        let lo = areas[i].top_left().chunk_to_region();
        let hi = areas[i].bottom_right().chunk_to_region();
        let ghost a = areas@[i as int];
        let mut x = lo.x;
        while x <= hi.x
            invariant
                i < areas@.len(),
                a == areas@[i as int],
                lo.x == region_of(a.tl().x as int),
                lo.z == region_of(a.tl().z as int),
                hi.x == region_of(a.br().x as int),
                hi.z == region_of(a.br().z as int),
                lo.x <= x,
                x <= hi.x + 1 || x == lo.x,
                out@.no_duplicates(),
                forall|c: Coord<i64>| out@.contains(c) <==> ((exists|k: int| 0 <= k < i && region_span_has(#[trigger] areas@[k], c))
                    || (lo.x <= c.x < x && lo.z <= c.z <= hi.z)),
            decreases hi.x + 1 - x,
        {
            let mut z = lo.z;
            while z <= hi.z
                invariant
                    i < areas@.len(),
                    a == areas@[i as int],
                    lo.x == region_of(a.tl().x as int),
                    lo.z == region_of(a.tl().z as int),
                    hi.x == region_of(a.br().x as int),
                    hi.z == region_of(a.br().z as int),
                    lo.x <= x <= hi.x,
                    lo.z <= z,
                    z <= hi.z + 1 || z == lo.z,
                    out@.no_duplicates(),
                    forall|c: Coord<i64>| out@.contains(c) <==> ((exists|k: int| 0 <= k < i && region_span_has(#[trigger] areas@[k], c))
                        || (lo.x <= c.x < x && lo.z <= c.z <= hi.z)
                        || (c.x == x && lo.z <= c.z < z)),
                decreases hi.z + 1 - z,
            {
                push_unique(&mut out, Coord { x, z });
                z += 1;
            }
            x += 1;
        }
        proof {
            assert forall|c: Coord<i64>| out@.contains(c) <==> exists|k: int| 0 <= k < i + 1 && region_span_has(#[trigger] areas@[k], c) by {
                if region_span_has(areas@[i as int], c) {
                    assert(0 <= i < i + 1);
                }
                if exists|k: int| 0 <= k < i + 1 && region_span_has(#[trigger] areas@[k], c) {
                    let k = choose|k: int| 0 <= k < i + 1 && region_span_has(#[trigger] areas@[k], c);
                    if k == i {
                        assert(region_span_has(a, c));
                    }
                }
            }
        }
        i += 1;
    }
    out
}

/// Whether region `region` is kept by some area.
pub fn is_kept_region<B>(areas: &Vec<PersistentArea<B>>, region: Coord<i64>) -> (r: bool)
    ensures
        r == kept_region(areas@, region),
{
    let mut i: usize = 0;
    while i < areas.len()
        invariant
            i <= areas@.len(),
            forall|k: int| 0 <= k < i ==> !region_span_has(#[trigger] areas@[k], region),
        decreases areas@.len() - i,
    {
        let lo = areas[i].top_left().chunk_to_region();
        let hi = areas[i].bottom_right().chunk_to_region();
        if lo.x <= region.x && region.x <= hi.x && lo.z <= region.z && region.z <= hi.z {
            assert(region_span_has(areas@[i as int], region));
            return true;
        }
        i += 1;
    }
    false
}

/// Of the regions `all` found on disk, those to delete whole, each once.
pub fn regions_to_delete<B>(all: &Vec<Coord<i64>>, areas: &Vec<PersistentArea<B>>) -> (r: Vec<
    Coord<i64>,
>)
    ensures
        r@.no_duplicates(),
        r@.to_set() == region_deletions(all@.to_set(), areas@),
{
    let mut out: Vec<Coord<i64>> = Vec::new();
    let mut i: usize = 0;
    while i < all.len()
        invariant
            i <= all@.len(),
            out@.no_duplicates(),
            forall|c: Coord<i64>| out@.contains(c) <==> (all@.take(i as int).contains(c) && !kept_region(areas@, c)),
        decreases all@.len() - i,
    {
        let c = all[i];
        if !is_kept_region(areas, c) {
            push_unique(&mut out, c);
        }
        proof {
            let prev = all@.take(i as int);
            let next = all@.take(i + 1);
            assert forall|y: Coord<i64>| next.contains(y) <==> (prev.contains(y) || y == c) by {
                if next.contains(y) {
                    let k = choose|k: int| 0 <= k < next.len() && next[k] == y;
                    if k < i {
                        assert(prev[k] == y);
                    }
                }
                if prev.contains(y) {
                    let k = choose|k: int| 0 <= k < prev.len() && prev[k] == y;
                    assert(next[k] == y);
                }
                if y == c {
                    assert(next[i as int] == y);
                }
            }
        }
        i += 1;
    }
    proof {
        assert(out@.to_set() =~= region_deletions(all@.to_set(), areas@)) by {
            assert forall|c: Coord<i64>| out@.to_set().contains(c) <==> region_deletions(all@.to_set(), areas@).contains(c) by {
                assert(all@.take(i as int) =~= all@);
            }
        }
    }
    out
}

/// Of the chunks `chunks` found in a kept region, those to delete, each once.
pub fn chunks_to_delete<B>(chunks: &Vec<Coord<i64>>, areas: &Vec<PersistentArea<B>>) -> (r: Vec<
    Coord<i64>,
>)
    ensures
        r@.no_duplicates(),
        r@.to_set() == chunk_deletions(chunks@.to_set(), areas@),
{
    let mut out: Vec<Coord<i64>> = Vec::new();
    let mut i: usize = 0;
    while i < chunks.len()
        invariant
            i <= chunks@.len(),
            out@.no_duplicates(),
            forall|c: Coord<i64>| out@.contains(c) <==> (chunks@.take(i as int).contains(c) && !kept_chunk(areas@, c)),
        decreases chunks@.len() - i,
    {
        let c = chunks[i];
        if !contains_any(areas, c) {
            push_unique(&mut out, c);
        }
        proof {
            let prev = chunks@.take(i as int);
            let next = chunks@.take(i + 1);
            assert forall|y: Coord<i64>| next.contains(y) <==> (prev.contains(y) || y == c) by {
                if next.contains(y) {
                    let k = choose|k: int| 0 <= k < next.len() && next[k] == y;
                    if k < i {
                        assert(prev[k] == y);
                    }
                }
                if prev.contains(y) {
                    let k = choose|k: int| 0 <= k < prev.len() && prev[k] == y;
                    assert(next[k] == y);
                }
                if y == c {
                    assert(next[i as int] == y);
                }
            }
        }
        i += 1;
    }
    proof {
        assert(out@.to_set() =~= chunk_deletions(chunks@.to_set(), areas@)) by {
            assert forall|c: Coord<i64>| out@.to_set().contains(c) <==> chunk_deletions(chunks@.to_set(), areas@).contains(c) by {
                assert(chunks@.take(i as int) =~= chunks@);
            }
        }
    }
    out
}

} // verus!
