use fc5_tool::area::PersistentArea;
use fc5_tool::coord::Coord;
use fc5_tool::deletion::{chunks_to_delete, is_kept_region, kept_regions, regions_to_delete};

fn c(x: i64, z: i64) -> Coord<i64> {
    Coord { x, z }
}

fn area(tl: Coord<i64>, br: Coord<i64>) -> PersistentArea<u8> {
    PersistentArea::Square { top_left: tl, bottom_right: br, blending: None }
}

fn full_region(r: Coord<i64>) -> Vec<Coord<i64>> {
    let mut v = Vec::new();
    for x in 0..32 {
        for z in 0..32 {
            v.push(c(r.x * 32 + x, r.z * 32 + z));
        }
    }
    v
}

#[test]
fn small_square_across_the_origin() {
    let areas = vec![area(c(-2, -2), c(2, 2))];
    let mut kept = kept_regions(&areas);
    kept.sort();
    assert_eq!(kept, vec![c(-1, -1), c(-1, 0), c(0, -1), c(0, 0)]);

    let all = vec![c(-1, -1), c(0, 0)];
    assert!(regions_to_delete(&all, &areas).is_empty());

    let neg = chunks_to_delete(&full_region(c(-1, -1)), &areas);
    assert_eq!(neg.len(), 1024 - 4);
    let pos = chunks_to_delete(&full_region(c(0, 0)), &areas);
    assert_eq!(pos.len(), 1024 - 9);
    assert!(!neg.contains(&c(-1, -2)));
    assert!(neg.contains(&c(-3, -1)));
    assert!(!pos.contains(&c(2, 2)));
    assert!(pos.contains(&c(3, 0)));
}

#[test]
fn regions_outside_the_rectangle_are_deleted() {
    let areas = vec![area(c(-2, -2), c(2, 2)), area(c(100, 100), c(101, 101))];
    let all = vec![c(-1, -1), c(0, 0), c(5, 5), c(3, 3), c(1, 0), c(3, 3)];
    let mut del = regions_to_delete(&all, &areas);
    del.sort();
    assert_eq!(del, vec![c(1, 0), c(5, 5)]);
    assert!(is_kept_region(&areas, c(3, 3)));
    assert!(!is_kept_region(&areas, c(3, 2)));
}

#[test]
fn second_pass_deletes_nothing() {
    let areas = vec![area(c(-40, 5), c(-20, 70))];
    let all = vec![c(-2, 0), c(-1, 0), c(-1, 1), c(-1, 2), c(0, 0), c(-3, 0)];
    let del = regions_to_delete(&all, &areas);
    let remaining: Vec<_> = all.iter().copied().filter(|r| !del.contains(r)).collect();
    assert!(regions_to_delete(&remaining, &areas).is_empty());
    for r in remaining {
        let chunks = full_region(r);
        let gone = chunks_to_delete(&chunks, &areas);
        let left: Vec<_> = chunks.iter().copied().filter(|ch| !gone.contains(ch)).collect();
        assert!(chunks_to_delete(&left, &areas).is_empty());
    }
}

#[test]
fn chunks_inside_stay_and_outside_go() {
    let areas = vec![area(c(10, 10), c(12, 40))];
    let chunks = full_region(c(0, 1));
    let gone = chunks_to_delete(&chunks, &areas);
    for ch in &chunks {
        let inside = 10 <= ch.x && ch.x <= 12 && 10 <= ch.z && ch.z <= 40;
        assert_eq!(gone.contains(ch), !inside);
    }
}

#[test]
fn empty_configuration_keeps_nothing() {
    let areas: Vec<PersistentArea<u8>> = Vec::new();
    assert!(kept_regions(&areas).is_empty());
    assert_eq!(regions_to_delete(&vec![c(0, 0), c(1, 1)], &areas).len(), 2);
}
