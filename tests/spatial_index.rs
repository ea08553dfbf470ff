use space_survival::entity::EntityId;
use space_survival::spatial::{SpatialDb, SpatialDbRef, SpatialId};

fn fresh_ref() -> SpatialDbRef {
    SpatialDbRef { spatial_id: SpatialId::new() }
}

fn full_probe(db: &SpatialDb) -> Vec<usize> {
    let last = db.get_dim() as i64 - 1;
    db.probe_range(0, last, 0, last).iter().map(|e| e.0).collect()
}

#[test]
fn spatial_id_none_is_invalid() {
    let none = SpatialId::new();
    assert!(!none.is_valid());
    assert_eq!(none.0, u32::MAX);
    assert!(SpatialId(0).is_valid());
}

#[test]
fn cell_coordinates_are_clamped_to_the_grid() {
    let db = SpatialDb::new(4);
    assert_eq!(db.get_spatial_id(1, 2).0, 9);
    assert_eq!(db.get_spatial_id(-3, 99).0, 12);
    assert_eq!(db.get_spatial_id(50, -1).0, 3);
    assert_eq!(db.get_spatial_id(3, 3).0, 15);
}

#[test]
fn new_grid_is_empty() {
    let db = SpatialDb::new(5);
    assert!(full_probe(&db).is_empty());
    assert!(db.find_neighbors(3).is_empty());
}

#[test]
fn update_moves_an_entity_between_cells() {
    let mut db = SpatialDb::new(4);
    let mut r = fresh_ref();
    db.update(EntityId(7), 1, 1, &mut r);
    assert_eq!(r.spatial_id.0, 5);
    assert_eq!(db.probe_range(1, 1, 1, 1), vec![EntityId(7)]);
    db.update(EntityId(7), 1, 1, &mut r);
    assert_eq!(r.spatial_id.0, 5);
    assert_eq!(full_probe(&db), vec![7]);
    db.update(EntityId(7), 3, 0, &mut r);
    assert_eq!(r.spatial_id.0, 3);
    assert!(db.probe_range(1, 1, 1, 1).is_empty());
    assert_eq!(db.probe_range(3, 3, 0, 0), vec![EntityId(7)]);
}

#[test]
fn remove_takes_the_entity_out() {
    let mut db = SpatialDb::new(4);
    let mut a = fresh_ref();
    let mut b = fresh_ref();
    let mut c = fresh_ref();
    db.update(EntityId(0), 2, 2, &mut a);
    db.update(EntityId(1), 2, 2, &mut b);
    db.update(EntityId(2), 2, 2, &mut c);
    db.remove(EntityId(0), &mut a);
    assert!(!a.spatial_id.is_valid());
    let mut left = full_probe(&db);
    left.sort();
    assert_eq!(left, vec![1, 2]);
    // removing again is a no-op
    db.remove(EntityId(0), &mut a);
    let mut left = full_probe(&db);
    left.sort();
    assert_eq!(left, vec![1, 2]);
}

#[test]
fn probe_range_covers_only_the_window() {
    let mut db = SpatialDb::new(5);
    let mut refs: Vec<SpatialDbRef> = (0..5).map(|_| fresh_ref()).collect();
    let cells = [(0, 0), (1, 1), (2, 2), (4, 4), (1, 3)];
    for (i, (x, y)) in cells.iter().enumerate() {
        db.update(EntityId(i), *x, *y, &mut refs[i]);
    }
    let mut hits: Vec<usize> = db.probe_range(1, 2, 1, 3).iter().map(|e| e.0).collect();
    hits.sort();
    assert_eq!(hits, vec![1, 2, 4]);
    // a window reaching past the edge is clamped to the border cells
    let hits: Vec<usize> = db.probe_range(3, 40, 3, 40).iter().map(|e| e.0).collect();
    assert_eq!(hits, vec![3]);
}

#[test]
fn full_probe_visits_every_entity_once() {
    let mut db = SpatialDb::new(6);
    let mut refs: Vec<SpatialDbRef> = (0..30).map(|_| fresh_ref()).collect();
    for i in 0..30usize {
        let x = (i * 7 % 11) as i64 - 2;
        let y = (i * 5 % 9) as i64 - 1;
        db.update(EntityId(i), x, y, &mut refs[i]);
    }
    // move some of them again
    for i in (0..30usize).step_by(3) {
        db.update(EntityId(i), (i % 6) as i64, 2, &mut refs[i]);
    }
    let mut seen = full_probe(&db);
    seen.sort();
    assert_eq!(seen, (0..30).collect::<Vec<usize>>());
}

fn brute_force_pairs(cells: &[(i64, i64)], reach: i64) -> Vec<(usize, usize)> {
    let mut out = Vec::new();
    for a in 0..cells.len() {
        for b in (a + 1)..cells.len() {
            let (ax, ay) = cells[a];
            let (bx, by) = cells[b];
            if (ax - bx).abs() <= reach && (ay - by).abs() <= reach {
                out.push((a, b));
            }
        }
    }
    out
}

#[test]
fn find_neighbors_reports_each_pair_once() {
    let dim = 7u32;
    let mut db = SpatialDb::new(dim);
    let mut cells = Vec::new();
    let mut refs = Vec::new();
    for i in 0..40usize {
        let x = ((i * 13 + 5) % 7) as i64;
        let y = ((i * 3 + i / 5) % 7) as i64;
        cells.push((x, y));
        refs.push(fresh_ref());
    }
    for i in 0..40usize {
        db.update(EntityId(i), cells[i].0, cells[i].1, &mut refs[i]);
    }
    for reach in 0..4u32 {
        let pairs = db.find_neighbors(reach);
        for (a, b) in pairs.iter() {
            assert_ne!(a.0, b.0, "self pair");
            assert!(!pairs.contains(&(*b, *a)), "pair in both orders");
        }
        let mut unordered: Vec<(usize, usize)> = pairs
            .iter()
            .map(|(a, b)| if a.0 < b.0 { (a.0, b.0) } else { (b.0, a.0) })
            .collect();
        unordered.sort();
        let before = unordered.len();
        unordered.dedup();
        assert_eq!(before, unordered.len(), "pair reported twice");
        assert_eq!(unordered, brute_force_pairs(&cells, reach as i64));
    }
}

#[test]
fn find_neighbors_same_cell_pairs_smaller_id_first() {
    let mut db = SpatialDb::new(3);
    let mut r = vec![fresh_ref(), fresh_ref(), fresh_ref()];
    db.update(EntityId(2), 1, 1, &mut r[2]);
    db.update(EntityId(0), 1, 1, &mut r[0]);
    db.update(EntityId(1), 1, 1, &mut r[1]);
    let mut pairs: Vec<(usize, usize)> = db.find_neighbors(0).iter().map(|(a, b)| (a.0, b.0)).collect();
    pairs.sort();
    assert_eq!(pairs, vec![(0, 1), (0, 2), (1, 2)]);
}

#[test]
fn find_neighbors_same_column_pair_once() {
    let mut db = SpatialDb::new(4);
    let mut r = vec![fresh_ref(), fresh_ref()];
    db.update(EntityId(0), 2, 3, &mut r[0]);
    db.update(EntityId(1), 2, 2, &mut r[1]);
    let pairs = db.find_neighbors(1);
    assert_eq!(pairs, vec![(EntityId(1), EntityId(0))]);
}
