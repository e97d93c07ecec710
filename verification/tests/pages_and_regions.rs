use fastnote::chunks::{chunk_index, chunk_of_cell, chunk_runs, region_neighbourhood, visible_chunks, ChunkKey, ChunkRun, VisibleChunk};
use fastnote::region_cache::RegionCache;
use fastnote::region_name::filename_from_pos;

fn key(rx: i32, ry: i32, index: usize) -> ChunkKey {
    ChunkKey { rx, ry, index }
}

#[test]
fn cells_inside_a_region_have_an_index() {
    assert_eq!(chunk_of_cell(2, -1, 3, 1), Some(key(2, -1, 7)));
    assert_eq!(chunk_of_cell(0, 0, 0, 0), Some(key(0, 0, 0)));
    assert_eq!(chunk_of_cell(0, 0, 4, 0), None);
    assert_eq!(chunk_of_cell(0, 0, 0, 4), None);
    assert_eq!(chunk_index(3, 3), 15);
    assert_eq!(chunk_index(1, 2), 9);
}

#[test]
fn a_stroke_inside_one_chunk_makes_one_run() {
    let pc = vec![Some(key(0, 0, 5)); 4];
    assert_eq!(chunk_runs(&pc), vec![ChunkRun { chunk: key(0, 0, 5), start: 0, end: 4 }]);
}

#[test]
fn a_single_point_makes_no_run() {
    assert_eq!(chunk_runs(&vec![Some(key(0, 0, 1))]), vec![]);
    assert_eq!(chunk_runs(&vec![]), vec![]);
}

#[test]
fn runs_overlap_across_a_chunk_border() {
    // points 0..3 in chunk A, points 3..6 in chunk B
    let a = key(0, 0, 0);
    let b = key(0, 0, 1);
    let pc = vec![Some(a), Some(a), Some(a), Some(b), Some(b), Some(b)];
    let mut runs = chunk_runs(&pc);
    runs.sort_by_key(|r| (r.start, r.chunk.index));
    // A is drawn by points 0..=3 (point 3's predecessor is in A);
    // B is drawn by points 1..=5 (point 1 sees point 3 two ahead).
    assert_eq!(
        runs,
        vec![ChunkRun { chunk: a, start: 0, end: 4 }, ChunkRun { chunk: b, start: 1, end: 6 }]
    );
}

#[test]
fn a_stroke_leaving_and_coming_back_makes_two_runs() {
    let a = key(0, 0, 0);
    let pc = vec![Some(a), Some(a), None, None, None, None, None, Some(a), Some(a)];
    // the runs of one chunk come in the order the stroke draws them
    let runs = chunk_runs(&pc);
    // point 2 follows a point of A, and points 5 and 6 precede one.
    assert_eq!(runs, vec![ChunkRun { chunk: a, start: 0, end: 3 }, ChunkRun { chunk: a, start: 5, end: 9 }]);
}

#[test]
fn points_outside_every_chunk_make_no_run() {
    assert_eq!(chunk_runs(&vec![None, None, None]), vec![]);
}

#[test]
fn visible_block_wraps_into_the_next_region() {
    let v = visible_chunks(0, 0, 3, 2);
    assert_eq!(v.len(), 9);
    assert_eq!(v[0], VisibleChunk { rx: 0, ry: 0, cx: 3, cy: 2 });
    assert_eq!(v[2], VisibleChunk { rx: 0, ry: 1, cx: 3, cy: 0 });
    assert_eq!(v[3], VisibleChunk { rx: 1, ry: 0, cx: 0, cy: 2 });
    assert_eq!(v[8], VisibleChunk { rx: 1, ry: 1, cx: 1, cy: 0 });
    let w = visible_chunks(-2, 5, 0, 0);
    assert_eq!(w[4], VisibleChunk { rx: -2, ry: 5, cx: 1, cy: 1 });
}

#[test]
fn neighbourhood_of_a_region() {
    assert_eq!(region_neighbourhood(-1, 2), vec![(-1, 2), (0, 2), (-1, 3), (0, 3)]);
}

#[test]
fn region_file_names() {
    assert_eq!(filename_from_pos(0, 0), "r_0_0.json");
    assert_eq!(filename_from_pos(12, -3), "r_12_-3.json");
    assert_eq!(filename_from_pos(i32::MIN, i32::MAX), "r_-2147483648_2147483647.json");
}

#[test]
fn region_cache_keeps_one_region_per_place() {
    let mut cache: RegionCache<&str> = RegionCache::new("/page/regions".to_string());
    assert_eq!(cache.get_region(0, 0), None);
    assert!(!cache.contains_region(0, 0));
    assert!(cache.insert_region(0, 0, "a"));
    assert!(cache.insert_region(1, 0, "b"));
    assert!(!cache.insert_region(0, 0, "c"));
    assert_eq!(cache.get_region(0, 0), Some(&"a"));
    assert_eq!(cache.get_region(1, 0), Some(&"b"));
    assert!(cache.contains_region(1, 0));
    if let Some(r) = cache.get_region_mut(1, 0) {
        *r = "d";
    }
    assert_eq!(cache.get_region(1, 0), Some(&"d"));
    assert!(cache.get_region_mut(5, 5).is_none());
    assert_eq!(cache.regions_path, "/page/regions");
}
