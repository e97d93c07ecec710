use vstd::prelude::*;

verus! {

/// Chunks across a region.
pub const CHUNKS_PER_REGION_X: usize = 4;

/// Chunks down a region.
pub const CHUNKS_PER_REGION_Y: usize = 4;

/// A chunk of a page: its region, and its place in the region (row after row).
#[derive(Clone, Copy, Debug, PartialEq, Eq, Structural)]
pub struct ChunkKey {
    pub rx: i32,
    pub ry: i32,
    pub index: usize,
}

/// The chunk at column `cx` and row `cy` of region (`rx`, `ry`), when the region has one there.
pub fn chunk_of_cell(rx: i32, ry: i32, cx: usize, cy: usize) -> (r: Option<ChunkKey>)
    ensures
        r == if cx < CHUNKS_PER_REGION_X && cy < CHUNKS_PER_REGION_Y {
            Some(ChunkKey { rx, ry, index: (cy * CHUNKS_PER_REGION_X + cx) as usize })
        } else {
            None
        },
{
    if cx < CHUNKS_PER_REGION_X && cy < CHUNKS_PER_REGION_Y {
        Some(ChunkKey { rx, ry, index: cy * CHUNKS_PER_REGION_X + cx })
    } else {
        None
    }
}

/// A run of consecutive points of a stroke that goes into one chunk: the points
/// from `start` up to, not including, `end`.
#[derive(Clone, Copy, Debug, PartialEq, Eq, Structural)]
pub struct ChunkRun {
    pub chunk: ChunkKey,
    pub start: usize,
    pub end: usize,
}

/// Point `j` of the stroke lies in chunk `c`.
pub open spec fn point_in(pc: Seq<Option<ChunkKey>>, j: int, c: ChunkKey) -> bool {
    0 <= j < pc.len() && pc[j] == Some(c)
}

/// Point `i` is drawn in chunk `c`: the point itself, the one before it or one of
/// the two after it lies in `c`.
pub open spec fn covers(pc: Seq<Option<ChunkKey>>, i: int, c: ChunkKey) -> bool {
    point_in(pc, i - 1, c) || point_in(pc, i, c) || point_in(pc, i + 1, c) || point_in(pc, i + 2, c)
}

/// A run that a stroke leaves in a chunk: a longest stretch of consecutive points
/// drawn in that chunk, holding at least two points.
pub open spec fn is_kept_run(pc: Seq<Option<ChunkKey>>, r: ChunkRun) -> bool {
    &&& r.start + 2 <= r.end <= pc.len()
    &&& forall|i: int| r.start <= i < r.end ==> covers(pc, i, r.chunk)
    &&& (r.start == 0 || !covers(pc, r.start - 1, r.chunk))
    &&& (r.end == pc.len() || !covers(pc, r.end as int, r.chunk))
}

fn point_is_in(pc: &Vec<Option<ChunkKey>>, j: usize, c: ChunkKey) -> (r: bool)
    ensures
        r == point_in(pc@, j as int, c),
{
    if j < pc.len() {
        match pc[j] {
            Some(k) => k == c,
            None => false,
        }
    } else {
        false
    }
}

fn covers_exec(pc: &Vec<Option<ChunkKey>>, i: usize, c: ChunkKey) -> (r: bool)
    requires
        pc.len() + 3 <= usize::MAX,
        i <= pc.len(),
    ensures
        r == covers(pc@, i as int, c),
{
    (i > 0 && point_is_in(pc, i - 1, c)) || point_is_in(pc, i, c) || point_is_in(pc, i + 1, c)
        || point_is_in(pc, i + 2, c)
}

/// The chunk of the point at offset `d` (0 to 3, for the points `s - 1` to `s + 2`).
pub open spec fn candidate(pc: Seq<Option<ChunkKey>>, s: int, d: int) -> Option<ChunkKey> {
    let j = s + d - 1;
    if 0 <= j < pc.len() {
        pc[j]
    } else {
        None
    }
}

fn candidate_exec(pc: &Vec<Option<ChunkKey>>, s: usize, d: usize) -> (r: Option<ChunkKey>)
    requires
        pc.len() + 3 <= usize::MAX,
        s < pc.len(),
        d < 4,
    ensures
        r == candidate(pc@, s as int, d as int),
{
    if s + d >= 1 && s + d - 1 < pc.len() {
        pc[s + d - 1]
    } else {
        None
    }
}

/// Two kept runs of one chunk that start together are the same run.
pub proof fn lemma_kept_run_unique(pc: Seq<Option<ChunkKey>>, a: ChunkRun, b: ChunkRun)
    requires
        is_kept_run(pc, a),
        is_kept_run(pc, b),
        a.chunk == b.chunk,
        a.start == b.start,
    ensures
        a == b,
{
    if a.end < b.end {
        assert(covers(pc, a.end as int, b.chunk));
    } else if b.end < a.end {
        assert(covers(pc, b.end as int, a.chunk));
    }
}

/// The runs that a stroke leaves in the chunks it crosses: for each chunk, each longest
/// stretch of consecutive points drawn in it that holds at least two points, once.
/// `point_chunks[i]` is the chunk that point `i` lies in, if any.
pub fn chunk_runs(point_chunks: &Vec<Option<ChunkKey>>) -> (out: Vec<ChunkRun>)
    requires
        point_chunks.len() + 3 <= usize::MAX,
    ensures
        forall|k: int| 0 <= k < out@.len() ==> is_kept_run(point_chunks@, #[trigger] out@[k]),
        forall|r: ChunkRun| is_kept_run(point_chunks@, r) ==> out@.contains(r),
        out@.no_duplicates(),
        forall|a: int, b: int|
            0 <= a < b < out@.len() && out@[a].chunk == out@[b].chunk ==> #[trigger] out@[a].start
                < #[trigger] out@[b].start,
{
    let pc = point_chunks;
    let n = pc.len();
    let mut out: Vec<ChunkRun> = Vec::new();
    for s in 0..n
        invariant
            n == pc@.len(),
            n + 3 <= usize::MAX,
            forall|k: int|
                0 <= k < out@.len() ==> is_kept_run(pc@, #[trigger] out@[k]) && out@[k].start < s,
            forall|r: ChunkRun| is_kept_run(pc@, r) && r.start < s ==> out@.contains(r),
            out@.no_duplicates(),
            forall|a: int, b: int| 0 <= a < b < out@.len() ==> #[trigger] out@[a].start <= #[trigger] out@[b].start,
    {
        for d in 0..4usize
            invariant
                n == pc@.len(),
                n + 3 <= usize::MAX,
                s < n,
                forall|k: int|
                    0 <= k < out@.len() ==> is_kept_run(pc@, #[trigger] out@[k]) && out@[k].start
                        <= s,
                forall|k: int|
                    0 <= k < out@.len() && #[trigger] out@[k].start == s ==> exists|d2: int|
                        0 <= d2 < d && candidate(pc@, s as int, d2) == Some(out@[k].chunk),
                forall|r: ChunkRun|
                    is_kept_run(pc@, r) && r.start < s ==> out@.contains(r),
                forall|r: ChunkRun, d2: int|
                    is_kept_run(pc@, r) && r.start == s && 0 <= d2 < d && candidate(
                        pc@,
                        s as int,
                        d2,
                    ) == Some(r.chunk) ==> out@.contains(r),
                out@.no_duplicates(),
                forall|a: int, b: int| 0 <= a < b < out@.len() ==> #[trigger] out@[a].start <= #[trigger] out@[b].start,
        {
            let ghost old_out = out@;
            let cand = candidate_exec(pc, s, d);
            if let Some(c) = cand {
                // Skip a chunk that an earlier offset already gave.
                let mut seen = false;
                let mut d2: usize = 0;
                while d2 < d
                    invariant
                        n == pc@.len(),
                        n + 3 <= usize::MAX,
                        s < n,
                        d < 4,
                        d2 <= d,
                        seen == exists|d3: int| 0 <= d3 < d2 && candidate(pc@, s as int, d3) == Some(c),
                    decreases d - d2,
                {
                    let other = candidate_exec(pc, s, d2);
                    if let Some(o) = other {
                        if o == c {
                            seen = true;
                        }
                    }
                    assert(seen == exists|d3: int| 0 <= d3 < d2 + 1 && candidate(pc@, s as int, d3) == Some(c)) by {
                        if candidate(pc@, s as int, d2 as int) == Some(c) {
                            assert(0 <= d2 < d2 + 1);
                        }
                    }
                    d2 = d2 + 1;
                }
                if !seen {
                    let starts = s == 0 || !covers_exec(pc, s - 1, c);
                    let here = covers_exec(pc, s, c);
                    if starts && here {
                        let mut e = s + 1;
                        while e < n && covers_exec(pc, e, c)
                            invariant
                                n == pc@.len(),
                                n + 3 <= usize::MAX,
                                s < e <= n,
                                forall|i: int| s <= i < e ==> covers(pc@, i, c),
                            decreases n - e,
                        {
                            e = e + 1;
                        }
                        let run = ChunkRun { chunk: c, start: s, end: e };
                        if e - s >= 2 {
                            assert(is_kept_run(pc@, run));
                            proof {
                                assert forall|k: int| 0 <= k < out@.len() implies out@[k] != run by {
                                    if out@[k].start == s && out@[k].chunk == c {
                                        let d3 = choose|d3: int| 0 <= d3 < d && candidate(pc@, s as int, d3) == Some(out@[k].chunk);
                                        assert(seen);
                                    }
                                }
                            }
                            let ghost before = out@;
                            out.push(run);
                            proof {
                                assert forall|i: int, j: int| 0 <= i < out@.len() && 0 <= j < out@.len() && i != j implies out@[i] != out@[j] by {
                                    if i < before.len() && j < before.len() {
                                        assert(out@[i] == before[i] && out@[j] == before[j]);
                                    }
                                }
                                assert forall|a: int, b: int| 0 <= a < b < out@.len() implies #[trigger] out@[a].start <= #[trigger] out@[b].start by {
                                    assert(out@[a] == before[a]);
                                    if b < before.len() {
                                        assert(out@[b] == before[b]);
                                    }
                                }
                                assert forall|r: ChunkRun| before.contains(r) implies out@.contains(r) by {
                                    let j = choose|j: int| 0 <= j < before.len() && before[j] == r;
                                    assert(out@[j] == r);
                                }
                            }
                        }
                        proof {
                            assert forall|r: ChunkRun| is_kept_run(pc@, r) && r.start == s && r.chunk == c implies out@.contains(r) by {
                                if e < n {
                                    assert(!covers(pc@, e as int, c));
                                }
                                lemma_kept_run_unique(pc@, r, run);
                                assert(out@[out@.len() - 1] == run);
                            }
                        }
                    } else {
                        proof {
                            assert forall|r: ChunkRun| is_kept_run(pc@, r) && r.start == s && r.chunk == c implies false by {
                                assert(covers(pc@, s as int, c));
                            }
                        }
                    }
                } else {
                    proof {
                        let d3 = choose|d3: int| 0 <= d3 < d && candidate(pc@, s as int, d3) == Some(c);
                        assert forall|r: ChunkRun| is_kept_run(pc@, r) && r.start == s && r.chunk == c implies out@.contains(r) by {
                            assert(candidate(pc@, s as int, d3) == Some(r.chunk));
                        }
                    }
                }
                assert(forall|r: ChunkRun| old_out.contains(r) ==> out@.contains(r));
                assert(forall|r: ChunkRun| is_kept_run(pc@, r) && r.start == s && r.chunk == c ==> out@.contains(r));
            }
            proof {
                assert forall|r: ChunkRun, d2: int|
                    is_kept_run(pc@, r) && r.start == s && 0 <= d2 < d + 1 && candidate(pc@, s as int, d2) == Some(r.chunk)
                    implies out@.contains(r) by {
                    if d2 < d {
                        assert(old_out.contains(r));
                    }
                }
                assert forall|r: ChunkRun| is_kept_run(pc@, r) && r.start < s implies out@.contains(r) by {
                    assert(old_out.contains(r));
                }
                assert forall|k: int| 0 <= k < out@.len() && #[trigger] out@[k].start == s implies exists|d2: int|
                    0 <= d2 < d + 1 && candidate(pc@, s as int, d2) == Some(out@[k].chunk) by {
                    if k < old_out.len() {
                        assert(out@[k] == old_out[k]);
                        let d3 = choose|d3: int| 0 <= d3 < d && candidate(pc@, s as int, d3) == Some(old_out[k].chunk);
                        assert(0 <= d3 < d + 1);
                    } else {
                        assert(candidate(pc@, s as int, d as int) == Some(out@[k].chunk));
                    }
                }
            }
        }
        proof {
            assert forall|r: ChunkRun| is_kept_run(pc@, r) && r.start == s implies out@.contains(r) by {
                assert(covers(pc@, s as int, r.chunk));
                if point_in(pc@, s - 1, r.chunk) {
                    assert(candidate(pc@, s as int, 0) == Some(r.chunk));
                } else if point_in(pc@, s as int, r.chunk) {
                    assert(candidate(pc@, s as int, 1) == Some(r.chunk));
                } else if point_in(pc@, s + 1, r.chunk) {
                    assert(candidate(pc@, s as int, 2) == Some(r.chunk));
                } else {
                    assert(candidate(pc@, s as int, 3) == Some(r.chunk));
                }
            }
        }
    }
    proof {
        assert forall|a: int, b: int|
            0 <= a < b < out@.len() && out@[a].chunk == out@[b].chunk implies #[trigger] out@[a].start
                < #[trigger] out@[b].start by {
            if out@[a].start == out@[b].start {
                lemma_kept_run_unique(pc@, out@[a], out@[b]);
            }
        }
    }
    out
}

} // verus!
verus! {

/// A chunk seen from the page: its region, and its column and row in the region.
#[derive(Clone, Copy, Debug, PartialEq, Eq, Structural)]
pub struct VisibleChunk {
    pub rx: i32,
    pub ry: i32,
    pub cx: usize,
    pub cy: usize,
}

/// A column (or row) `c` counted from the start of region `r`, folded into the next
/// region when it passes the region's last column (or row).
pub open spec fn fold_cell(r: int, c: int) -> (int, int) {
    if c > 3 {
        (c - 4, r + 1)
    } else {
        (c, r)
    }
}

/// The chunk `dcx` columns and `dcy` rows after chunk (`start_cx`, `start_cy`) of
/// region (`rx`, `ry`).
pub open spec fn visible_chunk_at(rx: int, ry: int, start_cx: int, start_cy: int, dcx: int, dcy: int) -> (
    int,
    int,
    int,
    int,
) {
    let (cx, frx) = fold_cell(rx, start_cx + dcx);
    let (cy, fry) = fold_cell(ry, start_cy + dcy);
    (frx, fry, cx, cy)
}

/// Every chunk of the 3 by 3 block from (`start_cx`, `start_cy`) has an index in its region.
pub open spec fn block_fits(start_cx: int, start_cy: int) -> bool {
    forall|dcx: int, dcy: int|
        0 <= dcx < 3 && 0 <= dcy < 3 ==> {
            let (_, _, cx, cy) = #[trigger] visible_chunk_at(0, 0, start_cx, start_cy, dcx, dcy);
            cy * 4 + cx < 16
        }
}

/// The four regions a page keeps loaded around region (`rx`, `ry`).
pub open spec fn in_neighbourhood(rx: int, ry: int, qx: int, qy: int) -> bool {
    (qx == rx || qx == rx + 1) && (qy == ry || qy == ry + 1)
}

/// The 3 by 3 block of chunks that the view shows, starting at chunk (`start_cx`,
/// `start_cy`) of region (`rx`, `ry`): column after column, row after row within a column.
pub fn visible_chunks(rx: i32, ry: i32, start_cx: usize, start_cy: usize) -> (r: Vec<VisibleChunk>)
    requires
        rx < i32::MAX,
        ry < i32::MAX,
        block_fits(start_cx as int, start_cy as int),
    ensures
        r@.len() == 9,
        forall|dcx: int, dcy: int|
            0 <= dcx < 3 && 0 <= dcy < 3 ==> {
                let v = #[trigger] r@[dcx * 3 + dcy];
                (v.rx as int, v.ry as int, v.cx as int, v.cy as int) == visible_chunk_at(
                    rx as int,
                    ry as int,
                    start_cx as int,
                    start_cy as int,
                    dcx,
                    dcy,
                )
            },
        forall|k: int|
            0 <= k < 9 ==> {
                let v = #[trigger] r@[k];
                &&& in_neighbourhood(rx as int, ry as int, v.rx as int, v.ry as int)
                &&& v.cy * 4 + v.cx < 16
            },
{
    let mut out: Vec<VisibleChunk> = Vec::new();
    for dcx in 0..3usize
        invariant
            rx < i32::MAX,
            ry < i32::MAX,
            block_fits(start_cx as int, start_cy as int),
            out@.len() == dcx * 3,
            forall|a: int, b: int|
                0 <= a < dcx && 0 <= b < 3 ==> {
                    let v = #[trigger] out@[a * 3 + b];
                    (v.rx as int, v.ry as int, v.cx as int, v.cy as int) == visible_chunk_at(
                        rx as int,
                        ry as int,
                        start_cx as int,
                        start_cy as int,
                        a,
                        b,
                    )
                },
    {
        for dcy in 0..3usize
            invariant
                rx < i32::MAX,
                ry < i32::MAX,
                dcx < 3,
                block_fits(start_cx as int, start_cy as int),
                out@.len() == dcx * 3 + dcy,
                forall|a: int, b: int|
                    (0 <= a < dcx && 0 <= b < 3) || (a == dcx && 0 <= b < dcy) ==> {
                        let v = #[trigger] out@[a * 3 + b];
                        (v.rx as int, v.ry as int, v.cx as int, v.cy as int) == visible_chunk_at(
                            rx as int,
                            ry as int,
                            start_cx as int,
                            start_cy as int,
                            a,
                            b,
                        )
                    },
        {
            assert({
                let (_, _, cx, cy) = visible_chunk_at(0, 0, start_cx as int, start_cy as int, dcx as int, dcy as int);
                cy * 4 + cx < 16
            });
            let cx = start_cx + dcx;
            let cy = start_cy + dcy;
            let (fcx, frx) = if cx > 3 {
                (cx - 4, rx + 1)
            } else {
                (cx, rx)
            };
            let (fcy, fry) = if cy > 3 {
                (cy - 4, ry + 1)
            } else {
                (cy, ry)
            };
            let ghost before = out@;
            out.push(VisibleChunk { rx: frx, ry: fry, cx: fcx, cy: fcy });
            assert forall|a: int, b: int|
                (0 <= a < dcx && 0 <= b < 3) || (a == dcx && 0 <= b < dcy + 1) implies {
                    let v = #[trigger] out@[a * 3 + b];
                    (v.rx as int, v.ry as int, v.cx as int, v.cy as int) == visible_chunk_at(
                        rx as int,
                        ry as int,
                        start_cx as int,
                        start_cy as int,
                        a,
                        b,
                    )
                } by {
                if a * 3 + b < before.len() {
                    assert(out@[a * 3 + b] == before[a * 3 + b]);
                }
            }
        }
    }
    assert forall|k: int| 0 <= k < 9 implies {
        let v = #[trigger] out@[k];
        &&& in_neighbourhood(rx as int, ry as int, v.rx as int, v.ry as int)
        &&& v.cy * 4 + v.cx < 16
    } by {
        let a = k / 3;
        let b = k % 3;
        assert(k == a * 3 + b);
        assert({
            let (_, _, cx, cy) = visible_chunk_at(0, 0, start_cx as int, start_cy as int, a, b);
            cy * 4 + cx < 16
        });
    }
    out
}

/// The regions that a page keeps loaded and saves around region (`rx`, `ry`), in the
/// order it handles them.
pub fn region_neighbourhood(rx: i32, ry: i32) -> (r: Vec<(i32, i32)>)
    requires
        rx < i32::MAX,
        ry < i32::MAX,
    ensures
        r@ == seq![(rx, ry), ((rx + 1) as i32, ry), (rx, (ry + 1) as i32), ((rx + 1) as i32, (ry + 1) as i32)],
{
    let r = vec![(rx, ry), (rx + 1, ry), (rx, ry + 1), (rx + 1, ry + 1)];
    assert(r@ =~= seq![(rx, ry), ((rx + 1) as i32, ry), (rx, (ry + 1) as i32), ((rx + 1) as i32, (ry + 1) as i32)]);
    r
}

} // verus!
verus! {

/// The index of the chunk at column `cx` and row `cy` of its region, rows one after the other.
pub fn chunk_index(cx: usize, cy: usize) -> (r: usize)
    requires
        cy * CHUNKS_PER_REGION_X + cx <= usize::MAX,
    ensures
        r == cy * CHUNKS_PER_REGION_X + cx,
{
    cy * CHUNKS_PER_REGION_X + cx
}

/// The 16 chunks of a region have the 16 indices 0 to 15, one each: the index gives
/// back the column and the row.
pub proof fn law_chunk_index_is_one_to_one(cx: int, cy: int)
    requires
        0 <= cx < 4,
        0 <= cy < 4,
    ensures
        0 <= cy * 4 + cx < 16,
        (cy * 4 + cx) % 4 == cx,
        (cy * 4 + cx) / 4 == cy,
{
}

} // verus!
