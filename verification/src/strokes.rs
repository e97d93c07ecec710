use vstd::prelude::*;

verus! {

/// The middle part once its first and its last point are dropped (each only if there is one).
pub open spec fn trimmed_middle<T>(m: Seq<T>) -> Seq<T> {
    let a = if m.len() > 0 {
        m.subrange(1, m.len() as int)
    } else {
        m
    };
    if a.len() > 0 {
        a.drop_last()
    } else {
        a
    }
}

/// A simplified stroke that keeps its first two and its last two points: the first two
/// points, the simplified middle without its own first and last points, then the last
/// two points.
pub open spec fn with_endpoints<T>(points: Seq<T>, simplified_middle: Seq<T>) -> Seq<T> {
    seq![points[0], points[1]] + trimmed_middle(simplified_middle) + seq![
        points[points.len() - 2],
        points[points.len() - 1],
    ]
}

/// Whether a stroke of `nbr_point` points is simplified: one of four points or fewer is
/// kept as it is, since its first two and last two points are all it has.
pub fn needs_simplifying(nbr_point: usize) -> (r: bool)
    ensures
        r == (nbr_point > 4),
{
    nbr_point > 4
}

/// Puts a simplified middle back between the first two and the last two points of the
/// stroke (the middle's own first and last points, which repeat them, are dropped).
pub fn keep_endpoints<T: Copy>(points: &[T], simplified_middle: Vec<T>) -> (out: Vec<T>)
    requires
        points@.len() >= 2,
    ensures
        out@ == with_endpoints(points@, simplified_middle@),
{
    let n = points.len();
    let mut middle = simplified_middle;
    let ghost m0 = middle@;
    if middle.len() > 0 {
        middle.remove(0);
    }
    if middle.len() > 0 {
        middle.pop();
    }
    assert(middle@ =~= trimmed_middle(m0));
    let mut out: Vec<T> = Vec::new();
    out.push(points[0]);
    out.push(points[1]);
    let ghost head = out@;
    let mut middle2 = middle;
    out.append(&mut middle2);
    out.push(points[n - 2]);
    out.push(points[n - 1]);
    assert(out@ =~= with_endpoints(points@, m0));
    out
}

fn widened_product(a: u32, b: u32) -> (r: u64)
    ensures
        r == a * b,
{
    assert((a as u64) * (b as u64) <= u32::MAX * u32::MAX) by (nonlinear_arith)
        requires
            a <= u32::MAX,
            b <= u32::MAX,
    ;
    (a as u64) * (b as u64)
}

/// How finely each stroke is cut for drawing, given how many points are drawn: 10
/// pieces, fewer (down to 2) while pieces times points pass 35000.
pub fn subdivision_for(nbr_point: u32) -> (s: u32)
    ensures
        2 <= s <= 10,
        s > 2 ==> s * nbr_point <= 35000,
        s < 10 ==> (s + 1) * nbr_point > 35000,
{
    let mut s: u32 = 10;
    while s > 2 && widened_product(s, nbr_point) > 35000
        invariant
            2 <= s <= 10,
            s < 10 ==> (s + 1) * nbr_point > 35000,
        decreases s,
    {
        s = s - 1;
    }
    s
}

} // verus!
