use vstd::prelude::*;

use crate::pixels::{BoundingBox, PixelPos, bb_contains, bb_intersects_spec, bb_wf};
use crate::rng::Rng;
use crate::texture::{TextureData, lemma_pixel_index, opaque_at, texture_wf};

verus! {

use vstd::arithmetic::div_mod::{
    lemma_fundamental_div_mod,
    lemma_fundamental_div_mod_converse_div,
    lemma_fundamental_div_mod_converse_mod,
};

// The shatter decomposer segments a dying sprite's opaque pixels into
// randomized groups by stamping small random rectangles around randomly
// drawn seed pixels, and computes one bounding box per group. Every opaque
// pixel ends up in exactly one group, and a group's pixels all lie inside
// its box.

/// How many of the first n pixels are opaque and not yet assigned.
pub open spec fn ua_count(t: TextureData, assign: Seq<Option<usize>>, n: int) -> int
    decreases n,
{
    if n <= 0 {
        0
    } else {
        ua_count(t, assign, n - 1) + if opaque_at(t, n - 1) && assign[n - 1] is None {
            1int
        } else {
            0int
        }
    }
}

proof fn lemma_ua_bounds(t: TextureData, assign: Seq<Option<usize>>, n: int)
    requires
        n >= 0,
    ensures
        0 <= ua_count(t, assign, n) <= n,
    decreases n,
{
    if n > 0 {
        lemma_ua_bounds(t, assign, n - 1);
    }
}

proof fn lemma_ua_mono(t: TextureData, assign: Seq<Option<usize>>, n1: int, n2: int)
    requires
        0 <= n1 <= n2,
    ensures
        ua_count(t, assign, n1) <= ua_count(t, assign, n2),
    decreases n2,
{
    if n1 < n2 {
        lemma_ua_mono(t, assign, n1, n2 - 1);
    }
}

/// Assigning one counted pixel lowers the count by one; pixels outside the
/// prefix leave it unchanged.
proof fn lemma_ua_update(t: TextureData, assign: Seq<Option<usize>>, j: int, g: usize, n: int)
    requires
        0 <= j < assign.len(),
        opaque_at(t, j),
        assign[j] is None,
        0 <= n <= assign.len(),
    ensures
        ua_count(t, assign.update(j, Some(g)), n) == ua_count(t, assign, n) - if j < n {
            1int
        } else {
            0int
        },
    decreases n,
{
    if n > 0 {
        lemma_ua_update(t, assign, j, g, n - 1);
    }
}

/// A zero count means every opaque pixel of the prefix is assigned.
proof fn lemma_ua_zero(t: TextureData, assign: Seq<Option<usize>>, n: int)
    requires
        ua_count(t, assign, n) == 0,
        n >= 0,
    ensures
        forall|i: int| 0 <= i < n && opaque_at(t, i) ==> assign[i] is Some,
    decreases n,
{
    if n > 0 {
        lemma_ua_bounds(t, assign, n - 1);
        lemma_ua_zero(t, assign, n - 1);
    }
}

/// Row-major index arithmetic: the index y * w + x decodes back to (x, y).
proof fn lemma_idx_xy(x: int, y: int, w: int)
    requires
        0 <= x < w,
        0 <= y,
    ensures
        (y * w + x) % w == x,
        (y * w + x) / w == y,
{
    lemma_fundamental_div_mod_converse_mod(y * w + x, w, y, x);
    lemma_fundamental_div_mod_converse_div(y * w + x, w, y, x);
}

/// The assignment of every pixel to its group, with one tight bounding box
/// per group.
pub struct Decomposition {
    pub assign: Vec<Option<usize>>,
    pub boxes: Vec<BoundingBox>,
}

/// The invariant tying an assignment to its group boxes: only opaque
/// pixels are assigned, group indices are in range, every assigned pixel
/// lies inside its group's box, boxes lie inside the image, and every
/// group owns at least one pixel.
pub open spec fn groups_ok(t: TextureData, assign: Seq<Option<usize>>, boxes: Seq<BoundingBox>) -> bool {
    &&& assign.len() == t.width * t.height
    &&& forall|i: int| 0 <= i < assign.len() && #[trigger] assign[i] is Some ==> opaque_at(t, i)
    &&& forall|i: int|
        0 <= i < assign.len() && #[trigger] assign[i] is Some ==> assign[i]->Some_0 < boxes.len()
    &&& forall|i: int|
        0 <= i < assign.len() && #[trigger] assign[i] is Some ==> bb_contains(
            boxes[assign[i]->Some_0 as int],
            i % (t.width as int),
            i / (t.width as int),
        )
    &&& forall|g: int|
        0 <= g < boxes.len() ==> bb_wf(#[trigger] boxes[g]) && boxes[g].max.x < t.width
            && boxes[g].max.y < t.height
    &&& forall|g: int|
        #![trigger group_pixels(assign, g)]
        0 <= g < boxes.len() ==> !group_pixels(assign, g).is_empty()
}

/// The same invariant with the inhabitants of the groups held explicitly:
/// wit[g] is the index of a pixel belonging to group g.
pub open spec fn groups_ok_wit(
    t: TextureData,
    assign: Seq<Option<usize>>,
    boxes: Seq<BoundingBox>,
    wit: Seq<int>,
) -> bool {
    &&& assign.len() == t.width * t.height
    &&& forall|i: int| 0 <= i < assign.len() && #[trigger] assign[i] is Some ==> opaque_at(t, i)
    &&& forall|i: int|
        0 <= i < assign.len() && #[trigger] assign[i] is Some ==> assign[i]->Some_0 < boxes.len()
    &&& forall|i: int|
        0 <= i < assign.len() && #[trigger] assign[i] is Some ==> bb_contains(
            boxes[assign[i]->Some_0 as int],
            i % (t.width as int),
            i / (t.width as int),
        )
    &&& forall|g: int|
        0 <= g < boxes.len() ==> bb_wf(#[trigger] boxes[g]) && boxes[g].max.x < t.width
            && boxes[g].max.y < t.height
    &&& wit.len() == boxes.len()
    &&& forall|g: int|
        0 <= g < wit.len() ==> 0 <= #[trigger] wit[g] < assign.len() && assign[wit[g]] == Some(
            g as usize,
        )
}

/// The explicit witnesses imply the existential form of the invariant.
proof fn lemma_groups_ok_from_wit(
    t: TextureData,
    assign: Seq<Option<usize>>,
    boxes: Seq<BoundingBox>,
    wit: Seq<int>,
)
    requires
        groups_ok_wit(t, assign, boxes, wit),
    ensures
        groups_ok(t, assign, boxes),
{
    assert forall|g: int| #![trigger group_pixels(assign, g)]
        0 <= g < boxes.len() implies !group_pixels(assign, g).is_empty() by {
        assert(0 <= wit[g] < assign.len() && assign[wit[g]] == Some(g as usize));
        lemma_group_pixels_contains(assign, g, wit[g]);
        assert(group_pixels(assign, g).contains(wit[g]));
    }
}

/// A complete decomposition additionally assigns every opaque pixel.
pub open spec fn decomposition_ok(
    t: TextureData,
    assign: Seq<Option<usize>>,
    boxes: Seq<BoundingBox>,
) -> bool {
    &&& groups_ok(t, assign, boxes)
    &&& forall|i: int| 0 <= i < assign.len() && opaque_at(t, i) ==> #[trigger] assign[i] is Some
}

/// A per-box tightness certificate: for each group box, four pixels of
/// that very group lie on its left, right, top and bottom edges, so no
/// box reaches beyond the pixels its group owns.
pub open spec fn tight_witness(
    t: TextureData,
    assign: Seq<Option<usize>>,
    boxes: Seq<BoundingBox>,
    wit: Seq<(int, int, int, int)>,
) -> bool {
    let w = t.width as int;
    &&& wit.len() == boxes.len()
    &&& forall|g: int|
        0 <= g < boxes.len() ==> {
            let e = #[trigger] wit[g];
            &&& 0 <= e.0 < assign.len() && assign[e.0] == Some(g as usize) && e.0 % w
                == boxes[g].min.x
            &&& 0 <= e.1 < assign.len() && assign[e.1] == Some(g as usize) && e.1 % w
                == boxes[g].max.x
            &&& 0 <= e.2 < assign.len() && assign[e.2] == Some(g as usize) && e.2 / w
                == boxes[g].min.y
            &&& 0 <= e.3 < assign.len() && assign[e.3] == Some(g as usize) && e.3 / w
                == boxes[g].max.y
        }
}

/// The four edge witnesses of the open group's running box: each edge of
/// the box carries a pixel already claimed by the group.
spec fn cur_tight(
    t: TextureData,
    assign: Seq<Option<usize>>,
    g: usize,
    cur: BoundingBox,
    e: (int, int, int, int),
) -> bool {
    let w = t.width as int;
    &&& 0 <= e.0 < assign.len() && assign[e.0] == Some(g) && e.0 % w == cur.min.x
    &&& 0 <= e.1 < assign.len() && assign[e.1] == Some(g) && e.1 % w == cur.max.x
    &&& 0 <= e.2 < assign.len() && assign[e.2] == Some(g) && e.2 / w == cur.min.y
    &&& 0 <= e.3 < assign.len() && assign[e.3] == Some(g) && e.3 / w == cur.max.y
}

/// Claiming pixels for the open group keeps every closed box's edge
/// witnesses in place: assigned entries are never overwritten.
proof fn lemma_tight_preserved(
    t: TextureData,
    prev: Seq<Option<usize>>,
    next: Seq<Option<usize>>,
    boxes: Seq<BoundingBox>,
    box_wits: Seq<(int, int, int, int)>,
    g: usize,
)
    requires
        prev.len() == next.len(),
        forall|i: int|
            0 <= i < prev.len() ==> next[i] == prev[i] || (prev[i] is None && next[i] == Some(g)),
        tight_witness(t, prev, boxes, box_wits),
    ensures
        tight_witness(t, next, boxes, box_wits),
{
    assert forall|g2: int|
        0 <= g2 < boxes.len() implies {
        let e = #[trigger] box_wits[g2];
        let w = t.width as int;
        &&& 0 <= e.0 < next.len() && next[e.0] == Some(g2 as usize) && e.0 % w == boxes[g2].min.x
        &&& 0 <= e.1 < next.len() && next[e.1] == Some(g2 as usize) && e.1 % w == boxes[g2].max.x
        &&& 0 <= e.2 < next.len() && next[e.2] == Some(g2 as usize) && e.2 / w == boxes[g2].min.y
        &&& 0 <= e.3 < next.len() && next[e.3] == Some(g2 as usize) && e.3 / w == boxes[g2].max.y
    } by {
        let e = box_wits[g2];
        assert(prev[e.0] == Some(g2 as usize));
        assert(prev[e.1] == Some(g2 as usize));
        assert(prev[e.2] == Some(g2 as usize));
        assert(prev[e.3] == Some(g2 as usize));
    }
}

/// The set of pixel indices belonging to group g.
pub open spec fn group_pixels(assign: Seq<Option<usize>>, g: int) -> Set<int> {
    Set::new(|i: int| 0 <= i < assign.len() && assign[i] == Some(g as usize))
}

/// Membership in a group's pixel set, spelled out.
pub proof fn lemma_group_pixels_contains(assign: Seq<Option<usize>>, g: int, i: int)
    ensures
        group_pixels(assign, g).contains(i) <==> (0 <= i < assign.len() && assign[i] == Some(
            g as usize,
        )),
{
}

/// Every opaque pixel of the source belongs to exactly one group, distinct
/// groups never share a pixel, and a group's pixels all lie inside its
/// bounding box: the emitted fragments cover the opacity mask with no
/// pixel gained, lost or duplicated.
#[verifier::rlimit(100)]
pub proof fn lemma_fragments_partition_mask(
    t: TextureData,
    assign: Seq<Option<usize>>,
    boxes: Seq<BoundingBox>,
)
    requires
        decomposition_ok(t, assign, boxes),
        boxes.len() <= usize::MAX,
    ensures
        forall|i: int|
            0 <= i < assign.len() ==> (opaque_at(t, i) <==> exists|g: int|
                0 <= g < boxes.len() && #[trigger] group_pixels(assign, g).contains(i)),
        forall|g1: int, g2: int|
            0 <= g1 < boxes.len() && 0 <= g2 < boxes.len() && g1 != g2 ==> group_pixels(
                assign,
                g1,
            ).disjoint(group_pixels(assign, g2)),
        forall|g: int, i: int|
            0 <= g < boxes.len() && #[trigger] group_pixels(assign, g).contains(i) ==> bb_contains(
                boxes[g],
                i % (t.width as int),
                i / (t.width as int),
            ),
{
    assert forall|i: int| 0 <= i < assign.len() && opaque_at(t, i) implies exists|g: int|
        0 <= g < boxes.len() && #[trigger] group_pixels(assign, g).contains(i) by {
        assert(assign[i] is Some);
        let gu = assign[i]->Some_0;
        assert(assign[i] == Some(gu));
        assert(gu < boxes.len());
        assert(group_pixels(assign, gu as int).contains(i));
    }
    assert forall|i: int|
        0 <= i < assign.len() && (exists|g: int|
            0 <= g < boxes.len() && #[trigger] group_pixels(assign, g).contains(i)) implies opaque_at(
        t,
        i,
    ) by {
        let g = choose|g: int| 0 <= g < boxes.len() && group_pixels(assign, g).contains(i);
        assert(assign[i] == Some(g as usize));
    }
    assert forall|g: int, i: int|
        0 <= g < boxes.len() && #[trigger] group_pixels(assign, g).contains(i) implies bb_contains(
        boxes[g],
        i % (t.width as int),
        i / (t.width as int),
    ) by {
        lemma_group_pixels_contains(assign, g, i);
        assert(assign[i] is Some && assign[i]->Some_0 == g as usize);
    }
    assert forall|g1: int, g2: int|
        0 <= g1 < boxes.len() && 0 <= g2 < boxes.len() && g1 != g2 implies group_pixels(
        assign,
        g1,
    ).disjoint(group_pixels(assign, g2)) by {
        assert forall|i: int| group_pixels(assign, g1).contains(i) implies !group_pixels(
            assign,
            g2,
        ).contains(i) by {
            lemma_group_pixels_contains(assign, g1, i);
            lemma_group_pixels_contains(assign, g2, i);
        }
    }
}

/// The running invariant while one group is being stamped: only opaque
/// pixels are assigned, closed groups are complete and boxed, and the open
/// group g stays inside the running box cur.
pub open spec fn stamp_inv(
    t: TextureData,
    assign: Seq<Option<usize>>,
    boxes: Seq<BoundingBox>,
    g: usize,
    cur: BoundingBox,
) -> bool {
    &&& assign.len() == t.width * t.height
    &&& boxes.len() == g
    &&& forall|i: int| 0 <= i < assign.len() && #[trigger] assign[i] is Some ==> opaque_at(t, i)
    &&& forall|i: int|
        0 <= i < assign.len() && #[trigger] assign[i] is Some ==> assign[i]->Some_0 <= g
    &&& forall|i: int|
        0 <= i < assign.len() && #[trigger] assign[i] is Some && assign[i]->Some_0 < g
            ==> bb_contains(
            boxes[assign[i]->Some_0 as int],
            i % (t.width as int),
            i / (t.width as int),
        )
    &&& forall|i: int|
        0 <= i < assign.len() && #[trigger] assign[i] is Some && assign[i]->Some_0 == g
            ==> bb_contains(cur, i % (t.width as int), i / (t.width as int))
    &&& forall|gi: int|
        0 <= gi < boxes.len() ==> bb_wf(#[trigger] boxes[gi]) && boxes[gi].max.x < t.width
            && boxes[gi].max.y < t.height
    &&& bb_wf(cur) && cur.max.x < t.width && cur.max.y < t.height
}

/// All pixels start out unassigned.
fn blank_assignment(len: usize) -> (r: Vec<Option<usize>>)
    ensures
        r@.len() == len,
        forall|i: int| 0 <= i < len ==> r@[i] is None,
{
    let mut r: Vec<Option<usize>> = Vec::new();
    let mut i: usize = 0;
    while i < len
        invariant
            i <= len,
            r@.len() == i,
            forall|j: int| 0 <= j < i ==> r@[j] is None,
        decreases len - i,
    {
        r.push(None);
        i = i + 1;
    }
    r
}

/// Count the opaque pixels that are not yet assigned to a group.
fn count_unassigned(t: &TextureData, assign: &Vec<Option<usize>>) -> (r: usize)
    requires
        texture_wf(*t),
        assign@.len() == t.width * t.height,
    ensures
        r == ua_count(*t, assign@, assign@.len() as int),
{
    let mut c: usize = 0;
    let mut i: usize = 0;
    proof {
        lemma_ua_bounds(*t, assign@, assign@.len() as int);
    }
    while i < assign.len()
        invariant
            texture_wf(*t),
            assign@.len() == t.width * t.height,
            i <= assign@.len(),
            c == ua_count(*t, assign@, i as int),
            c <= i,
        decreases assign@.len() - i,
    {
        proof {
            lemma_ua_bounds(*t, assign@, i as int);
        }
        if t.opaque_idx(i) && assign[i].is_none() {
            c = c + 1;
        }
        i = i + 1;
    }
    c
}

/// Find the k-th opaque, unassigned pixel in raster order.
fn find_kth_unassigned(t: &TextureData, assign: &Vec<Option<usize>>, k: usize) -> (r: usize)
    requires
        texture_wf(*t),
        assign@.len() == t.width * t.height,
        1 <= k <= ua_count(*t, assign@, assign@.len() as int),
    ensures
        r < assign@.len(),
        opaque_at(*t, r as int),
        assign@[r as int] is None,
{
    let mut j: usize = 0;
    let mut c: usize = 0;
    while j < assign.len()
        invariant
            texture_wf(*t),
            assign@.len() == t.width * t.height,
            j <= assign@.len(),
            c == ua_count(*t, assign@, j as int),
            c < k,
            k <= ua_count(*t, assign@, assign@.len() as int),
        decreases assign@.len() - j,
    {
        if t.opaque_idx(j) && assign[j].is_none() {
            if c + 1 == k {
                return j;
            }
            c = c + 1;
        }
        j = j + 1;
    }
    proof {
        assert(false);
    }
    vstd::pervasive::unreached()
}

/// Mark every opaque, unassigned pixel of the rectangle as part of group
/// g, growing the group's running bounding box around the marked pixels.
/// The returned tuple updates the four edge-witness pixels of the running
/// box, so the box stays tight around the pixels the group owns.
fn stamp_rectangle(
    t: &TextureData,
    assign: &mut Vec<Option<usize>>,
    boxes: Ghost<Seq<BoundingBox>>,
    g: usize,
    x0: usize,
    y0: usize,
    x1: usize,
    y1: usize,
    cur: &mut BoundingBox,
    remaining: &mut usize,
    wit_in: Ghost<(int, int, int, int)>,
) -> (wit: Ghost<(int, int, int, int)>)
    requires
        texture_wf(*t),
        x0 <= x1 < t.width,
        y0 <= y1 < t.height,
        *old(remaining) == ua_count(*t, old(assign)@, old(assign)@.len() as int),
        stamp_inv(*t, old(assign)@, boxes@, g, *old(cur)),
        cur_tight(*t, old(assign)@, g, *old(cur), wit_in@),
    ensures
        final(assign)@.len() == old(assign)@.len(),
        *final(remaining) == ua_count(*t, final(assign)@, final(assign)@.len() as int),
        *final(remaining) <= *old(remaining),
        stamp_inv(*t, final(assign)@, boxes@, g, *final(cur)),
        cur_tight(*t, final(assign)@, g, *final(cur), wit@),
        forall|i: int|
            0 <= i < old(assign)@.len() ==> final(assign)@[i] == old(assign)@[i] || (old(
                assign,
            )@[i] is None && final(assign)@[i] == Some(g)),
        forall|x: int, y: int| bb_contains(*old(cur), x, y) ==> bb_contains(*final(cur), x, y),
{
    let w: usize = t.width;
    let ghost mut cw = wit_in@;
    let mut y: usize = y0;
    while y <= y1
        invariant
            texture_wf(*t),
            w == t.width,
            x0 <= x1 < t.width,
            y0 <= y <= y1 + 1,
            y1 < t.height,
            assign@.len() == old(assign)@.len(),
            *remaining == ua_count(*t, assign@, assign@.len() as int),
            *remaining <= *old(remaining),
            stamp_inv(*t, assign@, boxes@, g, *cur),
            cur_tight(*t, assign@, g, *cur, cw),
            forall|i: int|
                0 <= i < old(assign)@.len() ==> assign@[i] == old(assign)@[i] || (old(
                    assign,
                )@[i] is None && assign@[i] == Some(g)),
            forall|xx: int, yy: int| bb_contains(*old(cur), xx, yy) ==> bb_contains(*cur, xx, yy),
        decreases y1 + 1 - y,
    {
        let mut x: usize = x0;
        while x <= x1
            invariant
                texture_wf(*t),
                w == t.width,
                x0 <= x <= x1 + 1,
                x1 < t.width,
                y0 <= y <= y1,
                y1 < t.height,
                assign@.len() == old(assign)@.len(),
                *remaining == ua_count(*t, assign@, assign@.len() as int),
                *remaining <= *old(remaining),
                stamp_inv(*t, assign@, boxes@, g, *cur),
                cur_tight(*t, assign@, g, *cur, cw),
                forall|i: int|
                    0 <= i < old(assign)@.len() ==> assign@[i] == old(assign)@[i] || (old(
                        assign,
                    )@[i] is None && assign@[i] == Some(g)),
                forall|xx: int, yy: int|
                    bb_contains(*old(cur), xx, yy) ==> bb_contains(*cur, xx, yy),
            decreases x1 + 1 - x,
        {
            proof {
                lemma_pixel_index(x as int, y as int, t.width as int, t.height as int);
                lemma_idx_xy(x as int, y as int, t.width as int);
            }
            let idx: usize = y * w + x;
            if t.opaque_idx(idx) && assign[idx].is_none() {
                proof {
                    lemma_ua_update(
                        *t,
                        assign@,
                        idx as int,
                        g,
                        assign@.len() as int,
                    );
                    lemma_ua_bounds(*t, assign@.update(idx as int, Some(g)), assign@.len() as int);
                }
                let ghost prev = assign@;
                let ghost box_prev = *cur;
                assign.set(idx, Some(g));
                *cur = cur.expand_to_fit(PixelPos { x, y });
                *remaining = *remaining - 1;
                proof {
                    assert forall|i: int|
                        0 <= i < assign@.len() && #[trigger] assign@[i] is Some
                            && assign@[i]->Some_0 == g implies bb_contains(
                        *cur,
                        i % (t.width as int),
                        i / (t.width as int),
                    ) by {
                        if i == idx as int {
                            assert(bb_contains(*cur, x as int, y as int));
                        } else {
                            assert(assign@[i] == prev[i]);
                        }
                    }
                    // the claimed pixel takes over whichever edge it moved
                    assert(prev[cw.0] == Some(g) && prev[cw.1] == Some(g) && prev[cw.2] == Some(g)
                        && prev[cw.3] == Some(g));
                    cw = (
                        if (x as int) < box_prev.min.x {
                            idx as int
                        } else {
                            cw.0
                        },
                        if (x as int) > box_prev.max.x {
                            idx as int
                        } else {
                            cw.1
                        },
                        if (y as int) < box_prev.min.y {
                            idx as int
                        } else {
                            cw.2
                        },
                        if (y as int) > box_prev.max.y {
                            idx as int
                        } else {
                            cw.3
                        },
                    );
                    assert(cur_tight(*t, assign@, g, *cur, cw));
                }
            }
            x = x + 1;
        }
        y = y + 1;
    }
    Ghost(cw)
}

/// An inclusive random span of the given random size, clamped to [0, dim)
/// and positioned to contain s.
fn random_span_around(rng: &mut Rng, s: usize, dim: usize) -> (r: (usize, usize))
    requires
        s < dim,
    ensures
        r.0 <= s <= r.1 < dim,
{
    let size0: usize = rng.range_usize(4, 8);
    let size: usize = if size0 > dim {
        dim
    } else {
        size0
    };
    let off: usize = rng.range_usize(0, size);
    let base: usize = if s >= off {
        s - off
    } else {
        0
    };
    let lo: usize = if base > dim - size {
        dim - size
    } else {
        base
    };
    (lo, lo + size - 1)
}

/// Claiming pixels for the open group g keeps every closed group's
/// witness pixel in place: assigned entries are never overwritten.
proof fn lemma_witnesses_preserved(
    prev: Seq<Option<usize>>,
    next: Seq<Option<usize>>,
    wit: Seq<int>,
    g: usize,
)
    requires
        prev.len() == next.len(),
        forall|i: int|
            0 <= i < prev.len() ==> next[i] == prev[i] || (prev[i] is None && next[i] == Some(g)),
        forall|gi: int|
            0 <= gi < wit.len() ==> 0 <= #[trigger] wit[gi] < prev.len() && prev[wit[gi]] == Some(
                gi as usize,
            ),
    ensures
        forall|gi: int|
            0 <= gi < wit.len() ==> 0 <= #[trigger] wit[gi] < next.len() && next[wit[gi]] == Some(
                gi as usize,
            ),
{
    assert forall|gi: int| 0 <= gi < wit.len() implies 0 <= #[trigger] wit[gi] < next.len()
        && next[wit[gi]] == Some(gi as usize) by {
        assert(prev[wit[gi]] == Some(gi as usize));
    }
}

/// Closing the open group g with its box re-establishes the group
/// invariant for the extended box list.
proof fn lemma_close_group(
    t: TextureData,
    assign: Seq<Option<usize>>,
    closed: Seq<BoundingBox>,
    cur: BoundingBox,
    g: usize,
    seed: int,
    wit: Seq<int>,
)
    requires
        stamp_inv(t, assign, closed, g, cur),
        0 <= seed < assign.len(),
        assign[seed] == Some(g),
        wit.len() == g,
        forall|gi: int|
            0 <= gi < wit.len() ==> 0 <= #[trigger] wit[gi] < assign.len() && assign[wit[gi]]
                == Some(gi as usize),
    ensures
        groups_ok_wit(t, assign, closed.push(cur), wit.push(seed)),
{
    let boxes = closed.push(cur);
    assert forall|i: int|
        0 <= i < assign.len() && #[trigger] assign[i] is Some implies assign[i]->Some_0
        < boxes.len() && bb_contains(
        boxes[assign[i]->Some_0 as int],
        i % (t.width as int),
        i / (t.width as int),
    ) by {
        let gv = assign[i]->Some_0;
        if gv < g {
            assert(boxes[gv as int] == closed[gv as int]);
        } else {
            assert(gv == g);
            assert(boxes[gv as int] == cur);
        }
    }
    assert forall|gi: int|
        0 <= gi < boxes.len() implies bb_wf(#[trigger] boxes[gi]) && boxes[gi].max.x < t.width
        && boxes[gi].max.y < t.height by {
        if gi < g {
            assert(boxes[gi] == closed[gi]);
            assert(bb_wf(closed[gi]));
        } else {
            assert(boxes[gi] == cur);
        }
    }
    let wit2 = wit.push(seed);
    assert forall|gi: int| 0 <= gi < wit2.len() implies 0 <= #[trigger] wit2[gi] < assign.len()
        && assign[wit2[gi]] == Some(gi as usize) by {
        if gi < g {
            assert(wit2[gi] == wit[gi]);
        } else {
            assert(wit2[gi] == seed);
        }
    }
}

/// Segment a sprite's opaque pixels into randomized groups, per the
/// shatter decomposition: repeatedly draw a uniformly random still
/// ungrouped opaque pixel as a seed (the k-th such pixel in raster order,
/// k uniform in [1, N]), then stamp one or two small random rectangles
/// around it, claiming every opaque, still ungrouped pixel inside; each
/// group records the tight bounding box of the pixels it claimed, as the
/// edge-witness certificate in the ensures shows.
pub fn decompose_groups(t: &TextureData, rng: &mut Rng) -> (r: Decomposition)
    requires
        texture_wf(*t),
    ensures
        decomposition_ok(*t, r.assign@, r.boxes@),
        r.assign@.len() == t.width * t.height,
        exists|wit: Seq<(int, int, int, int)>| #[trigger] tight_witness(
            *t,
            r.assign@,
            r.boxes@,
            wit,
        ),
{
    proof {
        assert(t.width * t.height < 0x100000000int) by (nonlinear_arith)
            requires
                0 < t.width < 65536,
                0 < t.height < 65536,
        ;
    }
    let len: usize = t.width * t.height;
    let mut assign: Vec<Option<usize>> = blank_assignment(len);
    let mut boxes: Vec<BoundingBox> = Vec::new();
    let mut remaining: usize = count_unassigned(t, &assign);
    let ghost mut wit: Seq<int> = Seq::empty();
    let ghost mut box_wits: Seq<(int, int, int, int)> = Seq::empty();
    proof {
        lemma_ua_bounds(*t, assign@, len as int);
    }
    while remaining > 0
        invariant
            texture_wf(*t),
            len == t.width * t.height,
            len < 0x100000000,
            assign@.len() == len,
            remaining == ua_count(*t, assign@, len as int),
            remaining <= len,
            groups_ok_wit(*t, assign@, boxes@, wit),
            tight_witness(*t, assign@, boxes@, box_wits),
        decreases remaining,
    {
        let k: usize = rng.range_usize(1, remaining + 1);
        let seed: usize = find_kth_unassigned(t, &assign, k);
        let sx: usize = seed % t.width;
        let sy: usize = seed / t.width;
        proof {
            lemma_fundamental_div_mod(seed as int, t.width as int);
            assert(sy < t.height) by (nonlinear_arith)
                requires
                    seed as int == t.width * (seed as int / t.width as int) + (
                    seed as int % t.width as int),
                    sy == seed as int / t.width as int,
                    sx == seed as int % t.width as int,
                    0 <= sx,
                    sy >= 0,
                    seed < t.width * t.height,
                    t.width > 0,
                    t.height > 0,
            ;
        }
        let g: usize = boxes.len();
        let ghost pre = assign@;
        assign.set(seed, Some(g));
        proof {
            lemma_ua_update(*t, pre, seed as int, g, len as int);
            lemma_witnesses_preserved(pre, assign@, wit, g);
            lemma_tight_preserved(*t, pre, assign@, boxes@, box_wits, g);
        }
        remaining = remaining - 1;
        let mut cur = BoundingBox {
            min: PixelPos { x: sx, y: sy },
            max: PixelPos { x: sx, y: sy },
        };
        let ghost mut cur_wit: (int, int, int, int) = (
            seed as int,
            seed as int,
            seed as int,
            seed as int,
        );
        proof {
            assert(cur_tight(*t, assign@, g, cur, cur_wit));
        }
        let ghost rem_after_seed = remaining;
        let iters: usize = rng.range_usize(1, 3);
        let mut it: usize = 0;
        while it < iters
            invariant
                texture_wf(*t),
                len == t.width * t.height,
                len < 0x100000000,
                assign@.len() == len,
                remaining == ua_count(*t, assign@, len as int),
                remaining <= rem_after_seed,
                g == boxes@.len(),
                stamp_inv(*t, assign@, boxes@, g, cur),
                cur_tight(*t, assign@, g, cur, cur_wit),
                tight_witness(*t, assign@, boxes@, box_wits),
                seed < len,
                sx < t.width,
                sy < t.height,
                assign@[seed as int] == Some(g),
                wit.len() == g,
                forall|gi: int|
                    0 <= gi < wit.len() ==> 0 <= #[trigger] wit[gi] < assign@.len()
                        && assign@[wit[gi]] == Some(gi as usize),
            decreases iters - it,
        {
            let span_x: (usize, usize) = random_span_around(rng, sx, t.width);
            let span_y: (usize, usize) = random_span_around(rng, sy, t.height);
            let ghost before = assign@;
            let wit4: Ghost<(int, int, int, int)> = stamp_rectangle(
                t,
                &mut assign,
                Ghost(boxes@),
                g,
                span_x.0,
                span_y.0,
                span_x.1,
                span_y.1,
                &mut cur,
                &mut remaining,
                Ghost(cur_wit),
            );
            proof {
                cur_wit = wit4@;
                assert(assign@[seed as int] == Some(g));
                lemma_witnesses_preserved(before, assign@, wit, g);
                lemma_tight_preserved(*t, before, assign@, boxes@, box_wits, g);
            }
            it = it + 1;
        }
        let ghost closed = boxes@;
        proof {
            lemma_close_group(*t, assign@, closed, cur, g, seed as int, wit);
            wit = wit.push(seed as int);
        }
        boxes.push(cur);
        proof {
            assert(boxes@ == closed.push(cur));
            // the closed box carries the open group's edge witnesses
            let bw2 = box_wits.push(cur_wit);
            assert forall|g2: int|
                0 <= g2 < boxes@.len() implies {
                let e = #[trigger] bw2[g2];
                let w = t.width as int;
                &&& 0 <= e.0 < assign@.len() && assign@[e.0] == Some(g2 as usize) && e.0 % w
                    == boxes@[g2].min.x
                &&& 0 <= e.1 < assign@.len() && assign@[e.1] == Some(g2 as usize) && e.1 % w
                    == boxes@[g2].max.x
                &&& 0 <= e.2 < assign@.len() && assign@[e.2] == Some(g2 as usize) && e.2 / w
                    == boxes@[g2].min.y
                &&& 0 <= e.3 < assign@.len() && assign@[e.3] == Some(g2 as usize) && e.3 / w
                    == boxes@[g2].max.y
            } by {
                if g2 < g {
                    assert(bw2[g2] == box_wits[g2]);
                    assert(boxes@[g2] == closed[g2]);
                } else {
                    assert(bw2[g2] == cur_wit);
                    assert(boxes@[g2] == cur);
                }
            }
            box_wits = bw2;
        }
    }
    proof {
        lemma_ua_zero(*t, assign@, len as int);
        lemma_groups_ok_from_wit(*t, assign@, boxes@, wit);
        assert(tight_witness(*t, assign@, boxes@, box_wits));
    }
    Decomposition { assign, boxes }
}

/// How many of the first n entries are still false.
pub open spec fn count_false(s: Seq<bool>, n: int) -> int
    decreases n,
{
    if n <= 0 {
        0
    } else {
        count_false(s, n - 1) + if !s[n - 1] {
            1int
        } else {
            0int
        }
    }
}

proof fn lemma_count_false_bounds(s: Seq<bool>, n: int)
    requires
        n >= 0,
    ensures
        0 <= count_false(s, n) <= n,
    decreases n,
{
    if n > 0 {
        lemma_count_false_bounds(s, n - 1);
    }
}

proof fn lemma_count_false_update(s: Seq<bool>, j: int, n: int)
    requires
        0 <= j < s.len(),
        !s[j],
        0 <= n <= s.len(),
    ensures
        count_false(s.update(j, true), n) == count_false(s, n) - if j < n {
            1int
        } else {
            0int
        },
    decreases n,
{
    if n > 0 {
        lemma_count_false_update(s, j, n - 1);
    }
}

proof fn lemma_count_false_at_least_one(s: Seq<bool>, j: int, n: int)
    requires
        0 <= j < n <= s.len(),
        !s[j],
    ensures
        count_false(s, n) >= 1,
    decreases n,
{
    if j < n - 1 {
        lemma_count_false_at_least_one(s, j, n - 1);
        lemma_count_false_bounds(s, n - 1);
    } else {
        lemma_count_false_bounds(s, n - 1);
    }
}

/// Whether any box already absorbed into atlas a intersects box j.
fn open_intersects(
    boxes: &Vec<BoundingBox>,
    used: &Vec<bool>,
    atlas_of: &Vec<usize>,
    a: usize,
    j: usize,
) -> (r: bool)
    requires
        used@.len() == boxes@.len(),
        atlas_of@.len() == boxes@.len(),
        j < boxes@.len(),
    ensures
        r == exists|i: int|
            0 <= i < boxes@.len() && #[trigger] used@[i] && atlas_of@[i] == a
                && bb_intersects_spec(boxes@[i], boxes@[j as int]),
{
    let n: usize = boxes.len();
    let mut i: usize = 0;
    while i < n
        invariant
            n == boxes@.len(),
            used@.len() == n,
            atlas_of@.len() == n,
            j < n,
            i <= n,
            forall|k: int|
                0 <= k < i ==> !(#[trigger] used@[k] && atlas_of@[k] == a && bb_intersects_spec(
                    boxes@[k],
                    boxes@[j as int],
                )),
        decreases n - i,
    {
        if used[i] && atlas_of[i] == a && boxes[i].intersects(&boxes[j]) {
            return true;
        }
        i = i + 1;
    }
    false
}

/// An absorption forest certifying that each atlas is transitively
/// connected through box intersections: every box either is the box its
/// atlas was opened with (its own parent, one such root per atlas), or
/// holds a parent link to an intersecting box of its own atlas with
/// strictly smaller rank, so following parents from any box reaches the
/// atlas's root through intersections alone.
pub open spec fn atlas_forest(
    boxes: Seq<BoundingBox>,
    atlas_of: Seq<usize>,
    parent: Seq<int>,
    rank: Seq<int>,
) -> bool {
    &&& parent.len() == boxes.len()
    &&& rank.len() == boxes.len()
    &&& forall|i: int|
        0 <= i < boxes.len() ==> parent[i] == i || (0 <= #[trigger] parent[i] < boxes.len()
            && atlas_of[parent[i]] == atlas_of[i] && bb_intersects_spec(boxes[parent[i]], boxes[i])
            && rank[parent[i]] < rank[i])
    &&& forall|i: int, j: int|
        0 <= i < boxes.len() && 0 <= j < boxes.len() && #[trigger] parent[i] == i
            && #[trigger] parent[j] == j && atlas_of[i] == atlas_of[j] ==> i == j
}

/// Greedy atlas packing: take any unconsumed box, open a new atlas with
/// it, then absorb every remaining box that intersects a box already in
/// the atlas until a fixed point is reached, and repeat until every box
/// is consumed. Returns, for every box, the atlas it landed in, and the
/// number of atlases; boxes in different atlases never intersect, so no
/// two atlases share screen space, and each atlas is transitively
/// connected through intersections, as the absorption-order witness
/// certifies.
/// The forest invariant while boxes are still being consumed: every
/// consumed box is its atlas's root or links to an intersecting consumed
/// box of its atlas with smaller rank, and each atlas has one root.
spec fn pack_forest_inv(
    boxes: Seq<BoundingBox>,
    used: Seq<bool>,
    atlas_of: Seq<usize>,
    parent: Seq<int>,
    rank: Seq<int>,
) -> bool {
    &&& parent.len() == boxes.len()
    &&& rank.len() == boxes.len()
    &&& forall|i: int|
        0 <= i < boxes.len() && used[i] ==> parent[i] == i || (0 <= #[trigger] parent[i]
            < boxes.len() && used[parent[i]] && atlas_of[parent[i]] == atlas_of[i]
            && bb_intersects_spec(boxes[parent[i]], boxes[i]) && rank[parent[i]] < rank[i])
    &&& forall|i: int, j: int|
        0 <= i < boxes.len() && 0 <= j < boxes.len() && used[i] && used[j] && #[trigger] parent[i]
            == i && #[trigger] parent[j] == j && atlas_of[i] == atlas_of[j] ==> i == j
}

pub fn pack_atlases(boxes: &Vec<BoundingBox>) -> (r: (Vec<usize>, usize))
    ensures
        r.0@.len() == boxes@.len(),
        forall|i: int| 0 <= i < boxes@.len() ==> #[trigger] r.0@[i] < r.1,
        r.1 <= boxes@.len(),
        forall|i1: int, i2: int|
            0 <= i1 < boxes@.len() && 0 <= i2 < boxes@.len() && r.0@[i1] != r.0@[i2]
                ==> !bb_intersects_spec(boxes@[i1], boxes@[i2]),
        exists|parent: Seq<int>, rank: Seq<int>|
            #[trigger] atlas_forest(boxes@, r.0@, parent, rank),
{
    let n: usize = boxes.len();
    let mut used: Vec<bool> = Vec::new();
    let mut atlas_of: Vec<usize> = Vec::new();
    let mut fill: usize = 0;
    while fill < n
        invariant
            fill <= n,
            used@.len() == fill,
            atlas_of@.len() == fill,
            forall|i: int| 0 <= i < fill ==> !(#[trigger] used@[i]),
        decreases n - fill,
    {
        used.push(false);
        atlas_of.push(0);
        fill = fill + 1;
    }
    let mut count: usize = 0;
    let mut free: usize = n;
    let ghost mut parent: Seq<int> = Seq::new(n as nat, |i: int| i);
    let ghost mut rank: Seq<int> = Seq::new(n as nat, |i: int| 0);
    proof {
        lemma_count_false_all(used@, n as int);
    }
    let mut start: usize = 0;
    while start < n
        invariant
            n == boxes@.len(),
            used@.len() == n,
            atlas_of@.len() == n,
            start <= n,
            count <= n,
            free == count_false(used@, n as int),
            count + free <= n,
            forall|i: int| 0 <= i < start ==> #[trigger] used@[i],
            forall|i: int| 0 <= i < n && #[trigger] used@[i] ==> atlas_of@[i] < count,
            forall|i: int, j: int|
                0 <= i < n && 0 <= j < n && #[trigger] used@[i] && !(#[trigger] used@[j])
                    ==> !bb_intersects_spec(boxes@[i], boxes@[j]),
            forall|i1: int, i2: int|
                0 <= i1 < n && 0 <= i2 < n && #[trigger] used@[i1] && #[trigger] used@[i2]
                    && atlas_of@[i1] != atlas_of@[i2] ==> !bb_intersects_spec(
                    boxes@[i1],
                    boxes@[i2],
                ),
            pack_forest_inv(boxes@, used@, atlas_of@, parent, rank),
        decreases n - start,
    {
        if !used[start] {
            let a: usize = count;
            let ghost used0 = used@;
            let ghost atlas0 = atlas_of@;
            proof {
                lemma_count_false_at_least_one(used@, start as int, n as int);
                lemma_count_false_update(used@, start as int, n as int);
            }
            used.set(start, true);
            atlas_of.set(start, a);
            count = count + 1;
            free = free - 1;
            proof {
                // the opened box roots its new atlas
                parent = parent.update(start as int, start as int);
                rank = rank.update(start as int, 0);
                assert forall|i: int|
                    0 <= i < boxes@.len() && used@[i] implies parent[i] == i || (0
                    <= #[trigger] parent[i] < boxes@.len() && used@[parent[i]]
                    && atlas_of@[parent[i]] == atlas_of@[i] && bb_intersects_spec(
                    boxes@[parent[i]],
                    boxes@[i],
                ) && rank[parent[i]] < rank[i]) by {
                    if i != start {
                        assert(used0[i]);
                        if parent[i] != i {
                            assert(used0[parent[i]]);
                            assert(parent[i] != start);
                        }
                    }
                }
                assert forall|i: int, j: int|
                    0 <= i < boxes@.len() && 0 <= j < boxes@.len() && used@[i] && used@[j]
                        && #[trigger] parent[i] == i && #[trigger] parent[j] == j && atlas_of@[i]
                        == atlas_of@[j] implies i == j by {
                    if i == start && j != start {
                        assert(used0[j]);
                        assert(atlas0[j] < a);
                    }
                    if j == start && i != start {
                        assert(used0[i]);
                        assert(atlas0[i] < a);
                    }
                }
            }
            let mut changed: bool = true;
            while changed
                invariant
                    n == boxes@.len(),
                    used@.len() == n,
                    atlas_of@.len() == n,
                    a + 1 == count,
                    count <= n,
                    count + free <= n,
                    start < n,
                    free == count_false(used@, n as int),
                    forall|i: int| 0 <= i <= start ==> #[trigger] used@[i],
                    forall|i: int| 0 <= i < n && #[trigger] used@[i] ==> atlas_of@[i] < count,
                    forall|i: int, j: int|
                        0 <= i < n && 0 <= j < n && #[trigger] used@[i] && atlas_of@[i] != a && !(
                        #[trigger] used@[j]) ==> !bb_intersects_spec(boxes@[i], boxes@[j]),
                    forall|i1: int, i2: int|
                        0 <= i1 < n && 0 <= i2 < n && #[trigger] used@[i1] && #[trigger] used@[i2]
                            && atlas_of@[i1] != atlas_of@[i2] ==> !bb_intersects_spec(
                            boxes@[i1],
                            boxes@[i2],
                        ),
                    !changed ==> forall|i: int, j: int|
                        0 <= i < n && 0 <= j < n && #[trigger] used@[i] && atlas_of@[i] == a && !(
                        #[trigger] used@[j]) ==> !bb_intersects_spec(boxes@[i], boxes@[j]),
                    pack_forest_inv(boxes@, used@, atlas_of@, parent, rank),
                decreases free + if changed {
                    1int
                } else {
                    0int
                },
            {
                changed = false;
                let ghost free_pass = free;
                let mut j: usize = 0;
                while j < n
                    invariant
                        n == boxes@.len(),
                        used@.len() == n,
                        atlas_of@.len() == n,
                        a + 1 == count,
                        count <= n,
                        count + free <= n,
                        start < n,
                        j <= n,
                        free == count_false(used@, n as int),
                        forall|i: int| 0 <= i <= start ==> #[trigger] used@[i],
                        free <= free_pass,
                        changed ==> free < free_pass,
                        forall|i: int| 0 <= i < n && #[trigger] used@[i] ==> atlas_of@[i] < count,
                        forall|i: int, jx: int|
                            0 <= i < n && 0 <= jx < n && #[trigger] used@[i] && atlas_of@[i] != a
                                && !(#[trigger] used@[jx]) ==> !bb_intersects_spec(
                                boxes@[i],
                                boxes@[jx],
                            ),
                        forall|i1: int, i2: int|
                            0 <= i1 < n && 0 <= i2 < n && #[trigger] used@[i1]
                                && #[trigger] used@[i2] && atlas_of@[i1] != atlas_of@[i2]
                                ==> !bb_intersects_spec(boxes@[i1], boxes@[i2]),
                        !changed ==> forall|i: int, jx: int|
                            0 <= i < n && 0 <= jx < j && #[trigger] used@[i] && atlas_of@[i] == a
                                && !(#[trigger] used@[jx]) ==> !bb_intersects_spec(
                                boxes@[i],
                                boxes@[jx],
                            ),
                        pack_forest_inv(boxes@, used@, atlas_of@, parent, rank),
                    decreases n - j,
                {
                    if !used[j] {
                        if open_intersects(boxes, &used, &atlas_of, a, j) {
                            let ghost used0 = used@;
                            let ghost atlas0 = atlas_of@;
                            proof {
                                lemma_count_false_at_least_one(used@, j as int, n as int);
                                lemma_count_false_update(used@, j as int, n as int);
                            }
                            used.set(j, true);
                            atlas_of.set(j, a);
                            free = free - 1;
                            changed = true;
                            proof {
                                // the absorbed box links to the atlas box
                                // it intersects
                                let wi = choose|i2: int|
                                    0 <= i2 < boxes@.len() && used0[i2] && atlas0[i2] == a
                                        && bb_intersects_spec(boxes@[i2], boxes@[j as int]);
                                parent = parent.update(j as int, wi);
                                rank = rank.update(j as int, rank[wi] + 1);
                                assert forall|i: int|
                                    0 <= i < boxes@.len() && used@[i] implies parent[i] == i || (0
                                    <= #[trigger] parent[i] < boxes@.len() && used@[parent[i]]
                                    && atlas_of@[parent[i]] == atlas_of@[i] && bb_intersects_spec(
                                    boxes@[parent[i]],
                                    boxes@[i],
                                ) && rank[parent[i]] < rank[i]) by {
                                    if i == j {
                                        assert(used0[wi] && wi != j);
                                    } else {
                                        assert(used0[i]);
                                        if parent[i] != i {
                                            assert(used0[parent[i]]);
                                            assert(parent[i] != j);
                                        }
                                    }
                                }
                                assert forall|i: int, i2: int|
                                    0 <= i < boxes@.len() && 0 <= i2 < boxes@.len() && used@[i]
                                        && used@[i2] && #[trigger] parent[i] == i
                                        && #[trigger] parent[i2] == i2 && atlas_of@[i]
                                        == atlas_of@[i2] implies i == i2 by {
                                    if i == j {
                                        assert(parent[j as int] == wi && wi != j);
                                    }
                                    if i2 == j {
                                        assert(parent[j as int] == wi && wi != j);
                                    }
                                    assert(used0[i] && used0[i2]);
                                }
                            }
                        }
                    }
                    j = j + 1;
                }
            }
        }
        start = start + 1;
    }
    proof {
        assert forall|i: int| 0 <= i < n implies #[trigger] atlas_of@[i] < count by {
            assert(used@[i]);
        }
        assert forall|i1: int, i2: int|
            0 <= i1 < n && 0 <= i2 < n && atlas_of@[i1] != atlas_of@[i2] implies !bb_intersects_spec(
            boxes@[i1],
            boxes@[i2],
        ) by {
            assert(used@[i1]);
            assert(used@[i2]);
        }
        // every box is consumed, so the forest certifies connectivity
        assert forall|i: int|
            0 <= i < boxes@.len() implies parent[i] == i || (0 <= #[trigger] parent[i]
            < boxes@.len() && atlas_of@[parent[i]] == atlas_of@[i] && bb_intersects_spec(
            boxes@[parent[i]],
            boxes@[i],
        ) && rank[parent[i]] < rank[i]) by {
            assert(used@[i]);
        }
        assert(atlas_forest(boxes@, atlas_of@, parent, rank));
    }
    (atlas_of, count)
}

/// A fully false vector has as many false entries as its length.
proof fn lemma_count_false_all(s: Seq<bool>, n: int)
    requires
        0 <= n <= s.len(),
        forall|i: int| 0 <= i < s.len() ==> !(#[trigger] s[i]),
    ensures
        count_false(s, n) == n,
    decreases n,
{
    if n > 0 {
        lemma_count_false_all(s, n - 1);
    }
}

} // verus!
