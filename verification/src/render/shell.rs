//! The outer shell of a frustum, cut into a grid: which quads it is made of, and
//! in which order their corners are walked.
//!
//! A point of the grid is named by the cuts it lies on. The same cuts serve every
//! face they reach, which is what keeps the edge of a cap and the side beside it
//! in step: cutting the two differently would leave hairline cracks.

use crate::render;
use vstd::prelude::*;

verus! {

/// A point of the grid: the cut it lies on, along each axis.
#[derive(Clone, Copy, Debug, PartialEq, Eq, Structural)]
pub struct GridPoint {
    pub u: usize,
    pub v: usize,
    pub w: usize,
}

/// One quad of the shell, its corners in winding order.
#[derive(Clone, Copy, Debug, PartialEq, Eq, Structural)]
pub struct ShellQuad {
    pub a: GridPoint,
    pub b: GridPoint,
    pub c: GridPoint,
    pub d: GridPoint,
}

/// One segment of the ring around a cap.
#[derive(Clone, Copy, Debug, PartialEq, Eq)]
pub struct Segment {
    pub from: (usize, usize),
    pub to: (usize, usize),
}

/// A point of the grid.
pub open spec fn point(u: int, v: int, w: int) -> GridPoint {
    GridPoint { u: u as usize, v: v as usize, w: w as usize }
}

/// A segment between two points of a cap.
pub open spec fn segment(ua: int, va: int, ub: int, vb: int) -> Segment {
    Segment { from: (ua as usize, va as usize), to: (ub as usize, vb as usize) }
}

/// The quad of the near cap over the patch `i`, `j`.
pub open spec fn near_quad(i: int, j: int) -> ShellQuad {
    ShellQuad {
        a: point(i, j + 1, 0),
        b: point(i + 1, j + 1, 0),
        c: point(i + 1, j, 0),
        d: point(i, j, 0),
    }
}

/// The quad of the far cap over the patch `i`, `j`: the near one walked the other
/// way round.
pub open spec fn far_quad(i: int, j: int, nw: int) -> ShellQuad {
    ShellQuad {
        a: point(i, j, nw),
        b: point(i + 1, j, nw),
        c: point(i + 1, j + 1, nw),
        d: point(i, j + 1, nw),
    }
}

/// The quads of the two caps.
pub open spec fn caps(nu: nat, nv: nat, nw: nat) -> Seq<ShellQuad> {
    render::gathered(|j: int| cap_row(nu, j, nw as int), nv)
}

/// The quads of the two caps in the row `j`.
pub open spec fn cap_row(nu: nat, j: int, nw: int) -> Seq<ShellQuad> {
    render::gathered(|i: int| seq![near_quad(i, j), far_quad(i, j, nw)], nu)
}

/// The ring around a cap: along one edge, and on round the other three.
pub open spec fn ring(nu: nat, nv: nat) -> Seq<Segment> {
    Seq::new(nu, |i: int| segment(i, nv as int, i + 1, nv as int)) + Seq::new(
        nv,
        |k: int| segment(nu as int, nv - k, nu as int, nv - k - 1),
    ) + Seq::new(nu, |k: int| segment(nu - k, 0, nu - k - 1, 0)) + Seq::new(
        nv,
        |j: int| segment(0, j, 0, j + 1),
    )
}

/// The quad of a side over one segment of the ring, between the cuts `k` and
/// `k + 1`.
pub open spec fn side_quad(s: Segment, k: int) -> ShellQuad {
    ShellQuad {
        a: point(s.from.0 as int, s.from.1 as int, k),
        b: point(s.from.0 as int, s.from.1 as int, k + 1),
        c: point(s.to.0 as int, s.to.1 as int, k + 1),
        d: point(s.to.0 as int, s.to.1 as int, k),
    }
}

/// The quads of a side over one segment of the ring.
pub open spec fn side(s: Segment, nw: nat) -> Seq<ShellQuad> {
    Seq::new(nw, |k: int| side_quad(s, k))
}

/// The quads of the four sides, walked as one ring.
pub open spec fn sides(segments: Seq<Segment>, nw: nat) -> Seq<ShellQuad> {
    render::gathered(|n: int| side(segments[n], nw), segments.len())
}

/// The quads of the shell: the two caps, and the sides between them. No quad
/// stands between neighbouring cells.
pub open spec fn shell(nu: nat, nv: nat, nw: nat) -> Seq<ShellQuad> {
    caps(nu, nv, nw) + sides(ring(nu, nv), nw)
}

fn push_cap_row(nu: usize, j: usize, nw: usize, quads: &mut Vec<ShellQuad>)
    requires
        j < usize::MAX,
    ensures
        final(quads)@ == old(quads)@ + cap_row(nu as nat, j as int, nw as int),
{
    let ghost start = quads@;
    let ghost f = |i: int| seq![near_quad(i, j as int), far_quad(i, j as int, nw as int)];
    let mut i: usize = 0;
    assert(start + render::gathered(f, 0) =~= start);
    while i < nu
        invariant
            i <= nu,
            j < usize::MAX,
            f == (|i: int| seq![near_quad(i, j as int), far_quad(i, j as int, nw as int)]),
            quads@ =~= start + render::gathered(f, i as nat),
        decreases nu - i,
    {
        let ghost before = quads@;
        assert(render::gathered(f, (i + 1) as nat) == render::gathered(f, i as nat) + f(i as int));
        quads.push(
            ShellQuad {
                a: GridPoint { u: i, v: j + 1, w: 0 },
                b: GridPoint { u: i + 1, v: j + 1, w: 0 },
                c: GridPoint { u: i + 1, v: j, w: 0 },
                d: GridPoint { u: i, v: j, w: 0 },
            },
        );
        quads.push(
            ShellQuad {
                a: GridPoint { u: i, v: j, w: nw },
                b: GridPoint { u: i + 1, v: j, w: nw },
                c: GridPoint { u: i + 1, v: j + 1, w: nw },
                d: GridPoint { u: i, v: j + 1, w: nw },
            },
        );
        assert(quads@ =~= before + f(i as int));
        i = i + 1;
    }
}

/// The ring around a cap of `nu` times `nv` patches, so that the outward winding
/// of the uncut frustum carries over segment by segment.
pub fn ring_segments(nu: usize, nv: usize) -> (segments: Vec<Segment>)
    ensures
        segments@ == ring(nu as nat, nv as nat),
{
    let mut segments: Vec<Segment> = Vec::new();
    let ghost top = Seq::new(nu as nat, |i: int| segment(i, nv as int, i + 1, nv as int));
    let ghost right = Seq::new(
        nv as nat,
        |k: int| segment(nu as int, nv - k, nu as int, nv - k - 1),
    );
    let ghost bottom = Seq::new(nu as nat, |k: int| segment(nu - k, 0, nu - k - 1, 0));
    let ghost left = Seq::new(nv as nat, |j: int| segment(0, j, 0, j + 1));
    let mut i: usize = 0;
    while i < nu
        invariant
            i <= nu,
            top == Seq::new(nu as nat, |i: int| segment(i, nv as int, i + 1, nv as int)),
            segments@ =~= top.take(i as int),
        decreases nu - i,
    {
        segments.push(Segment { from: (i, nv), to: (i + 1, nv) });
        i = i + 1;
    }
    assert(segments@ =~= top);
    let mut j: usize = nv;
    while j > 0
        invariant
            j <= nv,
            right == Seq::new(
                nv as nat,
                |k: int| segment(nu as int, nv - k, nu as int, nv - k - 1),
            ),
            segments@ =~= top + right.take(nv - j),
        decreases j,
    {
        segments.push(Segment { from: (nu, j), to: (nu, j - 1) });
        j = j - 1;
    }
    assert(segments@ =~= top + right);
    let mut i: usize = nu;
    while i > 0
        invariant
            i <= nu,
            bottom == Seq::new(nu as nat, |k: int| segment(nu - k, 0, nu - k - 1, 0)),
            segments@ =~= top + right + bottom.take(nu - i),
        decreases i,
    {
        segments.push(Segment { from: (i, 0), to: (i - 1, 0) });
        i = i - 1;
    }
    assert(segments@ =~= top + right + bottom);
    let mut j: usize = 0;
    while j < nv
        invariant
            j <= nv,
            left == Seq::new(nv as nat, |j: int| segment(0, j, 0, j + 1)),
            segments@ =~= top + right + bottom + left.take(j as int),
        decreases nv - j,
    {
        segments.push(Segment { from: (0, j), to: (0, j + 1) });
        j = j + 1;
    }
    assert(segments@ =~= top + right + bottom + left);
    segments
}

fn push_side(s: &Segment, nw: usize, quads: &mut Vec<ShellQuad>)
    ensures
        final(quads)@ == old(quads)@ + side(*s, nw as nat),
{
    let ghost start = quads@;
    let ghost planned = side(*s, nw as nat);
    let mut k: usize = 0;
    while k < nw
        invariant
            k <= nw,
            planned == side(*s, nw as nat),
            quads@ =~= start + planned.take(k as int),
        decreases nw - k,
    {
        quads.push(
            ShellQuad {
                a: GridPoint { u: s.from.0, v: s.from.1, w: k },
                b: GridPoint { u: s.from.0, v: s.from.1, w: k + 1 },
                c: GridPoint { u: s.to.0, v: s.to.1, w: k + 1 },
                d: GridPoint { u: s.to.0, v: s.to.1, w: k },
            },
        );
        k = k + 1;
    }
    assert(planned.take(k as int) =~= planned);
}

/// The quads of the shell of a frustum whose axes are cut into `nu`, `nv` and
/// `nw` spans.
pub fn shell_quads(nu: usize, nv: usize, nw: usize) -> (quads: Vec<ShellQuad>)
    ensures
        quads@ == shell(nu as nat, nv as nat, nw as nat),
{
    let mut quads: Vec<ShellQuad> = Vec::new();
    let ghost f = |j: int| cap_row(nu as nat, j, nw as int);
    let mut j: usize = 0;
    while j < nv
        invariant
            j <= nv,
            f == (|j: int| cap_row(nu as nat, j, nw as int)),
            quads@ =~= render::gathered(f, j as nat),
        decreases nv - j,
    {
        assert(render::gathered(f, (j + 1) as nat) == render::gathered(f, j as nat) + f(j as int));
        push_cap_row(nu, j, nw, &mut quads);
        j = j + 1;
    }
    let segments = ring_segments(nu, nv);
    let ghost start = quads@;
    let ghost g = |n: int| side(segments@[n], nw as nat);
    let mut n: usize = 0;
    assert(start + render::gathered(g, 0) =~= start);
    while n < segments.len()
        invariant
            n <= segments.len(),
            g == (|n: int| side(segments@[n], nw as nat)),
            quads@ =~= start + render::gathered(g, n as nat),
        decreases segments.len() - n,
    {
        assert(render::gathered(g, (n + 1) as nat) == render::gathered(g, n as nat) + g(n as int));
        push_side(&segments[n], nw, &mut quads);
        n = n + 1;
    }
    quads
}

/// The ring goes round: every segment starts where the one before it ends, and
/// the last ends where the first starts.
pub proof fn law_the_ring_is_closed(nu: nat, nv: nat)
    requires
        0 < nu <= usize::MAX,
        0 < nv <= usize::MAX,
    ensures
        ring(nu, nv).len() == 2 * (nu + nv),
        forall|n: int|
            0 <= n < ring(nu, nv).len() - 1 ==> (#[trigger] ring(nu, nv)[n]).to == ring(
                nu,
                nv,
            )[n + 1].from,
        ring(nu, nv).last().to == ring(nu, nv)[0].from,
{
}

/// The two points are neighbours on the winding of the quad, in that order.
pub open spec fn walks(quad: ShellQuad, from: GridPoint, to: GridPoint) -> bool {
    ||| quad.a == from && quad.b == to
    ||| quad.b == from && quad.c == to
    ||| quad.c == from && quad.d == to
    ||| quad.d == from && quad.a == to
}

/// The patch of a cap that lies along a segment of the ring.
pub open spec fn patch_at(nu: nat, nv: nat, n: int) -> (int, int) {
    if n < nu {
        (n, nv - 1)
    } else if n < nu + nv {
        (nu - 1, nv - 1 - (n - nu))
    } else if n < 2 * nu + nv {
        (nu - 1 - (n - nu - nv), 0)
    } else {
        (0, n - 2 * nu - nv)
    }
}

/// A cap and the side beside it share their edge and walk it in opposite
/// directions: there is no crack between them, and both look outward.
pub proof fn law_caps_and_sides_meet(nu: nat, nv: nat, nw: nat, n: int)
    requires
        0 < nu < usize::MAX,
        0 < nv < usize::MAX,
        0 < nw <= usize::MAX,
        0 <= n < 2 * (nu + nv),
    ensures
        ({
            let s = ring(nu, nv)[n];
            let (i, j) = patch_at(nu, nv, n);
            let from = point(s.from.0 as int, s.from.1 as int, 0);
            let to = point(s.to.0 as int, s.to.1 as int, 0);
            let far_from = point(s.from.0 as int, s.from.1 as int, nw as int);
            let far_to = point(s.to.0 as int, s.to.1 as int, nw as int);
            &&& 0 <= i < nu && 0 <= j < nv
            &&& walks(near_quad(i, j), from, to) && walks(side_quad(s, 0), to, from)
            &&& walks(far_quad(i, j, nw as int), far_to, far_from) && walks(
                side_quad(s, nw - 1),
                far_from,
                far_to,
            )
        }),
{
}

/// Neighbouring quads of the sides share their edges and walk them in opposite
/// directions, along the taper and round the ring.
pub proof fn law_sides_meet(s: Segment, next: Segment, k: int)
    requires
        s.to == next.from,
        0 <= k,
        k + 2 <= usize::MAX,
    ensures
        ({
            let from = point(s.from.0 as int, s.from.1 as int, k + 1);
            let to = point(s.to.0 as int, s.to.1 as int, k + 1);
            walks(side_quad(s, k), from, to) && walks(side_quad(s, k + 1), to, from)
        }),
        ({
            let low = point(s.to.0 as int, s.to.1 as int, k);
            let high = point(s.to.0 as int, s.to.1 as int, k + 1);
            walks(side_quad(s, k), high, low) && walks(side_quad(next, k), low, high)
        }),
{
}

/// How many quads there are: two for every patch of a cap, and one for every
/// segment of the ring between two cuts.
pub proof fn law_the_shell_is_counted(nu: nat, nv: nat, nw: nat)
    ensures
        shell(nu, nv, nw).len() == 2 * (nu * nv) + 2 * (nu + nv) * nw,
{
    let f = |j: int| cap_row(nu, j, nw as int);
    assert forall|j: int| (#[trigger] f(j)).len() == 2 * nu by {
        let g = |i: int| seq![near_quad(i, j), far_quad(i, j, nw as int)];
        lemma_gathered_len(g, nu, 2);
    }
    lemma_gathered_len(f, nv, 2 * nu);
    let segments = ring(nu, nv);
    let h = |n: int| side(segments[n], nw);
    lemma_gathered_len(h, segments.len(), nw);
    assert((2 * nu) * nv == 2 * (nu * nv)) by (nonlinear_arith);
    assert(segments.len() == 2 * (nu + nv));
    assert(nw * segments.len() == 2 * (nu + nv) * nw) by (nonlinear_arith)
        requires
            segments.len() == 2 * (nu + nv),
    ;
}

proof fn lemma_gathered_len<A>(f: spec_fn(int) -> Seq<A>, n: nat, each: nat)
    requires
        forall|i: int| (#[trigger] f(i)).len() == each,
    ensures
        render::gathered(f, n).len() == each * n,
    decreases n,
{
    if n > 0 {
        lemma_gathered_len(f, (n - 1) as nat, each);
        assert(f(n - 1).len() == each);
        assert(each * (n - 1) + each == each * n) by (nonlinear_arith);
    } else {
        assert(each * 0 == 0);
    }
}

proof fn lemma_gathered_holds<A>(f: spec_fn(int) -> Seq<A>, n: nat, i: int, item: A)
    requires
        0 <= i < n,
        f(i).contains(item),
    ensures
        render::gathered(f, n).contains(item),
    decreases n,
{
    let before = render::gathered(f, (n - 1) as nat);
    if i < n - 1 {
        lemma_gathered_holds(f, (n - 1) as nat, i, item);
        let at = choose|at: int| 0 <= at < before.len() && before[at] == item;
        assert(render::gathered(f, n)[at] == item);
    } else {
        let last = f(i);
        let at = choose|at: int| 0 <= at < last.len() && last[at] == item;
        assert(render::gathered(f, n)[before.len() + at] == item);
    }
}

/// Every patch of the two caps and every patch of the four sides is covered by a quad
/// of the shell.
pub proof fn law_the_shell_covers_every_face(
    nu: nat,
    nv: nat,
    nw: nat,
    i: int,
    j: int,
    n: int,
    k: int,
)
    ensures
        0 <= i < nu && 0 <= j < nv ==> shell(nu, nv, nw).contains(near_quad(i, j)),
        0 <= i < nu && 0 <= j < nv ==> shell(nu, nv, nw).contains(far_quad(i, j, nw as int)),
        0 <= n < 2 * (nu + nv) && 0 <= k < nw ==> shell(nu, nv, nw).contains(
            side_quad(ring(nu, nv)[n], k),
        ),
{
    let all = shell(nu, nv, nw);
    let ends = caps(nu, nv, nw);
    let between = sides(ring(nu, nv), nw);
    if 0 <= i < nu && 0 <= j < nv {
        let f = |j: int| cap_row(nu, j, nw as int);
        let g = |i: int| seq![near_quad(i, j), far_quad(i, j, nw as int)];
        assert(g(i)[0] == near_quad(i, j));
        assert(g(i)[1] == far_quad(i, j, nw as int));
        lemma_gathered_holds(g, nu, i, near_quad(i, j));
        lemma_gathered_holds(g, nu, i, far_quad(i, j, nw as int));
        lemma_gathered_holds(f, nv, j, near_quad(i, j));
        lemma_gathered_holds(f, nv, j, far_quad(i, j, nw as int));
        let near = choose|at: int| 0 <= at < ends.len() && ends[at] == near_quad(i, j);
        assert(all[near] == near_quad(i, j));
        let far = choose|at: int| 0 <= at < ends.len() && ends[at] == far_quad(i, j, nw as int);
        assert(all[far] == far_quad(i, j, nw as int));
    }
    if 0 <= n < 2 * (nu + nv) && 0 <= k < nw {
        let segments = ring(nu, nv);
        let quad = side_quad(segments[n], k);
        let h = |n: int| side(segments[n], nw);
        assert(h(n)[k] == quad);
        lemma_gathered_holds(h, segments.len(), n, quad);
        let at = choose|at: int| 0 <= at < between.len() && between[at] == quad;
        assert(all[ends.len() + at] == quad);
    }
}

} // verus!
