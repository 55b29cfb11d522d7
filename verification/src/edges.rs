//! Edge extraction: walks the point/type sequence, flattens curves, applies
//! explicit and implicit subpath closing, and emits directed y-monotonic
//! edges with a winding sign, normalized so that y always increases.
use vstd::prelude::*;

use crate::flatten::flatten_curve;
use crate::flatten::flatten_rec;
use crate::flatten::point_in_range;
use crate::flatten::MAX_FLATTEN_DEPTH;
use crate::points_in_range;
use crate::FixedPoint;
use crate::PATH_POINT_TYPE_BEZIER;
use crate::PATH_POINT_TYPE_CLOSE;
use crate::PATH_POINT_TYPE_LINE;
use crate::PATH_POINT_TYPE_MASK;
use crate::PATH_POINT_TYPE_START;

verus! {

/// A directed y-monotonic edge in 28.4 device space.  `y0 < y1` always
/// holds; `dir` is `1` when the path ran downward (increasing y) along the
/// edge and `-1` when it ran upward.
#[derive(Clone, Copy, Debug, PartialEq, Eq, Structural)]
pub struct Edge {
    pub x0: i32,
    pub y0: i32,
    pub x1: i32,
    pub y1: i32,
    pub dir: i32,
}

/// A well-formed edge: its coordinates are in the representable range, it
/// spans downward, and its winding sign is one of the two unit signs.
pub open spec fn edge_wf(e: Edge) -> bool {
    crate::coord_in_range(e.x0) && crate::coord_in_range(e.y0) && crate::coord_in_range(e.x1)
        && crate::coord_in_range(e.y1) && e.y0 < e.y1 && (e.dir == 1 || e.dir == -1i32)
}

/// The edges contributed by the segment from `a` to `b`: none when the
/// segment is horizontal, otherwise one edge normalized to increasing y and
/// signed with the direction the path ran in.
pub open spec fn maybe_edge(a: FixedPoint, b: FixedPoint) -> Seq<Edge> {
    if a.y == b.y {
        Seq::<Edge>::empty()
    } else if a.y < b.y {
        seq![Edge { x0: a.x, y0: a.y, x1: b.x, y1: b.y, dir: 1 }]
    } else {
        seq![Edge { x0: b.x, y0: b.y, x1: a.x, y1: a.y, dir: -1i32 }]
    }
}

/// The edges of the polyline that starts at `cur` and visits `pts` in order.
pub open spec fn chain_edges(cur: FixedPoint, pts: Seq<FixedPoint>) -> Seq<Edge>
    decreases pts.len(),
{
    if pts.len() == 0 {
        Seq::<Edge>::empty()
    } else {
        maybe_edge(cur, pts[0]) + chain_edges(pts[0], pts.skip(1))
    }
}

/// The point at which the polyline `cur` then `pts` ends.
pub open spec fn chain_last(cur: FixedPoint, pts: Seq<FixedPoint>) -> FixedPoint {
    if pts.len() == 0 {
        cur
    } else {
        pts.last()
    }
}

proof fn lemma_chain_push(cur: FixedPoint, s: Seq<FixedPoint>, p: FixedPoint)
    ensures
        chain_edges(cur, s.push(p)) == chain_edges(cur, s) + maybe_edge(chain_last(cur, s), p),
    decreases s.len(),
{
    if s.len() == 0 {
        assert(s.push(p)[0] == p);
        assert(s.push(p).skip(1) =~= Seq::<FixedPoint>::empty());
        assert(chain_edges(p, Seq::<FixedPoint>::empty()) =~= Seq::<Edge>::empty());
        assert(chain_edges(cur, s.push(p)) =~= chain_edges(cur, s) + maybe_edge(
            chain_last(cur, s),
            p,
        ));
    } else {
        assert(s.push(p)[0] == s[0]);
        assert(s.push(p).skip(1) =~= s.skip(1).push(p));
        lemma_chain_push(s[0], s.skip(1), p);
        assert(chain_edges(cur, s.push(p)) == maybe_edge(cur, s[0]) + chain_edges(
            s[0],
            s.skip(1).push(p),
        ));
        assert(chain_edges(cur, s) == maybe_edge(cur, s[0]) + chain_edges(s[0], s.skip(1)));
        assert(chain_last(s[0], s.skip(1)) == chain_last(cur, s));
        assert(chain_edges(cur, s.push(p)) =~= chain_edges(cur, s) + maybe_edge(
            chain_last(cur, s),
            p,
        ));
    }
}

/// The extractor's state after consuming a prefix of the type array:
/// the next point index, the current point, the start of the open subpath,
/// whether a subpath is open, whether the walk is still well formed, and the
/// edges emitted so far.
pub struct ExtractState {
    pub p: int,
    pub cur: FixedPoint,
    pub sub_start: FixedPoint,
    pub open_sub: bool,
    pub ok: bool,
    pub edges: Seq<Edge>,
}

/// The extractor's starting state.
pub open spec fn extract_init() -> ExtractState {
    ExtractState {
        p: 0,
        cur: FixedPoint { x: 0, y: 0 },
        sub_start: FixedPoint { x: 0, y: 0 },
        open_sub: false,
        ok: true,
        edges: Seq::<Edge>::empty(),
    }
}

/// One step of the extractor: consumes the type byte `t` and its points.
/// A Start closes any open subpath implicitly and begins a new one; a Line
/// or Bezier extends the open subpath; the close flag ends the subpath with
/// an explicit closing edge.  A type without its points, or a segment with
/// no open subpath, marks the walk malformed and freezes the state.
pub open spec fn extract_step(s: ExtractState, t: u8, points: Seq<FixedPoint>) -> ExtractState {
    if !s.ok {
        s
    } else {
        let base = t & PATH_POINT_TYPE_MASK;
        let closes = (t & PATH_POINT_TYPE_CLOSE) != 0;
        if base == PATH_POINT_TYPE_START {
            let edges1 = if s.open_sub {
                s.edges + maybe_edge(s.cur, s.sub_start)
            } else {
                s.edges
            };
            if s.p < points.len() {
                ExtractState {
                    p: s.p + 1,
                    cur: points[s.p],
                    sub_start: points[s.p],
                    open_sub: !closes,
                    ok: true,
                    edges: edges1,
                }
            } else {
                ExtractState { ok: false, edges: edges1, ..s }
            }
        } else if base == PATH_POINT_TYPE_LINE {
            if s.open_sub && s.p < points.len() {
                let np = points[s.p];
                let edges1 = s.edges + maybe_edge(s.cur, np);
                if closes {
                    ExtractState {
                        p: s.p + 1,
                        cur: np,
                        open_sub: false,
                        ok: true,
                        edges: edges1 + maybe_edge(np, s.sub_start),
                        ..s
                    }
                } else {
                    ExtractState { p: s.p + 1, cur: np, open_sub: true, ok: true, edges: edges1, ..s }
                }
            } else {
                ExtractState { ok: false, ..s }
            }
        } else if base == PATH_POINT_TYPE_BEZIER {
            if s.open_sub && s.p + 3 <= points.len() {
                let flat = flatten_rec(
                    s.cur,
                    points[s.p],
                    points[s.p + 1],
                    points[s.p + 2],
                    MAX_FLATTEN_DEPTH as nat,
                );
                let np = points[s.p + 2];
                let edges1 = s.edges + chain_edges(s.cur, flat);
                if closes {
                    ExtractState {
                        p: s.p + 3,
                        cur: np,
                        open_sub: false,
                        ok: true,
                        edges: edges1 + maybe_edge(np, s.sub_start),
                        ..s
                    }
                } else {
                    ExtractState { p: s.p + 3, cur: np, open_sub: true, ok: true, edges: edges1, ..s }
                }
            } else {
                ExtractState { ok: false, ..s }
            }
        } else {
            ExtractState { ok: false, ..s }
        }
    }
}

/// The extractor's state after consuming the first `n` type bytes.
pub open spec fn extract_run(types: Seq<u8>, points: Seq<FixedPoint>, n: int) -> ExtractState
    decreases n,
{
    if n <= 0 {
        extract_init()
    } else {
        extract_step(extract_run(types, points, n - 1), types[n - 1], points)
    }
}

/// Whether the whole type/point sequence is well formed.
pub open spec fn path_ok(types: Seq<u8>, points: Seq<FixedPoint>) -> bool {
    extract_run(types, points, types.len() as int).ok
}

/// Every edge of the path: the edges emitted by the walk, with a final
/// implicit closing edge when the last subpath was left open.
pub open spec fn path_edges(types: Seq<u8>, points: Seq<FixedPoint>) -> Seq<Edge> {
    let s = extract_run(types, points, types.len() as int);
    if s.open_sub {
        s.edges + maybe_edge(s.cur, s.sub_start)
    } else {
        s.edges
    }
}

/// Appends the edge of the segment from `a` to `b`, if it has one.
fn push_segment(edges: &mut Vec<Edge>, a: FixedPoint, b: FixedPoint)
    requires
        point_in_range(a),
        point_in_range(b),
    ensures
        final(edges)@ == old(edges)@ + maybe_edge(a, b),
        forall|m: int|
            old(edges)@.len() <= m < final(edges)@.len() ==> edge_wf(#[trigger] final(edges)@[m]),
{
    if a.y == b.y {
        proof {
            assert(edges@ =~= old(edges)@ + maybe_edge(a, b));
        }
    } else if a.y < b.y {
        edges.push(Edge { x0: a.x, y0: a.y, x1: b.x, y1: b.y, dir: 1 });
        proof {
            assert(edges@ =~= old(edges)@ + maybe_edge(a, b));
        }
    } else {
        edges.push(Edge { x0: b.x, y0: b.y, x1: a.x, y1: a.y, dir: -1 });
        proof {
            assert(edges@ =~= old(edges)@ + maybe_edge(a, b));
        }
    }
}

/// Extracts the edge set of the path, or `None` when the type/point
/// sequence is malformed (whole-path failure: no partial edge set is
/// returned).
pub fn extract_edges(types: &[u8], points: &[FixedPoint]) -> (r: Option<Vec<Edge>>)
    requires
        points_in_range(points@),
    ensures
        match r {
            Option::Some(v) => path_ok(types@, points@) && v@ == path_edges(types@, points@)
                && (forall|m: int| 0 <= m < v@.len() ==> edge_wf(#[trigger] v@[m])),
            Option::None => !path_ok(types@, points@),
        },
{
    let mut i: usize = 0;
    let mut p: usize = 0;
    let mut cur = FixedPoint { x: 0, y: 0 };
    let mut sub_start = FixedPoint { x: 0, y: 0 };
    let mut open_sub = false;
    let mut ok = true;
    let mut edges: Vec<Edge> = Vec::new();
    while i < types.len()
        invariant
            0 <= i <= types@.len(),
            points_in_range(points@),
            ok == extract_run(types@, points@, i as int).ok,
            edges@ == extract_run(types@, points@, i as int).edges,
            ok ==> p == extract_run(types@, points@, i as int).p,
            ok ==> cur == extract_run(types@, points@, i as int).cur,
            ok ==> sub_start == extract_run(types@, points@, i as int).sub_start,
            ok ==> open_sub == extract_run(types@, points@, i as int).open_sub,
            ok ==> p <= points@.len(),
            ok ==> point_in_range(cur) && point_in_range(sub_start),
            forall|m: int| 0 <= m < edges@.len() ==> edge_wf(#[trigger] edges@[m]),
        decreases types@.len() - i,
    {
        let ghost s_pre = extract_run(types@, points@, i as int);
        let t = types[i];
        proof {
            assert(extract_run(types@, points@, i + 1) == extract_step(s_pre, types@[i as int], points@));
        }
        if ok {
            let base = t & PATH_POINT_TYPE_MASK;
            let closes = (t & PATH_POINT_TYPE_CLOSE) != 0;
            if base == PATH_POINT_TYPE_START {
                if open_sub {
                    push_segment(&mut edges, cur, sub_start);
                }
                if p < points.len() {
                    cur = points[p];
                    sub_start = points[p];
                    open_sub = !closes;
                    p = p + 1;
                } else {
                    ok = false;
                }
            } else if base == PATH_POINT_TYPE_LINE {
                if open_sub && p < points.len() {
                    let np = points[p];
                    push_segment(&mut edges, cur, np);
                    cur = np;
                    p = p + 1;
                    if closes {
                        push_segment(&mut edges, np, sub_start);
                        open_sub = false;
                    }
                } else {
                    ok = false;
                }
            } else if base == PATH_POINT_TYPE_BEZIER {
                if open_sub && p < points.len() && points.len() - p >= 3 {
                    let c1 = points[p];
                    let c2 = points[p + 1];
                    let np = points[p + 2];
                    let mut flat: Vec<FixedPoint> = Vec::new();
                    flatten_curve(cur, c1, c2, np, MAX_FLATTEN_DEPTH, &mut flat);
                    let ghost flat_s = flat@;
                    let ghost edges_pre = edges@;
                    let mut k: usize = 0;
                    let mut run_cur = cur;
                    while k < flat.len()
                        invariant
                            0 <= k <= flat@.len(),
                            flat@ == flat_s,
                            edges@ == edges_pre + chain_edges(cur, flat_s.take(k as int)),
                            run_cur == chain_last(cur, flat_s.take(k as int)),
                            point_in_range(cur),
                            point_in_range(run_cur),
                            forall|m: int|
                                0 <= m < flat_s.len() ==> point_in_range(#[trigger] flat_s[m]),
                            forall|m: int| 0 <= m < edges@.len() ==> edge_wf(#[trigger] edges@[m]),
                        decreases flat@.len() - k,
                    {
                        let q = flat[k];
                        push_segment(&mut edges, run_cur, q);
                        proof {
                            assert(flat_s.take(k + 1) =~= flat_s.take(k as int).push(flat_s[k as int]));
                            lemma_chain_push(cur, flat_s.take(k as int), flat_s[k as int]);
                        }
                        run_cur = q;
                        k = k + 1;
                    }
                    proof {
                        assert(flat_s.take(flat_s.len() as int) =~= flat_s);
                    }
                    cur = np;
                    p = p + 3;
                    if closes {
                        push_segment(&mut edges, np, sub_start);
                        open_sub = false;
                    }
                } else {
                    ok = false;
                }
            } else {
                ok = false;
            }
        }
        i = i + 1;
    }
    if ok {
        if open_sub {
            push_segment(&mut edges, cur, sub_start);
        }
        Some(edges)
    } else {
        None
    }
}

} // verus!
