//! Legal destinations of a piece (single steps and chains of jumps), and
//! moving a piece.
use vstd::prelude::*;
use vstd::set_lib::*;
use crate::board::{Board, cell_at, grid_wf};
use crate::geometry::{
    in_grid, on_star, idx, pos, dr, dc, adjacent, step_from, is_valid, is_adjacent, SIDE, CELLS,
};

verus! {

broadcast use vstd::seq_lib::group_seq_properties;

/// `(r, c)` is inside the grid and holds a piece.
pub open spec fn filled<T>(g: Seq<Option<T>>, p: (int, int)) -> bool {
    in_grid(p.0, p.1) && cell_at(g, p.0, p.1) is Some
}

/// `p` is a position of the star that holds nothing.
pub open spec fn vacant<T>(g: Seq<Option<T>>, p: (int, int)) -> bool {
    on_star(p.0, p.1) && cell_at(g, p.0, p.1) is None
}

/// A jump from `a` over the filled neighbour in direction `k` onto the
/// vacant cell `b` beyond it.
pub open spec fn hop<T>(g: Seq<Option<T>>, a: (int, int), b: (int, int), k: int) -> bool {
    &&& filled(g, (a.0 + dr(k), a.1 + dc(k)))
    &&& b.0 == a.0 + 2 * dr(k)
    &&& b.1 == a.1 + 2 * dc(k)
    &&& vacant(g, b)
}

/// A single jump in one of the six directions leads from `a` to `b`.
pub open spec fn jump<T>(g: Seq<Option<T>>, a: (int, int), b: (int, int)) -> bool {
    exists|k: int| 0 <= k < 6 && #[trigger] hop(g, a, b, k)
}

/// `p` is a chain of jumps (a single cell being the empty chain).
pub open spec fn jump_path<T>(g: Seq<Option<T>>, p: Seq<(int, int)>) -> bool {
    &&& p.len() >= 1
    &&& forall|i: int| 0 <= i < p.len() - 1 ==> #[trigger] jump(g, p[i], p[i + 1])
}

/// Some chain of jumps leads from `s` to `d`.
pub open spec fn jump_reachable<T>(g: Seq<Option<T>>, s: (int, int), d: (int, int)) -> bool {
    exists|p: Seq<(int, int)>| #[trigger] jump_path(g, p) && p[0] == s && p.last() == d
}

/// `d` is a legal destination for the piece at `s`: a vacant cell one step
/// away, or one reached by a chain of jumps.
pub open spec fn legal_target<T>(g: Seq<Option<T>>, s: (int, int), d: (int, int)) -> bool {
    &&& filled(g, s)
    &&& vacant(g, d)
    &&& (adjacent(s, d) || jump_reachable(g, s, d))
}

/// The grid after the piece at `s` moved to `d`.
pub open spec fn moved<T>(g: Seq<Option<T>>, s: (int, int), d: (int, int)) -> Seq<Option<T>> {
    g.update(idx(d), g[idx(s)]).update(idx(s), None)
}

/// Every chain of jumps from `s` stays inside a set of cells that holds `s`
/// and is closed under single jumps.
proof fn lemma_closed_holds_chain<T>(g: Seq<Option<T>>, seen: Seq<bool>, p: Seq<(int, int)>)
    requires
        seen.len() == 289,
        jump_path(g, p),
        in_grid(p[0].0, p[0].1),
        seen[idx(p[0])],
        forall|a: (int, int), b: (int, int)|
            in_grid(a.0, a.1) && seen[idx(a)] && #[trigger] jump(g, a, b) ==> seen[idx(b)],
    ensures
        in_grid(p.last().0, p.last().1),
        seen[idx(p.last())],
    decreases p.len(),
{
    if p.len() > 1 {
        let q = p.drop_last();
        assert(jump_path(g, q)) by {
            assert forall|i: int| 0 <= i < q.len() - 1 implies #[trigger] jump(g, q[i], q[i + 1]) by {
                assert(jump(g, p[i], p[i + 1]));
            }
        }
        lemma_closed_holds_chain(g, seen, q);
        let n = p.len() - 2;
        assert(jump(g, p[n], p[n + 1]));
        let k = choose|k: int| 0 <= k < 6 && #[trigger] hop(g, p[n], p[n + 1], k);
        assert(q.last() == p[n]);
    }
}

/// The cells reached from `(row, col)` by chains of jumps, as a table indexed
/// by `idx`.
fn jump_closure<T: Copy>(board: &Board<T>, row: usize, col: usize) -> (seen: Vec<bool>)
    requires
        board.wf(),
        in_grid(row as int, col as int),
    ensures
        seen@.len() == 289,
        forall|d: (int, int)|
            in_grid(d.0, d.1) ==> (#[trigger] seen@[idx(d)] <==> jump_reachable(
                board@,
                (row as int, col as int),
                d,
            )),
{
    let ghost g = board@;
    let ghost s = (row as int, col as int);
    let mut seen: Vec<bool> = Vec::new();
    let mut i: usize = 0;
    while i < CELLS
        invariant
            i <= 289,
            seen@.len() == i,
            forall|j: int| 0 <= j < i ==> !#[trigger] seen@[j],
        decreases 289 - i,
    {
        seen.push(false);
        i = i + 1;
    }
    seen.set(row * SIDE + col, true);
    let mut queue: Vec<(usize, usize)> = Vec::new();
    queue.push((row, col));
    let ghost mut vis: Set<int> = set![idx(s)];
    assert(jump_path(g, seq![s]));
    proof {
        assert forall|d: (int, int)| in_grid(d.0, d.1) && #[trigger] seen@[idx(d)] implies exists|j: int|
            0 <= j < queue@.len() && pos(#[trigger] queue@[j]) == d by {
            assert(idx(d) == idx(s));
            assert(pos(queue@[0]) == d);
        }
    }
    let mut head: usize = 0;
    while head < queue.len()
        invariant
            board.wf(),
            g == board@,
            s == (row as int, col as int),
            in_grid(row as int, col as int),
            seen@.len() == 289,
            head <= queue@.len(),
            queue@.len() >= 1,
            queue@[0] == (row, col),
            forall|j: int| 0 <= j < queue@.len() ==> in_grid(#[trigger] queue@[j].0 as int, queue@[j].1 as int),
            forall|j: int| 0 <= j < queue@.len() ==> seen@[idx(pos(#[trigger] queue@[j]))],
            forall|j: int| 0 <= j < queue@.len() ==> jump_reachable(g, s, pos(#[trigger] queue@[j])),
            forall|d: (int, int)| in_grid(d.0, d.1) && #[trigger] seen@[idx(d)] ==> exists|j: int|
                0 <= j < queue@.len() && pos(#[trigger] queue@[j]) == d,
            forall|i: int| 0 <= i < 289 ==> (#[trigger] seen@[i] <==> vis.contains(i)),
            vis.finite(),
            vis.len() == queue@.len(),
            vis.subset_of(set_int_range(0, 289)),
            forall|j: int, b: (int, int)|
                0 <= j < head && #[trigger] jump(g, pos(queue@[j]), b) ==> #[trigger] seen@[idx(b)],
        decreases 289 - head,
    {
        proof {
            lemma_int_range(0, 289);
            lemma_len_subset(vis, set_int_range(0, 289));
        }
        let cur = queue[head];
        let mut k: usize = 0;
        while k < 6
            invariant
                board.wf(),
                g == board@,
                s == (row as int, col as int),
                in_grid(row as int, col as int),
                seen@.len() == 289,
                head < queue@.len(),
                queue@.len() >= 1,
                queue@[0] == (row, col),
                cur == queue@[head as int],
                k <= 6,
                forall|j: int| 0 <= j < queue@.len() ==> in_grid(#[trigger] queue@[j].0 as int, queue@[j].1 as int),
                forall|j: int| 0 <= j < queue@.len() ==> seen@[idx(pos(#[trigger] queue@[j]))],
                forall|j: int| 0 <= j < queue@.len() ==> jump_reachable(g, s, pos(#[trigger] queue@[j])),
                forall|d: (int, int)| in_grid(d.0, d.1) && #[trigger] seen@[idx(d)] ==> exists|j: int|
                    0 <= j < queue@.len() && pos(#[trigger] queue@[j]) == d,
                forall|i: int| 0 <= i < 289 ==> (#[trigger] seen@[i] <==> vis.contains(i)),
                vis.finite(),
                vis.len() == queue@.len(),
                vis.subset_of(set_int_range(0, 289)),
                forall|j: int, b: (int, int)|
                    0 <= j < head && #[trigger] jump(g, pos(queue@[j]), b) ==> #[trigger] seen@[idx(b)],
                forall|m: int, b: (int, int)|
                    0 <= m < k && #[trigger] hop(g, pos(cur), b, m) ==> #[trigger] seen@[idx(b)],
            decreases 6 - k,
        {
            proof {
                lemma_int_range(0, 289);
                lemma_len_subset(vis, set_int_range(0, 289));
            }
            let ghost before = queue@;
            if let Some(mid) = step_from(cur.0, cur.1, k) {
                if board.occupant(mid.0, mid.1).is_some() {
                    if let Some(land) = step_from(mid.0, mid.1, k) {
                        let li = land.0 * SIDE + land.1;
                        if is_valid(land.0, land.1) && board.is_empty(land.0, land.1) && !seen[li] {
                            let ghost b = pos(land);
                            assert(hop(g, pos(cur), b, k as int));
                            assert(jump(g, pos(cur), b));
                            proof {
                                let p = choose|p: Seq<(int, int)>|
                                    #[trigger] jump_path(g, p) && p[0] == s && p.last() == pos(cur);
                                let p2 = p.push(b);
                                assert(p2[p2.len() - 2] == pos(cur));
                                assert forall|i: int| 0 <= i < p2.len() - 1 implies #[trigger] jump(
                                    g,
                                    p2[i],
                                    p2[i + 1],
                                ) by {
                                    if i < p.len() - 1 {
                                        assert(jump(g, p[i], p[i + 1]));
                                    }
                                }
                                assert(jump_path(g, p2));
                                assert(!vis.contains(li as int));
                                vis = vis.insert(li as int);
                            }
                            seen.set(li, true);
                            queue.push(land);
                            assert(queue@[queue@.len() - 1] == land);
                            proof {
                                assert forall|d: (int, int)|
                                    in_grid(d.0, d.1) && #[trigger] seen@[idx(d)] implies exists|j: int|
                                        0 <= j < queue@.len() && pos(#[trigger] queue@[j]) == d by {
                                    if d == b {
                                        assert(pos(queue@[queue@.len() - 1]) == d);
                                    } else {
                                        assert(idx(d) != idx(b));
                                        let j = choose|j: int|
                                            0 <= j < before.len() && pos(#[trigger] before[j]) == d;
                                        assert(queue@[j] == before[j]);
                                    }
                                }
                            }
                        }
                    }
                }
            }
            k = k + 1;
        }
        proof {
            assert forall|j: int, b: (int, int)|
                0 <= j < head + 1 && #[trigger] jump(g, pos(queue@[j]), b) implies #[trigger] seen@[idx(b)] by {
                if j == head {
                    let m = choose|m: int| 0 <= m < 6 && #[trigger] hop(g, pos(cur), b, m);
                }
            }
        }
        head = head + 1;
    }
    proof {
        assert forall|d: (int, int)|
            in_grid(d.0, d.1) implies (#[trigger] seen@[idx(d)] <==> jump_reachable(g, s, d)) by {
            if seen@[idx(d)] {
                let j = choose|j: int| 0 <= j < queue@.len() && pos(#[trigger] queue@[j]) == d;
            }
            if jump_reachable(g, s, d) {
                let p = choose|p: Seq<(int, int)>| #[trigger] jump_path(g, p) && p[0] == s && p.last() == d;
                assert forall|a: (int, int), b: (int, int)|
                    in_grid(a.0, a.1) && seen@[idx(a)] && #[trigger] jump(g, a, b) implies seen@[idx(b)] by {
                    let j = choose|j: int| 0 <= j < queue@.len() && pos(#[trigger] queue@[j]) == a;
                }
                assert(pos(queue@[0]) == s);
                lemma_closed_holds_chain(g, seen@, p);
            }
        }
    }
    seen
}

/// Why a move was refused.
#[derive(Clone, Copy, Debug, PartialEq, Eq, Structural)]
pub enum MoveError {
    /// No piece of the mover at the source, or the destination is not legal.
    IllegalMove,
    /// A coordinate lies outside the square grid.
    InvalidCoordinate,
}

/// The legal destinations of the piece at `(row, col)`, in row-major order;
/// empty where the cell holds no piece.
pub fn legal_destinations<T: Copy>(board: &Board<T>, row: usize, col: usize) -> (r: Vec<(usize, usize)>)
    requires
        board.wf(),
    ensures
        r@.no_duplicates(),
        forall|d: (usize, usize)|
            #[trigger] r@.contains(d) <==> legal_target(board@, (row as int, col as int), pos(d)),
{
    let mut out: Vec<(usize, usize)> = Vec::new();
    if row >= SIDE || col >= SIDE || board.occupant(row, col).is_none() {
        return out;
    }
    let seen = jump_closure(board, row, col);
    let ghost s = (row as int, col as int);
    let mut r: usize = 0;
    while r < SIDE
        invariant
            board.wf(),
            filled(board@, s),
            s == (row as int, col as int),
            seen@.len() == 289,
            forall|d: (int, int)|
                in_grid(d.0, d.1) ==> (#[trigger] seen@[idx(d)] <==> jump_reachable(board@, s, d)),
            r <= 17,
            out@.no_duplicates(),
            forall|j: int| 0 <= j < out@.len() ==> idx(pos(#[trigger] out@[j])) < r * 17 && in_grid(out@[j].0 as int, out@[j].1 as int),
            forall|d: (usize, usize)|
                #[trigger] out@.contains(d) <==> (legal_target(board@, s, pos(d)) && d.0 < r),
        decreases 17 - r,
    {
        let mut c: usize = 0;
        while c < SIDE
            invariant
                board.wf(),
                filled(board@, s),
                s == (row as int, col as int),
                seen@.len() == 289,
                forall|d: (int, int)|
                    in_grid(d.0, d.1) ==> (#[trigger] seen@[idx(d)] <==> jump_reachable(board@, s, d)),
                r < 17,
                c <= 17,
                out@.no_duplicates(),
                forall|j: int| 0 <= j < out@.len() ==> idx(pos(#[trigger] out@[j])) < r * 17 + c && in_grid(out@[j].0 as int, out@[j].1 as int),
                forall|d: (usize, usize)|
                    #[trigger] out@.contains(d) <==> (legal_target(board@, s, pos(d)) && (d.0 < r || (d.0 == r && d.1 < c))),
            decreases 17 - c,
        {
            let ghost before = out@;
            if board.is_empty(r, c) && (is_adjacent((row, col), (r, c)) || seen[r * SIDE + c]) {
                assert(!out@.contains((r, c))) by {
                    if out@.contains((r, c)) {
                        let j = choose|j: int| 0 <= j < out@.len() && out@[j] == (r, c);
                        assert(idx(pos(out@[j])) < r * 17 + c);
                    }
                }
                out.push((r, c));
                assert(out@ == before.push((r, c)));
            }
            c = c + 1;
        }
        r = r + 1;
    }
    out
}

/// Moves the piece at `src` to `dst` where `dst` is a legal destination for
/// it; otherwise refuses, with no change.
pub fn move_piece<T: Copy>(board: &mut Board<T>, src: (usize, usize), dst: (usize, usize)) -> (r: Result<(), MoveError>)
    requires
        old(board).wf(),
    ensures
        final(board).wf(),
        !(in_grid(src.0 as int, src.1 as int) && in_grid(dst.0 as int, dst.1 as int)) ==> r
            == Err::<(), MoveError>(MoveError::InvalidCoordinate),
        in_grid(src.0 as int, src.1 as int) && in_grid(dst.0 as int, dst.1 as int) && !legal_target(
            old(board)@,
            pos(src),
            pos(dst),
        ) ==> r == Err::<(), MoveError>(MoveError::IllegalMove),
        r is Ok <==> in_grid(src.0 as int, src.1 as int) && in_grid(dst.0 as int, dst.1 as int)
            && legal_target(old(board)@, pos(src), pos(dst)),
        r is Ok ==> final(board)@ == moved(old(board)@, pos(src), pos(dst)),
        r is Err ==> final(board)@ == old(board)@,
{
    if src.0 >= SIDE || src.1 >= SIDE || dst.0 >= SIDE || dst.1 >= SIDE {
        return Err(MoveError::InvalidCoordinate);
    }
    let piece = board.occupant(src.0, src.1);
    if piece.is_none() || !board.is_empty(dst.0, dst.1) {
        return Err(MoveError::IllegalMove);
    }
    if !is_adjacent(src, dst) {
        let seen = jump_closure(board, src.0, src.1);
        if !seen[dst.0 * SIDE + dst.1] {
            return Err(MoveError::IllegalMove);
        }
    }
    let ghost g = board@;
    let a = board.set(dst.0, dst.1, piece);
    assert(a is Ok);
    assert(on_star(src.0 as int, src.1 as int)) by {
        assert(cell_at(g, src.0 as int, src.1 as int) is Some);
    }
    let b = board.set(src.0, src.1, None);
    Ok(())
}

/// Moving a piece to a legal destination and then moving it straight back
/// restores the grid exactly, whether the move was a step or a chain of jumps.
pub proof fn lemma_move_reverts<T>(g: Seq<Option<T>>, s: (int, int), d: (int, int))
    requires
        grid_wf(g),
        legal_target(g, s, d),
    ensures
        s != d,
        grid_wf(moved(g, s, d)),
        moved(moved(g, s, d), d, s) == g,
{
    assert(idx(s) != idx(d));
    let h = moved(g, s, d);
    assert forall|r: int, c: int| in_grid(r, c) && !on_star(r, c) implies #[trigger] cell_at(h, r, c) is None by {
        assert(cell_at(g, r, c) is None);
        assert(idx((r, c)) != idx(d));
    }
    assert(moved(h, d, s) =~= g);
}

} // verus!
