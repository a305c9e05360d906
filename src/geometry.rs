//! The fixed star-shaped board on a square grid of side `SIDE`, and the six
//! hex-grid step directions.
use vstd::prelude::*;
use crate::player::Player;

verus! {

broadcast use vstd::seq_lib::group_seq_properties;

/// Side length of the square index space that bounds the star.
pub const SIDE: usize = 17;

/// Number of cells of the square index space.
pub const CELLS: usize = 289;

/// The coordinate lies inside the square index space.
pub open spec fn in_grid(r: int, c: int) -> bool {
    0 <= r < 17 && 0 <= c < 17
}

/// The star is the union of two opposite triangles of side 13.
pub open spec fn on_star(r: int, c: int) -> bool {
    in_grid(r, c) && ((r >= 4 && c >= 4 && r + c <= 20) || (r <= 12 && c <= 12 && r + c >= 12))
}

/// Whether `(row, col)` is a position of the star board.
pub fn is_valid(row: usize, col: usize) -> (r: bool)
    ensures
        r == on_star(row as int, col as int),
{
    row < SIDE && col < SIDE && ((row >= 4 && col >= 4 && row + col <= 20) || (row <= 12
        && col <= 12 && row + col >= 12))
}

} // verus!

verus! {

/// Player1 starts in the bottom point of the star.
pub open spec fn in_home(p: Player, r: int, c: int) -> bool {
    match p {
        Player::Player1 => r >= 13 && c >= 4 && r + c <= 20,
        Player::Player2 => r <= 3 && c <= 12 && r + c >= 12,
    }
}

/// A player wins by filling the triangle where the opponent started.
pub open spec fn in_target(p: Player, r: int, c: int) -> bool {
    in_home(p.other(), r, c)
}

/// The central hexagon of the star.
pub open spec fn in_hexagon(r: int, c: int) -> bool {
    4 <= r <= 12 && 4 <= c <= 12 && 12 <= r + c <= 20
}

/// Row step of direction `k`, for `k` in `0..6`.
pub open spec fn dr(k: int) -> int {
    if k == 0 || k == 1 {
        0
    } else if k == 2 || k == 4 {
        1
    } else {
        -1
    }
}

/// Column step of direction `k`, for `k` in `0..6`.
pub open spec fn dc(k: int) -> int {
    if k == 0 || k == 5 {
        1
    } else if k == 1 || k == 4 {
        -1
    } else {
        0
    }
}

/// Whether `(row, col)` lies in the home triangle of `player`.
pub fn is_home(player: Player, row: usize, col: usize) -> (r: bool)
    ensures
        r == in_home(player, row as int, col as int),
{
    match player {
        Player::Player1 => row >= 13 && col >= 4 && row <= 20 && col <= 20 - row,
        Player::Player2 => row <= 3 && col <= 12 && col >= 12 - row,
    }
}

/// The cell one step from `(row, col)` in direction `k`, if it is inside the grid.
pub fn step_from(row: usize, col: usize, k: usize) -> (r: Option<(usize, usize)>)
    requires
        in_grid(row as int, col as int),
        k < 6,
    ensures
        r == (if in_grid(row + dr(k as int), col + dc(k as int)) {
            Some(((row + dr(k as int)) as usize, (col + dc(k as int)) as usize))
        } else {
            None::<(usize, usize)>
        }),
{
    let nr: usize;
    let nc: usize;
    if k == 0 || k == 1 {
        nr = row;
    } else if k == 2 || k == 4 {
        if row + 1 >= SIDE {
            return None;
        }
        nr = row + 1;
    } else {
        if row == 0 {
            return None;
        }
        nr = row - 1;
    }
    if k == 0 || k == 5 {
        if col + 1 >= SIDE {
            return None;
        }
        nc = col + 1;
    } else if k == 1 || k == 4 {
        if col == 0 {
            return None;
        }
        nc = col - 1;
    } else {
        nc = col;
    }
    Some((nr, nc))
}

/// A coordinate pair as integers.
pub open spec fn pos(p: (usize, usize)) -> (int, int) {
    (p.0 as int, p.1 as int)
}

/// Index of a cell in the row-major layout of the grid.
pub open spec fn idx(p: (int, int)) -> int {
    p.0 * 17 + p.1
}

/// `b` is one step from `a` in direction `k`.
pub open spec fn ahead(a: (int, int), k: int, b: (int, int)) -> bool {
    b.0 == a.0 + dr(k) && b.1 == a.1 + dc(k)
}

/// `b` is one step from `a` in one of the six directions.
pub open spec fn adjacent(a: (int, int), b: (int, int)) -> bool {
    exists|k: int| 0 <= k < 6 && #[trigger] ahead(a, k, b)
}

/// The valid neighbours of `(row, col)`, in direction order.
pub fn neighbors(row: usize, col: usize) -> (r: Vec<(usize, usize)>)
    requires
        in_grid(row as int, col as int),
    ensures
        r@.no_duplicates(),
        forall|p: (usize, usize)|
            r@.contains(p) <==> on_star(p.0 as int, p.1 as int) && adjacent(
                (row as int, col as int),
                pos(p),
            ),
{
    let mut out: Vec<(usize, usize)> = Vec::new();
    let mut k: usize = 0;
    while k < 6
        invariant
            k <= 6,
            in_grid(row as int, col as int),
            out@.no_duplicates(),
            forall|p: (usize, usize)|
                out@.contains(p) <==> on_star(p.0 as int, p.1 as int) && exists|m: int|
                    0 <= m < k && ahead((row as int, col as int), m, pos(p)),
        decreases 6 - k,
    {
        let ghost prev = out@;
        let nb = step_from(row, col, k);
        if let Some(n) = nb {
            if is_valid(n.0, n.1) {
                assert(!out@.contains(n)) by {
                    if out@.contains(n) {
                        let m = choose|m: int| 0 <= m < k && ahead((row as int, col as int), m, pos(n));
                        assert(dr(m) == dr(k as int) && dc(m) == dc(k as int));
                    }
                }
                out.push(n);
                assert(ahead((row as int, col as int), k as int, pos(n)));
                assert(out@ == prev.push(n));
            }
        }
        proof {
            assert forall|p: (usize, usize)|
                out@.contains(p) <==> on_star(p.0 as int, p.1 as int) && exists|m: int|
                    0 <= m < k + 1 && ahead((row as int, col as int), m, pos(p)) by {
                if ahead((row as int, col as int), k as int, pos(p)) && on_star(p.0 as int, p.1 as int) {
                    assert(nb == Some(p));
                    assert(out@.contains(p));
                }
                if out@.contains(p) && !prev.contains(p) {
                    assert(ahead((row as int, col as int), k as int, pos(p)));
                }
            }
        }
        k = k + 1;
    }
    out
}

} // verus!

verus! {

/// Whether `b` is one step from `a` in one of the six directions.
pub fn is_adjacent(a: (usize, usize), b: (usize, usize)) -> (r: bool)
    requires
        in_grid(a.0 as int, a.1 as int),
    ensures
        r == (in_grid(b.0 as int, b.1 as int) && adjacent(pos(a), pos(b))),
{
    if b.0 >= SIDE || b.1 >= SIDE {
        return false;
    }
    let mut k: usize = 0;
    while k < 6
        invariant
            k <= 6,
            in_grid(a.0 as int, a.1 as int),
            in_grid(b.0 as int, b.1 as int),
            forall|m: int| 0 <= m < k ==> !#[trigger] ahead(pos(a), m, pos(b)),
        decreases 6 - k,
    {
        if let Some(n) = step_from(a.0, a.1, k) {
            if n.0 == b.0 && n.1 == b.1 {
                assert(ahead(pos(a), k as int, pos(b)));
                return true;
            }
        }
        k = k + 1;
    }
    false
}

} // verus!

verus! {

/// Number of cells `(r, c')` with `c' < c` for which `f` holds.
pub open spec fn row_count(f: spec_fn(int, int) -> bool, r: int, c: int) -> nat
    decreases c,
{
    if c <= 0 {
        0
    } else {
        row_count(f, r, c - 1) + if f(r, c - 1) {
            1nat
        } else {
            0nat
        }
    }
}

/// Number of cells of the grid in rows below `r` for which `f` holds.
pub open spec fn grid_count(f: spec_fn(int, int) -> bool, r: int) -> nat
    decreases r,
{
    if r <= 0 {
        0
    } else {
        grid_count(f, r - 1) + row_count(f, r - 1, 17)
    }
}

/// The cells of the grid for which `f` holds.
pub open spec fn cells_where(f: spec_fn(int, int) -> bool) -> Set<(int, int)> {
    Set::new(|p: (int, int)| in_grid(p.0, p.1) && f(p.0, p.1))
}

/// The cells before `(r, c)` in row-major order for which `f` holds.
spec fn prefix(f: spec_fn(int, int) -> bool, r: int, c: int) -> Set<(int, int)> {
    Set::new(|p: (int, int)| in_grid(p.0, p.1) && (p.0 < r || (p.0 == r && p.1 < c)) && f(p.0, p.1))
}

proof fn lemma_prefix_len(f: spec_fn(int, int) -> bool, r: int, c: int)
    requires
        0 <= r <= 16,
        0 <= c <= 17,
    ensures
        prefix(f, r, c).finite(),
        prefix(f, r, c).len() == grid_count(f, r) + row_count(f, r, c),
    decreases r, c,
{
    if c == 0 {
        if r == 0 {
            assert(prefix(f, 0, 0) =~= Set::empty());
        } else {
            lemma_prefix_len(f, r - 1, 17);
            assert(prefix(f, r, 0) =~= prefix(f, r - 1, 17));
        }
    } else {
        lemma_prefix_len(f, r, c - 1);
        if f(r, c - 1) {
            assert(prefix(f, r, c) =~= prefix(f, r, c - 1).insert((r, c - 1)));
        } else {
            assert(prefix(f, r, c) =~= prefix(f, r, c - 1));
        }
    }
}

proof fn lemma_cells_where_len(f: spec_fn(int, int) -> bool)
    ensures
        cells_where(f).finite(),
        cells_where(f).len() == grid_count(f, 17),
{
    lemma_prefix_len(f, 16, 17);
    assert(cells_where(f) =~= prefix(f, 16, 17));
}

/// The positions of the star.
pub open spec fn star_cells() -> Set<(int, int)> {
    cells_where(|r: int, c: int| on_star(r, c))
}

/// The home triangle of `p`.
pub open spec fn home_cells(p: Player) -> Set<(int, int)> {
    cells_where(|r: int, c: int| in_home(p, r, c))
}

/// The central hexagon.
pub open spec fn hexagon_cells() -> Set<(int, int)> {
    cells_where(|r: int, c: int| in_hexagon(r, c))
}

proof fn lemma_star_count()
    ensures
        grid_count(|r: int, c: int| on_star(r, c), 17) == 121,
{
    let f = |r: int, c: int| on_star(r, c);
    reveal_with_fuel(row_count, 18);
    assert(row_count(f, 0, 17) == 1);
    assert(row_count(f, 1, 17) == 2);
    assert(row_count(f, 2, 17) == 3);
    assert(row_count(f, 3, 17) == 4);
    assert(row_count(f, 4, 17) == 13);
    assert(row_count(f, 5, 17) == 12);
    assert(row_count(f, 6, 17) == 11);
    assert(row_count(f, 7, 17) == 10);
    assert(row_count(f, 8, 17) == 9);
    assert(row_count(f, 9, 17) == 10);
    assert(row_count(f, 10, 17) == 11);
    assert(row_count(f, 11, 17) == 12);
    assert(row_count(f, 12, 17) == 13);
    assert(row_count(f, 13, 17) == 4);
    assert(row_count(f, 14, 17) == 3);
    assert(row_count(f, 15, 17) == 2);
    assert(row_count(f, 16, 17) == 1);
    reveal_with_fuel(grid_count, 18);
}

proof fn lemma_hexagon_count()
    ensures
        grid_count(|r: int, c: int| in_hexagon(r, c), 17) == 61,
{
    let f = |r: int, c: int| in_hexagon(r, c);
    reveal_with_fuel(row_count, 18);
    assert(row_count(f, 0, 17) == 0);
    assert(row_count(f, 1, 17) == 0);
    assert(row_count(f, 2, 17) == 0);
    assert(row_count(f, 3, 17) == 0);
    assert(row_count(f, 4, 17) == 5);
    assert(row_count(f, 5, 17) == 6);
    assert(row_count(f, 6, 17) == 7);
    assert(row_count(f, 7, 17) == 8);
    assert(row_count(f, 8, 17) == 9);
    assert(row_count(f, 9, 17) == 8);
    assert(row_count(f, 10, 17) == 7);
    assert(row_count(f, 11, 17) == 6);
    assert(row_count(f, 12, 17) == 5);
    assert(row_count(f, 13, 17) == 0);
    assert(row_count(f, 14, 17) == 0);
    assert(row_count(f, 15, 17) == 0);
    assert(row_count(f, 16, 17) == 0);
    reveal_with_fuel(grid_count, 18);
}

proof fn lemma_home_count(p: Player)
    ensures
        grid_count(|r: int, c: int| in_home(p, r, c), 17) == 10,
{
    let f = |r: int, c: int| in_home(p, r, c);
    reveal_with_fuel(row_count, 18);
    let top: nat = if p == Player::Player2 { 1 } else { 0 };
    let bot: nat = if p == Player::Player1 { 1 } else { 0 };
    assert(row_count(f, 0, 17) == top);
    assert(row_count(f, 1, 17) == 2 * top);
    assert(row_count(f, 2, 17) == 3 * top);
    assert(row_count(f, 3, 17) == 4 * top);
    assert(row_count(f, 4, 17) == 0);
    assert(row_count(f, 5, 17) == 0);
    assert(row_count(f, 6, 17) == 0);
    assert(row_count(f, 7, 17) == 0);
    assert(row_count(f, 8, 17) == 0);
    assert(row_count(f, 9, 17) == 0);
    assert(row_count(f, 10, 17) == 0);
    assert(row_count(f, 11, 17) == 0);
    assert(row_count(f, 12, 17) == 0);
    assert(row_count(f, 13, 17) == 4 * bot);
    assert(row_count(f, 14, 17) == 3 * bot);
    assert(row_count(f, 15, 17) == 2 * bot);
    assert(row_count(f, 16, 17) == bot);
    reveal_with_fuel(grid_count, 18);
}

/// The star has 121 positions: a central hexagon of 61 and six points of 10.
/// Both home triangles lie on the star, hold 10 positions each, and are
/// disjoint from each other and from the hexagon.
pub proof fn lemma_star_geometry()
    ensures
        star_cells().finite(),
        star_cells().len() == 121,
        hexagon_cells().len() == 61,
        home_cells(Player::Player1).len() == 10,
        home_cells(Player::Player2).len() == 10,
        hexagon_cells().subset_of(star_cells()),
        home_cells(Player::Player1).subset_of(star_cells()),
        home_cells(Player::Player2).subset_of(star_cells()),
        home_cells(Player::Player1).disjoint(home_cells(Player::Player2)),
        home_cells(Player::Player1).disjoint(hexagon_cells()),
        home_cells(Player::Player2).disjoint(hexagon_cells()),
{
    lemma_cells_where_len(|r: int, c: int| on_star(r, c));
    lemma_cells_where_len(|r: int, c: int| in_hexagon(r, c));
    lemma_cells_where_len(|r: int, c: int| in_home(Player::Player1, r, c));
    lemma_cells_where_len(|r: int, c: int| in_home(Player::Player2, r, c));
    lemma_star_count();
    lemma_hexagon_count();
    lemma_home_count(Player::Player1);
    lemma_home_count(Player::Player2);
}

} // verus!

verus! {

/// The cells of the home triangle of `player`, in row-major order. They are
/// also the cells that the opponent must fill to win.
pub fn home_triangle(player: Player) -> (r: Vec<(usize, usize)>)
    ensures
        r@.no_duplicates(),
        forall|p: (usize, usize)| #[trigger] r@.contains(p) <==> in_home(player, p.0 as int, p.1 as int),
{
    let mut out: Vec<(usize, usize)> = Vec::new();
    let mut r: usize = 0;
    while r < SIDE
        invariant
            r <= 17,
            out@.no_duplicates(),
            forall|j: int| 0 <= j < out@.len() ==> (#[trigger] out@[j]).0 < r,
            forall|p: (usize, usize)|
                #[trigger] out@.contains(p) <==> (in_home(player, p.0 as int, p.1 as int) && p.0 < r),
        decreases 17 - r,
    {
        let mut c: usize = 0;
        while c < SIDE
            invariant
                r < 17,
                c <= 17,
                out@.no_duplicates(),
                forall|j: int|
                    0 <= j < out@.len() ==> (#[trigger] out@[j]).0 < r || (out@[j].0 == r
                        && out@[j].1 < c),
                forall|p: (usize, usize)|
                    #[trigger] out@.contains(p) <==> (in_home(player, p.0 as int, p.1 as int) && (
                    p.0 < r || (p.0 == r && p.1 < c))),
            decreases 17 - c,
        {
            if is_home(player, r, c) {
                assert(!out@.contains((r, c))) by {
                    if out@.contains((r, c)) {
                        let j = choose|j: int| 0 <= j < out@.len() && out@[j] == (r, c);
                    }
                }
                out.push((r, c));
            }
            c = c + 1;
        }
        r = r + 1;
    }
    out
}

} // verus!
