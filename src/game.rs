//! The turn and termination state machine of a two-player game.
use vstd::prelude::*;
use crate::board::{Board, cell_at, grid_wf};
use crate::geometry::{home_cells, cells_where, in_grid, on_star, in_home, in_target, idx, pos, is_home, is_valid, SIDE};
use crate::moves::{legal_target, moved, legal_destinations, move_piece, MoveError};
use crate::player::Player;

verus! {

broadcast use vstd::seq_lib::group_seq_properties;

/// Where a game stands.
#[derive(Clone, Copy, Debug, PartialEq, Eq, Structural)]
pub enum GameStatus {
    Playing { active: Player, turns: usize },
    Finished { winner: Player, total_turns: usize },
}

impl GameStatus {
    /// The player to move, while the game is being played.
    pub open spec fn mover(self) -> Option<Player> {
        match self {
            GameStatus::Playing { active, .. } => Some(active),
            GameStatus::Finished { .. } => None,
        }
    }

    /// The number of turns played.
    pub open spec fn count(self) -> usize {
        match self {
            GameStatus::Playing { turns, .. } => turns,
            GameStatus::Finished { total_turns, .. } => total_turns,
        }
    }
}

/// A game in status `st` on grid `g` accepts moving the piece at `s` to `d`:
/// the game is being played, `s` holds a piece of the player to move, and `d`
/// is a legal destination for it.
pub open spec fn accepts(st: GameStatus, g: Seq<Option<Player>>, s: (int, int), d: (int, int)) -> bool {
    match st {
        GameStatus::Playing { active, .. } => cell_at(g, s.0, s.1) == Some(active) && legal_target(
            g,
            s,
            d,
        ),
        GameStatus::Finished { .. } => false,
    }
}

/// `p` holds every cell of its target triangle.
pub open spec fn won(g: Seq<Option<Player>>, p: Player) -> bool {
    forall|r: int, c: int| in_target(p, r, c) ==> #[trigger] cell_at(g, r, c) == Some(p)
}

/// The status after `mover` completed the `turns`-th turn on grid `g`.
pub open spec fn outcome_of(g: Seq<Option<Player>>, mover: Player, turns: usize) -> GameStatus {
    if won(g, mover) {
        GameStatus::Finished { winner: mover, total_turns: turns }
    } else {
        GameStatus::Playing { active: mover.other(), turns }
    }
}

/// What cell `(r, c)` holds when a game starts.
pub open spec fn start_cell(r: int, c: int) -> Option<Player> {
    if in_home(Player::Player1, r, c) {
        Some(Player::Player1)
    } else if in_home(Player::Player2, r, c) {
        Some(Player::Player2)
    } else {
        None
    }
}

/// Cell `(r, c)` of layer `layer` of the board as seen by `me`: layer 0 marks
/// `me`'s pieces, layer 1 the opponent's, layer 2 the positions of the star.
pub open spec fn layer_value(g: Seq<Option<Player>>, me: Player, layer: int, r: int, c: int) -> u8 {
    if layer == 0 {
        if cell_at(g, r, c) == Some(me) { 1 } else { 0 }
    } else if layer == 1 {
        if cell_at(g, r, c) == Some(me.other()) { 1 } else { 0 }
    } else {
        if on_star(r, c) { 1 } else { 0 }
    }
}

/// The player whose view the layers take: the one to move, or the winner.
pub open spec fn viewer(st: GameStatus) -> Player {
    match st {
        GameStatus::Playing { active, .. } => active,
        GameStatus::Finished { winner, .. } => winner,
    }
}

/// One layer of the board as seen by `me`, row by row.
fn layer(board: &Board<Player>, me: Player, which: u8) -> (out: Vec<u8>)
    requires
        board.wf(),
        which < 3,
    ensures
        out@.len() == 289,
        forall|r: int, c: int|
            in_grid(r, c) ==> #[trigger] out@[idx((r, c))] == layer_value(board@, me, which as int, r, c),
{
    let other = me.opponent();
    let mut out: Vec<u8> = Vec::new();
    let mut r: usize = 0;
    while r < SIDE
        invariant
            board.wf(),
            which < 3,
            other == me.other(),
            r <= 17,
            out@.len() == r * 17,
            forall|x: int, y: int|
                in_grid(x, y) && x < r ==> #[trigger] out@[idx((x, y))] == layer_value(board@, me, which as int, x, y),
        decreases 17 - r,
    {
        let mut c: usize = 0;
        while c < SIDE
            invariant
                board.wf(),
                which < 3,
                other == me.other(),
                r < 17,
                c <= 17,
                out@.len() == r * 17 + c,
                forall|x: int, y: int|
                    in_grid(x, y) && (x < r || (x == r && y < c)) ==> #[trigger] out@[idx((x, y))]
                        == layer_value(board@, me, which as int, x, y),
            decreases 17 - c,
        {
            let occ = board.occupant(r, c);
            let v: u8 = if which == 0 {
                if occ == Some(me) { 1 } else { 0 }
            } else if which == 1 {
                if occ == Some(other) { 1 } else { 0 }
            } else {
                if is_valid(r, c) { 1 } else { 0 }
            };
            out.push(v);
            c = c + 1;
        }
        r = r + 1;
    }
    out
}

/// Whether `player` holds every cell of the triangle where the opponent started.
pub fn has_won(board: &Board<Player>, player: Player) -> (r: bool)
    requires
        board.wf(),
    ensures
        r == won(board@, player),
{
    let other = player.opponent();
    let mut r: usize = 0;
    while r < SIDE
        invariant
            board.wf(),
            other == player.other(),
            r <= 17,
            forall|a: int, b: int|
                0 <= a < r && in_target(player, a, b) ==> #[trigger] cell_at(board@, a, b) == Some(
                    player,
                ),
        decreases 17 - r,
    {
        let mut c: usize = 0;
        while c < SIDE
            invariant
                board.wf(),
                other == player.other(),
                r < 17,
                c <= 17,
                forall|a: int, b: int|
                    (0 <= a < r || (a == r && 0 <= b < c)) && in_target(player, a, b)
                        ==> #[trigger] cell_at(board@, a, b) == Some(player),
            decreases 17 - c,
        {
            if is_home(other, r, c) && board.occupant(r, c) != Some(player) {
                return false;
            }
            c = c + 1;
        }
        r = r + 1;
    }
    true
}

/// The termination check: the status after `mover` completed turn `turns`.
pub fn outcome(board: &Board<Player>, mover: Player, turns: usize) -> (r: GameStatus)
    requires
        board.wf(),
    ensures
        r == outcome_of(board@, mover, turns),
{
    if has_won(board, mover) {
        GameStatus::Finished { winner: mover, total_turns: turns }
    } else {
        GameStatus::Playing { active: mover.opponent(), turns }
    }
}

/// The board at the start of a game: each player's ten pieces on its home
/// triangle.
pub fn initial_board() -> (b: Board<Player>)
    ensures
        b.wf(),
        forall|r: int, c: int| in_grid(r, c) ==> #[trigger] b.at(r, c) == start_cell(r, c),
{
    let mut b: Board<Player> = Board::new();
    let mut r: usize = 0;
    while r < SIDE
        invariant
            b.wf(),
            r <= 17,
            forall|x: int, y: int|
                in_grid(x, y) ==> #[trigger] b.at(x, y) == (if x < r {
                    start_cell(x, y)
                } else {
                    None
                }),
        decreases 17 - r,
    {
        let mut c: usize = 0;
        while c < SIDE
            invariant
                b.wf(),
                r < 17,
                c <= 17,
                forall|x: int, y: int|
                    in_grid(x, y) ==> #[trigger] b.at(x, y) == (if x < r || (x == r && y < c) {
                        start_cell(x, y)
                    } else {
                        None
                    }),
            decreases 17 - c,
        {
            let ghost ob = b;
            let ghost g = b@;
            if is_home(Player::Player1, r, c) {
                let _ = b.set(r, c, Some(Player::Player1));
            } else if is_home(Player::Player2, r, c) {
                let _ = b.set(r, c, Some(Player::Player2));
            }
            assert forall|x: int, y: int| in_grid(x, y) implies #[trigger] b.at(x, y) == (if x < r
                || (x == r && y < c + 1) {
                start_cell(x, y)
            } else {
                None
            }) by {
                if x != r || y != c {
                    assert(idx((x, y)) != idx((r as int, c as int)));
                    assert(b.at(x, y) == ob.at(x, y));
                } else {
                    assert(in_home(Player::Player1, x, y) ==> on_star(x, y));
                    assert(in_home(Player::Player2, x, y) ==> on_star(x, y));
                    assert(ob.at(x, y) is None);
                }
            }
            c = c + 1;
        }
        r = r + 1;
    }
    b
}

/// A game: the board and where the game stands. The board changes only
/// through `apply_move`.
pub struct Game {
    board: Board<Player>,
    status: GameStatus,
}

impl Game {
    /// The grid of the game's board.
    pub closed spec fn grid(&self) -> Seq<Option<Player>> {
        self.board@
    }

    /// Where the game stands.
    pub closed spec fn state(&self) -> GameStatus {
        self.status
    }

    /// The game's invariant.
    pub open spec fn wf(&self) -> bool {
        grid_wf(self.grid())
    }

    /// A new game: the pieces on their home triangles, Player1 to move.
    pub fn new() -> (g: Self)
        ensures
            g.wf(),
            g.state() == (GameStatus::Playing { active: Player::Player1, turns: 0 }),
            forall|r: int, c: int| in_grid(r, c) ==> #[trigger] cell_at(g.grid(), r, c) == start_cell(r, c),
    {
        let board = initial_board();
        assert forall|r: int, c: int| in_grid(r, c) implies #[trigger] cell_at(board@, r, c) == start_cell(r, c) by {
            assert(board.at(r, c) == start_cell(r, c));
        }
        Game { board, status: GameStatus::Playing { active: Player::Player1, turns: 0 } }
    }

    /// Where the game stands.
    pub fn status(&self) -> (r: GameStatus)
        ensures
            r == self.state(),
    {
        self.status
    }

    /// A copy of the board as it stands.
    pub fn board(&self) -> (r: Board<Player>)
        ensures
            r@ == self.grid(),
    {
        self.board.snapshot()
    }

    /// The player to move: 1 for Player1, -1 for Player2, 0 once finished.
    pub fn player(&self) -> (r: i32)
        ensures
            r == (match self.state() {
                GameStatus::Playing { active: Player::Player1, .. } => 1i32,
                GameStatus::Playing { active: Player::Player2, .. } => -1i32,
                GameStatus::Finished { .. } => 0i32,
            }),
    {
        match self.status {
            GameStatus::Finished { .. } => 0,
            GameStatus::Playing { active, .. } => match active {
                Player::Player1 => 1,
                Player::Player2 => -1,
            },
        }
    }

    /// The winner: 1 for Player1, -1 for Player2, 0 while playing.
    pub fn winner(&self) -> (r: i32)
        ensures
            r == (match self.state() {
                GameStatus::Finished { winner: Player::Player1, .. } => 1i32,
                GameStatus::Finished { winner: Player::Player2, .. } => -1i32,
                GameStatus::Playing { .. } => 0i32,
            }),
    {
        match self.status {
            GameStatus::Finished { winner, .. } => match winner {
                Player::Player1 => 1,
                Player::Player2 => -1,
            },
            GameStatus::Playing { .. } => 0,
        }
    }

    /// The number of turns played.
    pub fn turns(&self) -> (r: usize)
        ensures
            r == (match self.state() {
                GameStatus::Finished { total_turns, .. } => total_turns,
                GameStatus::Playing { turns, .. } => turns,
            }),
    {
        match self.status {
            GameStatus::Finished { total_turns, .. } => total_turns,
            GameStatus::Playing { turns, .. } => turns,
        }
    }

    /// The legal destinations of the piece at `(row, col)` for the player to
    /// move; empty where that cell holds no piece of theirs or the game is over.
    pub fn legal_moves(&self, row: usize, col: usize) -> (r: Vec<(usize, usize)>)
        requires
            self.wf(),
        ensures
            r@.no_duplicates(),
            forall|d: (usize, usize)|
                #[trigger] r@.contains(d) <==> accepts(
                    self.state(),
                    self.grid(),
                    (row as int, col as int),
                    pos(d),
                ),
    {
        match self.status {
            GameStatus::Playing { active, .. } => {
                if self.board.occupant(row, col) == Some(active) {
                    legal_destinations(&self.board, row, col)
                } else {
                    Vec::new()
                }
            },
            GameStatus::Finished { .. } => Vec::new(),
        }
    }

    /// Plays the piece at `src` to `dst` for the player to move. A refused move
    /// changes nothing. An accepted one moves the piece, counts the turn, and
    /// either ends the game, where the mover now fills its target triangle, or
    /// hands the turn to the opponent.
    pub fn apply_move(&mut self, src: (usize, usize), dst: (usize, usize)) -> (r: Result<(), MoveError>)
        requires
            old(self).wf(),
            old(self).state() is Playing ==> old(self).state().count() < usize::MAX,
        ensures
            final(self).wf(),
            !(in_grid(src.0 as int, src.1 as int) && in_grid(dst.0 as int, dst.1 as int)) ==> r
                == Err::<(), MoveError>(MoveError::InvalidCoordinate),
            in_grid(src.0 as int, src.1 as int) && in_grid(dst.0 as int, dst.1 as int) && !accepts(
                old(self).state(),
                old(self).grid(),
                pos(src),
                pos(dst),
            ) ==> r == Err::<(), MoveError>(MoveError::IllegalMove),
            r is Ok <==> in_grid(src.0 as int, src.1 as int) && in_grid(dst.0 as int, dst.1 as int)
                && accepts(old(self).state(), old(self).grid(), pos(src), pos(dst)),
            r is Err ==> final(self).grid() == old(self).grid() && final(self).state() == old(
                self,
            ).state(),
            r is Ok ==> final(self).grid() == moved(old(self).grid(), pos(src), pos(dst))
                && final(self).state() == outcome_of(
                final(self).grid(),
                old(self).state().mover().unwrap(),
                (old(self).state().count() + 1) as usize,
            ),
            r is Ok && final(self).state() is Playing ==> final(self).state() == (GameStatus::Playing {
                active: old(self).state().mover().unwrap().other(),
                turns: (old(self).state().count() + 1) as usize,
            }),
    {
        if src.0 >= SIDE || src.1 >= SIDE || dst.0 >= SIDE || dst.1 >= SIDE {
            return Err(MoveError::InvalidCoordinate);
        }
        match self.status {
            GameStatus::Finished { .. } => Err(MoveError::IllegalMove),
            GameStatus::Playing { active, turns } => {
                if self.board.occupant(src.0, src.1) != Some(active) {
                    return Err(MoveError::IllegalMove);
                }
                match move_piece(&mut self.board, src, dst) {
                    Ok(()) => {
                        self.status = outcome(&self.board, active, turns + 1);
                        Ok(())
                    },
                    Err(e) => Err(e),
                }
            },
        }
    }
    /// The board as three layers of 0 and 1, each row by row, as seen by the
    /// player to move (or the winner): that player's pieces, the opponent's
    /// pieces, and the positions of the star.
    pub fn planes(&self) -> (r: Vec<u8>)
        requires
            self.wf(),
        ensures
            r@.len() == 867,
            forall|x: int, y: int|
                in_grid(x, y) ==> #[trigger] r@[idx((x, y))] == layer_value(
                    self.grid(),
                    viewer(self.state()),
                    0,
                    x,
                    y,
                ),
            forall|x: int, y: int|
                in_grid(x, y) ==> #[trigger] r@[289 + idx((x, y))] == layer_value(
                    self.grid(),
                    viewer(self.state()),
                    1,
                    x,
                    y,
                ),
            forall|x: int, y: int|
                in_grid(x, y) ==> #[trigger] r@[578 + idx((x, y))] == layer_value(
                    self.grid(),
                    viewer(self.state()),
                    2,
                    x,
                    y,
                ),
    {
        let me = match self.status {
            GameStatus::Playing { active, .. } => active,
            GameStatus::Finished { winner, .. } => winner,
        };
        let mut out = layer(&self.board, me, 0);
        let mut second = layer(&self.board, me, 1);
        let mut third = layer(&self.board, me, 2);
        let ghost a = out@;
        let ghost b = second@;
        let ghost c = third@;
        out.append(&mut second);
        out.append(&mut third);
        assert(out@ == a + b + c);
        out
    }
}

/// Once a player holds every cell of the triangle where the opponent started,
/// the termination check ends the game with that player as the winner.
pub proof fn lemma_full_target_wins(g: Seq<Option<Player>>, p: Player, turns: usize)
    requires
        forall|r: int, c: int| in_home(p.other(), r, c) ==> #[trigger] cell_at(g, r, c) == Some(p),
    ensures
        outcome_of(g, p, turns) == (GameStatus::Finished { winner: p, total_turns: turns }),
{
    assert forall|r: int, c: int| in_target(p, r, c) implies #[trigger] cell_at(g, r, c) == Some(p) by {
        assert(in_home(p.other(), r, c));
    }
}

/// At the start each player's pieces occupy exactly its own home triangle,
/// ten cells, and every other position holds nothing.
pub proof fn lemma_start_position(p: Player)
    ensures
        cells_where(|r: int, c: int| start_cell(r, c) == Some(p)) == home_cells(p),
        home_cells(p).len() == 10,
        forall|r: int, c: int|
            on_star(r, c) && !in_home(Player::Player1, r, c) && !in_home(Player::Player2, r, c)
                ==> #[trigger] start_cell(r, c) is None,
{
    crate::geometry::lemma_star_geometry();
    assert(cells_where(|r: int, c: int| start_cell(r, c) == Some(p)) =~= home_cells(p));
}

} // verus!
