use vstd::arithmetic::power2::{lemma2_to64, lemma_pow2_strictly_increases, lemma_pow2_unfold, pow2};
use vstd::prelude::*;

use crate::board::{
    coord_of_index, coord_of_led, lemma_led_coord, lemma_led_inverse, off, Board, Coord, Direction,
    IntoBoard, CELLS, SIZE,
};
use crate::colour::{get_tile_colour, tile_colour};
use crate::rng::{draw_of, next_u32, rng_advance, DEFAULT_SEED};
use crate::codec::{decode, decoded, encode, encoded, lemma_round_trip, BYTES_SIZE};

verus! {

/// The fixed-capacity vector used as scratch space.
#[verifier::external_type_specification]
#[verifier::external_body]
#[verifier::reject_recursive_types(T)]
pub struct ExHeaplessVec<T, const N: usize>(heapless::Vec<T, N>);

/// The items held by a fixed-capacity vector of board indices, in order.
pub uninterp spec fn buffered(v: heapless::Vec<usize, CELLS>) -> Seq<usize>;

/// Relies on heapless::Vec::new: the new vector holds nothing.
#[verifier::external_body]
fn buffer_new() -> (r: heapless::Vec<usize, CELLS>)
    ensures
        buffered(r) == Seq::<usize>::empty(),
{
    heapless::Vec::new()
}

/// Relies on heapless::Vec::push: below capacity the item is appended and
/// `Ok` returned; at capacity the vector is unchanged and `Err` returned.
#[verifier::external_body]
fn buffer_push(v: &mut heapless::Vec<usize, CELLS>, item: usize) -> (pushed: bool)
    ensures
        pushed == (buffered(*old(v)).len() < CELLS),
        pushed ==> buffered(*final(v)) == buffered(*old(v)).push(item),
        !pushed ==> buffered(*final(v)) == buffered(*old(v)),
{
    v.push(item).is_ok()
}

/// Relies on heapless::Vec dereferencing to the slice of its items: the
/// slice's length is the number of items.
#[verifier::external_body]
fn buffer_len(v: &heapless::Vec<usize, CELLS>) -> (r: usize)
    ensures
        r == buffered(*v).len(),
{
    v.len()
}

/// Relies on heapless::Vec dereferencing to the slice of its items: indexing
/// reads the `i`-th item.
#[verifier::external_body]
fn buffer_get(v: &heapless::Vec<usize, CELLS>, i: usize) -> (r: usize)
    requires
        i < buffered(*v).len(),
    ensures
        r == buffered(*v)[i as int],
{
    v[i]
}

/// Outcome of trying to move a single tile.
#[derive(Clone, Copy, Debug, PartialEq, Eq, Structural)]
pub enum TileMoveResult {
    NoMove,
    Free(Coord),
    Merge(Coord),
}

/// The 4x4 game: tile ranks in row-major order (0 is empty, rank `k` shows
/// the value `2^k`), the score, and the state of the generator that places
/// new tiles.
pub struct GameBoard {
    tiles: [u8; CELLS],
    rng: u64,
    score: u32,
}

/// Row-major index of the cell at storage position `i`.
pub open spec fn cell(i: int) -> Coord {
    Coord { x: (i % SIZE as int) as usize, y: (i / SIZE as int) as usize }
}

/// All cells empty.
pub open spec fn empty_tiles() -> Seq<u8> {
    Seq::new(CELLS as nat, |i: int| 0u8)
}

/// No cell is empty.
pub open spec fn full(tiles: Seq<u8>) -> bool {
    forall|i: int| 0 <= i < tiles.len() ==> tiles[i] != 0
}

/// Largest rank among the first `n` cells (0 when `n` is 0).
pub open spec fn max_upto(tiles: Seq<u8>, n: nat) -> u8
    decreases n,
{
    if n == 0 {
        0
    } else {
        let m = max_upto(tiles, (n - 1) as nat);
        if tiles[n - 1] > m {
            tiles[n - 1]
        } else {
            m
        }
    }
}

/// Board indices of the empty cells among the first `n`, in row-major order.
pub open spec fn vacant_upto(tiles: Seq<u8>, n: nat) -> Seq<usize>
    decreases n,
{
    if n == 0 {
        Seq::empty()
    } else {
        let s = vacant_upto(tiles, (n - 1) as nat);
        if tiles[n - 1] == 0 {
            s.push((n - 1) as usize)
        } else {
            s
        }
    }
}

/// Board indices of all empty cells, in row-major order.
pub open spec fn vacant(tiles: Seq<u8>) -> Seq<usize> {
    vacant_upto(tiles, CELLS as nat)
}

/// The empty tile that a draw of the generator selects.
pub open spec fn picked(tiles: Seq<u8>, draw: u32) -> Option<Coord> {
    let v = vacant(tiles);
    if v.len() == 0 {
        None
    } else {
        Some(cell(v[(draw as int) % (v.len() as int)] as int))
    }
}

/// Rank of a new tile for a draw of the generator: one draw in ten gives 2.
pub open spec fn spawned_rank(draw: u32) -> u8 {
    if draw % 10 == 0 {
        2
    } else {
        1
    }
}

/// Tiles and generator state after placing a random tile: the first draw
/// picks the empty tile, the second its rank. A full board is left as it is
/// and the generator is not drawn from.
pub open spec fn spawn_result(tiles: Seq<u8>, state: u64) -> (Seq<u8>, u64) {
    match picked(tiles, draw_of(state)) {
        Some(c) => (
            tiles.update(c.index(), spawned_rank(draw_of(rng_advance(state)))),
            rng_advance(rng_advance(state)),
        ),
        None => (tiles, state),
    }
}

/// Tiles and generator state of a new game: two random tiles placed on an
/// empty board, starting from the default seed.
pub open spec fn new_game_state() -> (Seq<u8>, u64) {
    let first = spawn_result(empty_tiles(), DEFAULT_SEED);
    spawn_result(first.0, first.1)
}

/// Points for merging two tiles of `rank`: `2^(rank + 1)`, capped at `u32::MAX`.
pub open spec fn merge_points(rank: u8) -> u32 {
    if rank + 1 < 32 {
        pow2((rank + 1) as nat) as u32
    } else {
        u32::MAX
    }
}

/// Addition that stops at `u32::MAX`.
pub open spec fn add_capped(a: u32, b: u32) -> u32 {
    if a + b > u32::MAX {
        u32::MAX
    } else {
        (a + b) as u32
    }
}

/// Where a tile of `rank` that has reached `at` ends up when it keeps sliding
/// towards `direction`: across empty cells, stopping before a tile of another
/// rank or at the edge, or merging into the first tile of its own rank.
pub open spec fn slide(tiles: Seq<u8>, rank: u8, at: Coord, direction: Direction) -> (Coord, bool)
    decreases at.steps_to_edge(direction),
{
    match at.step(direction) {
        None => (at, false),
        Some(next) => if tiles[next.index()] == rank {
            (next, true)
        } else if tiles[next.index()] != 0 {
            (at, false)
        } else {
            slide(tiles, rank, next, direction)
        },
    }
}

/// How the tile at `coord` moves towards `direction`.
pub open spec fn tile_move(tiles: Seq<u8>, coord: Coord, direction: Direction) -> TileMoveResult {
    let (dest, merge) = slide(tiles, tiles[coord.index()], coord, direction);
    if merge {
        TileMoveResult::Merge(dest)
    } else if dest == coord {
        TileMoveResult::NoMove
    } else {
        TileMoveResult::Free(dest)
    }
}

/// One step of a move: the tile at `coord` (if any) slides or merges; the
/// state is the tiles, the score, and whether anything has moved so far.
/// A tile of the top rank has no rank to merge into: where it would merge,
/// it stops next to the tile it meets instead, without points.
pub open spec fn move_tile(state: (Seq<u8>, u32, bool), coord: Coord, direction: Direction) -> (
    Seq<u8>,
    u32,
    bool,
) {
    let (tiles, score, moved) = state;
    let value = tiles[coord.index()];
    if value == 0 {
        state
    } else {
        match tile_move(tiles, coord, direction) {
            TileMoveResult::NoMove => state,
            TileMoveResult::Free(dest) => (
                tiles.update(dest.index(), value).update(coord.index(), 0),
                score,
                true,
            ),
            TileMoveResult::Merge(dest) => if value == u8::MAX {
                match dest.step(direction.opposite()) {
                    Some(stop) => if stop == coord {
                        state
                    } else {
                        (tiles.update(stop.index(), value).update(coord.index(), 0), score, true)
                    },
                    None => state,
                }
            } else {
                (
                    tiles.update(dest.index(), (value + 1) as u8).update(coord.index(), 0),
                    add_capped(score, merge_points(value)),
                    true,
                )
            },
        }
    }
}

/// The column visited at position `i` of a move: right to left for `Right`.
pub open spec fn column_order(direction: Direction, i: int) -> int {
    if direction == Direction::Right {
        SIZE - 1 - i
    } else {
        i
    }
}

/// The row visited at position `i` of a move: top to bottom for `Up`.
pub open spec fn row_order(direction: Direction, i: int) -> int {
    if direction == Direction::Up {
        SIZE - 1 - i
    } else {
        i
    }
}

/// The `k`-th cell visited by a move: columns in the outer loop, rows in the
/// inner one, both starting from the edge the tiles move towards.
pub open spec fn visit(direction: Direction, k: int) -> Coord {
    Coord {
        x: column_order(direction, k / SIZE as int) as usize,
        y: row_order(direction, k % SIZE as int) as usize,
    }
}

/// State after the first `n` cells of a move have been processed.
pub open spec fn moves_upto(tiles: Seq<u8>, score: u32, direction: Direction, n: nat) -> (
    Seq<u8>,
    u32,
    bool,
)
    decreases n,
{
    if n == 0 {
        (tiles, score, false)
    } else {
        move_tile(moves_upto(tiles, score, direction, (n - 1) as nat), visit(direction, n - 1), direction)
    }
}

/// Tiles, score and "something moved" after a whole move.
pub open spec fn move_result(tiles: Seq<u8>, score: u32, direction: Direction) -> (Seq<u8>, u32, bool) {
    moves_upto(tiles, score, direction, CELLS as nat)
}

proof fn lemma_vacant_upto(tiles: Seq<u8>, n: nat)
    requires
        n <= tiles.len(),
        n <= CELLS,
    ensures
        vacant_upto(tiles, n).len() <= n,
        forall|k: int|
            0 <= k < vacant_upto(tiles, n).len() ==> vacant_upto(tiles, n)[k] < n && tiles[vacant_upto(
                tiles,
                n,
            )[k] as int] == 0,
        vacant_upto(tiles, n).len() == 0 <==> forall|i: int| 0 <= i < n ==> tiles[i] != 0,
    decreases n,
{
    if n > 0 {
        lemma_vacant_upto(tiles, (n - 1) as nat);
        let s = vacant_upto(tiles, (n - 1) as nat);
        if tiles[n - 1] == 0 {
            assert forall|k: int| 0 <= k < s.len() implies s.push((n - 1) as usize)[k] == s[k] by {}
        }
    }
}

proof fn lemma_cell_index(i: int)
    requires
        0 <= i < CELLS,
    ensures
        cell(i).wf(),
        cell(i).index() == i,
        coord_of_index(i) == Some(cell(i)),
{
}

impl GameBoard {
    /// The tile ranks in row-major order.
    pub closed spec fn tiles_view(&self) -> Seq<u8> {
        self.tiles@
    }

    /// The score.
    pub closed spec fn score_view(&self) -> u32 {
        self.score
    }

    /// The state of the generator.
    pub closed spec fn rng_view(&self) -> u64 {
        self.rng
    }

    /// There is always one rank per cell.
    pub proof fn lemma_cell_count(&self)
        ensures
            self.tiles_view().len() == CELLS,
    {
    }

    /// Create an empty board.
    pub fn empty() -> (r: GameBoard)
        ensures
            r.tiles_view() == empty_tiles(),
            r.score_view() == 0,
            r.rng_view() == DEFAULT_SEED,
    {
        GameBoard::full_of(0)
    }

    /// Create a board entirely filled with some tile.
    pub fn full_of(value: u8) -> (r: GameBoard)
        ensures
            r.tiles_view() == Seq::new(CELLS as nat, |i: int| value),
            r.score_view() == 0,
            r.rng_view() == DEFAULT_SEED,
    {
        let r = GameBoard::with_tiles([value; CELLS]);
        assert(r.tiles@ =~= Seq::new(CELLS as nat, |i: int| value));
        r
    }

    /// Create a board containing the specified tiles.
    pub fn with_tiles(tiles: [u8; CELLS]) -> (r: GameBoard)
        ensures
            r.tiles_view() == tiles@,
            r.score_view() == 0,
            r.rng_view() == DEFAULT_SEED,
    {
        GameBoard::from_parts(tiles, 0)
    }

    /// Create a board with the specified tiles and score, as when a saved game
    /// is restored.
    pub fn from_parts(tiles: [u8; CELLS], score: u32) -> (r: GameBoard)
        ensures
            r.tiles_view() == tiles@,
            r.score_view() == score,
            r.rng_view() == DEFAULT_SEED,
    {
        GameBoard { tiles, rng: DEFAULT_SEED, score }
    }

    /// Start a new game: an empty board with two random tiles.
    pub fn new_game() -> (r: GameBoard)
        ensures
            r.score_view() == 0,
            (r.tiles_view(), r.rng_view()) == new_game_state(),
            exists|i: int, j: int|
                0 <= i < j < CELLS && (forall|k: int|
                    0 <= k < CELLS ==> (#[trigger] r.tiles_view()[k] != 0 <==> k == i || k == j))
                    && (r.tiles_view()[i] == 1 || r.tiles_view()[i] == 2) && (r.tiles_view()[j]
                    == 1 || r.tiles_view()[j] == 2),
    {
        let mut board = GameBoard::empty();
        proof {
            assert(!full(board.tiles@)) by {
                assert(board.tiles@[0] == 0);
            }
        }
        board.set_random();
        let ghost first = board.tiles@;
        proof {
            let i = choose|i: int|
                0 <= i < CELLS && empty_tiles()[i] == 0 && (first == empty_tiles().update(i, 1)
                    || first == empty_tiles().update(i, 2));
            let other = if i == 0 { 1int } else { 0int };
            assert(first[other] == 0);
        }
        board.set_random();
        proof {
            let i = choose|i: int|
                0 <= i < CELLS && empty_tiles()[i] == 0 && (first == empty_tiles().update(i, 1)
                    || first == empty_tiles().update(i, 2));
            let j = choose|j: int|
                0 <= j < CELLS && first[j] == 0 && (board.tiles@ == first.update(j, 1)
                    || board.tiles@ == first.update(j, 2));
            assert(i != j);
            let (a, b) = if i < j { (i, j) } else { (j, i) };
            assert(forall|k: int|
                0 <= k < CELLS ==> (#[trigger] board.tiles@[k] != 0 <==> k == a || k == b));
            assert(board.tiles@[a] == 1 || board.tiles@[a] == 2);
            assert(board.tiles@[b] == 1 || board.tiles@[b] == 2);
            assert(0 <= a < b < CELLS);
        }
        board
    }

    /// Clears all tiles from the board.
    pub fn clear(&mut self)
        ensures
            final(self).tiles_view() == empty_tiles(),
            final(self).score_view() == 0,
            final(self).rng_view() == old(self).rng_view(),
    {
        self.tiles = [0; CELLS];
        self.score = 0;
        assert(self.tiles@ =~= empty_tiles());
    }

    /// Get the maximum value of any tile on the board.
    pub fn max_tile(&self) -> (r: u8)
        ensures
            r == max_upto(self.tiles_view(), CELLS as nat),
    {
        let mut m: u8 = 0;
        let mut i: usize = 0;
        while i < CELLS
            invariant
                i <= CELLS,
                m == max_upto(self.tiles@, i as nat),
            decreases CELLS - i,
        {
            if self.tiles[i] > m {
                m = self.tiles[i];
            }
            i = i + 1;
        }
        m
    }

    /// Returns true only if all tiles are filled (non-zero).
    pub fn is_full(&self) -> (r: bool)
        ensures
            r == full(self.tiles_view()),
    {
        let mut i: usize = 0;
        while i < CELLS
            invariant
                i <= CELLS,
                forall|k: int| 0 <= k < i ==> self.tiles@[k] != 0,
            decreases CELLS - i,
        {
            if self.tiles[i] == 0 {
                return false;
            }
            i = i + 1;
        }
        true
    }

    /// Get the value of a tile on the board.
    pub fn get_tile(&self, coord: Coord) -> (r: u8)
        requires
            coord.wf(),
        ensures
            r == self.tiles_view()[coord.index()],
    {
        self.tiles[coord.board_index()]
    }

    /// Set a tile on the board to some value.
    pub fn set_tile(&mut self, coord: Coord, value: u8)
        requires
            coord.wf(),
        ensures
            final(self).tiles_view() == old(self).tiles_view().update(coord.index(), value),
            final(self).score_view() == old(self).score_view(),
            final(self).rng_view() == old(self).rng_view(),
    {
        let i = coord.board_index();
        self.tiles[i] = value;
    }

    /// Set a tile on the board to empty.
    pub fn clear_tile(&mut self, coord: Coord)
        requires
            coord.wf(),
        ensures
            final(self).tiles_view() == old(self).tiles_view().update(coord.index(), 0),
            final(self).score_view() == old(self).score_view(),
            final(self).rng_view() == old(self).rng_view(),
    {
        self.set_tile(coord, 0)
    }

    /// Get the game's score.
    pub fn get_score(&self) -> (r: u32)
        ensures
            r == self.score_view(),
    {
        self.score
    }

    /// Get the board tiles.
    pub fn get_board(&self) -> (r: [u8; CELLS])
        ensures
            r@ == self.tiles_view(),
    {
        self.tiles
    }

    /// Get the locations of all empty tiles, in row-major order.
    pub fn vacant_tiles(&self) -> (r: Vec<Coord>)
        ensures
            r@ == vacant(self.tiles_view()).map_values(|i: usize| cell(i as int)),
    {
        let mut r: Vec<Coord> = Vec::new();
        let mut i: usize = 0;
        while i < CELLS
            invariant
                i <= CELLS,
                r@ == vacant_upto(self.tiles@, i as nat).map_values(|i: usize| cell(i as int)),
            decreases CELLS - i,
        {
            if self.tiles[i] == 0 {
                proof {
                    lemma_cell_index(i as int);
                }
                let c = Coord::from_index(i).unwrap();
                r.push(c);
            }
            proof {
                let f = |i: usize| cell(i as int);
                let s = vacant_upto(self.tiles@, i as nat);
                assert(s.push(i).map_values(f) =~= s.map_values(f).push(f(i)));
            }
            i = i + 1;
        }
        r
    }

    /// The board indices of all empty tiles, in a fixed-capacity buffer.
    fn vacant_buffer(&self) -> (r: heapless::Vec<usize, CELLS>)
        ensures
            buffered(r) == vacant(self.tiles_view()),
    {
        let vacant_tiles = self.vacant_tiles();
        let mut buffer = buffer_new();
        let mut k: usize = 0;
        proof {
            lemma_vacant_upto(self.tiles@, CELLS as nat);
        }
        while k < vacant_tiles.len()
            invariant
                k <= vacant_tiles.len(),
                vacant_tiles@ == vacant(self.tiles@).map_values(|i: usize| cell(i as int)),
                buffered(buffer) == vacant(self.tiles@).subrange(0, k as int),
                vacant(self.tiles@).len() <= CELLS,
                forall|j: int|
                    0 <= j < vacant(self.tiles@).len() ==> vacant(self.tiles@)[j] < CELLS,
            decreases vacant_tiles.len() - k,
        {
            let c = vacant_tiles[k];
            proof {
                lemma_cell_index(vacant(self.tiles@)[k as int] as int);
            }
            let pushed = buffer_push(&mut buffer, c.board_index());
            if !pushed {
                proof {
                    assert(false);
                }
            }
            proof {
                assert(vacant(self.tiles@).subrange(0, k + 1) =~= vacant(self.tiles@).subrange(
                    0,
                    k as int,
                ).push(vacant(self.tiles@)[k as int]));
            }
            k = k + 1;
        }
        assert(vacant(self.tiles@).subrange(0, k as int) =~= vacant(self.tiles@));
        buffer
    }

    /// The empty tile that a given draw of the generator selects: the
    /// `draw % n`-th of the `n` empty tiles, or `None` when the board is full.
    pub fn select_vacant_tile(&self, draw: u32) -> (r: Option<Coord>)
        ensures
            r == picked(self.tiles_view(), draw),
            r matches Some(c) ==> c.wf() && self.tiles_view()[c.index()] == 0,
    {
        let buffer = self.vacant_buffer();
        let num_vacant = buffer_len(&buffer);
        proof {
            lemma_vacant_upto(self.tiles@, CELLS as nat);
        }
        if num_vacant > 0 {
            let index = buffer_get(&buffer, (draw as usize) % num_vacant);
            proof {
                lemma_cell_index(index as int);
            }
            Coord::from_index(index)
        } else {
            None
        }
    }

    /// Get the location of a random empty tile; `None` if no empty tiles are
    /// present, in which case the generator is not drawn from.
    pub fn random_vacant_tile(&mut self) -> (r: Option<Coord>)
        ensures
            final(self).tiles_view() == old(self).tiles_view(),
            final(self).score_view() == old(self).score_view(),
            r == picked(old(self).tiles_view(), draw_of(old(self).rng_view())),
            r is Some <==> !full(old(self).tiles_view()),
            r is Some ==> final(self).rng_view() == rng_advance(old(self).rng_view()),
            r is None ==> final(self).rng_view() == old(self).rng_view(),
            r matches Some(c) ==> c.wf() && old(self).tiles_view()[c.index()] == 0,
    {
        proof {
            lemma_vacant_upto(self.tiles@, CELLS as nat);
        }
        if self.is_full() {
            None
        } else {
            let draw = next_u32(&mut self.rng);
            self.select_vacant_tile(draw)
        }
    }

    /// Rank of a new tile for a given draw of the generator: 2 when the draw
    /// is a multiple of 10, else 1.
    pub fn spawn_rank(draw: u32) -> (r: u8)
        ensures
            r == spawned_rank(draw),
    {
        if draw % 10 == 0 {
            2
        } else {
            1
        }
    }

    /// Set a random empty tile to a 2 or a 4.
    /// If no empty tile is found, then no changes are made and `false` is returned.
    pub fn set_random(&mut self) -> (r: bool)
        ensures
            r == !full(old(self).tiles_view()),
            final(self).score_view() == old(self).score_view(),
            (final(self).tiles_view(), final(self).rng_view()) == spawn_result(
                old(self).tiles_view(),
                old(self).rng_view(),
            ),
            r ==> exists|i: int|
                0 <= i < CELLS && old(self).tiles_view()[i] == 0 && (final(self).tiles_view()
                    == old(self).tiles_view().update(i, 1)
                    || final(self).tiles_view() == old(self).tiles_view().update(i, 2)),
    {
        match self.random_vacant_tile() {
            Some(tile) => {
                let draw = next_u32(&mut self.rng);
                let value = GameBoard::spawn_rank(draw);
                self.set_tile(tile, value);
                true
            },
            None => false,
        }
    }

    /// Save the tiles and score to bytes; the generator is not saved.
    pub fn to_bytes(&self) -> (r: [u8; BYTES_SIZE])
        ensures
            r@ == encoded(self.tiles_view(), self.score_view()),
    {
        encode(&self.tiles, self.score)
    }

    /// Restore a board from saved bytes, with a fresh generator; `None` when
    /// the bytes are too short or the score in them is malformed.
    pub fn from_bytes(bytes: &[u8]) -> (r: Option<GameBoard>)
        ensures
            r is Some <==> decoded(bytes@) is Some,
            r matches Some(b) ==> decoded(bytes@) == Some((b.tiles_view(), b.score_view()))
                && b.rng_view() == DEFAULT_SEED,
    {
        match decode(bytes) {
            Some((tiles, score)) => Some(GameBoard::from_parts(tiles, score)),
            None => None,
        }
    }

    /// Return two arrays specifying the order to attempt to move tiles.
    fn get_traversal_order(&self, direction: Direction) -> (r: ([usize; SIZE], [usize; SIZE]))
        ensures
            forall|i: int| 0 <= i < SIZE ==> r.0@[i] == column_order(direction, i),
            forall|i: int| 0 <= i < SIZE ==> r.1@[i] == row_order(direction, i),
    {
        let x_traversal_order = match direction {
            Direction::Right => [3, 2, 1, 0],
            _ => [0, 1, 2, 3],
        };
        let y_traversal_order = match direction {
            Direction::Up => [3, 2, 1, 0],
            _ => [0, 1, 2, 3],
        };
        (x_traversal_order, y_traversal_order)
    }

    /// Find the farthest position in the specified direction that the tile can move to.
    pub fn find_tile_move(&self, tile_coord: Coord, direction: Direction) -> (r: TileMoveResult)
        requires
            tile_coord.wf(),
        ensures
            r == tile_move(self.tiles_view(), tile_coord, direction),
    {
        let rank = self.get_tile(tile_coord);
        let mut prev = tile_coord;
        loop
            invariant
                prev.wf(),
                rank == self.tiles@[tile_coord.index()],
                slide(self.tiles@, rank, prev, direction) == slide(
                    self.tiles@,
                    rank,
                    tile_coord,
                    direction,
                ),
            ensures
                prev.wf(),
                slide(self.tiles@, rank, tile_coord, direction) == (prev, false),
            decreases prev.steps_to_edge(direction),
        {
            match prev.neighbour(direction) {
                None => break,
                Some(next) => {
                    let next_rank = self.get_tile(next);
                    if next_rank == rank {
                        return TileMoveResult::Merge(next);
                    } else if next_rank != 0 {
                        break;
                    }
                    prev = next;
                },
            }
        }
        if tile_coord == prev {
            TileMoveResult::NoMove
        } else {
            TileMoveResult::Free(prev)
        }
    }

    /// Points for merging two tiles of `rank`.
    fn merge_points(rank: u8) -> (r: u32)
        ensures
            r == merge_points(rank),
    {
        if rank >= 31 {
            return u32::MAX;
        }
        let mut points: u32 = 2;
        let mut i: u8 = 0;
        proof {
            lemma2_to64();
        }
        while i < rank
            invariant
                i <= rank < 31,
                points == pow2((i + 1) as nat),
            decreases rank - i,
        {
            proof {
                lemma_pow2_unfold((i + 2) as nat);
                lemma_pow2_strictly_increases((i + 2) as nat, 32);
                lemma2_to64();
            }
            points = points * 2;
            i = i + 1;
        }
        points
    }

    /// Moves all tiles as far as possible in the specified direction.
    /// Returns true if any tiles were moved.
    pub fn make_move(&mut self, direction: Direction) -> (r: bool)
        ensures
            (final(self).tiles_view(), final(self).score_view(), r) == move_result(
                old(self).tiles_view(),
                old(self).score_view(),
                direction,
            ),
            final(self).rng_view() == old(self).rng_view(),
    {
        let (x_traversals, y_traversals) = self.get_traversal_order(direction);
        let mut moved = false;
        let ghost tiles0 = self.tiles@;
        let ghost score0 = self.score;
        let ghost rng0 = self.rng;
        let mut xi: usize = 0;
        while xi < SIZE
            invariant
                xi <= SIZE,
                self.rng == rng0,
                forall|i: int| 0 <= i < SIZE ==> x_traversals@[i] == column_order(direction, i),
                forall|i: int| 0 <= i < SIZE ==> y_traversals@[i] == row_order(direction, i),
                (self.tiles@, self.score, moved) == moves_upto(
                    tiles0,
                    score0,
                    direction,
                    (SIZE * xi) as nat,
                ),
            decreases SIZE - xi,
        {
            let x = x_traversals[xi];
            let mut yi: usize = 0;
            while yi < SIZE
                invariant
                    xi < SIZE,
                    self.rng == rng0,
                    yi <= SIZE,
                    x == column_order(direction, xi as int),
                    forall|i: int| 0 <= i < SIZE ==> y_traversals@[i] == row_order(direction, i),
                    (self.tiles@, self.score, moved) == moves_upto(
                        tiles0,
                        score0,
                        direction,
                        (SIZE * xi + yi) as nat,
                    ),
                decreases SIZE - yi,
            {
                let y = y_traversals[yi];
                let ghost k = (SIZE * xi + yi) as int;
                proof {
                    assert(k / SIZE as int == xi as int);
                    assert(k % SIZE as int == yi as int);
                }
                assert(y == row_order(direction, yi as int));
                assert(x < SIZE && y < SIZE);
                let coord = Coord::new(x, y).unwrap();
                assert(coord == visit(direction, k));
                let value = self.get_tile(coord);
                if value != 0 {
                    match self.find_tile_move(coord, direction) {
                        TileMoveResult::NoMove => {},
                        TileMoveResult::Free(new_coord) => {
                            proof {
                                lemma_slide_wf(self.tiles@, value, coord, direction);
                            }
                            self.set_tile(new_coord, value);
                            self.clear_tile(coord);
                            moved = true;
                        },
                        TileMoveResult::Merge(new_coord) => {
                            proof {
                                lemma_slide_wf(self.tiles@, value, coord, direction);
                            }
                            if value == u8::MAX {
                                match new_coord.neighbour(direction.reversed()) {
                                    Some(stop) => {
                                        if stop != coord {
                                            self.set_tile(stop, value);
                                            self.clear_tile(coord);
                                            moved = true;
                                        }
                                    },
                                    None => {},
                                }
                            } else {
                                let points = GameBoard::merge_points(value);
                                self.set_tile(new_coord, value + 1);
                                self.clear_tile(coord);
                                self.score = if self.score > u32::MAX - points {
                                    u32::MAX
                                } else {
                                    self.score + points
                                };
                                moved = true;
                            }
                        },
                    }
                }
                yi = yi + 1;
            }
            xi = xi + 1;
        }
        moved
    }

    /// Play one turn: move the tiles, and place a random tile only when the
    /// move changed something. Returns whether it did.
    pub fn play_move(&mut self, direction: Direction) -> (r: bool)
        ensures
            r == move_result(old(self).tiles_view(), old(self).score_view(), direction).2,
            r ==> final(self).score_view() == move_result(
                old(self).tiles_view(),
                old(self).score_view(),
                direction,
            ).1,
            r ==> (final(self).tiles_view(), final(self).rng_view()) == spawn_result(
                move_result(old(self).tiles_view(), old(self).score_view(), direction).0,
                old(self).rng_view(),
            ),
            !r ==> final(self).tiles_view() == old(self).tiles_view(),
            !r ==> final(self).score_view() == old(self).score_view(),
            !r ==> final(self).rng_view() == old(self).rng_view(),
    {
        proof {
            lemma_no_change(self.tiles@, self.score, direction);
        }
        if self.make_move(direction) {
            self.set_random();
            true
        } else {
            false
        }
    }
}

/// The cell where a slide ends is on the grid.
proof fn lemma_slide_wf(tiles: Seq<u8>, rank: u8, at: Coord, direction: Direction)
    requires
        at.wf(),
    ensures
        slide(tiles, rank, at, direction).0.wf(),
    decreases at.steps_to_edge(direction),
{
    match at.step(direction) {
        None => {},
        Some(next) => {
            lemma_slide_wf(tiles, rank, next, direction);
        },
    }
}


impl PartialEq for GameBoard {
    fn eq(&self, other: &GameBoard) -> (r: bool) {
        let mut i: usize = 0;
        while i < CELLS
            invariant
                i <= CELLS,
                forall|k: int| 0 <= k < i ==> self.tiles@[k] == other.tiles@[k],
            decreases CELLS - i,
        {
            if self.tiles[i] != other.tiles[i] {
                return false;
            }
            i = i + 1;
        }
        assert(self.tiles@ =~= other.tiles@);
        self.score == other.score
    }
}

impl vstd::std_specs::cmp::PartialEqSpecImpl for GameBoard {
    open spec fn obeys_eq_spec() -> bool {
        true
    }

    open spec fn eq_spec(&self, other: &GameBoard) -> bool {
        self.tiles_view() == other.tiles_view() && self.score_view() == other.score_view()
    }
}

impl Eq for GameBoard {

}

impl IntoBoard for GameBoard {
    /// Each LED shows the colour of its cell's tile.
    open spec fn frame(&self) -> Seq<smart_leds::RGB8> {
        Seq::new(CELLS as nat, |j: int| tile_colour(self.tiles_view()[coord_of_led(j).index()]))
    }

    fn into_board(&self) -> (r: Board) {
        let mut board = Board::new();
        let mut index: usize = 0;
        while index < CELLS
            invariant
                index <= CELLS,
                board@.len() == CELLS,
                forall|j: int|
                    0 <= j < CELLS ==> #[trigger] board@[j] == if coord_of_led(j).index() < index {
                        tile_colour(self.tiles@[coord_of_led(j).index()])
                    } else {
                        off()
                    },
            decreases CELLS - index,
        {
            proof {
                lemma_cell_index(index as int);
                lemma_led_inverse(cell(index as int));
            }
            let coord = Coord::from_index(index).unwrap();
            let colour = get_tile_colour(self.tiles[index]);
            let ghost before = board@;
            board.set_led(coord, colour);
            proof {
                assert forall|j: int| 0 <= j < CELLS implies #[trigger] board@[j] == if coord_of_led(
                    j,
                ).index() < index + 1 {
                    tile_colour(self.tiles@[coord_of_led(j).index()])
                } else {
                    off()
                } by {
                    lemma_led_coord(j);
                    if j != coord.led() {
                        assert(coord_of_led(j) != coord);
                    }
                }
            }
            index = index + 1;
        }
        assert(board@ =~= self.frame());
        board
    }
}

/// Restoring the bytes that a board was saved to gives back its tiles and
/// score.
pub proof fn lemma_save_restore(board: &GameBoard)
    ensures
        decoded(encoded(board.tiles_view(), board.score_view())) == Some(
            (board.tiles_view(), board.score_view()),
        ),
{
    board.lemma_cell_count();
    lemma_round_trip(board.tiles_view(), board.score_view());
}

proof fn lemma_max_of_empty(n: nat)
    requires
        n <= CELLS,
    ensures
        max_upto(empty_tiles(), n) == 0,
    decreases n,
{
    if n > 0 {
        lemma_max_of_empty((n - 1) as nat);
    }
}

/// A cleared board is not full, and its largest tile is 0.
pub proof fn lemma_cleared_board()
    ensures
        !full(empty_tiles()),
        max_upto(empty_tiles(), CELLS as nat) == 0,
{
    assert(empty_tiles()[0] == 0);
    lemma_max_of_empty(CELLS as nat);
}

proof fn lemma_moves_upto_unchanged(tiles: Seq<u8>, score: u32, direction: Direction, n: nat)
    ensures
        !moves_upto(tiles, score, direction, n).2 ==> moves_upto(tiles, score, direction, n).0
            == tiles && moves_upto(tiles, score, direction, n).1 == score,
    decreases n,
{
    if n > 0 {
        lemma_moves_upto_unchanged(tiles, score, direction, (n - 1) as nat);
    }
}

/// A move that reports that nothing moved leaves the tiles and the score as
/// they were.
pub proof fn lemma_no_change(tiles: Seq<u8>, score: u32, direction: Direction)
    ensures
        !move_result(tiles, score, direction).2 ==> move_result(tiles, score, direction).0 == tiles
            && move_result(tiles, score, direction).1 == score,
{
    lemma_moves_upto_unchanged(tiles, score, direction, CELLS as nat);
}

proof fn lemma_moves_upto_stuck(tiles: Seq<u8>, score: u32, direction: Direction, n: nat)
    requires
        n <= CELLS,
        forall|c: Coord|
            c.wf() && tiles[c.index()] != 0 ==> #[trigger] tile_move(tiles, c, direction)
                == TileMoveResult::NoMove,
    ensures
        moves_upto(tiles, score, direction, n) == (tiles, score, false),
    decreases n,
{
    if n > 0 {
        lemma_moves_upto_stuck(tiles, score, direction, (n - 1) as nat);
        let c = visit(direction, n - 1);
        assert(c.wf());
    }
}

/// When no tile can slide or merge towards `direction`, the move reports
/// that nothing moved and leaves the tiles and the score as they were.
pub proof fn lemma_stuck_board(tiles: Seq<u8>, score: u32, direction: Direction)
    requires
        forall|c: Coord|
            c.wf() && tiles[c.index()] != 0 ==> #[trigger] tile_move(tiles, c, direction)
                == TileMoveResult::NoMove,
    ensures
        move_result(tiles, score, direction) == (tiles, score, false),
{
    lemma_moves_upto_stuck(tiles, score, direction, CELLS as nat);
}

proof fn lemma_moves_upto_score(tiles: Seq<u8>, score: u32, direction: Direction, n: nat)
    ensures
        moves_upto(tiles, score, direction, n).1 >= score,
    decreases n,
{
    if n > 0 {
        lemma_moves_upto_score(tiles, score, direction, (n - 1) as nat);
    }
}

/// A move never lowers the score.
pub proof fn lemma_score_grows(tiles: Seq<u8>, score: u32, direction: Direction)
    ensures
        move_result(tiles, score, direction).1 >= score,
{
    lemma_moves_upto_score(tiles, score, direction, CELLS as nat);
}

} // verus!
