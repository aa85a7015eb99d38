use vstd::prelude::*;

verus! {

/// The ground covers the cells `-GROUND_HALF_SPAN .. GROUND_HALF_SPAN` on each axis.
pub const GROUND_HALF_SPAN: i32 = 50;

/// Side length of a ground cell, in world units.
pub const GROUND_CELL_SIZE: i32 = 25;

/// Number of ground textures a cell picks from.
pub const GROUND_VARIANTS: usize = 4;

/// One cell of the ground: its centre in world units and the atlas tile it shows.
#[derive(Clone, Copy, PartialEq, Eq, Structural, Debug)]
pub struct GroundTile {
    pub x: i32,
    pub y: i32,
    pub atlas_index: usize,
}

/// The centre of the ground cell at position `idx` of the layout: cells come
/// column by column, each column from bottom to top.
pub open spec fn cell_x(idx: int) -> int {
    (idx / 100 - 50) * 25
}

/// See [`cell_x`].
pub open spec fn cell_y(idx: int) -> int {
    (idx % 100 - 50) * 25
}

/// Whether `tiles` is a complete ground layout.
pub open spec fn is_ground_layout(tiles: Seq<GroundTile>) -> bool {
    &&& tiles.len() == 10000
    &&& forall|idx: int|
        0 <= idx < tiles.len() ==> {
            &&& #[trigger] tiles[idx].x == cell_x(idx)
            &&& tiles[idx].y == cell_y(idx)
            &&& tiles[idx].atlas_index < 4
        }
}

/// A random machine word, from `rand::random`.
/// Nothing is promised of its value: every `usize` may come back.
#[verifier::external_body]
fn random_word() -> usize {
    rand::random::<usize>()
}

/// The ground texture picked by a random word.
pub fn tile_variant(roll: usize) -> (r: usize)
    ensures
        r == roll % 4,
        r < 4,
{
    roll % GROUND_VARIANTS
}

/// Whether `tiles` is the ground laid out from `words`: the cell at
/// position `idx` sits at `(cell_x(idx), cell_y(idx))` and shows the tile that
/// its own word `words[idx]` picks.
pub open spec fn is_ground_from_words(tiles: Seq<GroundTile>, words: Seq<usize>) -> bool {
    &&& words.len() == 10000
    &&& tiles.len() == 10000
    &&& forall|idx: int|
        0 <= idx < tiles.len() ==> {
            &&& #[trigger] tiles[idx].x == cell_x(idx)
            &&& tiles[idx].y == cell_y(idx)
            &&& tiles[idx].atlas_index == words[idx] % 4
        }
}

/// Draws `n` random words, one call of `rand::random` each.
pub fn draw_words(n: usize) -> (words: Vec<usize>)
    ensures
        words@.len() == n,
{
    let mut words: Vec<usize> = Vec::new();
    let mut i: usize = 0;
    while i < n
        invariant
            i <= n,
            words@.len() == i,
        decreases n - i,
    {
        words.push(random_word());
        i = i + 1;
    }
    words
}

/// Lays out the ground from one word per cell: a 100 x 100 grid of cells of
/// side 25 centred on the origin, the cell at position `idx` showing the
/// tile picked by `words[idx]`.
pub fn ground_tiles_from(words: &[usize]) -> (tiles: Vec<GroundTile>)
    requires
        words@.len() == 10000,
    ensures
        is_ground_from_words(tiles@, words@),
        is_ground_layout(tiles@),
{
    let mut tiles: Vec<GroundTile> = Vec::new();
    let mut i: i32 = -GROUND_HALF_SPAN;
    while i < GROUND_HALF_SPAN
        invariant
            words@.len() == 10000,
            -50 <= i <= 50,
            tiles@.len() == (i + 50) * 100,
            forall|idx: int|
                0 <= idx < tiles@.len() ==> {
                    &&& #[trigger] tiles@[idx].x == cell_x(idx)
                    &&& tiles@[idx].y == cell_y(idx)
                    &&& tiles@[idx].atlas_index == words@[idx] % 4
                },
        decreases 50 - i,
    {
        let mut k: i32 = -GROUND_HALF_SPAN;
        while k < GROUND_HALF_SPAN
            invariant
                words@.len() == 10000,
                -50 <= i < 50,
                -50 <= k <= 50,
                tiles@.len() == (i + 50) * 100 + (k + 50),
                forall|idx: int|
                    0 <= idx < tiles@.len() ==> {
                        &&& #[trigger] tiles@[idx].x == cell_x(idx)
                        &&& tiles@[idx].y == cell_y(idx)
                        &&& tiles@[idx].atlas_index == words@[idx] % 4
                    },
            decreases 50 - k,
        {
            let ghost idx: int = tiles@.len() as int;
            assert(idx / 100 == i + 50 && idx % 100 == k + 50) by (nonlinear_arith)
                requires
                    idx == (i + 50) * 100 + (k + 50),
                    0 <= k + 50 < 100,
                    0 <= i + 50,
            ;
            assert(idx < 10000) by (nonlinear_arith)
                requires
                    idx == (i + 50) * 100 + (k + 50),
                    0 <= k + 50 < 100,
                    0 <= i + 50 < 100,
            ;
            let pos: usize = tiles.len();
            let tile = GroundTile {
                x: i * GROUND_CELL_SIZE,
                y: k * GROUND_CELL_SIZE,
                atlas_index: tile_variant(words[pos]),
            };
            tiles.push(tile);
            k = k + 1;
        }
        i = i + 1;
    }
    tiles
}

/// Lays out the ground: a 100 x 100 grid of cells of side 25 centred on the
/// origin, each showing one of the four ground textures, picked by a random
/// word drawn for that cell.
pub fn ground_tiles() -> (tiles: Vec<GroundTile>)
    ensures
        is_ground_layout(tiles@),
        exists|words: Seq<usize>| is_ground_from_words(tiles@, words),
{
    let words = draw_words(10000);
    let tiles = ground_tiles_from(words.as_slice());
    assert(is_ground_from_words(tiles@, words@));
    tiles
}

/// A ground laid out from words shows, in every cell, the tile its own word
/// picks: cells whose words agree modulo four look the same, and the layout
/// is a complete ground layout.
pub proof fn lemma_cell_shows_its_own_word(tiles: Seq<GroundTile>, words: Seq<usize>)
    requires
        is_ground_from_words(tiles, words),
    ensures
        is_ground_layout(tiles),
        forall|a: int, b: int|
            0 <= a < 10000 && 0 <= b < 10000 && words[a] % 4 == words[b] % 4 ==> (
            #[trigger] tiles[a]).atlas_index == (#[trigger] tiles[b]).atlas_index,
{
    assert forall|a: int, b: int|
        0 <= a < 10000 && 0 <= b < 10000 && words[a] % 4 == words[b] % 4 implies (
        #[trigger] tiles[a]).atlas_index == (#[trigger] tiles[b]).atlas_index by {
        assert(tiles[a].x == cell_x(a));
        assert(tiles[b].x == cell_x(b));
    }
    assert forall|idx: int| 0 <= idx < tiles.len() implies #[trigger] tiles[idx].x == cell_x(idx)
        && tiles[idx].y == cell_y(idx) && tiles[idx].atlas_index < 4 by {
        assert(tiles[idx].x == cell_x(idx));
    }
}

/// Whether some tile is centred on grid cell `(i, k)`, at `(25 i, 25 k)`.
pub open spec fn covers_cell(tiles: Seq<GroundTile>, i: int, k: int) -> bool {
    exists|idx: int| 0 <= idx < tiles.len() && (#[trigger] tiles[idx]).x == 25 * i && tiles[idx].y == 25 * k
}

/// The ground covers every cell of the 100 x 100 grid exactly once: each
/// cell `(i, k)` with `-50 <= i, k < 50` is centred at `(25 i, 25 k)` in some
/// tile, and no two tiles share a centre.
pub proof fn lemma_ground_covers_grid_once(tiles: Seq<GroundTile>)
    requires
        is_ground_layout(tiles),
    ensures
        forall|i: int, k: int| -50 <= i < 50 && -50 <= k < 50 ==> #[trigger] covers_cell(tiles, i, k),
        forall|a: int, b: int|
            0 <= a < 10000 && 0 <= b < 10000 && a != b ==> (#[trigger] tiles[a]).x != (
            #[trigger] tiles[b]).x || tiles[a].y != tiles[b].y,
{
    assert forall|i: int, k: int| -50 <= i < 50 && -50 <= k < 50 implies #[trigger] covers_cell(
        tiles,
        i,
        k,
    ) by {
        let idx = (i + 50) * 100 + (k + 50);
        assert(idx / 100 == i + 50 && idx % 100 == k + 50 && 0 <= idx < 10000) by (nonlinear_arith)
            requires
                idx == (i + 50) * 100 + (k + 50),
                0 <= k + 50 < 100,
                0 <= i + 50 < 100,
        ;
        assert(tiles[idx].x == cell_x(idx));
    }
    assert forall|a: int, b: int|
        0 <= a < 10000 && 0 <= b < 10000 && a != b implies (#[trigger] tiles[a]).x != (
        #[trigger] tiles[b]).x || tiles[a].y != tiles[b].y by {
        assert(tiles[a].x == cell_x(a) && tiles[a].y == cell_y(a));
        assert(tiles[b].x == cell_x(b) && tiles[b].y == cell_y(b));
        assert(a / 100 != b / 100 || a % 100 != b % 100) by (nonlinear_arith)
            requires
                0 <= a < 10000,
                0 <= b < 10000,
                a != b,
        ;
    }
}

} // verus!
