//! Chunk arithmetic of infinite tile layers.

use vstd::prelude::*;

verus! {

/// Width of an infinite layer's chunk, in tiles.
pub const CHUNK_WIDTH: i32 = 16;

/// Height of an infinite layer's chunk, in tiles.
pub const CHUNK_HEIGHT: i32 = 16;

/// Tiles in one chunk.
pub const TILE_COUNT: usize = 256;

/// `a / b` rounded toward zero, as Rust's integer division does.
pub open spec fn div_toward_zero(a: int, b: int) -> int
    recommends
        b > 0,
{
    if a >= 0 {
        a / b
    } else {
        -((-a) / b)
    }
}

/// A tile of a layer: its id in its tileset and a mask of flips and tileset index.
#[derive(Clone, Copy, Debug, PartialEq, Eq, Structural)]
pub struct Tile {
    pub tile_id: u8,
    pub mask: u8,
}

/// An image layer: the image's path and its size in pixels.
#[derive(Clone, Debug)]
pub struct ImageLayer {
    pub source: String,
    pub width: i32,
    pub height: i32,
}

/// The tiles of one chunk of an infinite layer, row by row.
pub struct ArchivedChunkData {
    tiles: Vec<Option<Tile>>,
}

impl View for ArchivedChunkData {
    type V = Seq<Option<Tile>>;

    closed spec fn view(&self) -> Seq<Option<Tile>> {
        self.tiles@
    }
}

impl ArchivedChunkData {
    /// A chunk with the given tiles, if there are [`TILE_COUNT`] of them.
    pub fn new(tiles: Vec<Option<Tile>>) -> (r: Option<Self>)
        ensures
            r is Some == (tiles@.len() == TILE_COUNT),
            r matches Some(c) ==> c@ == tiles@,
    {
        if tiles.len() == TILE_COUNT {
            Some(ArchivedChunkData { tiles })
        } else {
            None
        }
    }

    /// The tile at a position relative to the chunk's top-left tile; `None` for a
    /// position outside the chunk or an empty one.
    pub fn get_tile_data(&self, x: i32, y: i32) -> (r: Option<Tile>)
        requires
            self@.len() == TILE_COUNT,
        ensures
            r == (if 0 <= x < CHUNK_WIDTH && 0 <= y < CHUNK_HEIGHT {
                self@[x + y * CHUNK_WIDTH]
            } else {
                None
            }),
    {
        if x < CHUNK_WIDTH && y < CHUNK_HEIGHT && x >= 0 && y >= 0 {
            assert((y as usize) * 16 < 256) by (nonlinear_arith)
                requires
                    0 <= y < 16,
            ;
            let i = x as usize + y as usize * 16;
            self.tiles[i]
        } else {
            None
        }
    }

    /// The position of the chunk that holds the tile at `(x, y)`, each coordinate
    /// divided by the chunk's size and rounded toward zero.
    pub fn tile_to_chunk_pos(x: i32, y: i32) -> (r: (i32, i32))
        ensures
            r.0 == div_toward_zero(x as int, CHUNK_WIDTH as int),
            r.1 == div_toward_zero(y as int, CHUNK_HEIGHT as int),
    {
        (x / CHUNK_WIDTH, y / CHUNK_HEIGHT)
    }
}

} // verus!
