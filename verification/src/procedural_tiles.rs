//! Procedural tile maps: a grid of legend codes drawn from a seeded random
//! stream, legend definitions by code and spawn points by name.
use vstd::prelude::*;

use crate::keyed::{by_code, by_name, codes_of, names_of, upsert_code, upsert_name};
use crate::procedural::{ProceduralRng, ProceduralSeed};
use crate::tile_map::{cell_codes, TileCell, TileDefinition, TileSetDefinition};

verus! {

/// The codes of each row of cells.
pub open spec fn grid_codes(rows: Seq<Vec<TileCell>>) -> Seq<Seq<u8>> {
    rows.map_values(|row: Vec<TileCell>| cell_codes(row@))
}

/// Whether rows of codes form a grid of `height` rows of `width` codes.
pub open spec fn is_grid(rows: Seq<Seq<u8>>, width: u32, height: u32) -> bool {
    &&& rows.len() == height
    &&& forall|r: int| 0 <= r < rows.len() ==> #[trigger] rows[r].len() == width
}

/// A grid of `height` rows of `width` zero codes.
pub open spec fn zero_grid(width: u32, height: u32) -> Seq<Seq<u8>> {
    Seq::new(height as nat, |r: int| Seq::new(width as nat, |c: int| 0u8))
}

/// Whether `code` is a value that `pick` can give for the cell at `column`
/// and `row`, with some state of the stream.
pub open spec fn drawn_by<F: FnMut(&mut ProceduralRng, u32, u32) -> u8>(pick: F, column: u32, row: u32, code: u8) -> bool {
    exists|stream: &mut ProceduralRng| #[trigger] pick.ensures((stream, column, row), code)
}

/// Whether every cell of the grid holds a code that `pick` gives for it.
pub open spec fn grid_drawn_by<F: FnMut(&mut ProceduralRng, u32, u32) -> u8>(pick: F, rows: Seq<Seq<u8>>) -> bool {
    forall|r: int, c: int| 0 <= r < rows.len() && 0 <= c < rows[r].len() ==> drawn_by(pick, c as u32, r as u32, #[trigger] rows[r][c])
}

/// A procedural tile map under construction, as plain values.
pub struct ProceduralTileMapView {
    pub rng: u64,
    pub width: u32,
    pub height: u32,
    pub tileset: Option<TileSetDefinition>,
    pub legend: Map<u8, TileDefinition>,
    pub rows: Seq<Seq<u8>>,
    pub spawns: Map<Seq<char>, (i32, i32)>,
}

/// Builds a tile map of a fixed width and height from a seed: the cells are
/// drawn by a caller's rule, legend tiles and spawn points are set by key.
pub struct ProceduralTileMapBuilder {
    rng: ProceduralRng,
    width: u32,
    height: u32,
    tileset: Option<TileSetDefinition>,
    legend: Vec<(u8, TileDefinition)>,
    rows: Vec<Vec<TileCell>>,
    spawns: Vec<(String, (i32, i32))>,
}

/// A finished procedural tile map: tileset, legend by code, rows of cells
/// and spawn points by name, each key once.
pub struct ProceduralTileMap {
    pub tileset: Option<TileSetDefinition>,
    pub legend: Vec<(u8, TileDefinition)>,
    pub rows: Vec<Vec<TileCell>>,
    pub spawns: Vec<(String, (i32, i32))>,
}

impl View for ProceduralTileMapBuilder {
    type V = ProceduralTileMapView;

    closed spec fn view(&self) -> ProceduralTileMapView {
        ProceduralTileMapView {
            rng: self.rng@,
            width: self.width,
            height: self.height,
            tileset: self.tileset,
            legend: by_code(self.legend@),
            rows: grid_codes(self.rows@),
            spawns: by_name(self.spawns@),
        }
    }
}

/// Draws a grid row by row, each cell from `pick` with the stream and the
/// cell's column and row.
fn draw_grid<F: FnMut(&mut ProceduralRng, u32, u32) -> u8>(
    rng: &mut ProceduralRng,
    width: u32,
    height: u32,
    mut pick: F,
) -> (rows: Vec<Vec<TileCell>>)
    requires
        forall|stream: &mut ProceduralRng, column: u32, row: u32| pick.requires((stream, column, row)),
    ensures
        is_grid(grid_codes(rows@), width, height),
        grid_drawn_by(pick, grid_codes(rows@)),
{
    let ghost original = pick;
    let mut rows: Vec<Vec<TileCell>> = Vec::new();
    let mut row: u32 = 0;
    while row < height
        invariant
            row <= height,
            pick == original,
            is_grid(grid_codes(rows@), width, row),
            grid_drawn_by(pick, grid_codes(rows@)),
            forall|stream: &mut ProceduralRng, column: u32, row: u32| pick.requires((stream, column, row)),
        decreases height - row,
    {
        let mut cells: Vec<TileCell> = Vec::new();
        let mut column: u32 = 0;
        while column < width
            invariant
                column <= width,
                cells@.len() == column,
                row < height,
                pick == original,
                is_grid(grid_codes(rows@), width, row),
                grid_drawn_by(pick, grid_codes(rows@)),
                forall|c: int| 0 <= c < column ==> drawn_by(pick, c as u32, row, #[trigger] cell_codes(cells@)[c]),
                forall|stream: &mut ProceduralRng, column: u32, row: u32| pick.requires((stream, column, row)),
            decreases width - column,
        {
            let code = pick(rng, column, row);
            assert(exists|stream: &mut ProceduralRng| #[trigger] pick.ensures((stream, column, row), code));
            let ghost before = cells@;
            cells.push(TileCell { code });
            assert(cell_codes(cells@) =~= cell_codes(before).push(code));
            column = column + 1;
        }
        let ghost before = rows@;
        rows.push(cells);
        assert(grid_codes(rows@) =~= grid_codes(before).push(cell_codes(cells@)));
        proof {
            let grid = grid_codes(rows@);
            assert forall|r: int, c: int| 0 <= r < grid.len() && 0 <= c < grid[r].len() implies drawn_by(
                pick,
                c as u32,
                r as u32,
                #[trigger] grid[r][c],
            ) by {
                if r < before.len() {
                    assert(grid[r] == grid_codes(before)[r]);
                } else {
                    assert(grid[r] == cell_codes(cells@));
                }
            }
        }
        row = row + 1;
    }
    rows
}

/// A grid of zero codes.
fn zero_rows(width: u32, height: u32) -> (rows: Vec<Vec<TileCell>>)
    ensures
        grid_codes(rows@) == zero_grid(width, height),
{
    let mut rows: Vec<Vec<TileCell>> = Vec::new();
    let mut row: u32 = 0;
    while row < height
        invariant
            row <= height,
            grid_codes(rows@) == zero_grid(width, row),
        decreases height - row,
    {
        let mut cells: Vec<TileCell> = Vec::new();
        let mut column: u32 = 0;
        while column < width
            invariant
                column <= width,
                cell_codes(cells@) == Seq::new(column as nat, |c: int| 0u8),
            decreases width - column,
        {
            let ghost before = cells@;
            cells.push(TileCell { code: 0 });
            assert(cell_codes(cells@) =~= Seq::new((column + 1) as nat, |c: int| 0u8)) by {
                assert(cell_codes(cells@) =~= cell_codes(before).push(0u8));
            }
            column = column + 1;
        }
        let ghost earlier = rows@;
        rows.push(cells);
        assert(grid_codes(rows@) =~= zero_grid(width, (row + 1) as u32)) by {
            assert(grid_codes(rows@) =~= grid_codes(earlier).push(cell_codes(cells@)));
        }
        row = row + 1;
    }
    rows
}

impl ProceduralTileMapBuilder {
    #[verifier::type_invariant]
    spec fn keys_distinct(&self) -> bool {
        &&& codes_of(self.legend@).no_duplicates()
        &&& names_of(self.spawns@).no_duplicates()
    }

    /// A builder for a `width` by `height` map whose stream starts from
    /// `seed`; nothing is drawn or set yet.
    pub fn new(seed: ProceduralSeed, width: u32, height: u32) -> (builder: Self)
        ensures
            builder@.rng == seed@,
            builder@.width == width,
            builder@.height == height,
            builder@.tileset is None,
            builder@.legend == Map::<u8, TileDefinition>::empty(),
            builder@.rows == Seq::<Seq<u8>>::empty(),
            builder@.spawns == Map::<Seq<char>, (i32, i32)>::empty(),
    {
        let builder = ProceduralTileMapBuilder {
            rng: ProceduralRng::new(seed),
            width,
            height,
            tileset: None,
            legend: Vec::new(),
            rows: Vec::new(),
            spawns: Vec::new(),
        };
        assert(builder@.legend =~= Map::<u8, TileDefinition>::empty());
        assert(builder@.rows =~= Seq::<Seq<u8>>::empty());
        assert(builder@.spawns =~= Map::<Seq<char>, (i32, i32)>::empty());
        builder
    }

    /// Uses the tileset for the map.
    pub fn tileset(self, tileset: TileSetDefinition) -> (builder: Self)
        ensures
            builder@ == (ProceduralTileMapView { tileset: Some(tileset), ..self@ }),
    {
        proof {
            use_type_invariant(&self);
        }
        let ProceduralTileMapBuilder { rng, width, height, tileset: _, legend, rows, spawns } = self;
        ProceduralTileMapBuilder { rng, width, height, tileset: Some(tileset), legend, rows, spawns }
    }

    /// Defines the tile of a legend code, replacing an earlier definition.
    pub fn legend_tile(self, code: u8, definition: TileDefinition) -> (builder: Self)
        ensures
            builder@ == (ProceduralTileMapView { legend: self@.legend.insert(code, definition), ..self@ }),
    {
        proof {
            use_type_invariant(&self);
        }
        let ProceduralTileMapBuilder { rng, width, height, tileset, legend, rows, spawns } = self;
        let mut legend = legend;
        upsert_code(&mut legend, code, definition);
        ProceduralTileMapBuilder { rng, width, height, tileset, legend, rows, spawns }
    }

    /// Places a named spawn point at a column and row, replacing an earlier
    /// one of that name.
    pub fn spawn(self, name: &str, column: i32, row: i32) -> (builder: Self)
        ensures
            builder@ == (ProceduralTileMapView { spawns: self@.spawns.insert(name@, (column, row)), ..self@ }),
    {
        proof {
            use_type_invariant(&self);
        }
        let ProceduralTileMapBuilder { rng, width, height, tileset, legend, rows, spawns } = self;
        let mut spawns = spawns;
        upsert_name(&mut spawns, name, (column, row));
        ProceduralTileMapBuilder { rng, width, height, tileset, legend, rows, spawns }
    }

    /// Draws every cell anew, row by row and column by column, with
    /// `pick` given the stream, the column and the row.
    pub fn fill<F: FnMut(&mut ProceduralRng, u32, u32) -> u8>(self, pick: F) -> (builder: Self)
        requires
            forall|stream: &mut ProceduralRng, column: u32, row: u32| pick.requires((stream, column, row)),
        ensures
            is_grid(builder@.rows, self@.width, self@.height),
            grid_drawn_by(pick, builder@.rows),
            builder@.width == self@.width,
            builder@.height == self@.height,
            builder@.tileset == self@.tileset,
            builder@.legend == self@.legend,
            builder@.spawns == self@.spawns,
    {
        proof {
            use_type_invariant(&self);
        }
        let ProceduralTileMapBuilder { rng, width, height, tileset, legend, rows: _, spawns } = self;
        let mut rng = rng;
        let rows = draw_grid(&mut rng, width, height, pick);
        ProceduralTileMapBuilder { rng, width, height, tileset, legend, rows, spawns }
    }

    /// The finished map; a builder whose cells were never drawn gives a map
    /// of zero codes.
    pub fn build(self) -> (map: ProceduralTileMap)
        ensures
            map.tileset == self@.tileset,
            codes_of(map.legend@).no_duplicates(),
            by_code(map.legend@) == self@.legend,
            names_of(map.spawns@).no_duplicates(),
            by_name(map.spawns@) == self@.spawns,
            grid_codes(map.rows@) == if self@.rows.len() == 0 {
                zero_grid(self@.width, self@.height)
            } else {
                self@.rows
            },
    {
        proof {
            use_type_invariant(&self);
        }
        let ProceduralTileMapBuilder { rng: _, width, height, tileset, legend, rows, spawns } = self;
        let rows = if rows.len() == 0 {
            zero_rows(width, height)
        } else {
            rows
        };
        ProceduralTileMap { tileset, legend, rows, spawns }
    }
}

} // verus!
