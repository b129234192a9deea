//! Map chunks: bounding box, group and color tables, and rectangular
//! sub-regions of cells holding sprite placements.

use vstd::prelude::*;
use vstd::utf8::encode_utf8;

use crate::color::Color;
use crate::decode::{
    fixed, get_i16, get_i32, i16_at, i32_at, spec_decode_n, spec_prefixed, views, DecodeError,
    Decoder, DecoderCursor, WithSize, WithSizePrefix,
};
use crate::names::{is_chunk_entry, is_chunk_name};

verus! {

/// A placement group: its key, its layer and its id.
#[derive(Debug, Clone, Copy, PartialEq, Eq, Structural)]
pub struct Group {
    pub key: i32,
    pub layer: u8,
    pub id: i32,
}

impl Group {
    pub fn key(&self) -> (r: i32)
        ensures
            r == self.key,
    {
        self.key
    }

    pub fn layer(&self) -> (r: u8)
        ensures
            r == self.layer,
    {
        self.layer
    }
}

impl View for Group {
    type V = Group;

    open spec fn view(&self) -> Group {
        *self
    }
}

impl Decoder for Group {
    open spec fn spec_decode(data: Seq<u8>) -> Result<(Group, nat), DecodeError> {
        fixed(data, 9, Group { key: i32_at(data, 0), layer: data[4], id: i32_at(data, 5) })
    }

    fn decode(cur: &mut DecoderCursor<'_>) -> (r: Result<Group, DecodeError>) {
        match cur.take(9) {
            Ok(b) => Ok(Group { key: get_i32(b, 0), layer: b[4], id: get_i32(b, 5) }),
            Err(e) => Err(e),
        }
    }
}

/// One sprite placed in a cell; the indices point into the group and color
/// tables of the chunk that holds it.
#[derive(Debug, Clone, Copy, PartialEq, Eq, Structural)]
pub struct MapSprite {
    pub cell_z: i16,
    pub height: u8,
    pub altitude_order: u8,
    pub tag: u8,
    pub definition_id: i32,
    pub group_index: u16,
    pub color_index: u16,
}

impl View for MapSprite {
    type V = MapSprite;

    open spec fn view(&self) -> MapSprite {
        *self
    }
}

impl Decoder for MapSprite {
    open spec fn spec_decode(data: Seq<u8>) -> Result<(MapSprite, nat), DecodeError> {
        fixed(
            data,
            13,
            MapSprite {
                cell_z: i16_at(data, 0),
                height: data[2],
                altitude_order: data[3],
                tag: data[4],
                definition_id: i32_at(data, 5),
                group_index: crate::decode::u16_at(data, 9),
                color_index: crate::decode::u16_at(data, 11),
            },
        )
    }

    fn decode(cur: &mut DecoderCursor<'_>) -> (r: Result<MapSprite, DecodeError>) {
        match cur.take(13) {
            Ok(b) => Ok(
                MapSprite {
                    cell_z: get_i16(b, 0),
                    height: b[2],
                    altitude_order: b[3],
                    tag: b[4],
                    definition_id: get_i32(b, 5),
                    group_index: crate::decode::get_u16(b, 9),
                    color_index: crate::decode::get_u16(b, 11),
                },
            ),
            Err(e) => Err(e),
        }
    }
}

/// The sprites placed in one cell.
#[derive(Debug)]
pub struct MapCell {
    pub elements: Vec<MapSprite>,
}

impl View for MapCell {
    type V = Seq<MapSprite>;

    open spec fn view(&self) -> Seq<MapSprite> {
        views(self.elements@)
    }
}

impl Decoder for MapCell {
    /// A one-byte count, then that many placements.
    open spec fn spec_decode(data: Seq<u8>) -> Result<(Seq<MapSprite>, nat), DecodeError> {
        spec_prefixed::<u8, MapSprite>(data)
    }

    fn decode(cur: &mut DecoderCursor<'_>) -> (r: Result<MapCell, DecodeError>) {
        match WithSizePrefix::<u8>::new().decode::<MapSprite>(cur) {
            Ok(elements) => Ok(MapCell { elements }),
            Err(e) => Err(e),
        }
    }
}

/// The number of cells of a sub-region with the given bounds, or `None` when
/// a bound lies below its lower counterpart.
pub open spec fn cell_count(min_x: i8, max_x: i8, min_y: i8, max_y: i8) -> Option<nat> {
    if min_x <= max_x && min_y <= max_y {
        Some(((max_x - min_x) * (max_y - min_y)) as nat)
    } else {
        None
    }
}

/// A rectangle of cells, relative to the chunk origin; cells run with `y`
/// varying fastest.
#[derive(Debug)]
pub struct MapSubChunk {
    pub min_x: i8,
    pub max_x: i8,
    pub min_y: i8,
    pub max_y: i8,
    pub cells: Vec<MapCell>,
}

/// The model of a sub-region: its bounds and the placements of each cell.
pub struct SpecSubChunk {
    pub min_x: i8,
    pub max_x: i8,
    pub min_y: i8,
    pub max_y: i8,
    pub cells: Seq<Seq<MapSprite>>,
}

impl View for MapSubChunk {
    type V = SpecSubChunk;

    open spec fn view(&self) -> SpecSubChunk {
        SpecSubChunk {
            min_x: self.min_x,
            max_x: self.max_x,
            min_y: self.min_y,
            max_y: self.max_y,
            cells: views(self.cells@),
        }
    }
}

impl Decoder for MapSubChunk {
    /// Four signed bounds, then one cell record per cell of the rectangle. A
    /// rectangle with reversed bounds would claim more cells than any buffer
    /// holds and is refused as truncated.
    open spec fn spec_decode(data: Seq<u8>) -> Result<(SpecSubChunk, nat), DecodeError> {
        if data.len() < 4 {
            Err(DecodeError::Truncated)
        } else {
            let (min_x, max_x, min_y, max_y) = (
                data[0] as i8,
                data[1] as i8,
                data[2] as i8,
                data[3] as i8,
            );
            match cell_count(min_x, max_x, min_y, max_y) {
                None => Err(DecodeError::Truncated),
                Some(count) => match spec_decode_n::<MapCell>(data.skip(4), count) {
                    Err(e) => Err(e),
                    Ok((cells, n)) => Ok(
                        (SpecSubChunk { min_x, max_x, min_y, max_y, cells }, 4 + n),
                    ),
                },
            }
        }
    }

    fn decode(cur: &mut DecoderCursor<'_>) -> (r: Result<MapSubChunk, DecodeError>) {
        let start = *cur;
        let b = match cur.take(4) {
            Ok(b) => b,
            Err(e) => return Err(e),
        };
        let (min_x, max_x, min_y, max_y) = (b[0] as i8, b[1] as i8, b[2] as i8, b[3] as i8);
        if !(min_x <= max_x && min_y <= max_y) {
            *cur = start;
            return Err(DecodeError::Truncated);
        }
        let dx = (max_x as i16 - min_x as i16) as usize;
        let dy = (max_y as i16 - min_y as i16) as usize;
        assert(dx * dy <= 255 * 255) by (nonlinear_arith)
            requires
                dx <= 255,
                dy <= 255,
        ;
        let count = dx * dy;
        let ghost after = cur@;
        match WithSize::new(count).decode::<MapCell>(cur) {
            Ok(cells) => {
                proof {
                    let n = spec_decode_n::<MapCell>(after, count as nat).unwrap().1;
                    assert(after.skip(n as int) =~= start@.skip((4 + n) as int));
                }
                Ok(MapSubChunk { min_x, max_x, min_y, max_y, cells })
            },
            Err(e) => {
                *cur = start;
                Err(e)
            },
        }
    }
}

impl SpecSubChunk {
    /// The number of cells agrees with the bounds.
    pub open spec fn wf(&self) -> bool {
        cell_count(self.min_x, self.max_x, self.min_y, self.max_y) == Some(self.cells.len())
    }

    /// The length of a column of cells: the cells of one `x` coordinate.
    pub open spec fn row_len(&self) -> int {
        self.max_y - self.min_y
    }
}

/// A decoded map chunk.
#[derive(Debug)]
pub struct MapChunk {
    pub min_x: i32,
    pub min_y: i32,
    pub min_z: i16,
    pub max_x: i32,
    pub max_y: i32,
    pub max_z: i16,
    pub groups: Vec<Group>,
    pub colors: Vec<Color>,
    pub map_x: i32,
    pub map_y: i32,
    pub sub_chunks: Vec<MapSubChunk>,
}

/// The model of a chunk.
pub struct SpecMapChunk {
    pub min_x: i32,
    pub min_y: i32,
    pub min_z: i16,
    pub max_x: i32,
    pub max_y: i32,
    pub max_z: i16,
    pub groups: Seq<Group>,
    pub colors: Seq<Color>,
    pub map_x: i32,
    pub map_y: i32,
    pub sub_chunks: Seq<SpecSubChunk>,
}

impl View for MapChunk {
    type V = SpecMapChunk;

    open spec fn view(&self) -> SpecMapChunk {
        SpecMapChunk {
            min_x: self.min_x,
            min_y: self.min_y,
            min_z: self.min_z,
            max_x: self.max_x,
            max_y: self.max_y,
            max_z: self.max_z,
            groups: self.groups@,
            colors: self.colors@,
            map_x: self.map_x,
            map_y: self.map_y,
            sub_chunks: views(self.sub_chunks@),
        }
    }
}

/// A chunk whose header is `h` and whose tables and regions are the rest.
pub open spec fn chunk_of(
    h: Seq<u8>,
    groups: Seq<Group>,
    colors: Seq<Color>,
    o: Seq<u8>,
    sub_chunks: Seq<SpecSubChunk>,
) -> SpecMapChunk {
    SpecMapChunk {
        min_x: i32_at(h, 0),
        min_y: i32_at(h, 4),
        min_z: i16_at(h, 8),
        max_x: i32_at(h, 10),
        max_y: i32_at(h, 14),
        max_z: i16_at(h, 18),
        groups,
        colors,
        map_x: i32_at(o, 0),
        map_y: i32_at(o, 4),
        sub_chunks,
    }
}

impl SpecMapChunk {
    /// Every sub-region has as many cells as its bounds say.
    pub open spec fn wf(&self) -> bool {
        forall|k: int| 0 <= k < self.sub_chunks.len() ==> (#[trigger] self.sub_chunks[k]).wf()
    }

    /// The group and color indices of `sp` fall inside the chunk's tables.
    pub open spec fn resolves(&self, sp: MapSprite) -> bool {
        sp.group_index < self.groups.len() && sp.color_index < self.colors.len()
    }

    /// Every placement of the chunk resolves.
    pub open spec fn all_resolve(&self) -> bool {
        forall|k: int, i: int, j: int|
            0 <= k < self.sub_chunks.len() && 0 <= i < self.sub_chunks[k].cells.len() && 0 <= j
                < self.sub_chunks[k].cells[i].len() ==> #[trigger] self.resolves(
                self.sub_chunks[k].cells[i][j],
            )
    }

    /// The placement `sp` of cell `i` of sub-region `s`, with its cell
    /// coordinates and its group and color looked up.
    pub open spec fn detail(&self, s: SpecSubChunk, i: int, sp: MapSprite) -> MapElementDetails {
        MapElementDetails {
            cell_x: (self.map_x + s.min_x + i / s.row_len()) as i64,
            cell_y: (self.map_y + s.min_y + i % s.row_len()) as i64,
            sprite: sp,
            group: self.groups[sp.group_index as int],
            color: self.colors[sp.color_index as int],
        }
    }

    /// The placements of cell `i` of sub-region `s`.
    pub open spec fn cell_details(&self, s: SpecSubChunk, i: int) -> Seq<MapElementDetails> {
        s.cells[i].map_values(|sp: MapSprite| self.detail(s, i, sp))
    }

    /// The placements of the first `n` cells of sub-region `s`.
    pub open spec fn region_details(&self, s: SpecSubChunk, n: nat) -> Seq<MapElementDetails>
        decreases n,
    {
        if n == 0 {
            seq![]
        } else {
            self.region_details(s, (n - 1) as nat) + self.cell_details(s, n - 1)
        }
    }

    /// The placements of the first `n` sub-regions.
    pub open spec fn prefix_details(&self, n: nat) -> Seq<MapElementDetails>
        decreases n,
    {
        if n == 0 {
            seq![]
        } else {
            let s = self.sub_chunks[n - 1];
            self.prefix_details((n - 1) as nat) + self.region_details(s, s.cells.len())
        }
    }

    /// Every placement of the chunk, sub-region by sub-region, cell by cell.
    pub open spec fn details(&self) -> Seq<MapElementDetails> {
        self.prefix_details(self.sub_chunks.len())
    }
}

impl Decoder for MapChunk {
    /// The bounding box (20 bytes), the group table and the color table (each
    /// with a 16-bit count), the chunk origin (8 bytes), then the sub-regions
    /// (with a 16-bit count).
    open spec fn spec_decode(data: Seq<u8>) -> Result<(SpecMapChunk, nat), DecodeError> {
        if data.len() < 20 {
            Err(DecodeError::Truncated)
        } else {
            match spec_prefixed::<u16, Group>(data.skip(20)) {
                Err(e) => Err(e),
                Ok((groups, n1)) => match spec_prefixed::<u16, Color>(data.skip((20 + n1) as int)) {
                    Err(e) => Err(e),
                    Ok((colors, n2)) => {
                        let o = 20 + n1 + n2;
                        if data.len() < o + 8 {
                            Err(DecodeError::Truncated)
                        } else {
                            match spec_prefixed::<u16, MapSubChunk>(data.skip((o + 8) as int)) {
                                Err(e) => Err(e),
                                Ok((regions, n3)) => Ok(
                                    (
                                        chunk_of(data, groups, colors, data.skip((o) as int), regions),
                                        o + 8 + n3,
                                    ),
                                ),
                            }
                        }
                    },
                },
            }
        }
    }

    #[verifier::rlimit(100)]
    fn decode(cur: &mut DecoderCursor<'_>) -> (r: Result<MapChunk, DecodeError>) {
        let start = *cur;
        let h = match cur.take(20) {
            Ok(h) => h,
            Err(e) => return Err(e),
        };
        let ghost c1 = cur@;
        let groups = match WithSizePrefix::<u16>::new().decode::<Group>(cur) {
            Ok(g) => g,
            Err(e) => {
                *cur = start;
                return Err(e);
            },
        };
        let ghost n1 = spec_prefixed::<u16, Group>(c1).unwrap().1;
        assert(cur@ =~= start@.skip((20 + n1) as int));
        let ghost c2 = cur@;
        let colors = match WithSizePrefix::<u16>::new().decode::<Color>(cur) {
            Ok(c) => c,
            Err(e) => {
                *cur = start;
                return Err(e);
            },
        };
        let ghost n2 = spec_prefixed::<u16, Color>(c2).unwrap().1;
        assert(cur@ =~= start@.skip((20 + n1 + n2) as int));
        assert(groups@ =~= views(groups@));
        assert(colors@ =~= views(colors@));
        let o = match cur.take(8) {
            Ok(o) => o,
            Err(e) => {
                *cur = start;
                return Err(e);
            },
        };
        assert(o@ =~= start@.skip((20 + n1 + n2) as int).take(8));
        assert(cur@ =~= start@.skip((20 + n1 + n2 + 8) as int));
        let ghost c3 = cur@;
        let sub_chunks = match WithSizePrefix::<u16>::new().decode::<MapSubChunk>(cur) {
            Ok(s) => s,
            Err(e) => {
                *cur = start;
                return Err(e);
            },
        };
        let ghost n3 = spec_prefixed::<u16, MapSubChunk>(c3).unwrap().1;
        assert(cur@ =~= start@.skip((20 + n1 + n2 + 8 + n3) as int));
        Ok(
            MapChunk {
                min_x: get_i32(h, 0),
                min_y: get_i32(h, 4),
                min_z: get_i16(h, 8),
                max_x: get_i32(h, 10),
                max_y: get_i32(h, 14),
                max_z: get_i16(h, 18),
                groups,
                colors,
                map_x: get_i32(o, 0),
                map_y: get_i32(o, 4),
                sub_chunks,
            },
        )
    }
}

/// A decoded sub-region has as many cells as its bounds say.
pub proof fn lemma_sub_chunk_wf(data: Seq<u8>)
    ensures
        MapSubChunk::spec_decode(data) is Ok ==> MapSubChunk::spec_decode(data)->Ok_0.0.wf(),
{
    if data.len() >= 4 {
        if let Some(count) = cell_count(data[0] as i8, data[1] as i8, data[2] as i8, data[3] as i8) {
            crate::decode::lemma_decode_n_len::<MapCell>(data.skip(4), count);
        }
    }
}

/// A decoded chunk is well formed.
pub proof fn lemma_chunk_wf(data: Seq<u8>)
    ensures
        MapChunk::spec_decode(data) is Ok ==> MapChunk::spec_decode(data)->Ok_0.0.wf(),
{
    assert forall|x: Seq<u8>| #[trigger] MapSubChunk::spec_decode(x) is Ok implies (
    |s: SpecSubChunk| s.wf())(MapSubChunk::spec_decode(x)->Ok_0.0) by {
        lemma_sub_chunk_wf(x);
    }
    if let Ok((c, n)) = MapChunk::spec_decode(data) {
        let (_, n1) = spec_prefixed::<u16, Group>(data.skip(20)).unwrap();
        let (_, n2) = spec_prefixed::<u16, Color>(data.skip((20 + n1) as int)).unwrap();
        let d = data.skip((20 + n1 + n2 + 8) as int);
        let (len, m) = u16::spec_decode(d).unwrap();
        crate::decode::lemma_decode_n_each::<MapSubChunk>(
            d.skip(m as int),
            len as nat,
            |s: SpecSubChunk| s.wf(),
        );
        let (regions, _) = spec_decode_n::<MapSubChunk>(d.skip(m as int), len as nat).unwrap();
        assert(c.sub_chunks =~= seq![] + regions);
        assert forall|k: int| 0 <= k < c.sub_chunks.len() implies (#[trigger] c.sub_chunks[k]).wf() by {
            assert(c.sub_chunks[k] == regions[k]);
        }
    }
}

/// Decodes a map chunk from the front of `bytes`; on success also gives the
/// number of bytes that it took.
pub fn read_chunk(bytes: &[u8]) -> (r: Result<(MapChunk, usize), DecodeError>)
    ensures
        match MapChunk::spec_decode(bytes@) {
            Ok((c, n)) => r is Ok && r->Ok_0.0@ == c && r->Ok_0.1 == n,
            Err(e) => r == Err::<(MapChunk, usize), DecodeError>(e),
        },
        r is Ok ==> r->Ok_0.0@.wf(),
{
    proof {
        lemma_chunk_wf(bytes@);
    }
    let mut cur = DecoderCursor::new(bytes);
    match MapChunk::decode(&mut cur) {
        Ok(chunk) => {
            let used = bytes.len() - cur.remaining().len();
            Ok((chunk, used))
        },
        Err(e) => Err(e),
    }
}

/// An entry of a map archive: its name and its contents.
pub struct ArchiveEntry {
    pub name: String,
    pub bytes: Vec<u8>,
}

/// The chunks that the map-geometry entries of `es` decode to, in order, or
/// the error of the first of them that does not decode.
pub open spec fn spec_load(es: Seq<ArchiveEntry>) -> Result<Seq<SpecMapChunk>, DecodeError>
    decreases es.len(),
{
    if es.len() == 0 {
        Ok(seq![])
    } else {
        match spec_load(es.drop_last()) {
            Err(e) => Err(e),
            Ok(cs) => {
                let e = es.last();
                if is_chunk_name(encode_utf8(e.name@)) {
                    match MapChunk::spec_decode(e.bytes@) {
                        Ok((c, _)) => Ok(cs.push(c)),
                        Err(err) => Err(err),
                    }
                } else {
                    Ok(cs)
                }
            },
        }
    }
}

/// The decoded chunks of a map.
#[derive(Debug)]
pub struct WorldMap {
    chunks: Vec<MapChunk>,
}

impl View for WorldMap {
    type V = Seq<SpecMapChunk>;

    closed spec fn view(&self) -> Seq<SpecMapChunk> {
        views(self.chunks@)
    }
}

impl WorldMap {
    /// Decodes every map-geometry entry of an archive; the map is all or
    /// nothing: the first entry that fails to decode fails the whole.
    pub fn load(entries: &Vec<ArchiveEntry>) -> (r: Result<WorldMap, DecodeError>)
        ensures
            match spec_load(entries@) {
                Ok(cs) => r is Ok && r->Ok_0@ == cs,
                Err(e) => r == Err::<WorldMap, DecodeError>(e),
            },
            r is Ok ==> forall|k: int| 0 <= k < r->Ok_0@.len() ==> (#[trigger] r->Ok_0@[k]).wf(),
    {
        let mut chunks: Vec<MapChunk> = Vec::new();
        let mut i: usize = 0;
        assert(views(chunks@) =~= seq![]);
        while i < entries.len()
            invariant
                i <= entries@.len(),
                spec_load(entries@.take(i as int)) == Ok::<Seq<SpecMapChunk>, DecodeError>(
                    views(chunks@),
                ),
                forall|k: int| 0 <= k < chunks@.len() ==> (#[trigger] chunks@[k])@.wf(),
            decreases entries.len() - i,
        {
            let entry = &entries[i];
            assert(entries@.take((i + 1) as int).drop_last() =~= entries@.take(i as int));
            assert(entries@.take((i + 1) as int).last() == entries@[i as int]);
            let ghost before = chunks@;
            let ghost name_bytes = encode_utf8(entry.name@);
            if is_chunk_entry(entry.name.as_str()) {
                match read_chunk(entry.bytes.as_slice()) {
                    Ok((chunk, _)) => {
                        let ghost c = chunk@;
                        chunks.push(chunk);
                        assert(views(chunks@) =~= views(before).push(c));
                        assert(spec_load(entries@.take((i + 1) as int)) == Ok::<Seq<SpecMapChunk>, DecodeError>(
                            views(before).push(c),
                        ));
                    },
                    Err(e) => {
                        proof {
                            lemma_load_err(entries@, (i + 1) as nat, e);
                        }
                        return Err(e);
                    },
                }
            }
            i = i + 1;
        }
        assert(entries@.take(i as int) =~= entries@);
        Ok(WorldMap { chunks })
    }

    pub fn chunks(&self) -> (r: &[MapChunk])
        ensures
            views(r@) == self@,
    {
        self.chunks.as_slice()
    }
}

/// Once a prefix of the entries fails to load, so do all the entries.
proof fn lemma_load_err(es: Seq<ArchiveEntry>, n: nat, e: DecodeError)
    requires
        n <= es.len(),
        spec_load(es.take(n as int)) == Err::<Seq<SpecMapChunk>, DecodeError>(e),
    ensures
        spec_load(es) == Err::<Seq<SpecMapChunk>, DecodeError>(e),
    decreases es.len() - n,
{
    if n < es.len() {
        assert(es.take((n + 1) as int).drop_last() =~= es.take(n as int));
        lemma_load_err(es, n + 1, e);
    } else {
        assert(es.take(n as int) =~= es);
    }
}

/// An index held by a placement falls outside its chunk's table.
#[derive(Debug, Clone, Copy, PartialEq, Eq, Structural)]
pub enum ResolveError {
    IndexOutOfRange,
}

/// A placement with its cell coordinates, and its group and color looked up
/// in the chunk that holds it.
#[derive(Debug, Clone, Copy, PartialEq, Eq, Structural)]
pub struct MapElementDetails {
    pub cell_x: i64,
    pub cell_y: i64,
    pub sprite: MapSprite,
    pub group: Group,
    pub color: Color,
}

/// Width of a cell on screen, in pixels.
pub const CELL_WIDTH: i64 = 86;

/// Height of a cell on screen, in pixels.
pub const CELL_HEIGHT: i64 = 43;

/// Screen pixels per unit of elevation.
pub const ELEVATION_UNIT: i64 = 10;

/// Bound on the cell coordinates and elevations that the projection takes.
pub const COORD_LIMIT: i64 = 0x1_0000_0000;

/// Whether `v` lies within the coordinates that the projection takes.
pub open spec fn in_coord_range(v: int) -> bool {
    -COORD_LIMIT <= v <= COORD_LIMIT
}

/// The screen position of cell `(x, y)` at elevation `height`, in half
/// pixels: `x` is `(x - y) * CELL_WIDTH / 2` pixels and `y` is
/// `-(x + y) * CELL_HEIGHT / 2 + height * ELEVATION_UNIT` pixels, each
/// doubled so that it stays an integer.
pub open spec fn spec_iso_to_screen(x: int, y: int, height: int) -> (int, int) {
    ((x - y) * CELL_WIDTH, -(x + y) * CELL_HEIGHT + 2 * height * ELEVATION_UNIT)
}

/// Projects cell `(x, y)` at elevation `height` to the screen, in half pixels.
pub fn iso_to_screen(x: i64, y: i64, height: i64) -> (r: (i64, i64))
    requires
        in_coord_range(x as int),
        in_coord_range(y as int),
        in_coord_range(height as int),
    ensures
        (r.0 as int, r.1 as int) == spec_iso_to_screen(x as int, y as int, height as int),
{
    ((x - y) * CELL_WIDTH, -(x + y) * CELL_HEIGHT + 2 * height * ELEVATION_UNIT)
}

/// The depth key of a placement: its altitude order in bits 6..19, and its
/// cell coordinates, biased by 8192 and cut to 14 bits, in bits 19..33 (`x`)
/// and 34..48 (`y`). Keys in ascending order draw back to front.
pub open spec fn spec_hashcode(altitude_order: u8, cell_x: i64, cell_y: i64) -> i64 {
    (altitude_order as i64 & 0x1FFF) << 6 | ((cell_x + 8192) as i64 & 0x3FFF) << 19 | ((cell_y
        + 8192) as i64 & 0x3FFF) << 34
}

/// Of two placements in one cell, the one with the greater altitude order
/// has the greater depth key, and so is drawn later.
pub proof fn lemma_hashcode_altitude_order(a1: u8, a2: u8, cell_x: i64, cell_y: i64)
    requires
        a1 < a2,
        in_coord_range(cell_x as int),
        in_coord_range(cell_y as int),
    ensures
        spec_hashcode(a1, cell_x, cell_y) < spec_hashcode(a2, cell_x, cell_y),
{
    let x = (cell_x + 8192) as i64;
    let y = (cell_y + 8192) as i64;
    let b1 = a1 as i64;
    let b2 = a2 as i64;
    assert((b1 & 0x1FFF) << 6 | (x & 0x3FFF) << 19 | (y & 0x3FFF) << 34 < (b2 & 0x1FFF) << 6 | (x
        & 0x3FFF) << 19 | (y & 0x3FFF) << 34) by (bit_vector)
        requires
            0 <= b1 < b2 < 256,
    ;
}

impl MapElementDetails {
    /// The cell coordinates and the elevation lie within the projection's range.
    pub open spec fn in_range(&self) -> bool {
        &&& in_coord_range(self.cell_x as int)
        &&& in_coord_range(self.cell_y as int)
    }

    pub fn tag(&self) -> (r: u8)
        ensures
            r == self.sprite.tag,
    {
        self.sprite.tag
    }

    pub fn definition_id(&self) -> (r: i32)
        ensures
            r == self.sprite.definition_id,
    {
        self.sprite.definition_id
    }

    pub fn group(&self) -> (r: Group)
        ensures
            r == self.group,
    {
        self.group
    }

    pub fn color(&self) -> (r: Color)
        ensures
            r == self.color,
    {
        self.color
    }

    /// The elevation of the placement: its cell's `z` less its height.
    pub open spec fn elevation(&self) -> int {
        self.sprite.cell_z - self.sprite.height
    }

    /// The screen position of the placement, in half pixels.
    pub fn screen_position(&self) -> (r: (i64, i64))
        requires
            self.in_range(),
        ensures
            (r.0 as int, r.1 as int) == spec_iso_to_screen(
                self.cell_x as int,
                self.cell_y as int,
                self.elevation(),
            ),
    {
        let height = self.sprite.cell_z as i64 - self.sprite.height as i64;
        iso_to_screen(self.cell_x, self.cell_y, height)
    }

    /// The depth key of the placement.
    pub fn hashcode(&self) -> (r: i64)
        requires
            self.in_range(),
        ensures
            r == spec_hashcode(self.sprite.altitude_order, self.cell_x, self.cell_y),
    {
        (self.sprite.altitude_order as i64 & 0x1FFF) << 6 | ((self.cell_x + 8192) & 0x3FFF) << 19 | ((
        self.cell_y + 8192) & 0x3FFF) << 34
    }
}

impl MapChunk {
    /// Every placement of the chunk, in the order of its sub-regions and
    /// cells, resolved against the chunk's tables; an error when an index
    /// falls outside its table.
    pub fn elements(&self) -> (r: Result<Vec<MapElementDetails>, ResolveError>)
        requires
            self@.wf(),
        ensures
            r is Ok <==> self@.all_resolve(),
            r is Ok ==> r->Ok_0@ == self@.details(),
            r is Ok ==> forall|n: int| 0 <= n < r->Ok_0@.len() ==> (#[trigger] r->Ok_0@[n]).in_range(),
    {
        let ghost c = self@;
        let mut out: Vec<MapElementDetails> = Vec::new();
        let mut k: usize = 0;
        while k < self.sub_chunks.len()
            invariant
                c == self@,
                c.wf(),
                k <= self.sub_chunks.len(),
                out@ == c.prefix_details(k as nat),
                forall|n: int| 0 <= n < out@.len() ==> (#[trigger] out@[n]).in_range(),
                forall|k2: int, i: int, j: int|
                    0 <= k2 < k && 0 <= i < c.sub_chunks[k2].cells.len() && 0 <= j
                        < c.sub_chunks[k2].cells[i].len() ==> #[trigger] c.resolves(
                        c.sub_chunks[k2].cells[i][j],
                    ),
            decreases self.sub_chunks.len() - k,
        {
            let sub = &self.sub_chunks[k];
            let ghost s = sub@;
            assert(s == c.sub_chunks[k as int]);
            let row: i64 = sub.max_y as i64 - sub.min_y as i64;
            let mut i: usize = 0;
            while i < sub.cells.len()
                invariant
                    c == self@,
                    c.wf(),
                    k < self.sub_chunks.len(),
                    s == c.sub_chunks[k as int],
                    s == sub@,
                    row == s.row_len(),
                    i <= sub.cells.len(),
                    out@ == c.prefix_details(k as nat) + c.region_details(s, i as nat),
                    forall|n: int| 0 <= n < out@.len() ==> (#[trigger] out@[n]).in_range(),
                    forall|k2: int, i2: int, j: int|
                        0 <= k2 < k && 0 <= i2 < c.sub_chunks[k2].cells.len() && 0 <= j
                            < c.sub_chunks[k2].cells[i2].len() ==> #[trigger] c.resolves(
                            c.sub_chunks[k2].cells[i2][j],
                        ),
                    forall|i2: int, j: int|
                        0 <= i2 < i && 0 <= j < s.cells[i2].len() ==> #[trigger] c.resolves(
                            s.cells[i2][j],
                        ),
                decreases sub.cells.len() - i,
            {
                let cell = &sub.cells[i];
                assert(cell@ == s.cells[i as int]);
                assert(row > 0) by (nonlinear_arith)
                    requires
                        s.cells.len() == (s.max_x - s.min_x) * (s.max_y - s.min_y),
                        s.max_x - s.min_x >= 0,
                        row == s.max_y - s.min_y,
                        i < s.cells.len(),
                ;
                assert(s.cells.len() <= 255 * 255) by (nonlinear_arith)
                    requires
                        s.cells.len() == (s.max_x - s.min_x) * (s.max_y - s.min_y),
                        0 <= s.max_x - s.min_x <= 255,
                        0 <= s.max_y - s.min_y <= 255,
                ;
                let q = i as i64 / row;
                let m = i as i64 % row;
                assert(0 <= q <= i && 0 <= m < row);
                let cell_x = self.map_x as i64 + sub.min_x as i64 + q;
                let cell_y = self.map_y as i64 + sub.min_y as i64 + m;
                let mut j: usize = 0;
                while j < cell.elements.len()
                    invariant
                        c == self@,
                        k < self.sub_chunks.len(),
                        s == c.sub_chunks[k as int],
                        i < s.cells.len(),
                        cell@ == s.cells[i as int],
                        row == s.row_len(),
                        row > 0,
                        cell_x == c.map_x + s.min_x + (i as int) / (row as int),
                        cell_y == c.map_y + s.min_y + (i as int) % (row as int),
                        j <= cell.elements.len(),
                        out@ == c.prefix_details(k as nat) + c.region_details(s, i as nat)
                            + c.cell_details(s, i as int).take(j as int),
                        forall|j2: int| 0 <= j2 < j ==> #[trigger] c.resolves(s.cells[i as int][j2]),
                        forall|n: int| 0 <= n < out@.len() ==> (#[trigger] out@[n]).in_range(),
                        0 <= (i as int) / (row as int) <= 255 * 255,
                        0 <= (i as int) % (row as int) < row,
                    decreases cell.elements.len() - j,
                {
                    let sp = cell.elements[j];
                    assert(sp == s.cells[i as int][j as int]);
                    if sp.group_index as usize >= self.groups.len() || sp.color_index as usize
                        >= self.colors.len() {
                        assert(!c.resolves(c.sub_chunks[k as int].cells[i as int][j as int]));
                        return Err(ResolveError::IndexOutOfRange);
                    }
                    let d = MapElementDetails {
                        cell_x,
                        cell_y,
                        sprite: sp,
                        group: self.groups[sp.group_index as usize],
                        color: self.colors[sp.color_index as usize],
                    };
                    assert(d == c.detail(s, i as int, sp));
                    assert(c.cell_details(s, i as int).take(j + 1) =~= c.cell_details(
                        s,
                        i as int,
                    ).take(j as int).push(d));
                    out.push(d);
                    j = j + 1;
                }
                assert(c.cell_details(s, i as int).take(j as int) =~= c.cell_details(s, i as int));
                assert(c.region_details(s, (i + 1) as nat) == c.region_details(s, i as nat)
                    + c.cell_details(s, i as int));
                assert(out@ =~= c.prefix_details(k as nat) + c.region_details(s, (i + 1) as nat));
                i = i + 1;
            }
            assert(out@ == c.prefix_details((k + 1) as nat));
            k = k + 1;
        }
        Ok(out)
    }
}

} // verus!
