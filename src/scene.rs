//! The renderable scene: every placement of a map joined with its sprite
//! definition, ordered back to front, and indexed by its screen rectangle.

use vstd::prelude::*;

use crate::color::{first_stop, Rgba};
use crate::cull::{CullPlan, ViewportCuller};
use crate::map::{
    spec_hashcode, spec_iso_to_screen, MapElementDetails, ResolveError, SpecMapChunk, WorldMap,
};
use crate::sprite::{frame_region, MapSpriteLibrary, SpecDefinition, TextureRegion};

verus! {

/// An axis-aligned rectangle on screen, bounds included, in half pixels.
#[derive(Debug, Clone, Copy, PartialEq, Eq, Structural)]
pub struct ScreenRect {
    pub min_x: i64,
    pub min_y: i64,
    pub max_x: i64,
    pub max_y: i64,
}

impl ScreenRect {
    /// The lower corner lies below the upper one on both axes.
    pub open spec fn wf(&self) -> bool {
        self.min_x <= self.max_x && self.min_y <= self.max_y
    }

    /// The two rectangles share at least one point.
    pub open spec fn intersects(&self, o: ScreenRect) -> bool {
        self.min_x <= o.max_x && o.min_x <= self.max_x && self.min_y <= o.max_y && o.min_y
            <= self.max_y
    }
}

/// An R-tree over the rectangles of the renderables, each stored with its
/// position in the list that the tree was built from.
#[verifier::external_body]
pub struct SpatialIndex {
    tree: rstar::RTree<rstar::primitives::GeomWithData<rstar::primitives::Rectangle<(i64, i64)>, usize>>,
}

/// What a spatial index holds: the rectangle of each position.
pub uninterp spec fn spatial_entries(index: SpatialIndex) -> Seq<ScreenRect>;

impl SpatialIndex {
    /// Relies on rstar's `RTree::bulk_load`: the tree holds the given
    /// rectangles, each tagged with its position in `rects`.
    #[verifier::external_body]
    fn bulk_load(rects: Vec<ScreenRect>) -> (r: SpatialIndex)
        requires
            forall|i: int| 0 <= i < rects@.len() ==> (#[trigger] rects@[i]).wf(),
        ensures
            spatial_entries(r) == rects@,
    {
        let items = rects.into_iter().enumerate().map(
            |(i, b): (usize, ScreenRect)|
                rstar::primitives::GeomWithData::new(
                    rstar::primitives::Rectangle::from_corners((b.min_x, b.min_y), (b.max_x, b.max_y)),
                    i,
                ),
        ).collect();
        SpatialIndex { tree: rstar::RTree::bulk_load(items) }
    }

    /// Relies on rstar's `RTree::locate_in_envelope_intersecting`: every
    /// stored rectangle that shares a point with `area`, and no other.
    #[verifier::external_body]
    fn query(&self, area: ScreenRect) -> (r: Vec<usize>)
        requires
            area.wf(),
        ensures
            forall|k: int|
                0 <= k < r@.len() ==> r@[k] < spatial_entries(*self).len() && spatial_entries(
                    *self,
                )[r@[k] as int].intersects(area),
            forall|i: int|
                0 <= i < spatial_entries(*self).len() && (#[trigger] spatial_entries(*self)[i]).intersects(
                    area,
                ) ==> r@.contains(i as usize),
    {
        let envelope = rstar::AABB::from_corners((area.min_x, area.min_y), (area.max_x, area.max_y));
        self.tree.locate_in_envelope_intersecting(&envelope).map(|g| g.data).collect()
    }
}

/// `a` orders before `b`: by key, then by position.
pub open spec fn key_lt(a: (i64, usize), b: (i64, usize)) -> bool {
    a.0 < b.0 || (a.0 == b.0 && a.1 < b.1)
}

/// Relies on std's `slice::sort_unstable`: the same items, in ascending
/// order, tuples ordering by their first field, then their second.
#[verifier::external_body]
fn sort_keys(v: &mut Vec<(i64, usize)>)
    ensures
        final(v)@.to_multiset() == old(v)@.to_multiset(),
        forall|i: int, j: int|
            0 <= i < j < final(v)@.len() ==> !key_lt(#[trigger] final(v)@[j], #[trigger] final(v)@[i]),
{
    v.sort_unstable();
}

/// A sprite placement ready to draw: where, how large, in which color, with
/// which texture, and in which depth rank.
#[derive(Debug, Clone, Copy)]
pub struct Renderable {
    /// The top-left corner on screen, in half pixels.
    pub x: i64,
    pub y: i64,
    /// The rank in drawing order, back to front.
    pub z_index: usize,
    /// The definition's render size, which lays out the frames of its sheet.
    pub texture_size: (u16, u16),
    /// The definition's texture size, which is the size drawn on screen.
    pub render_size: (u16, u16),
    pub color: Rgba,
    pub texture_id: i32,
    pub flip_x: bool,
    /// The position of the definition in the library, for its animation.
    pub definition: usize,
    /// The position of the placement among the map's placements.
    pub source: usize,
    pub group: i32,
    pub layer: u8,
}

/// The renderable of placement `d`, drawn with definition `def` (at position
/// `slot` in the library), as the `z`-th from the back.
pub open spec fn renderable_of(
    d: MapElementDetails,
    def: SpecDefinition,
    slot: usize,
    source: usize,
    z: usize,
) -> Renderable {
    let (sx, sy) = spec_iso_to_screen(d.cell_x as int, d.cell_y as int, d.elevation());
    Renderable {
        x: (sx - 2 * def.origin_x) as i64,
        y: (sy + 2 * def.origin_y) as i64,
        z_index: z,
        texture_size: (def.render_width, def.render_height),
        render_size: (def.texture_width, def.texture_height),
        color: first_stop(d.color),
        texture_id: def.texture_id,
        flip_x: def.flags.0 & 0x10 != 0,
        definition: slot,
        source,
        group: d.group.key,
        layer: d.group.layer,
    }
}

/// The screen rectangle of a renderable: its drawn size, from its top-left
/// corner rightwards and downwards on screen (toward lower `y`).
pub open spec fn envelope(r: Renderable) -> ScreenRect {
    ScreenRect {
        min_x: r.x,
        min_y: (r.y - 2 * r.render_size.1) as i64,
        max_x: (r.x + 2 * r.render_size.0) as i64,
        max_y: r.y,
    }
}

fn envelope_of(r: &Renderable) -> (e: ScreenRect)
    requires
        i64::MIN + 0x2_0000 <= r.x <= i64::MAX - 0x2_0000,
        i64::MIN + 0x2_0000 <= r.y <= i64::MAX - 0x2_0000,
    ensures
        e == envelope(*r),
        e.wf(),
{
    ScreenRect {
        min_x: r.x,
        min_y: r.y - 2 * r.render_size.1 as i64,
        max_x: r.x + 2 * r.render_size.0 as i64,
        max_y: r.y,
    }
}

/// Every placement of the first `n` chunks, chunk by chunk.
pub open spec fn prefix_placements(chunks: Seq<SpecMapChunk>, n: nat) -> Seq<MapElementDetails>
    decreases n,
{
    if n == 0 || n > chunks.len() {
        seq![]
    } else {
        prefix_placements(chunks, (n - 1) as nat) + chunks[n - 1].details()
    }
}

/// Every placement of a map, chunk by chunk.
pub open spec fn placements(chunks: Seq<SpecMapChunk>) -> Seq<MapElementDetails> {
    prefix_placements(chunks, chunks.len())
}

/// The depth key of a placement, with its position as the tie-break.
pub open spec fn depth_of(d: MapElementDetails, i: usize) -> (i64, usize) {
    (spec_hashcode(d.sprite.altitude_order, d.cell_x, d.cell_y), i)
}

/// Every placement of every chunk, resolved; an error when an index of one
/// of them falls outside its chunk's table.
fn gather(map: &WorldMap) -> (r: Result<Vec<MapElementDetails>, ResolveError>)
    requires
        forall|k: int| 0 <= k < map@.len() ==> (#[trigger] map@[k]).wf(),
    ensures
        r is Ok <==> forall|k: int| 0 <= k < map@.len() ==> (#[trigger] map@[k]).all_resolve(),
        r is Ok ==> r->Ok_0@ == placements(map@),
        r is Ok ==> forall|n: int| 0 <= n < r->Ok_0@.len() ==> (#[trigger] r->Ok_0@[n]).in_range(),
{
    let chunks = map.chunks();
    let mut out: Vec<MapElementDetails> = Vec::new();
    let mut k: usize = 0;
    while k < chunks.len()
        invariant
            crate::decode::views(chunks@) == map@,
            forall|k2: int| 0 <= k2 < map@.len() ==> (#[trigger] map@[k2]).wf(),
            k <= chunks@.len(),
            out@ == prefix_placements(map@, k as nat),
            forall|k2: int| 0 <= k2 < k ==> (#[trigger] map@[k2]).all_resolve(),
            forall|n: int| 0 <= n < out@.len() ==> (#[trigger] out@[n]).in_range(),
        decreases chunks.len() - k,
    {
        assert(chunks@[k as int]@ == map@[k as int]);
        match chunks[k].elements() {
            Ok(mut es) => {
                let ghost before = out@;
                out.append(&mut es);
                assert forall|n: int| 0 <= n < out@.len() implies (#[trigger] out@[n]).in_range() by {
                    if n >= before.len() {
                        assert(out@[n] == map@[k as int].details()[n - before.len()]);
                    }
                }
            },
            Err(e) => {
                assert(!map@[k as int].all_resolve());
                return Err(e);
            },
        }
        k = k + 1;
    }
    assert(k == map@.len());
    Ok(out)
}

/// The depth keys of the placements, each with its position, in ascending
/// order: the order in which the placements are drawn, back to front.
fn draw_order(details: &Vec<MapElementDetails>) -> (r: Vec<(i64, usize)>)
    requires
        forall|n: int| 0 <= n < details@.len() ==> (#[trigger] details@[n]).in_range(),
    ensures
        r@.len() == details@.len(),
        forall|j: int|
            0 <= j < r@.len() ==> (#[trigger] r@[j]).1 < details@.len() && r@[j] == depth_of(
                details@[r@[j].1 as int],
                r@[j].1,
            ),
        forall|j1: int, j2: int|
            0 <= j1 < j2 < r@.len() ==> key_lt(#[trigger] r@[j1], #[trigger] r@[j2]),
        forall|i: int| 0 <= i < details@.len() ==> r@.contains(#[trigger] depth_of(details@[i], i as usize)),
{
    let mut keys: Vec<(i64, usize)> = Vec::new();
    let mut i: usize = 0;
    while i < details.len()
        invariant
            i <= details@.len(),
            forall|n: int| 0 <= n < details@.len() ==> (#[trigger] details@[n]).in_range(),
            keys@.len() == i,
            forall|j: int| 0 <= j < i ==> #[trigger] keys@[j] == depth_of(details@[j], j as usize),
        decreases details.len() - i,
    {
        keys.push((details[i].hashcode(), i));
        i = i + 1;
    }
    let ghost before = keys@;
    assert(before.no_duplicates()) by {
        assert forall|a: int, b: int| 0 <= a < before.len() && 0 <= b < before.len() && a != b implies before[a]
            != before[b] by {
            assert(before[a].1 == a && before[b].1 == b);
        }
    }
    sort_keys(&mut keys);
    proof {
        before.to_multiset_ensures();
        keys@.to_multiset_ensures();
        before.lemma_multiset_has_no_duplicates();
        keys@.lemma_multiset_has_no_duplicates_conv();
        assert forall|j: int| 0 <= j < keys@.len() implies (#[trigger] keys@[j]).1 < details@.len()
            && keys@[j] == depth_of(details@[keys@[j].1 as int], keys@[j].1) by {
            assert(keys@.contains(keys@[j]));
            assert(keys@.to_multiset().count(keys@[j]) > 0);
            assert(before.contains(keys@[j]));
        }
        assert forall|i: int| 0 <= i < details@.len() implies keys@.contains(
            #[trigger] depth_of(details@[i], i as usize),
        ) by {
            assert(before[i] == depth_of(details@[i], i as usize));
            assert(before.contains(before[i]));
            assert(before.to_multiset().count(before[i]) > 0);
            assert(keys@.to_multiset().count(before[i]) > 0);
        }
        assert forall|j1: int, j2: int| 0 <= j1 < j2 < keys@.len() implies key_lt(
            #[trigger] keys@[j1],
            #[trigger] keys@[j2],
        ) by {
            assert(keys@[j1] != keys@[j2]);
            assert(!key_lt(keys@[j2], keys@[j1]));
        }
    }
    keys
}

/// The filters of the map view: show one layer only, or one group band only.
#[derive(Debug, Clone, Copy, PartialEq, Eq, Structural)]
pub struct MapViewSettings {
    pub layer_filter_on: bool,
    pub layer: u8,
    pub group_filter_on: bool,
    pub group: i32,
}

impl Default for MapViewSettings {
    fn default() -> (r: MapViewSettings)
        ensures
            r == (MapViewSettings { layer_filter_on: false, layer: 0, group_filter_on: false, group: 0 }),
    {
        MapViewSettings { layer_filter_on: false, layer: 0, group_filter_on: false, group: 0 }
    }
}

/// The band of a group key: the key divided by 1000, rounded toward zero.
pub open spec fn group_band(key: i32) -> int {
    if key >= 0 {
        key / 1000
    } else {
        -((-key) / 1000)
    }
}

fn band_of(key: i32) -> (r: i32)
    ensures
        r == group_band(key),
{
    let k = key as i64;
    if k >= 0 {
        (k / 1000) as i32
    } else {
        (-((-k) / 1000)) as i32
    }
}

/// Whether the view settings let a renderable through.
pub open spec fn passes(s: MapViewSettings, r: Renderable) -> bool {
    (!s.layer_filter_on || s.layer == r.layer) && (!s.group_filter_on || s.group == group_band(r.group))
}

/// The renderables of a map, their spatial index, and the state of the view.
pub struct MapRenderer {
    renderables: Vec<Renderable>,
    index: SpatialIndex,
    culler: ViewportCuller,
}

impl MapRenderer {
    /// The renderables, back to front.
    pub closed spec fn renderables(&self) -> Seq<Renderable> {
        self.renderables@
    }

    /// The entity that each renderable is bound to.
    pub closed spec fn bound(&self) -> Seq<Option<u64>> {
        self.culler.bound()
    }

    /// The renderables found in view by the last update.
    pub closed spec fn shown(&self) -> Seq<usize> {
        self.culler.shown()
    }

    pub closed spec fn wf(&self) -> bool {
        &&& spatial_entries(self.index) == self.renderables@.map_values(|r: Renderable| envelope(r))
        &&& forall|k: int| 0 <= k < self.renderables@.len() ==> (#[trigger] envelope(self.renderables@[k])).wf()
        &&& self.culler.wf()
        &&& self.culler.bound().len() == self.renderables@.len()
    }

    /// Renderable `i` lies in `area` and passes the view settings.
    pub open spec fn in_view(&self, area: ScreenRect, settings: MapViewSettings, i: usize) -> bool {
        &&& i < self.renderables().len()
        &&& envelope(self.renderables()[i as int]).intersects(area)
        &&& passes(settings, self.renderables()[i as int])
    }

    /// Joins every placement of the map with its definition in the library
    /// and orders the result back to front: by depth key, then by placement
    /// order. Placements whose definition the library lacks are skipped; a
    /// placement whose group or color index falls outside its chunk's table
    /// fails the whole.
    pub fn new(map: &WorldMap, library: &MapSpriteLibrary) -> (r: Result<MapRenderer, ResolveError>)
        requires
            forall|k: int| 0 <= k < map@.len() ==> (#[trigger] map@[k]).wf(),
            library.wf(),
        ensures
            r is Ok <==> forall|k: int| 0 <= k < map@.len() ==> (#[trigger] map@[k]).all_resolve(),
            r matches Ok(s) ==> {
                let p = placements(map@);
                let rs = s.renderables();
                &&& s.wf()
                &&& s.bound() == Seq::new(rs.len(), |i: int| None::<u64>)
                &&& s.shown() == Seq::<usize>::empty()
                &&& forall|k: int|
                    0 <= k < rs.len() ==> {
                        let src = (#[trigger] rs[k]).source;
                        let id = p[src as int].sprite.definition_id;
                        &&& src < p.len()
                        &&& library@.contains_key(id)
                        &&& rs[k].definition < library.slots().len()
                        &&& library.slots()[rs[k].definition as int] == library@[id]
                        &&& rs[k] == renderable_of(p[src as int], library@[id], rs[k].definition, src, k as usize)
                    }
                &&& forall|k1: int, k2: int|
                    0 <= k1 < k2 < rs.len() ==> key_lt(
                        depth_of(p[(#[trigger] rs[k1]).source as int], rs[k1].source),
                        depth_of(p[(#[trigger] rs[k2]).source as int], rs[k2].source),
                    )
                &&& forall|i: int|
                    0 <= i < p.len() && library@.contains_key(#[trigger] p[i].sprite.definition_id)
                        ==> exists|k: int| 0 <= k < rs.len() && rs[k].source == i
            },
    {
        let details = match gather(map) {
            Ok(d) => d,
            Err(e) => return Err(e),
        };
        let ghost p = details@;
        let keys = draw_order(&details);
        let mut renderables: Vec<Renderable> = Vec::new();
        let mut rects: Vec<ScreenRect> = Vec::new();
        let ghost mut pos: Seq<int> = seq![];
        let mut j: usize = 0;
        while j < keys.len()
            invariant
                p == details@,
                p == placements(map@),
                library.wf(),
                forall|n: int| 0 <= n < p.len() ==> (#[trigger] p[n]).in_range(),
                keys@.len() == p.len(),
                forall|j2: int|
                    0 <= j2 < keys@.len() ==> (#[trigger] keys@[j2]).1 < p.len() && keys@[j2] == depth_of(
                        p[keys@[j2].1 as int],
                        keys@[j2].1,
                    ),
                forall|j1: int, j2: int|
                    0 <= j1 < j2 < keys@.len() ==> key_lt(#[trigger] keys@[j1], #[trigger] keys@[j2]),
                j <= keys@.len(),
                renderables@.len() == rects@.len(),
                renderables@.len() == pos.len(),
                forall|k: int| 0 <= k < rects@.len() ==> #[trigger] rects@[k] == envelope(renderables@[k]),
                forall|k: int| 0 <= k < rects@.len() ==> (#[trigger] rects@[k]).wf(),
                forall|k: int|
                    0 <= k < pos.len() ==> 0 <= #[trigger] pos[k] < j && keys@[pos[k]].1
                        == renderables@[k].source,
                forall|k1: int, k2: int| 0 <= k1 < k2 < pos.len() ==> #[trigger] pos[k1] < #[trigger] pos[k2],
                forall|k: int|
                    0 <= k < renderables@.len() ==> {
                        let src = (#[trigger] renderables@[k]).source;
                        let id = p[src as int].sprite.definition_id;
                        &&& src < p.len()
                        &&& library@.contains_key(id)
                        &&& renderables@[k].definition < library.slots().len()
                        &&& library.slots()[renderables@[k].definition as int] == library@[id]
                        &&& renderables@[k] == renderable_of(
                            p[src as int],
                            library@[id],
                            renderables@[k].definition,
                            src,
                            k as usize,
                        )
                    },
                forall|j2: int|
                    0 <= j2 < j && library@.contains_key(p[(#[trigger] keys@[j2]).1 as int].sprite.definition_id)
                        ==> exists|k: int| 0 <= k < pos.len() && pos[k] == j2,
            decreases keys.len() - j,
        {
            let (_, i) = keys[j];
            let d = details[i];
            match library.find(d.sprite.definition_id) {
                None => {},
                Some(slot) => {
                    let def = library.definition(slot);
                    let (sx, sy) = d.screen_position();
                    let r = Renderable {
                        x: sx - 2 * def.origin_x as i64,
                        y: sy + 2 * def.origin_y as i64,
                        z_index: renderables.len(),
                        texture_size: (def.render_width, def.render_height),
                        render_size: (def.texture_width, def.texture_height),
                        color: Rgba::from(d.color),
                        texture_id: def.texture_id,
                        flip_x: def.flags.is_flip(),
                        definition: slot,
                        source: i,
                        group: d.group.key,
                        layer: d.group.layer,
                    };
                    assert(r == renderable_of(d, library@[d.sprite.definition_id], slot, i, renderables@.len() as usize));
                    let ghost old_pos = pos;
                    rects.push(envelope_of(&r));
                    renderables.push(r);
                    proof {
                        pos = pos.push(j as int);
                        assert forall|j2: int|
                            0 <= j2 < j + 1 && library@.contains_key(
                                p[(#[trigger] keys@[j2]).1 as int].sprite.definition_id,
                            ) implies exists|k: int| 0 <= k < pos.len() && pos[k] == j2 by {
                            if j2 < j {
                                let k = choose|k: int| 0 <= k < old_pos.len() && old_pos[k] == j2;
                                assert(pos[k] == j2);
                            } else {
                                assert(pos[old_pos.len() as int] == j2);
                            }
                        }
                    }
                },
            }
            j = j + 1;
        }
        let n = renderables.len();
        assert(rects@ =~= renderables@.map_values(|r: Renderable| envelope(r)));
        let index = SpatialIndex::bulk_load(rects);
        proof {
            assert forall|i: int|
                0 <= i < p.len() && library@.contains_key(#[trigger] p[i].sprite.definition_id) implies exists|k: int|
                0 <= k < renderables@.len() && renderables@[k].source == i by {
                assert(keys@.contains(depth_of(p[i], i as usize)));
                let j2 = choose|j2: int| 0 <= j2 < keys@.len() && keys@[j2] == depth_of(p[i], i as usize);
                assert(keys@[j2].1 == i);
                let k = choose|k: int| 0 <= k < pos.len() && pos[k] == j2;
                assert(renderables@[k].source == i);
            }
            assert forall|k1: int, k2: int| 0 <= k1 < k2 < renderables@.len() implies key_lt(
                depth_of(p[(#[trigger] renderables@[k1]).source as int], renderables@[k1].source),
                depth_of(p[(#[trigger] renderables@[k2]).source as int], renderables@[k2].source),
            ) by {
                assert(pos[k1] < pos[k2]);
                assert(key_lt(keys@[pos[k1]], keys@[pos[k2]]));
            }
        }
        Ok(MapRenderer { renderables, index, culler: ViewportCuller::new(n) })
    }

    /// The number of renderables.
    pub fn len(&self) -> (r: usize)
        ensures
            r == self.renderables().len(),
    {
        self.renderables.len()
    }

    /// Renderable `k`, the `k`-th from the back.
    pub fn renderable(&self, k: usize) -> (r: Renderable)
        requires
            k < self.renderables().len(),
        ensures
            r == self.renderables()[k as int],
    {
        self.renderables[k]
    }

    /// The regions of its texture that renderable `k` shows: one per frame
    /// of its definition's animation, or, for a still sprite, the whole
    /// `texture_size` from the origin.
    pub fn regions(&self, k: usize, library: &MapSpriteLibrary) -> (r: Vec<TextureRegion>)
        requires
            k < self.renderables().len(),
            self.renderables()[k as int].definition < library.slots().len(),
        ensures
            ({
                let rk = self.renderables()[k as int];
                match library.slots()[rk.definition as int].animation {
                    Some(f) => r@.len() == if f.frame_durations.len() <= f.frame_coords.len() {
                        f.frame_durations.len()
                    } else {
                        f.frame_coords.len()
                    } && forall|i: int| 0 <= i < r@.len() ==> #[trigger] r@[i] == frame_region(f, i),
                    None => r@ == seq![
                        TextureRegion {
                            min_x: 0,
                            min_y: 0,
                            max_x: rk.texture_size.0 as u32,
                            max_y: rk.texture_size.1 as u32,
                        },
                    ],
                }
            }),
    {
        let r = &self.renderables[k];
        match library.definition(r.definition).animation() {
            Some(frames) => frames.regions(),
            None => {
                let mut out: Vec<TextureRegion> = Vec::new();
                out.push(
                    TextureRegion {
                        min_x: 0,
                        min_y: 0,
                        max_x: r.texture_size.0 as u32,
                        max_y: r.texture_size.1 as u32,
                    },
                );
                assert(out@ =~= seq![
                    TextureRegion {
                        min_x: 0,
                        min_y: 0,
                        max_x: r.texture_size.0 as u32,
                        max_y: r.texture_size.1 as u32,
                    },
                ]);
                out
            },
        }
    }

    /// The renderables in view: those whose rectangle shares a point with
    /// `area` and that pass the view settings.
    pub fn visible(&self, area: ScreenRect, settings: &MapViewSettings) -> (r: Vec<usize>)
        requires
            self.wf(),
            area.wf(),
        ensures
            forall|i: usize| #[trigger] r@.contains(i) <==> self.in_view(area, *settings, i),
            forall|k: int| 0 <= k < r@.len() ==> (#[trigger] r@[k]) < self.renderables().len(),
    {
        let hits = self.index.query(area);
        let mut out: Vec<usize> = Vec::new();
        let mut k: usize = 0;
        while k < hits.len()
            invariant
                self.wf(),
                k <= hits@.len(),
                forall|k2: int|
                    0 <= k2 < hits@.len() ==> hits@[k2] < self.renderables().len() && envelope(
                        self.renderables()[hits@[k2] as int],
                    ).intersects(area),
                forall|i: usize| #[trigger] out@.contains(i) ==> self.in_view(area, *settings, i),
                forall|k2: int|
                    0 <= k2 < k && self.in_view(area, *settings, #[trigger] hits@[k2]) ==> out@.contains(
                        hits@[k2],
                    ),
                forall|k2: int| 0 <= k2 < out@.len() ==> (#[trigger] out@[k2]) < self.renderables().len(),
            decreases hits.len() - k,
        {
            let i = hits[k];
            assert(spatial_entries(self.index)[i as int] == envelope(self.renderables()[i as int]));
            let r = &self.renderables[i];
            if (!settings.layer_filter_on || settings.layer == r.layer) && (!settings.group_filter_on
                || settings.group == band_of(r.group)) {
                assert(hits@[k as int] == i);
                assert(envelope(self.renderables()[i as int]).intersects(area));
                assert(*r == self.renderables()[i as int]);
                assert(passes(*settings, *r));
                assert(self.in_view(area, *settings, i));
                let ghost prev = out@;
                out.push(i);
                proof {
                    assert forall|x: usize| #[trigger] out@.contains(x) implies self.in_view(area, *settings, x) by {
                        let m = choose|m: int| 0 <= m < out@.len() && out@[m] == x;
                        if m < prev.len() {
                            assert(prev[m] == x);
                            assert(prev.contains(x));
                        } else {
                            assert(x == i);
                        }
                    }
                    assert forall|k2: int|
                        0 <= k2 < k + 1 && self.in_view(area, *settings, #[trigger] hits@[k2]) implies out@.contains(
                        hits@[k2],
                    ) by {
                        if k2 < k {
                            let m = choose|m: int| 0 <= m < prev.len() && prev[m] == hits@[k2];
                            assert(out@[m] == hits@[k2]);
                        } else {
                            assert(out@[prev.len() as int] == i);
                        }
                    }
                }
            }
            k = k + 1;
        }
        proof {
            assert forall|i: usize| self.in_view(area, *settings, i) implies #[trigger] out@.contains(i) by {
                assert(spatial_entries(self.index)[i as int] == envelope(self.renderables()[i as int]));
                assert(hits@.contains(i));
                let k2 = choose|k2: int| 0 <= k2 < hits@.len() && hits@[k2] == i;
                assert(self.in_view(area, *settings, hits@[k2]));
            }
        }
        out
    }

    /// Finds the renderables in view and diffs them against those of the
    /// last update: the plan lists the renderables to spawn (in view, not
    /// bound) and the entities to despawn (in view at the last update, no
    /// longer in view, bound); the latter become unbound. Renderables in view
    /// both times get no event.
    pub fn update(&mut self, area: ScreenRect, settings: &MapViewSettings) -> (plan: CullPlan)
        requires
            old(self).wf(),
            area.wf(),
        ensures
            final(self).wf(),
            final(self).renderables() == old(self).renderables(),
            forall|i: usize|
                #[trigger] plan.spawn@.contains(i) <==> old(self).in_view(area, *settings, i)
                    && old(self).bound()[i as int] is None,
            forall|t: (usize, u64)|
                #[trigger] plan.despawn@.contains(t) <==> old(self).shown().contains(t.0)
                    && !old(self).in_view(area, *settings, t.0) && old(self).bound()[t.0 as int]
                    == Some(t.1),
            forall|i: int|
                0 <= i < old(self).bound().len() ==> #[trigger] final(self).bound()[i] == if old(
                    self,
                ).shown().contains(i as usize) && !old(self).in_view(area, *settings, i as usize) {
                    None
                } else {
                    old(self).bound()[i]
                },
            forall|i: usize| #[trigger] final(self).shown().contains(i) <==> old(self).in_view(area, *settings, i),
    {
        let current = self.visible(area, settings);
        self.culler.update(&current)
    }

    /// Records that renderable `i` is now drawn by `entity`.
    pub fn bind(&mut self, i: usize, entity: u64)
        requires
            old(self).wf(),
            i < old(self).renderables().len(),
        ensures
            final(self).wf(),
            final(self).renderables() == old(self).renderables(),
            final(self).bound() == old(self).bound().update(i as int, Some(entity)),
            final(self).shown() == old(self).shown(),
    {
        self.culler.bind(i, entity);
    }
}

} // verus!
