use vakfu::color::{Color, Rgb, Rgba};
use vakfu::cull::ViewportCuller;
use vakfu::decode::DecodeError;
use vakfu::map::{
    iso_to_screen, read_chunk, ArchiveEntry, Group, MapElementDetails, MapSprite, ResolveError,
    WorldMap,
};
use vakfu::names::{is_chunk_entry, parse_patch};
use vakfu::scene::{MapRenderer, MapViewSettings, ScreenRect};
use vakfu::sprite::{LevelOfDetail, MapSpriteLibrary, SpriteFlags, TextureRegion};
use vakfu::timer::Timer;

struct Sprite {
    cell_z: i16,
    height: u8,
    altitude_order: u8,
    definition_id: i32,
    group: u16,
    color: u16,
}

fn sprite(altitude_order: u8, definition_id: i32) -> Sprite {
    Sprite { cell_z: 0, height: 0, altitude_order, definition_id, group: 0, color: 0 }
}

/// A chunk with one group `(key 2001, layer 3, id 7)`, one RGB color, origin
/// `(map_x, map_y)` and one region of `cells` over `[0, dx) x [0, dy)`.
fn chunk_bytes(map_x: i32, map_y: i32, dx: i8, dy: i8, cells: &[Vec<Sprite>]) -> Vec<u8> {
    let mut b = Vec::new();
    for v in [0i32, 0] {
        b.extend_from_slice(&v.to_le_bytes());
    }
    b.extend_from_slice(&0i16.to_le_bytes());
    for v in [10i32, 10] {
        b.extend_from_slice(&v.to_le_bytes());
    }
    b.extend_from_slice(&5i16.to_le_bytes());
    b.extend_from_slice(&1u16.to_le_bytes());
    b.extend_from_slice(&2001i32.to_le_bytes());
    b.push(3);
    b.extend_from_slice(&7i32.to_le_bytes());
    b.extend_from_slice(&1u16.to_le_bytes());
    b.extend_from_slice(&[1, 10, 20, 30]);
    b.extend_from_slice(&map_x.to_le_bytes());
    b.extend_from_slice(&map_y.to_le_bytes());
    b.extend_from_slice(&1u16.to_le_bytes());
    b.extend_from_slice(&[0, dx as u8, 0, dy as u8]);
    for cell in cells {
        b.push(cell.len() as u8);
        for s in cell {
            b.extend_from_slice(&s.cell_z.to_le_bytes());
            b.push(s.height);
            b.push(s.altitude_order);
            b.push(0);
            b.extend_from_slice(&s.definition_id.to_le_bytes());
            b.extend_from_slice(&s.group.to_le_bytes());
            b.extend_from_slice(&s.color.to_le_bytes());
        }
    }
    b
}

/// A definition with a 20x30 texture, a 5x6 render size and origin (1, 2).
fn definition_bytes(id: i32, flags: u8, frames: &[(u16, u16, u16)]) -> Vec<u8> {
    let mut b = Vec::new();
    b.extend_from_slice(&id.to_le_bytes());
    b.extend_from_slice(&1i16.to_le_bytes());
    b.extend_from_slice(&2i16.to_le_bytes());
    for v in [20u16, 30, 5, 6] {
        b.extend_from_slice(&v.to_le_bytes());
    }
    b.extend_from_slice(&(id * 10).to_le_bytes());
    b.extend_from_slice(&[flags, 0, 1, 0, 0, frames.len() as u8]);
    if !frames.is_empty() {
        b.extend_from_slice(&300u32.to_le_bytes());
        for v in [8u16, 9, 64, 64] {
            b.extend_from_slice(&v.to_le_bytes());
        }
        for f in frames {
            b.extend_from_slice(&f.0.to_le_bytes());
        }
        for f in frames {
            b.extend_from_slice(&f.1.to_le_bytes());
            b.extend_from_slice(&f.2.to_le_bytes());
        }
    }
    b.push(0);
    b
}

fn library_bytes(defs: &[Vec<u8>]) -> Vec<u8> {
    let mut b = (defs.len() as u32).to_le_bytes().to_vec();
    for d in defs {
        b.extend_from_slice(d);
    }
    b
}

#[test]
fn chunk_decodes_and_flattens_column_by_column() {
    let cells = vec![vec![sprite(1, 5)], vec![], vec![sprite(2, 6), sprite(3, 7)], vec![]];
    let bytes = chunk_bytes(100, 200, 2, 2, &cells);
    let (chunk, used) = read_chunk(&bytes).unwrap();
    assert_eq!(used, bytes.len());
    assert_eq!(chunk.max_z, 5);
    assert_eq!(chunk.groups, vec![Group { key: 2001, layer: 3, id: 7 }]);
    assert_eq!(chunk.colors, vec![Color::Rgb(Rgb { r: 10, g: 20, b: 30 })]);
    let elements = chunk.elements().unwrap();
    let cells: Vec<(i64, i64, i32)> = elements.iter().map(|e| (e.cell_x, e.cell_y, e.definition_id())).collect();
    assert_eq!(cells, vec![(100, 200, 5), (101, 200, 6), (101, 200, 7)]);
    assert_eq!(elements[0].group().key(), 2001);
    assert_eq!(elements[0].group().layer(), 3);
    assert_eq!(elements[0].color(), Color::Rgb(Rgb { r: 10, g: 20, b: 30 }));
    assert_eq!(elements[0].tag(), 0);
}

#[test]
fn out_of_range_index_is_a_resolve_error() {
    let mut bad = sprite(1, 5);
    bad.color = 1;
    let bytes = chunk_bytes(0, 0, 1, 1, &[vec![bad]]);
    let (chunk, _) = read_chunk(&bytes).unwrap();
    assert_eq!(chunk.elements(), Err(ResolveError::IndexOutOfRange));

    let mut bad = sprite(1, 5);
    bad.group = 3;
    let bytes = chunk_bytes(0, 0, 1, 1, &[vec![bad]]);
    let (chunk, _) = read_chunk(&bytes).unwrap();
    assert_eq!(chunk.elements(), Err(ResolveError::IndexOutOfRange));
}

#[test]
fn truncated_chunk_fails() {
    let bytes = chunk_bytes(0, 0, 1, 2, &[vec![sprite(1, 5)], vec![sprite(1, 5)]]);
    assert!(matches!(read_chunk(&bytes[..bytes.len() - 1]), Err(DecodeError::Truncated)));
    assert!(matches!(read_chunk(&bytes[..10]), Err(DecodeError::Truncated)));
}

#[test]
fn reversed_region_bounds_fail() {
    let mut bytes = chunk_bytes(0, 0, 1, 1, &[vec![]]);
    let at = bytes.len() - 4;
    bytes[at] = 3;
    assert!(matches!(read_chunk(&bytes), Err(DecodeError::Truncated)));
}

#[test]
fn chunk_entry_names() {
    assert!(is_chunk_entry("12_-34"));
    assert!(is_chunk_entry("_"));
    assert!(is_chunk_entry("-1-_0"));
    assert!(!is_chunk_entry("12_34.light"));
    assert!(!is_chunk_entry("1__2"));
    assert!(!is_chunk_entry("elements.lib"));
    assert!(!is_chunk_entry("12-34"));
}

#[test]
fn patch_names() {
    assert_eq!(parse_patch("12_-34"), Some((12, -34)));
    assert_eq!(parse_patch("+5_0"), Some((5, 0)));
    assert_eq!(parse_patch("2147483647_-2147483648"), Some((i32::MAX, i32::MIN)));
    assert_eq!(parse_patch("2147483648_0"), None);
    assert_eq!(parse_patch("1_2_3"), None);
    assert_eq!(parse_patch("12"), None);
    assert_eq!(parse_patch("a_1"), None);
    assert_eq!(parse_patch("-_1"), None);
    assert_eq!(parse_patch("_1"), None);
}

#[test]
fn projection_in_half_pixels() {
    assert_eq!(iso_to_screen(0, 0, 0), (0, 0));
    let (x, y) = iso_to_screen(1, 0, 0);
    assert_eq!((x as f64 / 2.0, y as f64 / 2.0), (43.0, -21.5));
    assert_eq!(iso_to_screen(0, 1, 2), (-86, -43 + 40));
}

fn details(altitude_order: u8, cell_x: i64, cell_y: i64) -> MapElementDetails {
    MapElementDetails {
        cell_x,
        cell_y,
        sprite: MapSprite {
            cell_z: 0,
            height: 0,
            altitude_order,
            tag: 0,
            definition_id: 1,
            group_index: 0,
            color_index: 0,
        },
        group: Group { key: 0, layer: 0, id: 0 },
        color: Color::Neutral,
    }
}

#[test]
fn depth_key_orders_altitude_within_a_cell() {
    for (x, y) in [(0i64, 0i64), (-8192, 5), (17, -3)] {
        assert!(details(1, x, y).hashcode() < details(2, x, y).hashcode());
    }
    assert_eq!(details(1, 0, 0).hashcode(), (1 << 6) | (8192 << 19) | (8192i64 << 34));
    assert!(details(200, 0, 0).hashcode() < details(0, 1, 0).hashcode());
    assert!(details(200, 5, 0).hashcode() < details(0, 0, 1).hashcode());
}

#[test]
fn library_lookups() {
    let bytes = library_bytes(&[definition_bytes(5, 0x13, &[]), definition_bytes(6, 0, &[]), definition_bytes(5, 0, &[])]);
    let (lib, used) = MapSpriteLibrary::read(&bytes).unwrap();
    assert_eq!(used, bytes.len());
    let five = lib.get(5).unwrap();
    assert_eq!(five.flags(), SpriteFlags(0));
    assert_eq!(five.origin(), (1, 2));
    assert_eq!(five.texture_size(), (20, 30));
    assert_eq!(five.size(), (5, 6));
    assert_eq!(five.texture_id(), 50);
    assert!(five.animation().is_none());
    assert!(lib.get(6).is_some());
    assert!(lib.get(7).is_none());
}

#[test]
fn sprite_flags_bits() {
    let f = SpriteFlags::from_bits(0b1011_0110);
    assert_eq!(f.slope(), 6);
    assert!(f.is_flip());
    assert!(f.is_move_top());
    assert!(!f.is_before_mobile());
    assert!(f.is_walkable());
}

#[test]
fn animation_frames_and_selection() {
    let bytes = library_bytes(&[definition_bytes(9, 0, &[(100, 0, 0), (50, 8, 0), (150, 16, 0)])]);
    let (lib, _) = MapSpriteLibrary::read(&bytes).unwrap();
    let frames = lib.get(9).unwrap().animation().unwrap();
    assert_eq!(frames.total_time(), 300);
    assert_eq!((frames.width(), frames.height()), (8, 9));
    let list: Vec<(u32, u16)> = frames.frames().iter().map(|f| (f.time, f.x)).collect();
    assert_eq!(list, vec![(0, 0), (100, 8), (150, 16)]);
    assert_eq!(frames.frame_at(0), None);
    assert_eq!(frames.frame_at(1), Some(0));
    assert_eq!(frames.frame_at(100), Some(0));
    assert_eq!(frames.frame_at(101), Some(1));
    assert_eq!(frames.frame_at(299), Some(2));
    assert_eq!(frames.frame_at(301), Some(0));
    let regions: Vec<(u32, u32, u32, u32)> =
        frames.regions().iter().map(|r| (r.min_x, r.min_y, r.max_x, r.max_y)).collect();
    assert_eq!(regions, vec![(0, 0, 8, 9), (8, 0, 16, 9), (16, 0, 24, 9)]);
}

#[test]
fn renderable_regions() {
    let map = WorldMap::load(&entries()).unwrap();
    let lib_bytes = library_bytes(&[definition_bytes(5, 0, &[(40, 2, 3), (60, 10, 3)]), definition_bytes(6, 0, &[])]);
    let (lib, _) = MapSpriteLibrary::read(&lib_bytes).unwrap();
    let renderer = MapRenderer::new(&map, &lib).unwrap();
    assert_eq!(renderer.renderable(1).source, 0);
    assert_eq!(
        renderer.regions(1, &lib),
        vec![
            TextureRegion { min_x: 2, min_y: 3, max_x: 10, max_y: 12 },
            TextureRegion { min_x: 10, min_y: 3, max_x: 18, max_y: 12 },
        ]
    );
    assert_eq!(renderer.regions(0, &lib), vec![TextureRegion { min_x: 0, min_y: 0, max_x: 5, max_y: 6 }]);
}

#[test]
fn truncated_animation_fails() {
    let mut def = definition_bytes(9, 0, &[(100, 0, 0)]);
    def.truncate(def.len() - 3);
    let bytes = library_bytes(&[def]);
    assert!(matches!(MapSpriteLibrary::read(&bytes), Err(DecodeError::Truncated)));
}

#[test]
fn level_of_detail_masks() {
    assert_eq!(LevelOfDetail::Low.get_mask(), 1);
    assert_eq!(LevelOfDetail::Medium.get_mask(), 3);
    assert_eq!(LevelOfDetail::High.get_mask(), 7);
}

fn entries() -> Vec<ArchiveEntry> {
    let cells = vec![vec![sprite(9, 5), sprite(3, 6)], vec![sprite(1, 99)]];
    vec![
        ArchiveEntry { name: "0_0.light".to_string(), bytes: vec![1, 2, 3] },
        ArchiveEntry { name: "3_-4".to_string(), bytes: chunk_bytes(0, 0, 1, 2, &cells) },
    ]
}

#[test]
fn map_load_skips_other_entries_and_fails_as_a_whole() {
    let map = WorldMap::load(&entries()).unwrap();
    assert_eq!(map.chunks().len(), 1);
    let mut broken = entries();
    broken.push(ArchiveEntry { name: "1_1".to_string(), bytes: vec![0; 5] });
    assert!(matches!(WorldMap::load(&broken), Err(DecodeError::Truncated)));
}

#[test]
fn renderer_orders_back_to_front_and_skips_unknown_definitions() {
    let map = WorldMap::load(&entries()).unwrap();
    let lib_bytes = library_bytes(&[definition_bytes(5, 0x10, &[]), definition_bytes(6, 0, &[])]);
    let (lib, _) = MapSpriteLibrary::read(&lib_bytes).unwrap();
    let renderer = MapRenderer::new(&map, &lib).unwrap();
    assert_eq!(renderer.len(), 2);
    let first = renderer.renderable(0);
    let second = renderer.renderable(1);
    assert_eq!((first.source, first.z_index), (1, 0));
    assert_eq!((second.source, second.z_index), (0, 1));
    assert!(second.flip_x);
    assert_eq!(second.color, Rgba { r: 10, g: 20, b: 30, a: 0 });
    assert_eq!(second.x, -2);
    assert_eq!(second.y, 4);
    assert_eq!(second.render_size, (20, 30));
    assert_eq!(second.texture_size, (5, 6));
    assert_eq!(second.texture_id, 50);
    assert_eq!((second.group, second.layer), (2001, 3));
}

#[test]
fn renderer_view_updates() {
    let map = WorldMap::load(&entries()).unwrap();
    let lib_bytes = library_bytes(&[definition_bytes(5, 0, &[]), definition_bytes(6, 0, &[])]);
    let (lib, _) = MapSpriteLibrary::read(&lib_bytes).unwrap();
    let mut renderer = MapRenderer::new(&map, &lib).unwrap();
    let all = ScreenRect { min_x: -1000, min_y: -1000, max_x: 1000, max_y: 1000 };
    let none = ScreenRect { min_x: 5000, min_y: 5000, max_x: 6000, max_y: 6000 };
    let settings = MapViewSettings::default();
    let mut seen = renderer.visible(all, &settings);
    seen.sort();
    assert_eq!(seen, vec![0, 1]);
    let plan = renderer.update(all, &settings);
    assert_eq!(plan.spawn.len(), 2);
    assert!(plan.despawn.is_empty());
    renderer.bind(0, 70);
    renderer.bind(1, 71);
    let plan = renderer.update(all, &settings);
    assert!(plan.spawn.is_empty() && plan.despawn.is_empty());
    let filtered = MapViewSettings { layer_filter_on: true, layer: 4, group_filter_on: false, group: 0 };
    assert!(renderer.visible(all, &filtered).is_empty());
    let banded = MapViewSettings { layer_filter_on: true, layer: 3, group_filter_on: true, group: 2 };
    assert_eq!(renderer.visible(all, &banded).len(), 2);
    let mut plan = renderer.update(none, &settings);
    plan.despawn.sort();
    assert_eq!(plan.despawn, vec![(0, 70), (1, 71)]);
}

#[test]
fn viewport_diff_despawns_only_what_left() {
    let (a, b, c, d) = (0usize, 1usize, 2usize, 3usize);
    let mut culler = ViewportCuller::new(4);
    let plan = culler.update(&vec![a, b, c]);
    let mut spawned = plan.spawn.clone();
    spawned.sort();
    assert_eq!(spawned, vec![a, b, c]);
    for (i, e) in [(a, 10u64), (b, 11), (c, 12)] {
        culler.bind(i, e);
    }
    let plan = culler.update(&vec![b, c, d]);
    assert_eq!(plan.despawn, vec![(a, 10)]);
    assert_eq!(plan.spawn, vec![d]);
    assert_eq!(culler.entity(a), None);
    assert_eq!(culler.entity(b), Some(11));
    assert_eq!(culler.entity(c), Some(12));
}

#[test]
fn viewport_update_ignores_repeats() {
    let mut culler = ViewportCuller::new(3);
    let plan = culler.update(&vec![2, 2, 1, 2]);
    let mut spawned = plan.spawn.clone();
    spawned.sort();
    assert_eq!(spawned, vec![1, 2]);
    assert_eq!(culler.len(), 3);
}

#[test]
fn timer_ticks() {
    let mut timer = Timer::new();
    assert_eq!(timer.time_as_millis(), 0);
    assert_eq!(timer.tick_at(1500), 1500);
    assert_eq!(timer.tick_at(1520), 20);
    assert_eq!(timer.time_as_millis(), 1520);
    let before = timer.time_as_millis();
    let delta = timer.tick();
    assert_eq!(timer.time_as_millis() - before, delta);
    assert!(timer.time_as_millis() > 1_000_000_000_000);
}
