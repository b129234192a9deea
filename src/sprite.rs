//! The sprite-definition library: origin, sizes, texture, flags and optional
//! animation of each sprite, keyed by definition id.

use vstd::prelude::*;

use crate::decode::{
    fixed, get_i16, get_i32, get_u16, get_u32, i16_at, i32_at, spec_decode_n, u16_at, u32_at,
    views, DecodeError, Decoder, DecoderCursor,
};

verus! {

/// The flag byte of a sprite definition: the slope in bits 0..4, then the
/// flip, move-top, before-mobile and walkable flags in bits 4, 5, 6 and 7.
#[derive(Debug, Clone, Copy, PartialEq, Eq, Structural)]
pub struct SpriteFlags(pub u8);

impl SpriteFlags {
    pub fn from_bits(bits: u8) -> (r: SpriteFlags)
        ensures
            r.0 == bits,
    {
        SpriteFlags(bits)
    }

    pub fn slope(&self) -> (r: u8)
        ensures
            r == self.0 & 0xF,
    {
        self.0 & 0xF
    }

    pub fn is_flip(&self) -> (r: bool)
        ensures
            r == (self.0 & 0x10 != 0),
    {
        self.0 & 0x10 != 0
    }

    pub fn is_move_top(&self) -> (r: bool)
        ensures
            r == (self.0 & 0x20 != 0),
    {
        self.0 & 0x20 != 0
    }

    pub fn is_before_mobile(&self) -> (r: bool)
        ensures
            r == (self.0 & 0x40 != 0),
    {
        self.0 & 0x40 != 0
    }

    pub fn is_walkable(&self) -> (r: bool)
        ensures
            r == (self.0 & 0x80 != 0),
    {
        self.0 & 0x80 != 0
    }
}

impl Decoder for (u16, u16) {
    open spec fn spec_decode(data: Seq<u8>) -> Result<((u16, u16), nat), DecodeError> {
        fixed(data, 4, (u16_at(data, 0), u16_at(data, 2)))
    }

    fn decode(cur: &mut DecoderCursor<'_>) -> (r: Result<(u16, u16), DecodeError>) {
        match cur.take(4) {
            Ok(b) => Ok((get_u16(b, 0), get_u16(b, 2))),
            Err(e) => Err(e),
        }
    }
}

/// A level of detail of the view; its mask selects the visibility tiers of
/// sprite that are drawn.
#[derive(Debug, Clone, Copy, PartialEq, Eq, Structural)]
pub enum LevelOfDetail {
    Low,
    Medium,
    High,
}

impl LevelOfDetail {
    /// The visibility mask of the level: each level adds one tier.
    pub fn get_mask(self) -> (r: u8)
        ensures
            r == match self {
                LevelOfDetail::Low => 1u8,
                LevelOfDetail::Medium => 3u8,
                LevelOfDetail::High => 7u8,
            },
    {
        match self {
            LevelOfDetail::Low => 1,
            LevelOfDetail::Medium => 3,
            LevelOfDetail::High => 7,
        }
    }
}

/// The animation of a sprite: its period, the size of a frame, the size of
/// the whole sheet, and the duration and sheet position of each frame.
#[derive(Debug)]
pub struct Frames {
    pub total_time: u32,
    pub width: u16,
    pub height: u16,
    pub full_width: u16,
    pub full_height: u16,
    pub frame_durations: Vec<u16>,
    pub frame_coords: Vec<(u16, u16)>,
}

/// The model of an animation.
pub struct SpecFrames {
    pub total_time: u32,
    pub width: u16,
    pub height: u16,
    pub full_width: u16,
    pub full_height: u16,
    pub frame_durations: Seq<u16>,
    pub frame_coords: Seq<(u16, u16)>,
}

impl View for Frames {
    type V = SpecFrames;

    open spec fn view(&self) -> SpecFrames {
        SpecFrames {
            total_time: self.total_time,
            width: self.width,
            height: self.height,
            full_width: self.full_width,
            full_height: self.full_height,
            frame_durations: self.frame_durations@,
            frame_coords: self.frame_coords@,
        }
    }
}

/// What an animation of `count` frames decodes to: a 12-byte header, the
/// frame durations, then the frame positions.
pub open spec fn spec_decode_frames(data: Seq<u8>, count: nat) -> Result<(SpecFrames, nat), DecodeError> {
    if data.len() < 12 {
        Err(DecodeError::Truncated)
    } else {
        match spec_decode_n::<u16>(data.skip(12), count) {
            Err(e) => Err(e),
            Ok((durations, n1)) => match spec_decode_n::<(u16, u16)>(data.skip((12 + n1) as int), count) {
                Err(e) => Err(e),
                Ok((coords, n2)) => Ok(
                    (
                        SpecFrames {
                            total_time: u32_at(data, 0),
                            width: u16_at(data, 4),
                            height: u16_at(data, 6),
                            full_width: u16_at(data, 8),
                            full_height: u16_at(data, 10),
                            frame_durations: durations,
                            frame_coords: coords,
                        },
                        12 + n1 + n2,
                    ),
                ),
            },
        }
    }
}

/// A rectangle of a texture sheet, in texels: from the lower corner included
/// to the upper corner excluded.
#[derive(Debug, Clone, Copy, PartialEq, Eq, Structural)]
pub struct TextureRegion {
    pub min_x: u32,
    pub min_y: u32,
    pub max_x: u32,
    pub max_y: u32,
}

/// The region of the sheet that frame `i` of `f` shows: a frame-sized
/// rectangle at the frame's position.
pub open spec fn frame_region(f: SpecFrames, i: int) -> TextureRegion {
    TextureRegion {
        min_x: f.frame_coords[i].0 as u32,
        min_y: f.frame_coords[i].1 as u32,
        max_x: (f.frame_coords[i].0 + f.width) as u32,
        max_y: (f.frame_coords[i].1 + f.height) as u32,
    }
}

/// One frame of an animation: when it starts, in milliseconds into the
/// period, and where it lies in the sheet.
#[derive(Debug, Clone, Copy, PartialEq, Eq, Structural)]
pub struct Frame {
    pub time: u32,
    pub x: u16,
    pub y: u16,
}

/// The sum of the first `n` durations: the start time of frame `n`.
pub open spec fn start_time(durations: Seq<u16>, n: nat) -> nat
    decreases n,
{
    if n == 0 || n > durations.len() {
        0
    } else {
        start_time(durations, (n - 1) as nat) + durations[n - 1] as nat
    }
}

proof fn lemma_start_time_bound(durations: Seq<u16>, n: nat)
    requires
        n <= durations.len(),
    ensures
        start_time(durations, n) <= n * 0xFFFF,
    decreases n,
{
    if n > 0 {
        lemma_start_time_bound(durations, (n - 1) as nat);
    }
}

impl Frames {
    /// Decodes an animation of `count` frames; on an error nothing is consumed.
    pub fn decode(cur: &mut DecoderCursor<'_>, count: u8) -> (r: Result<Frames, DecodeError>)
        ensures
            match spec_decode_frames(old(cur)@, count as nat) {
                Ok((f, n)) => r is Ok && r->Ok_0@ == f && n <= old(cur)@.len() && final(cur)@
                    == old(cur)@.skip(n as int),
                Err(e) => r == Err::<Frames, DecodeError>(e) && final(cur)@ == old(cur)@,
            },
    {
        let start = *cur;
        let h = match cur.take(12) {
            Ok(h) => h,
            Err(e) => return Err(e),
        };
        let ghost c1 = cur@;
        let frame_durations = match cur.decode_n::<u16>(count as usize) {
            Ok(d) => d,
            Err(e) => {
                *cur = start;
                return Err(e);
            },
        };
        let ghost n1 = spec_decode_n::<u16>(c1, count as nat)->Ok_0.1;
        assert(cur@ =~= start@.skip((12 + n1) as int));
        let ghost c2 = cur@;
        let frame_coords = match cur.decode_n::<(u16, u16)>(count as usize) {
            Ok(c) => c,
            Err(e) => {
                *cur = start;
                return Err(e);
            },
        };
        let ghost n2 = spec_decode_n::<(u16, u16)>(c2, count as nat)->Ok_0.1;
        assert(cur@ =~= start@.skip((12 + n1 + n2) as int));
        assert(frame_durations@ =~= views(frame_durations@));
        assert(frame_coords@ =~= views(frame_coords@));
        Ok(
            Frames {
                total_time: get_u32(h, 0),
                width: get_u16(h, 4),
                height: get_u16(h, 6),
                full_width: get_u16(h, 8),
                full_height: get_u16(h, 10),
                frame_durations,
                frame_coords,
            },
        )
    }

    pub fn total_time(&self) -> (r: u32)
        ensures
            r == self.total_time,
    {
        self.total_time
    }

    pub fn width(&self) -> (r: u16)
        ensures
            r == self.width,
    {
        self.width
    }

    pub fn height(&self) -> (r: u16)
        ensures
            r == self.height,
    {
        self.height
    }

    /// The number of frames: durations and positions taken in pairs.
    pub open spec fn frame_count(&self) -> nat {
        if self.frame_durations@.len() <= self.frame_coords@.len() {
            self.frame_durations@.len()
        } else {
            self.frame_coords@.len()
        }
    }

    /// The frames in order; each starts when the ones before it have run.
    pub fn frames(&self) -> (r: Vec<Frame>)
        requires
            self.frame_durations@.len() <= 0xFF,
        ensures
            r@.len() == self.frame_count(),
            forall|i: int|
                0 <= i < r@.len() ==> #[trigger] r@[i] == (Frame {
                    time: start_time(self.frame_durations@, i as nat) as u32,
                    x: self.frame_coords@[i].0,
                    y: self.frame_coords@[i].1,
                }),
    {
        let n = if self.frame_durations.len() <= self.frame_coords.len() {
            self.frame_durations.len()
        } else {
            self.frame_coords.len()
        };
        let mut out: Vec<Frame> = Vec::new();
        let mut time: u32 = 0;
        let mut i: usize = 0;
        while i < n
            invariant
                n == self.frame_count(),
                n <= 0xFF,
                i <= n,
                time as nat == start_time(self.frame_durations@, i as nat),
                out@.len() == i,
                forall|j: int|
                    0 <= j < i ==> #[trigger] out@[j] == (Frame {
                        time: start_time(self.frame_durations@, j as nat) as u32,
                        x: self.frame_coords@[j].0,
                        y: self.frame_coords@[j].1,
                    }),
            decreases n - i,
        {
            proof {
                lemma_start_time_bound(self.frame_durations@, (i + 1) as nat);
            }
            let (x, y) = self.frame_coords[i];
            out.push(Frame { time, x, y });
            time = time + self.frame_durations[i] as u32;
            i = i + 1;
        }
        out
    }

    /// The region of the sheet that each frame shows, in frame order.
    pub fn regions(&self) -> (r: Vec<TextureRegion>)
        ensures
            r@.len() == self.frame_count(),
            forall|i: int| 0 <= i < r@.len() ==> #[trigger] r@[i] == frame_region(self@, i),
    {
        let n = if self.frame_durations.len() <= self.frame_coords.len() {
            self.frame_durations.len()
        } else {
            self.frame_coords.len()
        };
        let mut out: Vec<TextureRegion> = Vec::new();
        let mut i: usize = 0;
        while i < n
            invariant
                n == self.frame_count(),
                i <= n,
                out@.len() == i,
                forall|j: int| 0 <= j < i ==> #[trigger] out@[j] == frame_region(self@, j),
            decreases n - i,
        {
            let (x, y) = self.frame_coords[i];
            out.push(
                TextureRegion {
                    min_x: x as u32,
                    min_y: y as u32,
                    max_x: x as u32 + self.width as u32,
                    max_y: y as u32 + self.height as u32,
                },
            );
            i = i + 1;
        }
        out
    }

    /// The number of leading frames that have started `elapsed` milliseconds
    /// into the period: those whose start time lies below `elapsed`.
    pub open spec fn started(&self, elapsed: nat, n: nat) -> bool {
        &&& n <= self.frame_count()
        &&& forall|i: nat| i < n ==> #[trigger] start_time(self.frame_durations@, i) < elapsed
        &&& n < self.frame_count() ==> start_time(self.frame_durations@, n) >= elapsed
    }

    /// The frame to show `time` milliseconds after the animation began: the
    /// last frame that has started within the current period, or `None`
    /// before the first has (the period of a zero-length animation never
    /// advances).
    pub fn frame_at(&self, time: u64) -> (r: Option<usize>)
        requires
            self.frame_durations@.len() <= 0xFF,
        ensures
            ({
                let elapsed = if self.total_time == 0 {
                    0
                } else {
                    time as nat % self.total_time as nat
                };
                match r {
                    None => self.started(elapsed, 0),
                    Some(i) => self.started(elapsed, (i + 1) as nat),
                }
            }),
    {
        let elapsed: u64 = if self.total_time == 0 {
            0
        } else {
            time % self.total_time as u64
        };
        let n = if self.frame_durations.len() <= self.frame_coords.len() {
            self.frame_durations.len()
        } else {
            self.frame_coords.len()
        };
        let mut start: u64 = 0;
        let mut i: usize = 0;
        while i < n && start < elapsed
            invariant
                n == self.frame_count(),
                n <= 0xFF,
                i <= n,
                start as nat == start_time(self.frame_durations@, i as nat),
                forall|j: nat| j < i ==> #[trigger] start_time(self.frame_durations@, j) < elapsed,
            decreases n - i,
        {
            proof {
                lemma_start_time_bound(self.frame_durations@, (i + 1) as nat);
            }
            start = start + self.frame_durations[i] as u64;
            i = i + 1;
        }
        if i == 0 {
            None
        } else {
            Some(i - 1)
        }
    }
}

/// A sprite definition.
#[derive(Debug)]
pub struct MapSpriteDefinition {
    pub id: i32,
    pub origin_x: i16,
    pub origin_y: i16,
    pub texture_width: u16,
    pub texture_height: u16,
    pub render_width: u16,
    pub render_height: u16,
    pub texture_id: i32,
    pub flags: SpriteFlags,
    pub visual_height: u8,
    pub visibility_mask: u8,
    pub export_mask: u8,
    pub shader: u8,
    pub frame_count: u8,
    pub animation: Option<Frames>,
    pub ground_sound: u8,
}

/// The model of a sprite definition.
pub struct SpecDefinition {
    pub id: i32,
    pub origin_x: i16,
    pub origin_y: i16,
    pub texture_width: u16,
    pub texture_height: u16,
    pub render_width: u16,
    pub render_height: u16,
    pub texture_id: i32,
    pub flags: SpriteFlags,
    pub visual_height: u8,
    pub visibility_mask: u8,
    pub export_mask: u8,
    pub shader: u8,
    pub frame_count: u8,
    pub animation: Option<SpecFrames>,
    pub ground_sound: u8,
}

impl View for MapSpriteDefinition {
    type V = SpecDefinition;

    open spec fn view(&self) -> SpecDefinition {
        SpecDefinition {
            id: self.id,
            origin_x: self.origin_x,
            origin_y: self.origin_y,
            texture_width: self.texture_width,
            texture_height: self.texture_height,
            render_width: self.render_width,
            render_height: self.render_height,
            texture_id: self.texture_id,
            flags: self.flags,
            visual_height: self.visual_height,
            visibility_mask: self.visibility_mask,
            export_mask: self.export_mask,
            shader: self.shader,
            frame_count: self.frame_count,
            animation: match self.animation {
                Some(f) => Some(f@),
                None => None,
            },
            ground_sound: self.ground_sound,
        }
    }
}

/// The animation that a definition with `count` frames holds at the front of
/// `data`, with the bytes that it takes: none when `count` is zero.
pub open spec fn spec_decode_animation(data: Seq<u8>, count: u8) -> Result<
    (Option<SpecFrames>, nat),
    DecodeError,
> {
    if count == 0 {
        Ok((None, 0))
    } else {
        match spec_decode_frames(data, count as nat) {
            Ok((f, n)) => Ok((Some(f), n)),
            Err(e) => Err(e),
        }
    }
}

/// The definition whose fixed part is `h` and whose animation is `animation`.
pub open spec fn definition_of(h: Seq<u8>, animation: Option<SpecFrames>, ground_sound: u8) -> SpecDefinition {
    SpecDefinition {
        id: i32_at(h, 0),
        origin_x: i16_at(h, 4),
        origin_y: i16_at(h, 6),
        texture_width: u16_at(h, 8),
        texture_height: u16_at(h, 10),
        render_width: u16_at(h, 12),
        render_height: u16_at(h, 14),
        texture_id: i32_at(h, 16),
        flags: SpriteFlags(h[20]),
        visual_height: h[21],
        visibility_mask: h[22],
        export_mask: h[23],
        shader: h[24],
        frame_count: h[25],
        animation,
        ground_sound,
    }
}

impl Decoder for MapSpriteDefinition {
    /// A fixed part of 26 bytes ending in the frame count, the animation when
    /// that count is not zero, then the ground sound byte.
    open spec fn spec_decode(data: Seq<u8>) -> Result<(SpecDefinition, nat), DecodeError> {
        if data.len() < 26 {
            Err(DecodeError::Truncated)
        } else {
            match spec_decode_animation(data.skip(26), data[25]) {
                Err(e) => Err(e),
                Ok((animation, n)) => if data.len() < 26 + n + 1 {
                    Err(DecodeError::Truncated)
                } else {
                    Ok((definition_of(data, animation, data[26 + n as int]), 27 + n))
                },
            }
        }
    }

    fn decode(cur: &mut DecoderCursor<'_>) -> (r: Result<MapSpriteDefinition, DecodeError>) {
        let start = *cur;
        let h = match cur.take(26) {
            Ok(h) => h,
            Err(e) => return Err(e),
        };
        let frame_count = h[25];
        let ghost c1 = cur@;
        let animation = if frame_count == 0 {
            None
        } else {
            match Frames::decode(cur, frame_count) {
                Ok(f) => Some(f),
                Err(e) => {
                    *cur = start;
                    return Err(e);
                },
            }
        };
        let ghost n = spec_decode_animation(c1, frame_count)->Ok_0.1;
        assert(cur@ =~= start@.skip((26 + n) as int));
        let ground_sound = match cur.take(1) {
            Ok(b) => b[0],
            Err(e) => {
                *cur = start;
                return Err(e);
            },
        };
        assert(cur@ =~= start@.skip((27 + n) as int));
        Ok(
            MapSpriteDefinition {
                id: get_i32(h, 0),
                origin_x: get_i16(h, 4),
                origin_y: get_i16(h, 6),
                texture_width: get_u16(h, 8),
                texture_height: get_u16(h, 10),
                render_width: get_u16(h, 12),
                render_height: get_u16(h, 14),
                texture_id: get_i32(h, 16),
                flags: SpriteFlags(h[20]),
                visual_height: h[21],
                visibility_mask: h[22],
                export_mask: h[23],
                shader: h[24],
                frame_count,
                animation,
                ground_sound,
            },
        )
    }
}

impl MapSpriteDefinition {
    pub fn origin(&self) -> (r: (i16, i16))
        ensures
            r == (self.origin_x, self.origin_y),
    {
        (self.origin_x, self.origin_y)
    }

    pub fn texture_size(&self) -> (r: (u16, u16))
        ensures
            r == (self.texture_width, self.texture_height),
    {
        (self.texture_width, self.texture_height)
    }

    pub fn texture_id(&self) -> (r: i32)
        ensures
            r == self.texture_id,
    {
        self.texture_id
    }

    pub fn flags(&self) -> (r: SpriteFlags)
        ensures
            r == self.flags,
    {
        self.flags
    }

    pub fn size(&self) -> (r: (u16, u16))
        ensures
            r == (self.render_width, self.render_height),
    {
        (self.render_width, self.render_height)
    }

    pub fn animation(&self) -> (r: Option<&Frames>)
        ensures
            r == match self.animation {
                Some(f) => Some(&f),
                None => None::<&Frames>,
            },
    {
        match &self.animation {
            Some(f) => Some(f),
            None => None,
        }
    }
}

/// Positions of definitions in the library, by definition id.
#[derive(Debug)]
#[verifier::external_body]
pub struct DefinitionIndex {
    slots: hashbrown::HashMap<i32, usize>,
}

/// What a definition index holds: the position of each definition id.
pub uninterp spec fn definition_slots(index: DefinitionIndex) -> Map<i32, usize>;

impl DefinitionIndex {
    /// Relies on hashbrown's `HashMap::new`: the map starts empty.
    #[verifier::external_body]
    fn new() -> (r: DefinitionIndex)
        ensures
            definition_slots(r).dom() =~= Set::<i32>::empty(),
    {
        DefinitionIndex { slots: hashbrown::HashMap::new() }
    }

    /// Relies on hashbrown's `HashMap::insert`: afterwards the key maps to the
    /// value, replacing what it mapped to, and the other keys are unchanged.
    #[verifier::external_body]
    fn insert(&mut self, id: i32, slot: usize)
        ensures
            definition_slots(*final(self)) == definition_slots(*old(self)).insert(id, slot),
    {
        self.slots.insert(id, slot);
    }

    /// Relies on hashbrown's `HashMap::get`: the value that the key maps to,
    /// or `None` when the key is absent.
    #[verifier::external_body]
    fn get(&self, id: i32) -> (r: Option<usize>)
        ensures
            r == (if definition_slots(*self).contains_key(id) {
                Some(definition_slots(*self)[id])
            } else {
                None::<usize>
            }),
    {
        self.slots.get(&id).copied()
    }
}

/// The library that a sequence of definitions makes: each id maps to the
/// last definition that carries it.
pub open spec fn library_of(defs: Seq<SpecDefinition>) -> Map<i32, SpecDefinition>
    decreases defs.len(),
{
    if defs.len() == 0 {
        Map::empty()
    } else {
        library_of(defs.drop_last()).insert(defs.last().id, defs.last())
    }
}

/// What a library decodes to: a 32-bit count, then that many definitions.
pub open spec fn spec_decode_library(data: Seq<u8>) -> Result<(Map<i32, SpecDefinition>, nat), DecodeError> {
    match u32::spec_decode(data) {
        Err(e) => Err(e),
        Ok((count, n)) => match spec_decode_n::<MapSpriteDefinition>(data.skip(n as int), count as nat) {
            Err(e) => Err(e),
            Ok((defs, m)) => Ok((library_of(defs), n + m)),
        },
    }
}

/// The sprite definitions of the game, by id.
#[derive(Debug)]
pub struct MapSpriteLibrary {
    definitions: Vec<MapSpriteDefinition>,
    index: DefinitionIndex,
}

impl View for MapSpriteLibrary {
    type V = Map<i32, SpecDefinition>;

    closed spec fn view(&self) -> Map<i32, SpecDefinition> {
        library_of(views(self.definitions@))
    }
}

impl MapSpriteLibrary {
    /// The index finds, for each id of the library, a definition with that
    /// id's model.
    pub closed spec fn wf(&self) -> bool {
        let slots = definition_slots(self.index);
        &&& forall|id: i32| #[trigger] slots.contains_key(id) <==> self@.contains_key(id)
        &&& forall|id: i32|
            #[trigger] slots.contains_key(id) ==> slots[id] < self.definitions@.len()
                && self.definitions@[slots[id] as int]@ == self@[id]
    }

    /// The definitions of the library in the order of the index positions.
    pub closed spec fn slots(&self) -> Seq<SpecDefinition> {
        views(self.definitions@)
    }

    /// Decodes a library from the front of `bytes`; on success also gives the
    /// number of bytes that it took.
    pub fn read(bytes: &[u8]) -> (r: Result<(MapSpriteLibrary, usize), DecodeError>)
        ensures
            match spec_decode_library(bytes@) {
                Ok((lib, n)) => r is Ok && r->Ok_0.0@ == lib && r->Ok_0.1 == n,
                Err(e) => r == Err::<(MapSpriteLibrary, usize), DecodeError>(e),
            },
            r is Ok ==> r->Ok_0.0.wf(),
    {
        let mut cur = DecoderCursor::new(bytes);
        let count = match cur.decode::<u32>() {
            Ok(c) => c,
            Err(e) => return Err(e),
        };
        let definitions = match cur.decode_n::<MapSpriteDefinition>(count as usize) {
            Ok(d) => d,
            Err(e) => return Err(e),
        };
        let mut index = DefinitionIndex::new();
        let mut i: usize = 0;
        while i < definitions.len()
            invariant
                i <= definitions@.len(),
                ({
                    let slots = definition_slots(index);
                    let lib = library_of(views(definitions@).take(i as int));
                    &&& forall|id: i32| #[trigger] slots.contains_key(id) <==> lib.contains_key(id)
                    &&& forall|id: i32|
                        #[trigger] slots.contains_key(id) ==> slots[id] < i && definitions@[slots[id] as int]@
                            == lib[id]
                }),
            decreases definitions.len() - i,
        {
            assert(views(definitions@).take(i + 1).drop_last() =~= views(definitions@).take(i as int));
            index.insert(definitions[i].id, i);
            i = i + 1;
        }
        assert(views(definitions@).take(i as int) =~= views(definitions@));
        let used = bytes.len() - cur.remaining().len();
        Ok((MapSpriteLibrary { definitions, index }, used))
    }

    /// The position of the definition with id `id`, if the library holds one.
    pub fn find(&self, id: i32) -> (r: Option<usize>)
        requires
            self.wf(),
        ensures
            r is Some <==> self@.contains_key(id),
            r matches Some(s) ==> s < self.slots().len() && self.slots()[s as int] == self@[id],
    {
        self.index.get(id)
    }

    /// The definition at position `slot`.
    pub fn definition(&self, slot: usize) -> (r: &MapSpriteDefinition)
        requires
            slot < self.slots().len(),
        ensures
            r@ == self.slots()[slot as int],
    {
        &self.definitions[slot]
    }

    /// The definition with id `id`; an unknown id is a miss, not an error.
    pub fn get(&self, id: i32) -> (r: Option<&MapSpriteDefinition>)
        requires
            self.wf(),
        ensures
            r is Some <==> self@.contains_key(id),
            r matches Some(d) ==> d@ == self@[id],
    {
        match self.find(id) {
            Some(slot) => Some(&self.definitions[slot]),
            None => None,
        }
    }
}

} // verus!
