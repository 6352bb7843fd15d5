//! Animation definitions and playback instances: loading a record into an
//! immutable sequence of annotated frames, and per-instance cursors that step
//! through a shared definition.
use std::ops::ControlFlow;
use std::rc::Rc;
use vstd::prelude::*;

use crate::geometry::{
    cell_at, cell_rect, hitbox_from_rect, hitbox_of, hurtbox_from_bounds, hurtbox_of, opaque_bounds,
    tight_bounds, PixelRect, SheetImage, WorldBox,
};
use crate::playback::step;

verus! {

/// The grid that a record lays over its sheet.
pub struct SpriteSheetParams {
    pub texture: String,
    pub count_x: u32,
    pub count_y: u32,
}

/// One authored frame of a record.
#[derive(Clone, Copy, Debug, PartialEq, Eq, Structural)]
pub struct AnnotatedSpriteParams {
    /// Whether to derive a hurtbox from the frame's opaque pixels.
    pub hurtbox: bool,
    /// Authored hitbox, in cell-local pixels, top-left origin.
    pub hitbox: Option<PixelRect>,
    pub duration: usize,
    /// Cell of the sheet; when absent, the cell after the previous frame's.
    pub sprite_index: Option<u64>,
}

/// One animation record, already parsed.
pub struct AnimationParams {
    pub sprite_sheet: SpriteSheetParams,
    pub sprites: Vec<AnnotatedSpriteParams>,
    pub looping: bool,
    pub play_backwards: bool,
}

/// Why a record could not be loaded.
#[derive(Clone, Copy, Debug, PartialEq, Eq, Structural)]
pub enum LoadError {
    /// The record has no frames.
    NoFrames,
    /// No decoded image is known under the sheet's texture name.
    MissingTexture,
    /// The grid has no columns or no rows.
    EmptyGrid,
    /// A frame's cell lies below the grid's last row.
    IndexOutOfGrid,
    /// The sheet is narrower or lower than the grid, so cells are empty.
    EmptyCell,
}

/// One playable frame. Sizes and boxes are world-space numerators over `unit`,
/// which is five times the cell width.
#[derive(Clone, Debug, PartialEq, Eq)]
pub struct AnnotatedSprite {
    pub texture: String,
    pub source_rect: PixelRect,
    pub hitbox: Option<WorldBox>,
    pub hurtbox: Option<WorldBox>,
    pub size_x: u64,
    pub size_y: u64,
    pub unit: u64,
    pub duration: usize,
}

/// The cell index of frame `i`: its own, or one past the previous frame's.
pub open spec fn frame_index(frames: Seq<AnnotatedSpriteParams>, i: int) -> int
    decreases i,
{
    match frames[i].sprite_index {
        Some(k) => k as int,
        None => if i <= 0 {
            0
        } else {
            frame_index(frames, i - 1) + 1
        },
    }
}

/// What is wrong with the cell at `index`, if anything.
pub open spec fn frame_error(img: SheetImage, sheet: SpriteSheetParams, index: int) -> Option<LoadError> {
    if sheet.count_x == 0 || sheet.count_y == 0 {
        Some(LoadError::EmptyGrid)
    } else if index / (sheet.count_x as int) >= sheet.count_y {
        Some(LoadError::IndexOutOfGrid)
    } else if img.width / sheet.count_x == 0 || img.height / sheet.count_y == 0 {
        Some(LoadError::EmptyCell)
    } else {
        None
    }
}

/// The frame made from cell `index` of the sheet and the authored `p`.
pub open spec fn sprite_of(
    img: SheetImage,
    sheet: SpriteSheetParams,
    index: int,
    p: AnnotatedSpriteParams,
) -> AnnotatedSprite {
    let cell = cell_rect(img.width, img.height, sheet.count_x, sheet.count_y, index);
    let cw = cell.width as int;
    let ch = cell.height as int;
    AnnotatedSprite {
        texture: sheet.texture,
        source_rect: cell,
        hitbox: match p.hitbox {
            Some(r) => Some(hitbox_of(r, cw, ch)),
            None => None,
        },
        hurtbox: if p.hurtbox {
            Some(hurtbox_of(tight_bounds(img, cell), cw, ch))
        } else {
            None
        },
        size_x: (2 * cw) as u64,
        size_y: (2 * ch) as u64,
        unit: (5 * cw) as u64,
        duration: p.duration,
    }
}

/// The first image named `name`.
pub open spec fn image_lookup(images: Seq<SheetImage>, name: Seq<char>) -> Option<SheetImage>
    decreases images.len(),
{
    if images.len() == 0 {
        None
    } else if images[0].texture@ == name {
        Some(images[0])
    } else {
        image_lookup(images.drop_first(), name)
    }
}

/// The error of the first of the first `n` frames that has one.
pub open spec fn first_frame_error(p: AnimationParams, img: SheetImage, n: int) -> Option<LoadError>
    decreases n,
{
    if n <= 0 {
        None
    } else {
        match first_frame_error(p, img, n - 1) {
            Some(e) => Some(e),
            None => frame_error(img, p.sprite_sheet, frame_index(p.sprites@, n - 1)),
        }
    }
}

/// Why the record `p` cannot be loaded against `images`, if it cannot.
pub open spec fn load_error(p: AnimationParams, images: Seq<SheetImage>) -> Option<LoadError> {
    if p.sprites@.len() == 0 {
        Some(LoadError::NoFrames)
    } else {
        match image_lookup(images, p.sprite_sheet.texture@) {
            None => Some(LoadError::MissingTexture),
            Some(img) => first_frame_error(p, img, p.sprites@.len() as int),
        }
    }
}

/// The frames of `p` in authored order.
pub open spec fn authored_frames(p: AnimationParams, img: SheetImage) -> Seq<AnnotatedSprite> {
    Seq::new(
        p.sprites@.len(),
        |i: int| sprite_of(img, p.sprite_sheet, frame_index(p.sprites@, i), p.sprites@[i]),
    )
}

/// `s` back to front.
pub open spec fn reversed<A>(s: Seq<A>) -> Seq<A> {
    Seq::new(s.len(), |k: int| s[s.len() - 1 - k])
}

/// The frames of `p` in playback order, when it loads.
pub open spec fn loaded_frames(p: AnimationParams, images: Seq<SheetImage>) -> Seq<AnnotatedSprite> {
    let fwd = authored_frames(p, image_lookup(images, p.sprite_sheet.texture@).unwrap());
    if p.play_backwards {
        reversed(fwd)
    } else {
        fwd
    }
}

/// A cell index inside a grid of at most `u32::MAX` by `u32::MAX` cells has a successor in `u64`.
proof fn lemma_index_has_successor(index: int, count_x: int, count_y: int)
    requires
        0 < count_x <= u32::MAX,
        0 < count_y <= u32::MAX,
        0 <= index,
        index / count_x < count_y,
    ensures
        index + 1 <= u64::MAX,
{
    let q = index / count_x;
    let m = index % count_x;
    assert(index == count_x * q + m && 0 <= m < count_x) by {
        vstd::arithmetic::div_mod::lemma_fundamental_div_mod(index, count_x);
    }
    assert(count_x * q + m < count_x * count_y) by (nonlinear_arith)
        requires
            0 <= q < count_y,
            0 <= m < count_x,
    ;
    assert(count_x * count_y <= u32::MAX * u32::MAX) by (nonlinear_arith)
        requires
            0 < count_x <= u32::MAX,
            0 < count_y <= u32::MAX,
    ;
}

/// Once one of the first `m` frames has an error, the first error stays the same for more frames.
proof fn lemma_first_error_sticks(p: AnimationParams, img: SheetImage, m: int, n: int)
    requires
        first_frame_error(p, img, m) is Some,
        m <= n,
    ensures
        first_frame_error(p, img, n) == first_frame_error(p, img, m),
    decreases n - m,
{
    if m < n {
        lemma_first_error_sticks(p, img, m, n - 1);
    }
}

/// The frame at cell `index` of `img` under the grid `sheet`, with the authored
/// hitbox, hurtbox request and duration of `p`.
pub fn load_sprite(
    index: u64,
    sheet: &SpriteSheetParams,
    img: &SheetImage,
    p: &AnnotatedSpriteParams,
) -> (r: Result<AnnotatedSprite, LoadError>)
    requires
        img.wf(),
    ensures
        match frame_error(*img, *sheet, index as int) {
            Some(e) => r == Err::<AnnotatedSprite, LoadError>(e),
            None => r == Ok::<AnnotatedSprite, LoadError>(sprite_of(*img, *sheet, index as int, *p)),
        },
{
    if sheet.count_x == 0 || sheet.count_y == 0 {
        return Err(LoadError::EmptyGrid);
    }
    if index / (sheet.count_x as u64) >= sheet.count_y as u64 {
        return Err(LoadError::IndexOutOfGrid);
    }
    let cw = img.width / sheet.count_x;
    let ch = img.height / sheet.count_y;
    if cw == 0 || ch == 0 {
        return Err(LoadError::EmptyCell);
    }
    let cell = cell_at(img, sheet.count_x, sheet.count_y, index);
    let hurtbox = if p.hurtbox {
        Some(hurtbox_from_bounds(opaque_bounds(img, cell), cw, ch))
    } else {
        None
    };
    let hitbox = match p.hitbox {
        Some(rect) => Some(hitbox_from_rect(rect, cw, ch)),
        None => None,
    };
    Ok(
        AnnotatedSprite {
            texture: sheet.texture.clone(),
            source_rect: cell,
            hitbox,
            hurtbox,
            size_x: 2 * (cw as u64),
            size_y: 2 * (ch as u64),
            unit: 5 * (cw as u64),
            duration: p.duration,
        },
    )
}

/// Position of the first image named `name`.
pub fn find_image(images: &Vec<SheetImage>, name: &String) -> (r: Option<usize>)
    ensures
        match image_lookup(images@, name@) {
            None => r is None,
            Some(img) => r matches Some(i) && i < images@.len() && images@[i as int] == img,
        },
{
    let mut i: usize = 0;
    assert(images@.subrange(0, images@.len() as int) =~= images@);
    while i < images.len()
        invariant
            i <= images@.len(),
            image_lookup(images@, name@) == image_lookup(images@.subrange(i as int, images@.len() as int), name@),
        decreases images@.len() - i,
    {
        let ghost rest = images@.subrange(i as int, images@.len() as int);
        assert(rest.drop_first() =~= images@.subrange(i + 1, images@.len() as int));
        if images[i].texture == *name {
            return Some(i);
        }
        i = i + 1;
    }
    assert(images@.subrange(i as int, images@.len() as int).len() == 0);
    None
}

/// Loads the record `p` against the decoded sheets `images` into a definition
/// tagged `id`: frames in authored order, each at its cell (explicit, or one
/// past the previous frame's), reversed when the record plays backwards.
pub fn load_animation(p: &AnimationParams, images: &Vec<SheetImage>, id: u64) -> (r: Result<AnimationData, LoadError>)
    requires
        forall|k: int| 0 <= k < images@.len() ==> (#[trigger] images@[k]).wf(),
    ensures
        match load_error(*p, images@) {
            Some(e) => r == Err::<AnimationData, LoadError>(e),
            None => r matches Ok(d) && d.frames() == loaded_frames(*p, images@) && d.is_looping()
                == p.looping && d.id() == id && d.wf(),
        },
{
    let n = p.sprites.len();
    if n == 0 {
        return Err(LoadError::NoFrames);
    }
    let img = match find_image(images, &p.sprite_sheet.texture) {
        Some(k) => &images[k],
        None => return Err(LoadError::MissingTexture),
    };
    let ghost frames = p.sprites@;
    let mut sprites: Vec<AnnotatedSprite> = Vec::new();
    let mut expected: u64 = 0;
    let mut i: usize = 0;
    while i < n
        invariant
            n == frames.len(),
            frames == p.sprites@,
            img.wf(),
            image_lookup(images@, p.sprite_sheet.texture@) == Some(*img),
            i <= n,
            sprites@.len() == i,
            forall|k: int| 0 <= k < i ==> #[trigger] sprites@[k] == sprite_of(*img, p.sprite_sheet, frame_index(frames, k), frames[k]),
            first_frame_error(*p, *img, i as int) == None::<LoadError>,
            i > 0 ==> expected == frame_index(frames, i - 1) + 1,
            i == 0 ==> expected == 0,
        decreases n - i,
    {
        let fp = p.sprites[i];
        let index = match fp.sprite_index {
            Some(k) => k,
            None => expected,
        };
        assert(index == frame_index(frames, i as int));
        match load_sprite(index, &p.sprite_sheet, img, &fp) {
            Ok(s) => {
                sprites.push(s);
            },
            Err(e) => {
                proof {
                    assert(first_frame_error(*p, *img, i + 1) == Some(e));
                    lemma_first_error_sticks(*p, *img, i + 1, n as int);
                }
                return Err(e);
            },
        }
        proof {
            lemma_index_has_successor(index as int, p.sprite_sheet.count_x as int, p.sprite_sheet.count_y as int);
        }
        expected = index + 1;
        i = i + 1;
    }
    assert(sprites@ =~= authored_frames(*p, *img));
    let sprites = if p.play_backwards {
        let ghost fwd = sprites@;
        let mut fwd_left = sprites;
        let mut back: Vec<AnnotatedSprite> = Vec::new();
        while fwd_left.len() > 0
            invariant
                n == fwd.len(),
                fwd_left@ == fwd.subrange(0, fwd_left@.len() as int),
                back@.len() == n - fwd_left@.len(),
                forall|k: int| 0 <= k < back@.len() ==> #[trigger] back@[k] == fwd[n - 1 - k],
            decreases fwd_left@.len(),
        {
            let last = fwd_left.pop().unwrap();
            back.push(last);
            assert(fwd_left@ =~= fwd.subrange(0, fwd_left@.len() as int));
        }
        assert(back@ =~= reversed(fwd));
        back
    } else {
        sprites
    };
    Ok(AnimationData { sprites, looping: p.looping, id })
}

proof fn lemma_same_frames_same_error(a: AnimationParams, b: AnimationParams, img: SheetImage, n: int)
    requires
        a.sprite_sheet == b.sprite_sheet,
        a.sprites@ == b.sprites@,
    ensures
        first_frame_error(a, img, n) == first_frame_error(b, img, n),
    decreases n,
{
    if n > 0 {
        lemma_same_frames_same_error(a, b, img, n - 1);
    }
}

/// A record played backwards: the same record with the flag set loads exactly
/// when the record without it does, and then to the same frames back to front.
pub proof fn lemma_backwards_reverses(fwd: AnimationParams, back: AnimationParams, images: Seq<SheetImage>)
    requires
        fwd.sprite_sheet == back.sprite_sheet,
        fwd.sprites@ == back.sprites@,
        !fwd.play_backwards,
        back.play_backwards,
    ensures
        load_error(fwd, images) == load_error(back, images),
        loaded_frames(back, images) == reversed(loaded_frames(fwd, images)),
{
    match image_lookup(images, fwd.sprite_sheet.texture@) {
        Some(img) => {
            lemma_same_frames_same_error(fwd, back, img, fwd.sprites@.len() as int);
        },
        None => {},
    }
    assert(authored_frames(fwd, image_lookup(images, fwd.sprite_sheet.texture@).unwrap())
        =~= authored_frames(back, image_lookup(images, back.sprite_sheet.texture@).unwrap()));
}

/// Instances made from one shared definition are each an instance of it and of
/// the other's definition; a tick of an instance keeps its definition (see
/// `Animation::next_frame`), so no instance can change what another plays.
pub proof fn lemma_shared_instances(d: AnimationData, a: Animation, b: Animation)
    requires
        a.definition() == d,
        b.definition() == d,
    ensures
        a.instance_of(d),
        b.instance_of(d),
        a.instance_of(b.definition()),
        b.instance_of(a.definition()),
{
}

/// An immutable animation definition, shared by all instances that play it.
/// `id` tells definitions apart: instances compare it, not the frames.
pub struct AnimationData {
    sprites: Vec<AnnotatedSprite>,
    looping: bool,
    id: u64,
}

impl AnimationData {
    pub closed spec fn frames(&self) -> Seq<AnnotatedSprite> {
        self.sprites@
    }

    pub closed spec fn is_looping(&self) -> bool {
        self.looping
    }

    pub closed spec fn id(&self) -> u64 {
        self.id
    }

    pub open spec fn durations(&self) -> Seq<usize> {
        self.frames().map_values(|s: AnnotatedSprite| s.duration)
    }

    pub open spec fn wf(&self) -> bool {
        self.frames().len() > 0
    }

    /// Number of frames.
    pub fn len(&self) -> (r: usize)
        ensures
            r == self.frames().len(),
    {
        self.sprites.len()
    }

    /// Whether playback starts over after the last frame.
    pub fn looping(&self) -> (r: bool)
        ensures
            r == self.is_looping(),
    {
        self.looping
    }

    /// A fresh instance at the first frame, sharing this definition.
    pub fn to_anim(self: &Rc<Self>) -> (r: Animation)
        requires
            self.wf(),
        ensures
            r.definition() == **self,
            r.position() == (0int, 0int),
            r.wf(),
    {
        Animation { data: Rc::clone(self), sprite_index: 0, frame_counter: 0 }
    }
}

/// Which way a character faces; facing west mirrors the frame horizontally.
#[derive(Clone, Copy, Debug, PartialEq, Eq, Structural)]
pub enum Facing {
    East,
    West,
}

/// What a renderer needs to draw the current frame.
#[derive(Clone, Debug, PartialEq, Eq)]
pub struct DrawRequest {
    pub texture: String,
    pub source_rect: PixelRect,
    pub size_x: u64,
    pub size_y: u64,
    pub unit: u64,
    pub flip_x: bool,
    pub flip_y: bool,
}

/// One playback instance: a cursor into a shared definition.
#[derive(Clone)]
pub struct Animation {
    data: Rc<AnimationData>,
    sprite_index: usize,
    frame_counter: usize,
}

impl Animation {
    pub closed spec fn definition(&self) -> AnimationData {
        *self.data
    }

    /// The cursor: current frame and ticks spent in it.
    pub closed spec fn position(&self) -> (int, int) {
        (self.sprite_index as int, self.frame_counter as int)
    }

    pub open spec fn instance_of(&self, data: AnimationData) -> bool {
        self.definition().id() == data.id()
    }

    /// The cursor stands on a frame, and its counter is below that frame's
    /// duration (or zero, for a frame of duration zero).
    pub open spec fn wf(&self) -> bool {
        let d = self.definition();
        let (i, c) = self.position();
        &&& d.wf()
        &&& 0 <= i < d.frames().len()
        &&& 0 <= c
        &&& (c == 0 || c < d.durations()[i])
    }

    /// Whether this instance plays `data`.
    pub fn is_instance(&self, data: &Rc<AnimationData>) -> (r: bool)
        ensures
            r == self.instance_of(**data),
    {
        self.data.id == data.id
    }

    /// One tick: count it against the current frame and move to the next frame
    /// when its duration is reached, wrapping to the first after the last.
    /// Returns `Break` on the tick that wraps a non-looping animation.
    pub fn next_frame(&mut self) -> (r: ControlFlow<()>)
        requires
            old(self).wf(),
        ensures
            final(self).wf(),
            final(self).definition() == old(self).definition(),
            ({
                let s = step(
                    old(self).definition().durations(),
                    old(self).definition().is_looping(),
                    old(self).position().0,
                    old(self).position().1,
                );
                &&& final(self).position() == (s.0, s.1)
                &&& (r is Break) == s.2
            }),
    {
        let n = self.data.sprites.len();
        let duration = self.data.sprites[self.sprite_index].duration;
        let counter = self.frame_counter + 1;
        if duration <= counter {
            self.frame_counter = 0;
            if self.sprite_index + 1 >= n {
                self.sprite_index = 0;
                if !self.data.looping {
                    return ControlFlow::Break(());
                }
            } else {
                self.sprite_index = self.sprite_index + 1;
            }
        } else {
            self.frame_counter = counter;
        }
        ControlFlow::Continue(())
    }

    /// The current frame, read from the shared definition.
    pub fn sprite(&self) -> (r: &AnnotatedSprite)
        requires
            self.wf(),
        ensures
            *r == self.definition().frames()[self.position().0],
    {
        &self.data.sprites[self.sprite_index]
    }

    /// The draw of the current frame for a character facing `facing`.
    pub fn render(&self, facing: Facing) -> (r: DrawRequest)
        requires
            self.wf(),
        ensures
            ({
                let s = self.definition().frames()[self.position().0];
                &&& r.texture == s.texture
                &&& r.source_rect == s.source_rect
                &&& r.size_x == s.size_x
                &&& r.size_y == s.size_y
                &&& r.unit == s.unit
                &&& r.flip_x == (facing == Facing::West)
                &&& !r.flip_y
            }),
    {
        let s = self.sprite();
        DrawRequest {
            texture: s.texture.clone(),
            source_rect: s.source_rect,
            size_x: s.size_x,
            size_y: s.size_y,
            unit: s.unit,
            flip_x: match facing {
                Facing::West => true,
                Facing::East => false,
            },
            flip_y: false,
        }
    }
}

} // verus!
