use std::ops::ControlFlow;
use std::rc::Rc;

use sprite_anim::animation::{
    load_animation, AnimationData, AnimationParams, AnnotatedSpriteParams, Facing, LoadError,
    SpriteSheetParams,
};
use sprite_anim::catalog::{load_animations, AnimationRecord};
use sprite_anim::geometry::{
    hitbox_from_rect, hurtbox_from_bounds, opaque_bounds, PixelBounds, PixelRect, SheetImage, WorldBox,
};

/// A fully opaque sheet of `width` by `height` pixels named `name`.
fn solid_sheet(name: &str, width: u32, height: u32) -> SheetImage {
    SheetImage {
        texture: name.to_string(),
        width,
        height,
        alpha: vec![255u8; (width * height) as usize],
    }
}

fn frame(duration: usize, sprite_index: Option<u64>) -> AnnotatedSpriteParams {
    AnnotatedSpriteParams { hurtbox: false, hitbox: None, duration, sprite_index }
}

fn record(texture: &str, count_x: u32, count_y: u32, sprites: Vec<AnnotatedSpriteParams>, looping: bool, play_backwards: bool) -> AnimationParams {
    AnimationParams {
        sprite_sheet: SpriteSheetParams { texture: texture.to_string(), count_x, count_y },
        sprites,
        looping,
        play_backwards,
    }
}

/// Loads frames over an 8-by-1 grid of 1-pixel cells, so a frame's source x is its cell index.
fn strip(durations: &[usize], looping: bool) -> Rc<AnimationData> {
    let sprites = durations.iter().map(|d| frame(*d, None)).collect();
    let images = vec![solid_sheet("strip", 8, 1)];
    match load_animation(&record("strip", 8, 1, sprites, looping, false), &images, 0) {
        Ok(d) => Rc::new(d),
        Err(e) => panic!("{:?}", e),
    }
}

fn source_xs(data: &Rc<AnimationData>) -> Vec<u32> {
    let mut anim = data.to_anim();
    let mut xs = Vec::new();
    for _ in 0..data.len() {
        xs.push(anim.sprite().source_rect.x);
        let _ = anim.next_frame();
    }
    xs
}

#[test]
fn full_cycle_returns_to_start_when_looping() {
    let data = strip(&[2, 3, 1], true);
    let mut anim = data.to_anim();
    for _ in 0..6 {
        assert!(matches!(anim.next_frame(), ControlFlow::Continue(())));
    }
    assert_eq!(anim.sprite().source_rect.x, 0);
    // a fresh counter: frame 0 lasts two more ticks
    let _ = anim.next_frame();
    assert_eq!(anim.sprite().source_rect.x, 0);
    let _ = anim.next_frame();
    assert_eq!(anim.sprite().source_rect.x, 1);
}

#[test]
fn full_cycle_finishes_when_not_looping() {
    let data = strip(&[2, 3, 1], false);
    let mut anim = data.to_anim();
    let mut finished = 0;
    for _ in 0..6 {
        if anim.next_frame().is_break() {
            finished += 1;
        }
    }
    assert_eq!(finished, 1);
    assert_eq!(anim.sprite().source_rect.x, 0);
}

#[test]
fn frame_holds_for_its_duration() {
    let data = strip(&[1, 4, 1], true);
    let mut anim = data.to_anim();
    let _ = anim.next_frame();
    assert_eq!(anim.sprite().source_rect.x, 1);
    for _ in 0..3 {
        let _ = anim.next_frame();
        assert_eq!(anim.sprite().source_rect.x, 1);
    }
    let _ = anim.next_frame();
    assert_eq!(anim.sprite().source_rect.x, 2);
}

#[test]
fn non_looping_two_frames_finish_and_wrap() {
    let data = strip(&[1, 1], false);
    let mut anim = data.to_anim();
    assert!(anim.next_frame().is_continue());
    assert_eq!(anim.sprite().source_rect.x, 1);
    assert!(anim.next_frame().is_break());
    assert_eq!(anim.sprite().source_rect.x, 0);
}

#[test]
fn zero_duration_frame_advances_every_tick() {
    let data = strip(&[0, 2], true);
    let mut anim = data.to_anim();
    let _ = anim.next_frame();
    assert_eq!(anim.sprite().source_rect.x, 1);
}

#[test]
fn play_backwards_reverses_frame_order() {
    let images = vec![solid_sheet("strip", 8, 1)];
    let sprites = vec![frame(1, None), frame(1, None), frame(1, None)];
    let back = record("strip", 8, 1, sprites.clone(), true, true);
    let fwd = record("strip", 8, 1, sprites, true, false);
    let back = Rc::new(load_animation(&back, &images, 0).ok().unwrap());
    let fwd = Rc::new(load_animation(&fwd, &images, 1).ok().unwrap());
    assert_eq!(source_xs(&fwd), vec![0, 1, 2]);
    assert_eq!(source_xs(&back), vec![2, 1, 0]);
}

#[test]
fn explicit_and_inferred_sprite_indices() {
    let images = vec![solid_sheet("strip", 8, 1)];
    let inferred = record("strip", 8, 1, vec![frame(1, Some(0)), frame(1, Some(5)), frame(1, None)], true, false);
    let explicit = record("strip", 8, 1, vec![frame(1, Some(0)), frame(1, Some(5)), frame(1, Some(2))], true, false);
    let sequential = record("strip", 8, 1, vec![frame(1, None), frame(1, None), frame(1, None)], true, false);
    let inferred = Rc::new(load_animation(&inferred, &images, 0).ok().unwrap());
    let explicit = Rc::new(load_animation(&explicit, &images, 1).ok().unwrap());
    let sequential = Rc::new(load_animation(&sequential, &images, 2).ok().unwrap());
    assert_eq!(source_xs(&inferred), vec![0, 5, 6]);
    assert_eq!(source_xs(&explicit), vec![0, 5, 2]);
    assert_eq!(source_xs(&sequential), vec![0, 1, 2]);
}

#[test]
fn hurtbox_of_single_opaque_pixel() {
    let mut alpha = vec![0u8; 16];
    alpha[1 * 4 + 1] = 200;
    let img = SheetImage { texture: "dot".to_string(), width: 4, height: 4, alpha };
    let cell = PixelRect { x: 0, y: 0, width: 4, height: 4 };
    let b = opaque_bounds(&img, cell);
    assert_eq!(b, PixelBounds { min_x: 1, min_y: 1, max_x: 2, max_y: 2 });
    // over a unit of 5 * 4 = 20: x from -0.1 to 0, y from 0 to 0.1
    let h = hurtbox_from_bounds(b, 4, 4);
    assert_eq!(h, WorldBox { min_x: -2, min_y: 0, max_x: 0, max_y: 2 });
    assert_eq!(h.max_x - h.min_x, h.max_y - h.min_y);
}

#[test]
fn hurtbox_through_loader() {
    let mut alpha = vec![0u8; 16];
    alpha[1 * 4 + 1] = 200;
    let images = vec![SheetImage { texture: "dot".to_string(), width: 4, height: 4, alpha }];
    let p = record("dot", 1, 1, vec![AnnotatedSpriteParams { hurtbox: true, hitbox: None, duration: 1, sprite_index: None }], true, false);
    let data = Rc::new(load_animation(&p, &images, 0).ok().unwrap());
    let anim = data.to_anim();
    let s = anim.sprite();
    assert_eq!(s.hurtbox, Some(WorldBox { min_x: -2, min_y: 0, max_x: 0, max_y: 2 }));
    assert_eq!(s.hitbox, None);
    assert_eq!((s.size_x, s.size_y, s.unit), (8, 8, 20));
    assert_eq!(s.texture, "dot");
}

#[test]
fn transparent_cell_gives_empty_bounds() {
    let img = SheetImage { texture: "clear".to_string(), width: 4, height: 3, alpha: vec![0u8; 12] };
    let cell = PixelRect { x: 0, y: 0, width: 4, height: 3 };
    assert_eq!(opaque_bounds(&img, cell), PixelBounds { min_x: 3, min_y: 2, max_x: 0, max_y: 0 });
}

#[test]
fn bounds_stay_inside_the_cell() {
    // 4x2 sheet, two 2x2 cells; only the left cell is opaque
    let alpha = vec![9, 9, 0, 0, 9, 9, 0, 0];
    let img = SheetImage { texture: "pair".to_string(), width: 4, height: 2, alpha };
    let right = PixelRect { x: 2, y: 0, width: 2, height: 2 };
    assert_eq!(opaque_bounds(&img, right), PixelBounds { min_x: 1, min_y: 1, max_x: 0, max_y: 0 });
    let left = PixelRect { x: 0, y: 0, width: 2, height: 2 };
    assert_eq!(opaque_bounds(&img, left), PixelBounds { min_x: 0, min_y: 0, max_x: 2, max_y: 2 });
}

#[test]
fn hitbox_exact_value() {
    // cell 10 by 6, rect at (2, 1) of size 4 by 3; unit 50
    let r = hitbox_from_rect(PixelRect { x: 2, y: 1, width: 4, height: 3 }, 10, 6);
    assert_eq!(r, WorldBox { min_x: -6, min_y: -2, max_x: 2, max_y: 4 });
}

#[test]
fn cell_grid_row_major() {
    let images = vec![solid_sheet("grid", 30, 20)];
    let p = record("grid", 3, 2, vec![frame(1, Some(4))], true, false);
    let data = Rc::new(load_animation(&p, &images, 0).ok().unwrap());
    let anim = data.to_anim();
    assert_eq!(anim.sprite().source_rect, PixelRect { x: 10, y: 10, width: 10, height: 10 });
}

#[test]
fn load_errors() {
    let images = vec![solid_sheet("s", 4, 4), solid_sheet("tiny", 1, 1)];
    let err = |p: AnimationParams| load_animation(&p, &images, 0).err();
    assert_eq!(err(record("s", 1, 1, vec![], true, false)), Some(LoadError::NoFrames));
    assert_eq!(err(record("nope", 1, 1, vec![frame(1, None)], true, false)), Some(LoadError::MissingTexture));
    assert_eq!(err(record("s", 0, 1, vec![frame(1, None)], true, false)), Some(LoadError::EmptyGrid));
    assert_eq!(err(record("s", 2, 2, vec![frame(1, Some(4))], true, false)), Some(LoadError::IndexOutOfGrid));
    assert_eq!(err(record("s", 2, 2, vec![frame(1, Some(3)), frame(1, None)], true, false)), Some(LoadError::IndexOutOfGrid));
    assert_eq!(err(record("tiny", 2, 1, vec![frame(1, None)], true, false)), Some(LoadError::EmptyCell));
    assert!(err(record("s", 2, 2, vec![frame(1, Some(3))], true, false)).is_none());
}

#[test]
fn render_flips_when_facing_west() {
    let data = strip(&[1], true);
    let anim = data.to_anim();
    let east = anim.render(Facing::East);
    let west = anim.render(Facing::West);
    assert!(!east.flip_x && west.flip_x);
    assert!(!east.flip_y && !west.flip_y);
    assert_eq!(west.texture, "strip");
    assert_eq!(west.source_rect, PixelRect { x: 0, y: 0, width: 1, height: 1 });
    assert_eq!((west.size_x, west.size_y, west.unit), (2, 2, 5));
}

fn named(name: &str, params: AnimationParams) -> AnimationRecord {
    AnimationRecord { name: name.to_string(), params }
}

#[test]
fn instances_share_one_definition() {
    let images = vec![solid_sheet("strip", 8, 1)];
    let records = vec![
        named("idle", record("strip", 8, 1, vec![frame(1, None), frame(1, None)], true, false)),
        named("walk", record("strip", 8, 1, vec![frame(1, None), frame(1, None)], true, false)),
    ];
    let catalog = load_animations(&records, &images).unwrap();
    let idle = catalog.get(&"idle".to_string()).unwrap();
    let walk = catalog.get(&"walk".to_string()).unwrap();
    let mut a = idle.to_anim();
    let b = idle.to_anim();
    assert!(a.is_instance(&idle) && b.is_instance(&idle));
    assert!(!a.is_instance(&walk));
    let _ = a.next_frame();
    assert_eq!(a.sprite().source_rect.x, 1);
    assert_eq!(b.sprite().source_rect.x, 0);
    assert!(a.is_instance(&idle));
}

#[test]
fn catalog_later_record_replaces_earlier() {
    let images = vec![solid_sheet("strip", 8, 1)];
    let records = vec![
        named("jab", record("strip", 8, 1, vec![frame(1, Some(1))], true, false)),
        named("kick", record("strip", 8, 1, vec![frame(1, Some(2))], true, false)),
        named("jab", record("strip", 8, 1, vec![frame(1, Some(3))], false, false)),
    ];
    let catalog = load_animations(&records, &images).unwrap();
    assert_eq!(catalog.len(), 2);
    let jab = catalog.get(&"jab".to_string()).unwrap();
    assert!(!jab.looping());
    assert_eq!(jab.to_anim().sprite().source_rect.x, 3);
    assert!(catalog.get(&"block".to_string()).is_none());
}

#[test]
fn catalog_error_names_the_record() {
    let images = vec![solid_sheet("strip", 8, 1)];
    let records = vec![
        named("ok", record("strip", 8, 1, vec![frame(1, None)], true, false)),
        named("broken", record("missing", 8, 1, vec![frame(1, None)], true, false)),
        named("late", record("strip", 8, 1, vec![], true, false)),
    ];
    let e = load_animations(&records, &images).err().unwrap();
    assert_eq!(e.name, "broken");
    assert_eq!(e.error, LoadError::MissingTexture);
}
