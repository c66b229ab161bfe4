//! Exercises texture sampling and loading, the procedural defaults, sprite
//! animation, culling and occlusion.

use raycaster::fixed::FP_ONE;
use raycaster::framebuffer::{rgba_to_u32, Framebuffer};
use raycaster::player::Player;
use raycaster::sprites::{draw_sprite, render_sprites, Sprite};
use raycaster::texture::{
    sample_texture, texture_from_bytes, wrap_unit, TextureData, TextureError, TextureManager,
    MISSING_COLOR,
};

fn two_by_two() -> TextureData {
    TextureData {
        width: 2,
        height: 2,
        pixels: vec![
            rgba_to_u32(10, 0, 0, 255),
            rgba_to_u32(20, 0, 0, 255),
            rgba_to_u32(30, 0, 0, 255),
            rgba_to_u32(40, 0, 0, 255),
        ],
    }
}

fn small_fb() -> Framebuffer {
    Framebuffer::new(100, 100, rgba_to_u32(0, 0, 0, 255))
}

/// Sampling is periodic in both coordinates, one whole tile at a time.
#[test]
fn sample_is_periodic() {
    let t = two_by_two();
    for (u, v) in [(0i64, 0i64), (16384, 0), (16384, 49152), (60000, 60000), (-20000, 5)] {
        let base = sample_texture(&t, u, v);
        assert_eq!(sample_texture(&t, u + FP_ONE, v), base);
        assert_eq!(sample_texture(&t, u, v + FP_ONE), base);
        assert_eq!(sample_texture(&t, u + FP_ONE, v + FP_ONE), base);
    }
    // The four quadrants of the tile pick the four pixels.
    assert_eq!(sample_texture(&t, 0, 0), rgba_to_u32(10, 0, 0, 255));
    assert_eq!(sample_texture(&t, 40000, 0), rgba_to_u32(20, 0, 0, 255));
    assert_eq!(sample_texture(&t, 0, 40000), rgba_to_u32(30, 0, 0, 255));
    assert_eq!(sample_texture(&t, 40000, 40000), rgba_to_u32(40, 0, 0, 255));
}

/// The fractional wrap maps negatives into the tile like true tiling.
#[test]
fn wrap_is_euclidean() {
    assert_eq!(wrap_unit(0), 0);
    assert_eq!(wrap_unit(19661), 19661);
    assert_eq!(wrap_unit(-19661), 65536 - 19661);
    assert_eq!(wrap_unit(FP_ONE), 0);
    assert_eq!(wrap_unit(-FP_ONE), 0);
}

/// Generating the defaults twice yields pixel-identical textures.
#[test]
fn defaults_are_deterministic() {
    let mut a = TextureManager::new();
    let mut b = TextureManager::new();
    a.generate_default_textures();
    b.generate_default_textures();
    for sym in ['+', '#', '-', '|'] {
        for (u, v) in [(0i64, 0i64), (10000, 20000), (30000, 60000), (65535, 65535)] {
            assert_eq!(a.get_wall_color(sym, u, v), b.get_wall_color(sym, u, v));
        }
    }
    for (x, y) in [(0i64, 0i64), (10 * FP_ONE, 20 * FP_ONE)] {
        assert_eq!(
            a.get_floor_color(x, y, 30 * FP_ONE),
            b.get_floor_color(x, y, 30 * FP_ONE)
        );
    }
    for (x, y) in [(0usize, 0usize), (50, 80)] {
        assert_eq!(
            a.get_ceiling_color(x, y, 100, 100),
            b.get_ceiling_color(x, y, 100, 100)
        );
    }
}

/// With no texture bound, wall symbols fall back to the palette and sprite
/// symbols to the sentinel color.
#[test]
fn fallback_colors() {
    let tm = TextureManager::new();
    assert_eq!(tm.get_wall_color('+', 0, 0), rgba_to_u32(139, 69, 19, 255));
    assert_eq!(tm.get_wall_color('#', 0, 0), rgba_to_u32(128, 128, 128, 255));
    assert_eq!(tm.get_wall_color('?', 0, 0), rgba_to_u32(255, 0, 0, 255));
    assert_eq!(tm.get_sprite_color('O', 0, 0), MISSING_COLOR);
    assert_eq!(tm.get_floor_color(0, 0, 30 * FP_ONE), rgba_to_u32(64, 64, 64, 255));
}

/// A later binding for the same symbol shadows the earlier one; other
/// symbols keep theirs.
#[test]
fn insert_shadows_earlier_binding() {
    let mut tm = TextureManager::new();
    let red = TextureData { width: 1, height: 1, pixels: vec![rgba_to_u32(255, 0, 0, 255)] };
    let blue = TextureData { width: 1, height: 1, pixels: vec![rgba_to_u32(0, 0, 255, 255)] };
    let green = TextureData { width: 1, height: 1, pixels: vec![rgba_to_u32(0, 255, 0, 255)] };
    tm.insert_wall_texture('#', red);
    tm.insert_wall_texture('=', green);
    tm.insert_wall_texture('#', blue);
    assert_eq!(tm.get_wall_color('#', 0, 0), rgba_to_u32(0, 0, 255, 255));
    assert_eq!(tm.get_wall_color('=', 0, 0), rgba_to_u32(0, 255, 0, 255));
}

/// Bytes that are no image decode to the decode error; a real image loads
/// and its pixels can be sampled back; an image wider than the machine-limit
/// cap is refused as too large.
#[test]
fn loading_from_bytes() {
    assert!(matches!(texture_from_bytes(&[1, 2, 3, 4]), Err(TextureError::Decode)));

    // A one-pixel image round-trips through the encoder and the atlas.
    let mut img = image::RgbaImage::new(1, 1);
    img.put_pixel(0, 0, image::Rgba([12, 34, 56, 255]));
    let mut bytes: Vec<u8> = Vec::new();
    img.write_to(&mut std::io::Cursor::new(&mut bytes), image::ImageFormat::Png)
        .expect("encode");
    let t = texture_from_bytes(&bytes).expect("decode");
    assert_eq!(t.width, 1);
    assert_eq!(t.height, 1);
    assert_eq!(sample_texture(&t, 0, 0), rgba_to_u32(12, 34, 56, 255));

    let mut tm = TextureManager::new();
    tm.load_wall_texture('#', &bytes).expect("load");
    assert_eq!(tm.get_wall_color('#', 0, 0), rgba_to_u32(12, 34, 56, 255));
    tm.load_floor_texture(&bytes).expect("load");
    tm.load_ceiling_texture(&bytes).expect("load");
    tm.load_sprite_texture('O', &bytes).expect("load");
    assert_eq!(tm.get_sprite_color('O', 0, 0), rgba_to_u32(12, 34, 56, 255));

    // A five-thousand-pixel-wide image is within the cap and loads.
    let wide_ok = image::RgbaImage::new(5000, 1);
    let mut wide_ok_bytes: Vec<u8> = Vec::new();
    wide_ok
        .write_to(&mut std::io::Cursor::new(&mut wide_ok_bytes), image::ImageFormat::Png)
        .expect("encode");
    let tw = texture_from_bytes(&wide_ok_bytes).expect("decode");
    assert_eq!(tw.width, 5000);

    // Wider than the machine-limit cap: refused.
    let wide = image::RgbaImage::new(40000, 1);
    let mut wide_bytes: Vec<u8> = Vec::new();
    wide.write_to(&mut std::io::Cursor::new(&mut wide_bytes), image::ImageFormat::Png)
        .expect("encode");
    assert!(matches!(texture_from_bytes(&wide_bytes), Err(TextureError::TooLarge)));
}

/// Two frames at half a second each: after six tenths the second frame
/// shows, after six more tenths it wraps back to the first.
#[test]
fn animation_advances_and_wraps() {
    let half_second: i64 = FP_ONE / 2;
    let six_tenths: i64 = 39322;
    let mut s = Sprite::new_animated(FP_ONE, FP_ONE, vec!['a', 'b'], half_second, FP_ONE, false);
    assert_eq!(s.texture_name, 'a');
    s.update(six_tenths);
    assert_eq!(s.animation.as_ref().unwrap().current_frame, 1);
    assert_eq!(s.texture_name, 'b');
    s.update(six_tenths);
    assert_eq!(s.animation.as_ref().unwrap().current_frame, 0);
    assert_eq!(s.texture_name, 'a');
    // A small step short of the duration only advances the clock.
    s.update(1000);
    assert_eq!(s.animation.as_ref().unwrap().current_frame, 0);
    assert_eq!(s.animation.as_ref().unwrap().elapsed, 1000);
    // A static sprite never changes.
    let mut st = Sprite::new_static(FP_ONE, FP_ONE, 'x', FP_ONE, true);
    st.update(six_tenths);
    assert_eq!(st.texture_name, 'x');
    assert!(st.animation.is_none());
}

/// A sprite ahead of the player draws when the depth buffer is behind it and
/// draws nothing when a nearer wall occludes its column.
#[test]
fn sprite_depth_test() {
    let mut tm = TextureManager::new();
    let solid = TextureData { width: 1, height: 1, pixels: vec![rgba_to_u32(200, 10, 10, 255)] };
    tm.insert_sprite_texture('O', solid);
    let mut player = Player::new(45 * FP_ONE, 45 * FP_ONE);
    player.a = 0;
    let d: i64 = 10 * FP_ONE;

    // Depth one unit behind the sprite: pixels are drawn.
    let mut fb = small_fb();
    let before = fb.pixels.clone();
    let depth_behind: Vec<i64> = vec![d + FP_ONE; 100];
    draw_sprite(&mut fb, player.x + d, player.y, 'O', 8 * FP_ONE, &player, &tm, &depth_behind);
    assert!(fb.pixels != before, "sprite pixels were drawn");

    // Depth one unit in front: nothing is drawn.
    let mut fb2 = small_fb();
    let before2 = fb2.pixels.clone();
    let depth_front: Vec<i64> = vec![d - FP_ONE; 100];
    draw_sprite(&mut fb2, player.x + d, player.y, 'O', 8 * FP_ONE, &player, &tm, &depth_front);
    assert!(fb2.pixels == before2, "occluded sprite wrote nothing");
}

/// A sprite outside the field of view writes no pixel at all.
#[test]
fn sprite_culling() {
    let mut tm = TextureManager::new();
    let solid = TextureData { width: 1, height: 1, pixels: vec![rgba_to_u32(200, 10, 10, 255)] };
    tm.insert_sprite_texture('O', solid);
    let mut player = Player::new(45 * FP_ONE, 45 * FP_ONE);
    player.a = 0;
    let mut fb = small_fb();
    let before = fb.pixels.clone();
    // Straight behind the player.
    let depth: Vec<i64> = vec![1000 * FP_ONE; 100];
    draw_sprite(&mut fb, player.x - 10 * FP_ONE, player.y, 'O', 8 * FP_ONE, &player, &tm, &depth);
    assert!(fb.pixels == before, "culled sprite wrote nothing");
}

/// The full sprite pass advances animations and composites back to front.
#[test]
fn render_sprites_pass() {
    let mut tm = TextureManager::new();
    let near_tex = TextureData { width: 1, height: 1, pixels: vec![rgba_to_u32(1, 1, 1, 255)] };
    let far_tex = TextureData { width: 1, height: 1, pixels: vec![rgba_to_u32(2, 2, 2, 255)] };
    tm.insert_sprite_texture('n', near_tex);
    tm.insert_sprite_texture('f', far_tex);
    let mut player = Player::new(45 * FP_ONE, 45 * FP_ONE);
    player.a = 0;
    let mut fb = small_fb();
    let depth: Vec<i64> = vec![1000 * FP_ONE; 100];
    let mut sprites = vec![
        Sprite::new_static(player.x + 10 * FP_ONE, player.y, 'n', 8 * FP_ONE, false),
        Sprite::new_static(player.x + 20 * FP_ONE, player.y, 'f', 8 * FP_ONE, false),
    ];
    render_sprites(&mut fb, &mut sprites, &player, &tm, &depth, 0);
    // Painter's order: the near sprite is drawn last, so the shared center
    // column shows the near texture.
    let idx = 60 * 100 + 50;
    assert_eq!(fb.pixels[idx], rgba_to_u32(1, 1, 1, 255));
    assert_eq!(sprites.len(), 2);
}

/// The whole sprite pass with a single culled sprite leaves the frame
/// untouched, and with the depth buffer in front of a visible sprite it
/// draws nothing; with the depth behind it, it draws.
#[test]
fn render_sprites_culling_and_depth() {
    let mut tm = TextureManager::new();
    let solid = TextureData { width: 1, height: 1, pixels: vec![rgba_to_u32(9, 9, 9, 255)] };
    tm.insert_sprite_texture('O', solid);
    let mut player = Player::new(45 * FP_ONE, 45 * FP_ONE);
    player.a = 0;
    let d: i64 = 10 * FP_ONE;

    // Culled: straight behind the player.
    let mut fb = small_fb();
    let before = fb.pixels.clone();
    let depth: Vec<i64> = vec![1000 * FP_ONE; 100];
    let mut culled = vec![Sprite::new_static(player.x - d, player.y, 'O', 8 * FP_ONE, false)];
    render_sprites(&mut fb, &mut culled, &player, &tm, &depth, 0);
    assert!(fb.pixels == before, "culled sprite wrote nothing through the pass");

    // Occluded: the wall is one unit in front of the sprite at every column.
    let mut fb2 = small_fb();
    let before2 = fb2.pixels.clone();
    let near_depth: Vec<i64> = vec![d - FP_ONE; 100];
    let mut ahead = vec![Sprite::new_static(player.x + d, player.y, 'O', 8 * FP_ONE, false)];
    render_sprites(&mut fb2, &mut ahead, &player, &tm, &near_depth, 0);
    assert!(fb2.pixels == before2, "occluded sprite wrote nothing through the pass");

    // Visible: the wall is one unit behind.
    let mut fb3 = small_fb();
    let before3 = fb3.pixels.clone();
    let far_depth: Vec<i64> = vec![d + FP_ONE; 100];
    let mut visible = vec![Sprite::new_static(player.x + d, player.y, 'O', 8 * FP_ONE, false)];
    render_sprites(&mut fb3, &mut visible, &player, &tm, &far_depth, 0);
    assert!(fb3.pixels != before3, "visible sprite drew through the pass");
}

/// A sprite whose symbol has no bound texture draws nothing, alone or
/// through the whole pass.
#[test]
fn unbound_sprite_draws_nothing() {
    let tm = TextureManager::new();
    let mut player = Player::new(45 * FP_ONE, 45 * FP_ONE);
    player.a = 0;
    let depth: Vec<i64> = vec![1000 * FP_ONE; 100];

    let mut fb = small_fb();
    let before = fb.pixels.clone();
    draw_sprite(&mut fb, player.x + 10 * FP_ONE, player.y, 'O', 8 * FP_ONE, &player, &tm, &depth);
    assert!(fb.pixels == before, "unbound sprite wrote nothing");

    let mut fb2 = small_fb();
    let before2 = fb2.pixels.clone();
    let mut sprites = vec![Sprite::new_static(
        player.x + 10 * FP_ONE,
        player.y,
        'O',
        8 * FP_ONE,
        false,
    )];
    render_sprites(&mut fb2, &mut sprites, &player, &tm, &depth, 0);
    assert!(fb2.pixels == before2, "unbound sprite wrote nothing through the pass");
}
