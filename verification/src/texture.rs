//! Textures: pixel data, UV sampling, and the atlas keyed by cell symbol.
//!
//! Sampling wraps UV coordinates into one tile by Euclidean remainder, so
//! shifting a coordinate by a whole tile never changes the sample.  Every
//! lookup that can miss falls back to a fixed color: the renderer never
//! fails mid-frame over a texture.

use vstd::prelude::*;
use vstd::arithmetic::div_mod::{
    lemma_div_pos_is_pos, lemma_fundamental_div_mod, lemma_fundamental_div_mod_converse,
    lemma_mod_add_multiples_vanish, lemma_mod_bound,
};
use crate::fixed::{FP_ONE, FP_BOUND, fp_div, fp_div_spec};
use crate::framebuffer::{rgba_to_u32, spec_rgba};

verus! {

/// Largest texture width or height the atlas accepts: the machine limit at
/// which a four-byte-per-pixel buffer still indexes within `usize` on every
/// platform; a larger image is refused as `TooLarge` rather than risking a
/// truncated index.
pub const TEX_DIM_MAX: u32 = 32767;

/// The sentinel color returned when a sample cannot be resolved.
pub const MISSING_COLOR: u32 = 4294902015;

/// Decoded pixel data: packed RGBA, row-major.
pub struct TextureData {
    /// Width in pixels.
    pub width: u32,
    /// Height in pixels.
    pub height: u32,
    /// The pixels, row-major: index `y * width + x`.
    pub pixels: Vec<u32>,
}

impl TextureData {
    /// The buffer length matches the dimensions, which are positive and
    /// within `TEX_DIM_MAX`.
    pub open spec fn wf(self) -> bool {
        &&& self.pixels@.len() == (self.width as int) * (self.height as int)
        &&& 0 < self.width <= TEX_DIM_MAX
        &&& 0 < self.height <= TEX_DIM_MAX
    }
}

/// A fixed-point coordinate folded into `[0, FP_ONE)`: the fractional part
/// of the tiling.
pub open spec fn spec_wrap_unit(u: int) -> int {
    u % (FP_ONE as int)
}

/// Wrapping a coordinate by a whole tile leaves its fractional part alone.
pub proof fn lemma_wrap_periodic(u: int)
    ensures
        spec_wrap_unit(u + FP_ONE as int) == spec_wrap_unit(u),
{
    lemma_mod_add_multiples_vanish(u, FP_ONE as int);
}

/// The fractional part of a fixed-point coordinate, in `[0, FP_ONE)`.
pub fn wrap_unit(u: i64) -> (r: i64)
    requires
        i64::MIN < u,
    ensures
        r == spec_wrap_unit(u as int),
        0 <= r < FP_ONE,
{
    proof {
        lemma_mod_bound(u as int, FP_ONE as int);
    }
    if u >= 0 {
        u % FP_ONE
    } else {
        let m: i64 = (-u) % FP_ONE;
        proof {
            lemma_fundamental_div_mod(-(u as int), FP_ONE as int);
            let q = (-(u as int)) / (FP_ONE as int);
            if m == 0 {
                lemma_fundamental_div_mod_converse(u as int, FP_ONE as int, -q, 0);
            } else {
                lemma_fundamental_div_mod_converse(
                    u as int,
                    FP_ONE as int,
                    -q - 1,
                    FP_ONE as int - m,
                );
            }
        }
        if m == 0 {
            0
        } else {
            FP_ONE - m
        }
    }
}

/// The sample of a texture at fixed-point UV coordinates: wrap each
/// coordinate into one tile, map to the nearest pixel by truncation, clamp
/// to the edge, and fall back to `MISSING_COLOR` on any unresolvable index.
pub open spec fn spec_sample_texture(tex: TextureData, u: int, v: int) -> u32 {
    let px0 = spec_wrap_unit(u) * (tex.width as int) / (FP_ONE as int);
    let py0 = spec_wrap_unit(v) * (tex.height as int) / (FP_ONE as int);
    let px = if px0 > tex.width as int - 1 {
        tex.width as int - 1
    } else {
        px0
    };
    let py = if py0 > tex.height as int - 1 {
        tex.height as int - 1
    } else {
        py0
    };
    let idx = py * (tex.width as int) + px;
    if 0 <= idx < tex.pixels@.len() {
        tex.pixels@[idx]
    } else {
        MISSING_COLOR
    }
}

/// Shifting either UV coordinate by one whole tile never changes the sample.
pub proof fn lemma_sample_periodic(tex: TextureData, u: int, v: int)
    ensures
        spec_sample_texture(tex, u + FP_ONE as int, v) == spec_sample_texture(tex, u, v),
        spec_sample_texture(tex, u, v + FP_ONE as int) == spec_sample_texture(tex, u, v),
{
    lemma_wrap_periodic(u);
    lemma_wrap_periodic(v);
}

/// The wrapped coordinate maps to a pixel index below the dimension.
proof fn lemma_uv_to_pixel(w: int, m: int)
    requires
        0 < w,
        0 <= m < FP_ONE as int,
    ensures
        0 <= m * w / (FP_ONE as int) < w,
{
    lemma_div_pos_is_pos(m * w, FP_ONE as int);
    assert(m * w <= (FP_ONE as int - 1) * w) by (nonlinear_arith)
        requires
            0 <= m <= FP_ONE as int - 1,
            0 < w,
    ;
    assert((FP_ONE as int - 1) * w / (FP_ONE as int) < w) by (nonlinear_arith)
        requires
            0 < w,
    ;
    vstd::arithmetic::div_mod::lemma_div_is_ordered(m * w, (FP_ONE as int - 1) * w, FP_ONE as int);
}

/// Samples a texture at fixed-point UV coordinates.
pub fn sample_texture(tex: &TextureData, u: i64, v: i64) -> (r: u32)
    requires
        tex.wf(),
        i64::MIN < u,
        i64::MIN < v,
    ensures
        r == spec_sample_texture(*tex, u as int, v as int),
{
    let uw = wrap_unit(u);
    let vw = wrap_unit(v);
    proof {
        lemma_uv_to_pixel(tex.width as int, uw as int);
        lemma_uv_to_pixel(tex.height as int, vw as int);
    }
    let px64: i64 = uw * (tex.width as i64) / FP_ONE;
    let py64: i64 = vw * (tex.height as i64) / FP_ONE;
    let px: usize = if px64 > (tex.width as i64) - 1 {
        (tex.width - 1) as usize
    } else {
        px64 as usize
    };
    let py: usize = if py64 > (tex.height as i64) - 1 {
        (tex.height - 1) as usize
    } else {
        py64 as usize
    };
    proof {
        assert((py as int) * (tex.width as int) + (px as int) < (tex.width as int) * (tex.height
            as int)) by (nonlinear_arith)
            requires
                0 <= (px as int) < tex.width as int,
                0 <= (py as int) < tex.height as int,
        ;
        assert((tex.width as int) * (tex.height as int) <= 32767 * 32767) by (nonlinear_arith)
            requires
                0 < (tex.width as int) <= 32767,
                0 < (tex.height as int) <= 32767,
        ;
    }
    let idx: usize = py * (tex.width as usize) + px;
    if idx < tex.pixels.len() {
        tex.pixels[idx]
    } else {
        MISSING_COLOR
    }
}

/// The first texture bound to a symbol in an association list.
pub open spec fn spec_lookup(entries: Seq<(char, TextureData)>, c: char) -> Option<TextureData>
    decreases entries.len(),
{
    if entries.len() == 0 {
        None
    } else if entries[0].0 == c {
        Some(entries[0].1)
    } else {
        spec_lookup(entries.drop_first(), c)
    }
}

/// When the first `i` entries miss the symbol, the lookup result is decided
/// by the rest of the list.
proof fn lemma_lookup_after(entries: Seq<(char, TextureData)>, c: char, i: int)
    requires
        0 <= i <= entries.len(),
        forall|j: int| 0 <= j < i ==> (#[trigger] entries[j]).0 != c,
    ensures
        spec_lookup(entries, c) == spec_lookup(entries.skip(i), c),
    decreases i,
{
    if i > 0 {
        assert(entries[0].0 != c);
        assert(entries.drop_first() =~= entries.skip(1));
        assert forall|j: int| 0 <= j < i - 1 implies (#[trigger] entries.drop_first()[j]).0
            != c by {
            assert(entries.drop_first()[j] == entries[j + 1]);
        }
        lemma_lookup_after(entries.drop_first(), c, i - 1);
        assert(entries.drop_first().skip(i - 1) =~= entries.skip(i));
    } else {
        assert(entries.skip(0) =~= entries);
    }
}

/// Finds the first texture bound to a symbol in an association list.
fn lookup(entries: &Vec<(char, TextureData)>, c: char) -> (r: Option<&TextureData>)
    ensures
        match r {
            Some(t) => spec_lookup(entries@, c) == Some(*t),
            None => spec_lookup(entries@, c) is None,
        },
{
    let mut i: usize = 0;
    while i < entries.len()
        invariant
            0 <= i <= entries@.len(),
            forall|j: int| 0 <= j < i ==> (#[trigger] entries@[j]).0 != c,
        decreases entries@.len() - i,
    {
        if entries[i].0 == c {
            proof {
                lemma_lookup_after(entries@, c, i as int);
                assert(entries@.skip(i as int)[0] == entries@[i as int]);
                assert(entries@.skip(i as int).len() > 0);
            }
            return Some(&entries[i].1);
        }
        i += 1;
    }
    proof {
        lemma_lookup_after(entries@, c, entries@.len() as int);
        assert(entries@.skip(entries@.len() as int).len() == 0);
    }
    None
}

/// Every entry of an association list holds a well-formed texture.
pub open spec fn entries_wf(entries: Seq<(char, TextureData)>) -> bool {
    forall|j: int| 0 <= j < entries.len() ==> (#[trigger] entries[j]).1.wf()
}

/// A found entry of a well-formed list is itself well-formed.
pub proof fn lemma_lookup_wf(entries: Seq<(char, TextureData)>, c: char)
    requires
        entries_wf(entries),
    ensures
        match spec_lookup(entries, c) {
            Some(t) => t.wf(),
            None => true,
        },
    decreases entries.len(),
{
    if entries.len() > 0 && entries[0].0 != c {
        assert(entries.drop_first() =~= entries.skip(1));
        assert forall|j: int| 0 <= j < entries.drop_first().len() implies (#[trigger] entries.drop_first()[j]).1.wf() by {
            assert(entries.drop_first()[j] == entries[j + 1]);
        }
        lemma_lookup_wf(entries.drop_first(), c);
    }
}

/// What failed while loading a texture.
#[derive(PartialEq, Eq, Structural, Clone, Copy, Debug)]
pub enum TextureError {
    /// The bytes did not decode as an image.
    Decode,
    /// The image decoded with a zero width or height.
    ZeroSized,
    /// The image is wider or taller than `TEX_DIM_MAX`.
    TooLarge,
}

/// What `image::load_from_memory` decodes a byte string to, converted to
/// RGBA: the dimensions and four bytes per pixel, or nothing when the bytes
/// are not an image.  Decoding is a function of the bytes alone.
pub uninterp spec fn decoded_rgba(bytes: Seq<u8>) -> Option<(u32, u32, Seq<u8>)>;

/// Relies on image::load_from_memory and DynamicImage::to_rgba8: the decode
/// is deterministic in the bytes, and the RGBA buffer of a `w` by `h` image
/// holds at least `4 * w * h` bytes, four per pixel.
#[verifier::external_body]
fn decode_rgba(bytes: &[u8]) -> (r: Option<(u32, u32, Vec<u8>)>)
    ensures
        match r {
            Some((w, h, p)) => decoded_rgba(bytes@) == Some((w, h, p@)) && p@.len() >= 4 * (w
                as int) * (h as int),
            None => decoded_rgba(bytes@) is None,
        },
{
    match image::load_from_memory(bytes) {
        Ok(img) => {
            let buf = img.to_rgba8();
            let (w, h) = buf.dimensions();
            Some((w, h, buf.into_raw()))
        },
        Err(_) => None,
    }
}

/// The relation between a byte string and the texture built from it: the
/// bytes decode to the texture's dimensions, and each pixel packs four
/// consecutive decoded bytes.
pub open spec fn decoded_texture(bytes: Seq<u8>, t: TextureData) -> bool {
    match decoded_rgba(bytes) {
        Some((w, h, p)) => {
            &&& t.width == w
            &&& t.height == h
            &&& t.wf()
            &&& forall|i: int|
                0 <= i < t.pixels@.len() ==> (#[trigger] t.pixels@[i]) as int == spec_rgba(
                    p[4 * i] as int,
                    p[4 * i + 1] as int,
                    p[4 * i + 2] as int,
                    p[4 * i + 3] as int,
                )
        },
        None => false,
    }
}

/// Decodes raster-image bytes into a texture.  Succeeds exactly when the
/// bytes decode and the dimensions are positive and within `TEX_DIM_MAX`;
/// each error says which of those failed.
pub fn texture_from_bytes(bytes: &[u8]) -> (r: Result<TextureData, TextureError>)
    ensures
        match r {
            Ok(t) => decoded_texture(bytes@, t),
            Err(e) => match decoded_rgba(bytes@) {
                Some((w, h, p)) => (e == TextureError::ZeroSized && (w == 0 || h == 0)) || (e
                    == TextureError::TooLarge && w > 0 && h > 0 && (w > TEX_DIM_MAX || h
                    > TEX_DIM_MAX)),
                None => e == TextureError::Decode,
            },
        },
{
    match decode_rgba(bytes) {
        None => Err(TextureError::Decode),
        Some((w, h, raw)) => {
            if w == 0 || h == 0 {
                return Err(TextureError::ZeroSized);
            }
            if w > TEX_DIM_MAX || h > TEX_DIM_MAX {
                return Err(TextureError::TooLarge);
            }
            proof {
                assert((w as int) * (h as int) <= 32767 * 32767) by (nonlinear_arith)
                    requires
                        0 < (w as int) <= 32767,
                        0 < (h as int) <= 32767,
                ;
            }
            let n: usize = (w as usize) * (h as usize);
            proof {
                assert(4 * ((w as int) * (h as int)) == 4 * (w as int) * (h as int))
                    by (nonlinear_arith);
            }
            let mut pixels: Vec<u32> = Vec::new();
            let mut i: usize = 0;
            while i < n
                invariant
                    i == pixels@.len() <= n,
                    n == (w as int) * (h as int),
                    n <= 1073676289,
                    raw@.len() >= 4 * n,
                    raw@ == (match decoded_rgba(bytes@) {
                        Some((ww, hh, p)) => p,
                        None => raw@,
                    }),
                    decoded_rgba(bytes@) == Some((w, h, raw@)),
                    forall|j: int|
                        0 <= j < i ==> (#[trigger] pixels@[j]) as int == spec_rgba(
                            raw@[4 * j] as int,
                            raw@[4 * j + 1] as int,
                            raw@[4 * j + 2] as int,
                            raw@[4 * j + 3] as int,
                        ),
                decreases n - i,
            {
                let c = rgba_to_u32(raw[4 * i], raw[4 * i + 1], raw[4 * i + 2], raw[4 * i + 3]);
                pixels.push(c);
                i += 1;
            }
            Ok(TextureData { width: w, height: h, pixels })
        },
    }
}

/// The atlas: wall textures keyed by cell symbol, sprite textures keyed by
/// sprite symbol, and at most one floor and one ceiling texture.
pub struct TextureManager {
    /// Wall textures, newest binding first.
    pub wall_textures: Vec<(char, TextureData)>,
    /// The floor texture, if one is bound.
    pub floor_texture: Option<TextureData>,
    /// The ceiling texture, if one is bound.
    pub ceiling_texture: Option<TextureData>,
    /// Sprite textures, newest binding first.
    pub sprite_textures: Vec<(char, TextureData)>,
}

impl TextureManager {
    /// Every texture held anywhere in the atlas is well-formed.
    pub open spec fn wf(self) -> bool {
        &&& entries_wf(self.wall_textures@)
        &&& entries_wf(self.sprite_textures@)
        &&& match self.floor_texture {
            Some(t) => t.wf(),
            None => true,
        }
        &&& match self.ceiling_texture {
            Some(t) => t.wf(),
            None => true,
        }
    }

    /// The wall texture bound to a symbol.
    pub open spec fn spec_wall(self, c: char) -> Option<TextureData> {
        spec_lookup(self.wall_textures@, c)
    }

    /// The sprite texture bound to a symbol.
    pub open spec fn spec_sprite(self, c: char) -> Option<TextureData> {
        spec_lookup(self.sprite_textures@, c)
    }

    /// An empty atlas: no texture bound anywhere.
    pub fn new() -> (r: TextureManager)
        ensures
            r.wf(),
            r.wall_textures@.len() == 0,
            r.sprite_textures@.len() == 0,
            r.floor_texture is None,
            r.ceiling_texture is None,
    {
        TextureManager {
            wall_textures: Vec::new(),
            floor_texture: None,
            ceiling_texture: None,
            sprite_textures: Vec::new(),
        }
    }

    /// Binds a wall texture to a symbol, shadowing any earlier binding for
    /// it and leaving every other symbol's binding alone.
    pub fn insert_wall_texture(&mut self, c: char, t: TextureData)
        requires
            old(self).wf(),
            t.wf(),
        ensures
            final(self).wf(),
            final(self).spec_wall(c) == Some(t),
            forall|c2: char| c2 != c ==> final(self).spec_wall(c2) == old(self).spec_wall(c2),
            final(self).floor_texture == old(self).floor_texture,
            final(self).ceiling_texture == old(self).ceiling_texture,
            final(self).sprite_textures == old(self).sprite_textures,
    {
        let ghost before = self.wall_textures@;
        self.wall_textures.insert(0, (c, t));
        proof {
            assert(self.wall_textures@.drop_first() =~= before);
            assert forall|j: int| 0 <= j < self.wall_textures@.len() implies (
            #[trigger] self.wall_textures@[j]).1.wf() by {
                if j > 0 {
                    assert(self.wall_textures@[j] == before[j - 1]);
                }
            }
        }
    }

    /// Binds a sprite texture to a symbol, shadowing any earlier binding for
    /// it and leaving every other symbol's binding alone.
    pub fn insert_sprite_texture(&mut self, c: char, t: TextureData)
        requires
            old(self).wf(),
            t.wf(),
        ensures
            final(self).wf(),
            final(self).spec_sprite(c) == Some(t),
            forall|c2: char| c2 != c ==> final(self).spec_sprite(c2) == old(self).spec_sprite(c2),
            final(self).floor_texture == old(self).floor_texture,
            final(self).ceiling_texture == old(self).ceiling_texture,
            final(self).wall_textures == old(self).wall_textures,
    {
        let ghost before = self.sprite_textures@;
        self.sprite_textures.insert(0, (c, t));
        proof {
            assert(self.sprite_textures@.drop_first() =~= before);
            assert forall|j: int| 0 <= j < self.sprite_textures@.len() implies (
            #[trigger] self.sprite_textures@[j]).1.wf() by {
                if j > 0 {
                    assert(self.sprite_textures@[j] == before[j - 1]);
                }
            }
        }
    }

    /// Decodes image bytes and binds the texture to a wall symbol; on an
    /// error the atlas is left as it was.
    pub fn load_wall_texture(&mut self, c: char, bytes: &[u8]) -> (r: Result<(), TextureError>)
        requires
            old(self).wf(),
        ensures
            final(self).wf(),
            match r {
                Ok(()) => {
                    &&& match final(self).spec_wall(c) {
                        Some(t) => decoded_texture(bytes@, t),
                        None => false,
                    }
                    &&& forall|c2: char|
                        c2 != c ==> final(self).spec_wall(c2) == old(self).spec_wall(c2)
                    &&& final(self).floor_texture == old(self).floor_texture
                    &&& final(self).ceiling_texture == old(self).ceiling_texture
                    &&& final(self).sprite_textures == old(self).sprite_textures
                },
                Err(e) => *final(self) == *old(self) && load_failure(bytes@, e),
            },
    {
        match texture_from_bytes(bytes) {
            Ok(t) => {
                self.insert_wall_texture(c, t);
                Ok(())
            },
            Err(e) => Err(e),
        }
    }

    /// Decodes image bytes and binds the texture to a sprite symbol; on an
    /// error the atlas is left as it was.
    pub fn load_sprite_texture(&mut self, c: char, bytes: &[u8]) -> (r: Result<(), TextureError>)
        requires
            old(self).wf(),
        ensures
            final(self).wf(),
            match r {
                Ok(()) => {
                    &&& match final(self).spec_sprite(c) {
                        Some(t) => decoded_texture(bytes@, t),
                        None => false,
                    }
                    &&& forall|c2: char|
                        c2 != c ==> final(self).spec_sprite(c2) == old(self).spec_sprite(c2)
                    &&& final(self).floor_texture == old(self).floor_texture
                    &&& final(self).ceiling_texture == old(self).ceiling_texture
                    &&& final(self).wall_textures == old(self).wall_textures
                },
                Err(e) => *final(self) == *old(self) && load_failure(bytes@, e),
            },
    {
        match texture_from_bytes(bytes) {
            Ok(t) => {
                self.insert_sprite_texture(c, t);
                Ok(())
            },
            Err(e) => Err(e),
        }
    }

    /// Decodes image bytes into the floor texture; on an error the atlas is
    /// left as it was.
    pub fn load_floor_texture(&mut self, bytes: &[u8]) -> (r: Result<(), TextureError>)
        requires
            old(self).wf(),
        ensures
            final(self).wf(),
            match r {
                Ok(()) => {
                    &&& match final(self).floor_texture {
                        Some(t) => decoded_texture(bytes@, t),
                        None => false,
                    }
                    &&& final(self).wall_textures == old(self).wall_textures
                    &&& final(self).ceiling_texture == old(self).ceiling_texture
                    &&& final(self).sprite_textures == old(self).sprite_textures
                },
                Err(e) => *final(self) == *old(self) && load_failure(bytes@, e),
            },
    {
        match texture_from_bytes(bytes) {
            Ok(t) => {
                self.floor_texture = Some(t);
                Ok(())
            },
            Err(e) => Err(e),
        }
    }

    /// Decodes image bytes into the ceiling texture; on an error the atlas
    /// is left as it was.
    pub fn load_ceiling_texture(&mut self, bytes: &[u8]) -> (r: Result<(), TextureError>)
        requires
            old(self).wf(),
        ensures
            final(self).wf(),
            match r {
                Ok(()) => {
                    &&& match final(self).ceiling_texture {
                        Some(t) => decoded_texture(bytes@, t),
                        None => false,
                    }
                    &&& final(self).wall_textures == old(self).wall_textures
                    &&& final(self).floor_texture == old(self).floor_texture
                    &&& final(self).sprite_textures == old(self).sprite_textures
                },
                Err(e) => *final(self) == *old(self) && load_failure(bytes@, e),
            },
    {
        match texture_from_bytes(bytes) {
            Ok(t) => {
                self.ceiling_texture = Some(t);
                Ok(())
            },
            Err(e) => Err(e),
        }
    }

    /// The color of a wall symbol at fixed-point UV coordinates: its bound
    /// texture sampled, or the symbol's palette color with no texture bound.
    pub fn get_wall_color(&self, c: char, u: i64, v: i64) -> (r: u32)
        requires
            self.wf(),
            i64::MIN < u,
            i64::MIN < v,
        ensures
            r == spec_wall_color(*self, c, u as int, v as int),
    {
        proof {
            lemma_lookup_wf(self.wall_textures@, c);
        }
        match lookup(&self.wall_textures, c) {
            Some(t) => sample_texture(t, u, v),
            None => default_wall_color(c),
        }
    }

    /// Whether a sprite texture is bound to a symbol.
    pub fn has_sprite_texture(&self, c: char) -> (r: bool)
        ensures
            r == (self.spec_sprite(c) is Some),
    {
        match lookup(&self.sprite_textures, c) {
            Some(_) => true,
            None => false,
        }
    }

    /// The color of a sprite symbol at fixed-point UV coordinates: its bound
    /// texture sampled, or the sentinel color with no texture bound.
    pub fn get_sprite_color(&self, c: char, u: i64, v: i64) -> (r: u32)
        requires
            self.wf(),
            i64::MIN < u,
            i64::MIN < v,
        ensures
            r == spec_sprite_color(*self, c, u as int, v as int),
    {
        proof {
            lemma_lookup_wf(self.sprite_textures@, c);
        }
        match lookup(&self.sprite_textures, c) {
            Some(t) => sample_texture(t, u, v),
            None => MISSING_COLOR,
        }
    }

    /// The floor color under a world point: the floor texture tiled once per
    /// grid cell, or a flat dark gray with none bound.
    pub fn get_floor_color(&self, world_x: i64, world_y: i64, cell_size: i64) -> (r: u32)
        requires
            self.wf(),
            0 < cell_size,
            -FP_BOUND <= world_x <= FP_BOUND,
            -FP_BOUND <= world_y <= FP_BOUND,
        ensures
            r == spec_floor_color(*self, world_x as int, world_y as int, cell_size as int),
    {
        match &self.floor_texture {
            Some(t) => {
                let u = fp_div(world_x, cell_size);
                let v = fp_div(world_y, cell_size);
                proof {
                    crate::fixed::lemma_div_trunc_bound(world_x as int * (FP_ONE as int), cell_size as int);
                    crate::fixed::lemma_div_trunc_bound(world_y as int * (FP_ONE as int), cell_size as int);
                }
                sample_texture(t, u, v)
            },
            None => rgba_to_u32(64, 64, 64, 255),
        }
    }

    /// The ceiling color at a screen position: the ceiling texture sampled
    /// by normalized screen coordinates, or a vertical night gradient with
    /// none bound.
    pub fn get_ceiling_color(&self, x: usize, y: usize, w: usize, h: usize) -> (r: u32)
        requires
            self.wf(),
            0 < w <= 16384,
            0 < h <= 16384,
            x <= w,
            y <= h,
        ensures
            r == spec_ceiling_color(*self, x as int, y as int, w as int, h as int),
    {
        match &self.ceiling_texture {
            Some(t) => {
                let u: i64 = ((x as i64) * FP_ONE) / (w as i64);
                let v: i64 = ((y as i64) * FP_ONE) / (h as i64);
                proof {
                    lemma_div_pos_is_pos((x as int) * (FP_ONE as int), w as int);
                    lemma_div_pos_is_pos((y as int) * (FP_ONE as int), h as int);
                    crate::fixed::lemma_div_trunc_bound((x as int) * (FP_ONE as int), w as int);
                    crate::fixed::lemma_div_trunc_bound((y as int) * (FP_ONE as int), h as int);
                }
                sample_texture(t, u, v)
            },
            None => {
                let up: usize = h - y;
                let rr: u8 = (20 + (30 * (up as u64)) / (h as u64)) as u8;
                let gg: u8 = (20 + (25 * (up as u64)) / (h as u64)) as u8;
                let bb: u8 = (50 + (80 * (up as u64)) / (h as u64)) as u8;
                proof {
                    crate::fixed::lemma_div_trunc_bound(30 * (up as int), h as int);
                    crate::fixed::lemma_div_trunc_bound(25 * (up as int), h as int);
                    crate::fixed::lemma_div_trunc_bound(80 * (up as int), h as int);
                    assert(30 * (up as int) / (h as int) <= 30) by (nonlinear_arith)
                        requires
                            0 < h as int,
                            0 <= up as int <= h as int,
                    ;
                    assert(25 * (up as int) / (h as int) <= 25) by (nonlinear_arith)
                        requires
                            0 < h as int,
                            0 <= up as int <= h as int,
                    ;
                    assert(80 * (up as int) / (h as int) <= 80) by (nonlinear_arith)
                        requires
                            0 < h as int,
                            0 <= up as int <= h as int,
                    ;
                }
                rgba_to_u32(rr, gg, bb, 255)
            },
        }
    }
}

/// Which load error a byte string produces, and when.
pub open spec fn load_failure(bytes: Seq<u8>, e: TextureError) -> bool {
    match decoded_rgba(bytes) {
        Some((w, h, p)) => (e == TextureError::ZeroSized && (w == 0 || h == 0)) || (e
            == TextureError::TooLarge && w > 0 && h > 0 && (w > TEX_DIM_MAX || h > TEX_DIM_MAX)),
        None => e == TextureError::Decode,
    }
}

/// The palette color of a wall symbol with no texture bound.
pub open spec fn spec_default_wall_color(c: char) -> int {
    if c == '+' {
        spec_rgba(139, 69, 19, 255)
    } else if c == '#' {
        spec_rgba(128, 128, 128, 255)
    } else if c == '=' {
        spec_rgba(160, 82, 45, 255)
    } else if c == '-' {
        spec_rgba(180, 82, 45, 255)
    } else if c == '|' {
        spec_rgba(160, 92, 55, 255)
    } else {
        spec_rgba(255, 0, 0, 255)
    }
}

/// The palette color of a wall symbol with no texture bound.
pub fn default_wall_color(c: char) -> (r: u32)
    ensures
        r == spec_default_wall_color(c),
{
    if c == '+' {
        rgba_to_u32(139, 69, 19, 255)
    } else if c == '#' {
        rgba_to_u32(128, 128, 128, 255)
    } else if c == '=' {
        rgba_to_u32(160, 82, 45, 255)
    } else if c == '-' {
        rgba_to_u32(180, 82, 45, 255)
    } else if c == '|' {
        rgba_to_u32(160, 92, 55, 255)
    } else {
        rgba_to_u32(255, 0, 0, 255)
    }
}

/// The color of a wall symbol at UV coordinates: texture sample or palette.
pub open spec fn spec_wall_color(m: TextureManager, c: char, u: int, v: int) -> u32 {
    match spec_lookup(m.wall_textures@, c) {
        Some(t) => spec_sample_texture(t, u, v),
        None => spec_default_wall_color(c) as u32,
    }
}

/// The color of a sprite symbol at UV coordinates: texture sample or the
/// sentinel color.
pub open spec fn spec_sprite_color(m: TextureManager, c: char, u: int, v: int) -> u32 {
    match spec_lookup(m.sprite_textures@, c) {
        Some(t) => spec_sample_texture(t, u, v),
        None => MISSING_COLOR,
    }
}

/// The floor color under a world point: texture tiled per grid cell, or
/// flat dark gray.
pub open spec fn spec_floor_color(m: TextureManager, x: int, y: int, cell_size: int) -> u32 {
    match m.floor_texture {
        Some(t) => spec_sample_texture(t, fp_div_spec(x, cell_size), fp_div_spec(y, cell_size)),
        None => spec_rgba(64, 64, 64, 255) as u32,
    }
}

/// The ceiling color at a screen position: texture sampled by normalized
/// screen coordinates, or the night gradient.
pub open spec fn spec_ceiling_color(m: TextureManager, x: int, y: int, w: int, h: int) -> u32 {
    match m.ceiling_texture {
        Some(t) => spec_sample_texture(t, x * (FP_ONE as int) / w, y * (FP_ONE as int) / h),
        None => spec_rgba(
            20 + 30 * (h - y) / h,
            20 + 25 * (h - y) / h,
            50 + 80 * (h - y) / h,
            255,
        ) as u32,
    }
}


} // verus!
