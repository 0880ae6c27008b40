//! Fragments, the candidate pixel samples that rasterization produces, and
//! the shading strategies that turn a fragment into a colour.
//!
//! A strategy composes colours from scalar fields sampled at the fragment:
//! noise, and analytic patterns such as bands, swirls and a pulse in time.
//! The fields themselves are sampled outside this library and arrive as
//! thousandths in a `Samples` value; what a strategy does with them is
//! decided here and is a function of its arguments alone.

use crate::color::{channel, Color};
use crate::fixed::{clamp, clamp_to, floor_div, UNIT};
use crate::vertex::{Vec2, Vec3};
use vstd::prelude::*;

verus! {

/// One candidate pixel sample, before shading.
///
/// `position` is the pixel, in whole pixels. `intensity` is the light weight
/// in thousandths. `vertex_position` is the object-space position that the
/// sample stands for; shading reads fields there, so patterns stay fixed to
/// the surface and not to the screen.
#[derive(Clone, Copy, Debug, PartialEq, Eq, Structural)]
pub struct Fragment {
    pub position: Vec2,
    pub depth: i32,
    pub intensity: i32,
    pub vertex_position: Vec3,
}

impl Fragment {
    /// The fragment with the given fields.
    pub fn new(position: Vec2, depth: i32, intensity: i32, vertex_position: Vec3) -> (f: Fragment)
        ensures
            f == (Fragment { position, depth, intensity, vertex_position }),
    {
        Fragment { position, depth, intensity, vertex_position }
    }
}

/// The noise fields that the strategies read.
#[derive(Clone, Copy, Debug, PartialEq, Eq, Structural)]
pub enum NoiseField {
    OpenSimplex,
    Cellular,
    Perlin,
    Value,
    ValueCubic,
}

/// The scalar fields sampled for one fragment, in thousandths.
///
/// `noise` is the strategy's noise field at the fragment's object-space
/// position, nominally from minus one to one. `octaves` holds the same field
/// at the next two octaves, for the strategy that sums a fractal. `pattern`
/// and `secondary` are the strategy's analytic terms. Each strategy says
/// which of these it reads; it ignores the others.
#[derive(Clone, Copy, Debug, PartialEq, Eq)]
pub struct Samples {
    pub noise: i32,
    pub octaves: [i32; 2],
    pub pattern: i32,
    pub secondary: i32,
}

/// The shading strategies. `Fallback` is what an unknown tag selects.
#[derive(Clone, Copy, Debug, PartialEq, Eq, Structural)]
pub enum ShaderKind {
    Solar,
    Volcanic,
    MoltenCore,
    Crystal,
    Vortex,
    RingedPlanet,
    Ring,
    Moon,
    Rocky,
    EarthLike,
    Fallback,
}

/// How much of each octave carries over to the next in the fractal sum of
/// the moon strategy, in thousandths.
pub const MOON_GAIN: i32 = 120;

/// By how much the sampling frequency grows from one octave to the next in
/// the moon strategy, in thousandths.
pub const MOON_LACUNARITY: i32 = 2760;

/// A noise sample brought from the range minus one to one into the range
/// zero to one.
pub open spec fn normalized(noise: int) -> int {
    clamp((noise + UNIT) / 2, 0, UNIT as int)
}

/// The magnitude of a sample.
pub open spec fn magnitude(v: int) -> int {
    if v < 0 {
        -v
    } else {
        v
    }
}

/// The channel nearest to `v`.
pub open spec fn to_channel(v: int) -> u8 {
    clamp(v, 0, 255) as u8
}

/// The weight of octave `k` in a fractal sum: one whole for the first
/// octave, and `gain` thousandths of the previous weight for each later one.
pub open spec fn octave_weight(gain: int, k: nat) -> int
    decreases k,
{
    if k == 0 {
        UNIT as int
    } else {
        octave_weight(gain, (k - 1) as nat) * gain / (UNIT as int)
    }
}

/// The sum of the first `n` octaves, each times its weight.
pub open spec fn weighted_sum(octaves: Seq<i32>, gain: int, n: nat) -> int
    decreases n,
{
    if n == 0 {
        0
    } else {
        weighted_sum(octaves, gain, (n - 1) as nat) + octaves[n - 1] * octave_weight(
            gain,
            (n - 1) as nat,
        )
    }
}

/// The sum of the weights of the first `n` octaves.
pub open spec fn weight_sum(gain: int, n: nat) -> int
    decreases n,
{
    if n == 0 {
        0
    } else {
        weight_sum(gain, (n - 1) as nat) + octave_weight(gain, (n - 1) as nat)
    }
}

/// Fractal noise: the weighted mean of the octaves. With no octaves it is
/// zero.
pub open spec fn fractal(octaves: Seq<i32>, gain: int) -> int {
    if octaves.len() == 0 {
        0
    } else {
        weighted_sum(octaves, gain, octaves.len()) / weight_sum(gain, octaves.len())
    }
}

/// The rock colour that the volcanic and the rocky strategy share: two
/// interpolations, by four fifths and by half of the normalized noise.
pub open spec fn rock_pattern(n: int) -> Color {
    (Color { r: 139, g: 69, b: 19 }).spec_lerp(Color { r: 105, g: 60, b: 45 }, n * 4 / 5).spec_lerp(
        Color { r: 189, g: 183, b: 107 },
        n / 2,
    )
}

/// The surface of a star: a warm base whose brightness follows the noise
/// and a pulse in time, a halo, and an ambient term.
///
/// Reads `noise`, `pattern` (the pulse, from minus one to one) and
/// `secondary` (the strength of the halo).
pub open spec fn spec_solar_shader(fragment: Fragment, samples: Samples) -> Color {
    let pulse = samples.pattern * 2 / 5 + 800;
    let grain = samples.noise * 3 / 10 + 700;
    let heat = (900 + grain / 10) * pulse / 1000;
    let core = (Color { r: 255, g: 200, b: 50 }).spec_scale(heat).spec_scale(
        fragment.intensity as int,
    );
    let halo = (Color { r: 255, g: 140, b: 0 }).spec_scale(samples.secondary as int);
    let ambient = (Color { r: 255, g: 100, b: 50 }).spec_scale(100);
    core.spec_blend_add(halo).spec_blend_add(ambient)
}

/// Volcanic rock: the rock pattern, lit, over a dark red ambient term.
/// Reads `noise`.
pub open spec fn spec_volcanic_planet_shader(fragment: Fragment, samples: Samples) -> Color {
    rock_pattern(normalized(samples.noise as int)).spec_scale(
        fragment.intensity as int,
    ).spec_blend_add((Color { r: 40, g: 20, b: 20 }).spec_scale(300))
}

/// A molten core: where the noise is above three tenths lava is added to
/// rock, elsewhere rock is multiplied by lava. Reads `noise` and `pattern`
/// (the lava pattern).
pub open spec fn spec_molten_core_planet_shader(fragment: Fragment, samples: Samples) -> Color {
    let lava = Color { r: 255, g: to_channel(80 * samples.pattern / 1000), b: 0 };
    let rock = Color { r: to_channel(50 * (1000 - samples.noise) / 1000), g: 0, b: 0 };
    if samples.noise > 300 {
        lava.spec_blend_add(rock)
    } else {
        rock.spec_blend_multiply(lava)
    }
}

/// Crystal: blue to purple facets under a white glint. Reads `noise` (by
/// its magnitude) and `pattern` (the angle term).
pub open spec fn spec_crystal_planet_shader(fragment: Fragment, samples: Samples) -> Color {
    let facet = magnitude(samples.noise as int);
    let glint = (samples.pattern + 500) / 2;
    let base = Color {
        r: to_channel(120 * glint / 1000),
        g: to_channel(160 * facet / 1000),
        b: to_channel(255 * glint / 1000),
    };
    base.spec_blend_add((Color { r: 255, g: 255, b: 255 }).spec_scale(300 + glint * 7 / 10))
}

/// A vortex: the swirl pattern and the noise pick the base colour, the
/// noise alone the highlight. Reads `noise` and `pattern` (the swirl).
pub open spec fn spec_vortex_planet_shader(fragment: Fragment, samples: Samples) -> Color {
    let n = normalized(samples.noise as int);
    let swirl = clamp(samples.pattern * 7 / 10 + n * 3 / 10, 0, 1000);
    let base = Color {
        r: to_channel(50 + 205 * swirl / 1000),
        g: to_channel(50 + 155 * (1000 - swirl) / 1000),
        b: to_channel(150 + 105 * swirl / 1000),
    };
    let glow = clamp(n / 2 + 500, 0, 1000);
    base.spec_blend_add((Color { r: 255, g: 200, b: 150 }).spec_scale(glow)).spec_scale(
        fragment.intensity as int,
    )
}

/// A banded gas giant in warm tones over an ambient term. Reads `pattern`
/// and `secondary` (the two band patterns).
pub open spec fn spec_ringed_planet(fragment: Fragment, samples: Samples) -> Color {
    let mixed = samples.pattern * 7 / 10 + samples.secondary * 3 / 10;
    let bands = if mixed > 1000 {
        1000
    } else {
        mixed
    };
    let base = Color {
        r: to_channel(bands * 230 / 1000),
        g: to_channel((1000 - bands) * 150 / 1000),
        b: to_channel(to_channel((500 - bands) * 50 / 1000) + 20),
    };
    base.spec_scale(fragment.intensity as int).spec_blend_add(
        (Color { r: 100, g: 50, b: 30 }).spec_scale(400),
    )
}

/// The rings of a planet: three tones mixed by a line pattern and noise,
/// dimmed by a tenth. Reads `noise` and `pattern` (the line pattern).
pub open spec fn spec_ring_shader(fragment: Fragment, samples: Samples) -> Color {
    let v = clamp(samples.pattern * 7 / 10 + samples.noise * 3 / 10, 0, 1000);
    (Color { r: 220, g: 200, b: 180 }).spec_lerp(Color { r: 150, g: 100, b: 70 }, v).spec_lerp(
        Color { r: 50, g: 30, b: 20 },
        v,
    ).spec_scale(900)
}

/// A rocky planet: the rock pattern, broken by dark fractures where the
/// normalized noise is above 0.35. Reads `noise`.
pub open spec fn spec_rocky_planet(fragment: Fragment, samples: Samples) -> Color {
    let n = normalized(samples.noise as int);
    let surface = if n > 350 {
        Color { r: 60, g: 30, b: 10 }
    } else {
        rock_pattern(n)
    };
    surface.spec_scale(fragment.intensity as int)
}

/// A moon: greys mixed by fractal noise of three octaves. Reads `noise` and
/// `octaves`.
pub open spec fn spec_moon_shader(fragment: Fragment, samples: Samples) -> Color {
    let rough = fractal(
        seq![samples.noise, samples.octaves@[0], samples.octaves@[1]],
        MOON_GAIN as int,
    );
    let factor = (rough + 1000) / 2;
    (Color { r: 50, g: 50, b: 50 }).spec_lerp(Color { r: 20, g: 20, b: 20 }, factor * 4 / 5).spec_lerp(
        Color { r: 150, g: 150, b: 150 },
        factor / 2,
    ).spec_scale(fragment.intensity as int)
}

/// Oceans and continents: land where the normalized noise is above the sea
/// level of 0.6, ocean elsewhere. Reads `noise`.
pub open spec fn spec_earth_like_planet_shader(fragment: Fragment, samples: Samples) -> Color {
    let surface = if normalized(samples.noise as int) > 600 {
        Color { r: 34, g: 139, b: 34 }
    } else {
        Color { r: 0, g: 105, b: 148 }
    };
    surface.spec_scale(fragment.intensity as int)
}

impl ShaderKind {
    /// The strategy that a tag names. Any tag outside the catalogue selects
    /// the fallback.
    pub open spec fn spec_from_tag(tag: Seq<char>) -> ShaderKind {
        if tag == "solar_surface"@ {
            ShaderKind::Solar
        } else if tag == "volcanic_planet_shader"@ {
            ShaderKind::Volcanic
        } else if tag == "molten_core_planet_shader"@ {
            ShaderKind::MoltenCore
        } else if tag == "crystal_planet_shader"@ {
            ShaderKind::Crystal
        } else if tag == "vortex"@ {
            ShaderKind::Vortex
        } else if tag == "ringed_planet"@ {
            ShaderKind::RingedPlanet
        } else if tag == "ring_shader"@ {
            ShaderKind::Ring
        } else if tag == "moon_shader"@ {
            ShaderKind::Moon
        } else if tag == "rocky_planet"@ {
            ShaderKind::Rocky
        } else if tag == "earth_like_planet_shader"@ {
            ShaderKind::EarthLike
        } else {
            ShaderKind::Fallback
        }
    }

    /// The colour that the strategy gives a fragment. The fallback is black.
    pub open spec fn spec_shade(self, fragment: Fragment, samples: Samples) -> Color {
        match self {
            ShaderKind::Solar => spec_solar_shader(fragment, samples),
            ShaderKind::Volcanic => spec_volcanic_planet_shader(fragment, samples),
            ShaderKind::MoltenCore => spec_molten_core_planet_shader(fragment, samples),
            ShaderKind::Crystal => spec_crystal_planet_shader(fragment, samples),
            ShaderKind::Vortex => spec_vortex_planet_shader(fragment, samples),
            ShaderKind::RingedPlanet => spec_ringed_planet(fragment, samples),
            ShaderKind::Ring => spec_ring_shader(fragment, samples),
            ShaderKind::Moon => spec_moon_shader(fragment, samples),
            ShaderKind::Rocky => spec_rocky_planet(fragment, samples),
            ShaderKind::EarthLike => spec_earth_like_planet_shader(fragment, samples),
            ShaderKind::Fallback => Color { r: 0, g: 0, b: 0 },
        }
    }

    /// The strategy that `tag` names; the fallback for a tag outside the
    /// catalogue.
    pub fn from_tag(tag: &str) -> (kind: ShaderKind)
        ensures
            kind == ShaderKind::spec_from_tag(tag@),
    {
        if same_text(tag, "solar_surface") {
            ShaderKind::Solar
        } else if same_text(tag, "volcanic_planet_shader") {
            ShaderKind::Volcanic
        } else if same_text(tag, "molten_core_planet_shader") {
            ShaderKind::MoltenCore
        } else if same_text(tag, "crystal_planet_shader") {
            ShaderKind::Crystal
        } else if same_text(tag, "vortex") {
            ShaderKind::Vortex
        } else if same_text(tag, "ringed_planet") {
            ShaderKind::RingedPlanet
        } else if same_text(tag, "ring_shader") {
            ShaderKind::Ring
        } else if same_text(tag, "moon_shader") {
            ShaderKind::Moon
        } else if same_text(tag, "rocky_planet") {
            ShaderKind::Rocky
        } else if same_text(tag, "earth_like_planet_shader") {
            ShaderKind::EarthLike
        } else {
            ShaderKind::Fallback
        }
    }

    /// The noise field that the strategy's `noise` sample is taken from,
    /// and the zoom by which the object-space position is multiplied before
    /// the field is read. A strategy that reads no noise has none.
    pub fn noise_source(&self) -> (source: Option<(NoiseField, i32)>)
        ensures
            source == (match *self {
                ShaderKind::Solar => Some((NoiseField::OpenSimplex, 15i32)),
                ShaderKind::Volcanic => Some((NoiseField::ValueCubic, 600i32)),
                ShaderKind::MoltenCore => Some((NoiseField::Cellular, 10i32)),
                ShaderKind::Crystal => Some((NoiseField::Cellular, 20i32)),
                ShaderKind::Vortex => Some((NoiseField::Perlin, 20i32)),
                ShaderKind::RingedPlanet => None,
                ShaderKind::Ring => Some((NoiseField::OpenSimplex, 50i32)),
                ShaderKind::Moon => Some((NoiseField::OpenSimplex, 80i32)),
                ShaderKind::Rocky => Some((NoiseField::Value, 1000i32)),
                ShaderKind::EarthLike => Some((NoiseField::Perlin, 200i32)),
                ShaderKind::Fallback => None,
            }),
    {
        match self {
            ShaderKind::Solar => Some((NoiseField::OpenSimplex, 15)),
            ShaderKind::Volcanic => Some((NoiseField::ValueCubic, 600)),
            ShaderKind::MoltenCore => Some((NoiseField::Cellular, 10)),
            ShaderKind::Crystal => Some((NoiseField::Cellular, 20)),
            ShaderKind::Vortex => Some((NoiseField::Perlin, 20)),
            ShaderKind::RingedPlanet => None,
            ShaderKind::Ring => Some((NoiseField::OpenSimplex, 50)),
            ShaderKind::Moon => Some((NoiseField::OpenSimplex, 80)),
            ShaderKind::Rocky => Some((NoiseField::Value, 1000)),
            ShaderKind::EarthLike => Some((NoiseField::Perlin, 200)),
            ShaderKind::Fallback => None,
        }
    }

    /// Shades one fragment by this strategy.
    pub fn shade(&self, fragment: &Fragment, samples: &Samples) -> (color: Color)
        ensures
            color == self.spec_shade(*fragment, *samples),
    {
        match self {
            ShaderKind::Solar => solar_shader(fragment, samples),
            ShaderKind::Volcanic => volcanic_planet_shader(fragment, samples),
            ShaderKind::MoltenCore => molten_core_planet_shader(fragment, samples),
            ShaderKind::Crystal => crystal_planet_shader(fragment, samples),
            ShaderKind::Vortex => vortex_planet_shader(fragment, samples),
            ShaderKind::RingedPlanet => ringed_planet(fragment, samples),
            ShaderKind::Ring => ring_shader(fragment, samples),
            ShaderKind::Moon => moon_shader(fragment, samples),
            ShaderKind::Rocky => rocky_planet(fragment, samples),
            ShaderKind::EarthLike => earth_like_planet_shader(fragment, samples),
            ShaderKind::Fallback => Color::black(),
        }
    }
}

fn same_text(a: &str, b: &str) -> (r: bool)
    ensures
        r == (a@ == b@),
{
    let left: String = a.to_owned();
    let right: String = b.to_owned();
    left == right
}

fn normalize(noise: i32) -> (n: i128)
    ensures
        n == normalized(noise as int),
        0 <= n <= 1000,
{
    clamp_to(floor_div(noise as i128 + 1000, 2), 0, 1000)
}

fn rock(n: i128) -> (c: Color)
    requires
        0 <= n <= 1000,
    ensures
        c == rock_pattern(n as int),
{
    Color::new(139, 69, 19).lerp_by(&Color::new(105, 60, 45), floor_div(n * 4, 5)).lerp_by(
        &Color::new(189, 183, 107),
        floor_div(n, 2),
    )
}

/// The surface of a star. Reads `noise`, `pattern` (the pulse in time) and
/// `secondary` (the strength of the halo).
pub fn solar_shader(fragment: &Fragment, samples: &Samples) -> (color: Color)
    ensures
        color == spec_solar_shader(*fragment, *samples),
{
    let pulse: i128 = floor_div(samples.pattern as i128 * 2, 5) + 800;
    let grain: i128 = floor_div(samples.noise as i128 * 3, 10) + 700;
    let warmth: i128 = 900 + floor_div(grain, 10);
    assert(-0x1_0000_0000_0000_0000 <= warmth * pulse <= 0x1_0000_0000_0000_0000)
        by (nonlinear_arith)
        requires
            -0x1_0000_0000 <= warmth <= 0x1_0000_0000,
            -0x1_0000_0000 <= pulse <= 0x1_0000_0000,
    ;
    let heat: i128 = floor_div(warmth * pulse, 1000);
    let core: Color = Color::new(255, 200, 50).scale_by(heat).scale(fragment.intensity);
    let halo: Color = Color::new(255, 140, 0).scale(samples.secondary);
    let ambient: Color = Color::new(255, 100, 50).scale(100);
    core.blend_add(&halo).blend_add(&ambient)
}

/// Volcanic rock over a dark red ambient term. Reads `noise`.
pub fn volcanic_planet_shader(fragment: &Fragment, samples: &Samples) -> (color: Color)
    ensures
        color == spec_volcanic_planet_shader(*fragment, *samples),
{
    let base: Color = rock(normalize(samples.noise));
    base.scale(fragment.intensity).blend_add(&Color::new(40, 20, 20).scale(300))
}

/// A molten core of lava and rock. Reads `noise` and `pattern` (the lava
/// pattern).
pub fn molten_core_planet_shader(fragment: &Fragment, samples: &Samples) -> (color: Color)
    ensures
        color == spec_molten_core_planet_shader(*fragment, *samples),
{
    let lava: Color = Color::new(255, channel(floor_div(80 * (samples.pattern as i128), 1000)), 0);
    let rock: Color = Color::new(
        channel(floor_div(50 * (1000 - samples.noise as i128), 1000)),
        0,
        0,
    );
    if samples.noise > 300 {
        lava.blend_add(&rock)
    } else {
        rock.blend_multiply(&lava)
    }
}

/// Crystal facets under a white glint. Reads `noise` and `pattern` (the
/// angle term).
pub fn crystal_planet_shader(fragment: &Fragment, samples: &Samples) -> (color: Color)
    ensures
        color == spec_crystal_planet_shader(*fragment, *samples),
{
    let noise: i128 = samples.noise as i128;
    let facet: i128 = if noise < 0 {
        -noise
    } else {
        noise
    };
    let glint: i128 = floor_div(samples.pattern as i128 + 500, 2);
    let base: Color = Color::new(
        channel(floor_div(120 * glint, 1000)),
        channel(floor_div(160 * facet, 1000)),
        channel(floor_div(255 * glint, 1000)),
    );
    base.blend_add(&Color::new(255, 255, 255).scale_by(300 + floor_div(glint * 7, 10)))
}

/// A vortex. Reads `noise` and `pattern` (the swirl).
pub fn vortex_planet_shader(fragment: &Fragment, samples: &Samples) -> (color: Color)
    ensures
        color == spec_vortex_planet_shader(*fragment, *samples),
{
    let n: i128 = normalize(samples.noise);
    let swirl: i128 = clamp_to(
        floor_div(samples.pattern as i128 * 7, 10) + floor_div(n * 3, 10),
        0,
        1000,
    );
    let base: Color = Color::new(
        channel(50 + floor_div(205 * swirl, 1000)),
        channel(50 + floor_div(155 * (1000 - swirl), 1000)),
        channel(150 + floor_div(105 * swirl, 1000)),
    );
    let glow: i128 = clamp_to(floor_div(n, 2) + 500, 0, 1000);
    base.blend_add(&Color::new(255, 200, 150).scale_by(glow)).scale(fragment.intensity)
}

/// A banded gas giant. Reads `pattern` and `secondary` (the two band
/// patterns).
pub fn ringed_planet(fragment: &Fragment, samples: &Samples) -> (color: Color)
    ensures
        color == spec_ringed_planet(*fragment, *samples),
{
    let mixed: i128 = floor_div(samples.pattern as i128 * 7, 10) + floor_div(
        samples.secondary as i128 * 3,
        10,
    );
    let bands: i128 = if mixed > 1000 {
        1000
    } else {
        mixed
    };
    let blue: u8 = channel(floor_div((500 - bands) * 50, 1000));
    let base: Color = Color::new(
        channel(floor_div(bands * 230, 1000)),
        channel(floor_div((1000 - bands) * 150, 1000)),
        channel(blue as i128 + 20),
    );
    base.scale(fragment.intensity).blend_add(&Color::new(100, 50, 30).scale(400))
}

/// The rings of a planet. Reads `noise` and `pattern` (the line pattern).
pub fn ring_shader(fragment: &Fragment, samples: &Samples) -> (color: Color)
    ensures
        color == spec_ring_shader(*fragment, *samples),
{
    let v: i128 = clamp_to(
        floor_div(samples.pattern as i128 * 7, 10) + floor_div(samples.noise as i128 * 3, 10),
        0,
        1000,
    );
    Color::new(220, 200, 180).lerp_by(&Color::new(150, 100, 70), v).lerp_by(
        &Color::new(50, 30, 20),
        v,
    ).scale(900)
}

/// A rocky planet with dark fractures. Reads `noise`.
pub fn rocky_planet(fragment: &Fragment, samples: &Samples) -> (color: Color)
    ensures
        color == spec_rocky_planet(*fragment, *samples),
{
    let n: i128 = normalize(samples.noise);
    let surface: Color = if n > 350 {
        Color::new(60, 30, 10)
    } else {
        rock(n)
    };
    surface.scale(fragment.intensity)
}

/// Oceans and continents. Reads `noise`.
pub fn earth_like_planet_shader(fragment: &Fragment, samples: &Samples) -> (color: Color)
    ensures
        color == spec_earth_like_planet_shader(*fragment, *samples),
{
    let surface: Color = if normalize(samples.noise) > 600 {
        Color::new(34, 139, 34)
    } else {
        Color::new(0, 105, 148)
    };
    surface.scale(fragment.intensity)
}

/// Whether the weights of the first `n` octaves can be summed in machine
/// integers: none is negative and none is above 2^30.
pub open spec fn weights_fit(gain: int, n: nat) -> bool {
    forall|k: nat| k < n ==> 0 <= #[trigger] octave_weight(gain, k) <= 0x4000_0000
}

/// With a gain between nothing and one whole, no octave weighs more than the
/// first.
proof fn lemma_octave_weight_range(gain: int, k: nat)
    requires
        0 <= gain <= UNIT,
    ensures
        0 <= octave_weight(gain, k) <= UNIT,
    decreases k,
{
    if k > 0 {
        lemma_octave_weight_range(gain, (k - 1) as nat);
        let w = octave_weight(gain, (k - 1) as nat);
        assert(0 <= w * gain <= 1000 * 1000) by (nonlinear_arith)
            requires
                0 <= w <= 1000,
                0 <= gain <= 1000,
        ;
    }
}

/// The weights fit for one octave whatever the gain, and for any number of
/// octaves when the gain lies between nothing and one whole.
pub proof fn lemma_weights_fit(gain: int, n: nat)
    requires
        n <= 1 || 0 <= gain <= UNIT,
    ensures
        weights_fit(gain, n),
{
    assert forall|k: nat| k < n implies 0 <= #[trigger] octave_weight(gain, k) <= 0x4000_0000 by {
        if n > 1 {
            lemma_octave_weight_range(gain, k);
        }
    }
}

/// Fractal noise is a mean: it lies between the least and the greatest of
/// the octaves, and of one octave it is that octave.
pub proof fn lemma_fractal_range(octaves: Seq<i32>, gain: int, lo: int, hi: int)
    requires
        octaves.len() > 0,
        weights_fit(gain, octaves.len()),
        forall|k: int| 0 <= k < octaves.len() ==> lo <= #[trigger] octaves[k] <= hi,
    ensures
        lo <= fractal(octaves, gain) <= hi,
        octaves.len() == 1 ==> fractal(octaves, gain) == octaves[0],
{
    let n = octaves.len();
    lemma_weighted_sum_range(octaves, gain, n, lo, hi);
    let w = weight_sum(gain, n);
    let total = weighted_sum(octaves, gain, n);
    assert(lo * w == w * lo && hi * w == w * hi) by (nonlinear_arith);
    vstd::arithmetic::div_mod::lemma_div_multiples_vanish(lo, w);
    vstd::arithmetic::div_mod::lemma_div_multiples_vanish(hi, w);
    vstd::arithmetic::div_mod::lemma_div_is_ordered(w * lo, total, w);
    vstd::arithmetic::div_mod::lemma_div_is_ordered(total, w * hi, w);
    if n == 1 {
        let v = octaves[0] as int;
        assert(forall|k: int| 0 <= k < octaves.len() ==> v <= #[trigger] octaves[k] <= v);
        lemma_weighted_sum_range(octaves, gain, n, v, v);
        assert(v * w == w * v) by (nonlinear_arith);
        vstd::arithmetic::div_mod::lemma_div_multiples_vanish(v, w);
    }
}

/// The weighted sum of octaves between `lo` and `hi` lies between `lo` and
/// `hi` times the sum of the weights.
proof fn lemma_weighted_sum_range(octaves: Seq<i32>, gain: int, n: nat, lo: int, hi: int)
    requires
        n <= octaves.len(),
        weights_fit(gain, n),
        forall|k: int| 0 <= k < n ==> lo <= #[trigger] octaves[k] <= hi,
    ensures
        0 <= weight_sum(gain, n) <= n * 0x4000_0000,
        n > 0 ==> weight_sum(gain, n) >= UNIT,
        lo * weight_sum(gain, n) <= weighted_sum(octaves, gain, n) <= hi * weight_sum(gain, n),
    decreases n,
{
    if n > 0 {
        let m = (n - 1) as nat;
        assert(weights_fit(gain, m));
        lemma_weighted_sum_range(octaves, gain, m, lo, hi);
        let w = octave_weight(gain, m);
        let v = octaves[n - 1] as int;
        let ws = weight_sum(gain, m);
        assert(0 <= w <= 0x4000_0000);
        assert(lo * w <= v * w <= hi * w) by (nonlinear_arith)
            requires
                0 <= w,
                lo <= v <= hi,
        ;
        assert(lo * (ws + w) == lo * ws + lo * w && hi * (ws + w) == hi * ws + hi * w)
            by (nonlinear_arith);
        assert(octave_weight(gain, 0) == UNIT);
        if m == 0 {
            assert(weight_sum(gain, 0) == 0);
        } else {
            assert(0 <= octave_weight(gain, 0));
        }
    } else {
        assert(lo * 0 == 0 && hi * 0 == 0);
    }
}

/// Fractal noise: the mean of the octaves, the first at full weight and
/// each later one at `gain` thousandths of the weight before it.
///
/// The weights must fit, which they do for one octave whatever the gain and
/// for any gain between nothing and one whole.
fn fractal_noise(octaves: &[i32], gain: i32) -> (r: i32)
    requires
        weights_fit(gain as int, octaves@.len()),
    ensures
        r == fractal(octaves@, gain as int),
{
    let count: usize = octaves.len();
    if count == 0 {
        return 0;
    }
    let mut total: i128 = 0;
    let mut weights: i128 = 0;
    let mut weight: i128 = 1000;
    let mut k: usize = 0;
    while k < count
        invariant
            count == octaves@.len(),
            weights_fit(gain as int, count as nat),
            k <= count,
            weight == octave_weight(gain as int, k as nat),
            weights == weight_sum(gain as int, k as nat),
            total == weighted_sum(octaves@, gain as int, k as nat),
            0 <= weights <= k * 0x4000_0000,
            k > 0 ==> weights >= 1000,
            -0x8000_0000 * weights <= total <= 0x7fff_ffff * weights,
        decreases count - k,
    {
        proof {
            assert(weights_fit(gain as int, (k + 1) as nat));
            lemma_weighted_sum_range(
                octaves@,
                gain as int,
                (k + 1) as nat,
                -0x8000_0000,
                0x7fff_ffff,
            );
            assert(0 <= octave_weight(gain as int, k as nat) <= 0x4000_0000);
        }
        let v: i128 = octaves[k] as i128;
        assert(-0x8000_0000 * 0x4000_0000 <= v * weight <= 0x8000_0000 * 0x4000_0000)
            by (nonlinear_arith)
            requires
                0 <= weight <= 0x4000_0000,
                -0x8000_0000 <= v <= 0x7fff_ffff,
        ;
        assert(-0x4000_0000 * 0x8000_0000 <= weight * gain <= 0x4000_0000 * 0x8000_0000)
            by (nonlinear_arith)
            requires
                0 <= weight <= 0x4000_0000,
                -0x8000_0000 <= gain <= 0x7fff_ffff,
        ;
        assert(k * 0x4000_0000 <= 0x1_0000_0000_0000_0000 * 0x4000_0000) by (nonlinear_arith)
            requires
                0 <= k <= 0xffff_ffff_ffff_ffff,
        ;
        total = total + v * weight;
        weights = weights + weight;
        weight = floor_div(weight * (gain as i128), 1000);
        k += 1;
    }
    proof {
        lemma_fractal_range(octaves@, gain as int, -0x8000_0000, 0x7fff_ffff);
    }
    floor_div(total, weights) as i32
}

/// A moon in greys. Reads `noise` and `octaves`.
pub fn moon_shader(fragment: &Fragment, samples: &Samples) -> (color: Color)
    ensures
        color == spec_moon_shader(*fragment, *samples),
{
    let octaves: [i32; 3] = [samples.noise, samples.octaves[0], samples.octaves[1]];
    assert(octaves@ =~= seq![samples.noise, samples.octaves@[0], samples.octaves@[1]]);
    proof {
        lemma_weights_fit(MOON_GAIN as int, 3);
    }
    let rough: i32 = fractal_noise(octaves.as_slice(), MOON_GAIN);
    let factor: i128 = floor_div(rough as i128 + 1000, 2);
    Color::new(50, 50, 50).lerp_by(&Color::new(20, 20, 20), floor_div(factor * 4, 5)).lerp_by(
        &Color::new(150, 150, 150),
        floor_div(factor, 2),
    ).scale(fragment.intensity)
}

/// The colour of a fragment under the strategy that a tag names.
pub open spec fn spec_fragment_shader(fragment: Fragment, samples: Samples, tag: Seq<char>)
    -> Color {
    ShaderKind::spec_from_tag(tag).spec_shade(fragment, samples)
}

/// Shades one fragment by the strategy that `shader_type` names. A tag
/// outside the catalogue gives black.
pub fn fragment_shader(fragment: &Fragment, samples: &Samples, shader_type: &str) -> (color: Color)
    ensures
        color == spec_fragment_shader(*fragment, *samples, shader_type@),
{
    ShaderKind::from_tag(shader_type).shade(fragment, samples)
}

/// Shading is a function of its arguments: the same fragment, the same
/// samples and the same tag give the same colour.
pub proof fn lemma_shading_repeats(
    f1: Fragment,
    s1: Samples,
    t1: Seq<char>,
    f2: Fragment,
    s2: Samples,
    t2: Seq<char>,
)
    requires
        f1 == f2,
        s1 == s2,
        t1 == t2,
    ensures
        spec_fragment_shader(f1, s1, t1) == spec_fragment_shader(f2, s2, t2),
{
}

} // verus!
