use softraster::color::Color;
use softraster::fragment::{
    crystal_planet_shader, earth_like_planet_shader, fragment_shader, molten_core_planet_shader,
    moon_shader, ring_shader, ringed_planet, rocky_planet, solar_shader, volcanic_planet_shader,
    vortex_planet_shader, Fragment, NoiseField, Samples, ShaderKind, MOON_GAIN, MOON_LACUNARITY,
};
use softraster::vertex::{Vec2, Vec3};

fn lit(intensity: i32) -> Fragment {
    Fragment::new(Vec2::new(3, 4), 9, intensity, Vec3::new(100, 200, 300))
}

fn fields(noise: i32, pattern: i32, secondary: i32) -> Samples {
    Samples { noise, octaves: [0, 0], pattern, secondary }
}

fn octaves(noise: i32, second: i32, third: i32) -> Samples {
    Samples { noise, octaves: [second, third], pattern: 0, secondary: 0 }
}

const TAGS: [&str; 10] = [
    "solar_surface",
    "volcanic_planet_shader",
    "molten_core_planet_shader",
    "crystal_planet_shader",
    "vortex",
    "ringed_planet",
    "ring_shader",
    "moon_shader",
    "rocky_planet",
    "earth_like_planet_shader",
];

#[test]
fn fragment_new_keeps_fields() {
    let f = Fragment::new(Vec2::new(1, 2), 3, 4, Vec3::new(5, 6, 7));
    assert_eq!(f.position, Vec2::new(1, 2));
    assert_eq!(f.depth, 3);
    assert_eq!(f.intensity, 4);
    assert_eq!(f.vertex_position, Vec3::new(5, 6, 7));
}

#[test]
fn tags_select_their_strategies() {
    let kinds: [ShaderKind; 10] = [
        ShaderKind::Solar,
        ShaderKind::Volcanic,
        ShaderKind::MoltenCore,
        ShaderKind::Crystal,
        ShaderKind::Vortex,
        ShaderKind::RingedPlanet,
        ShaderKind::Ring,
        ShaderKind::Moon,
        ShaderKind::Rocky,
        ShaderKind::EarthLike,
    ];
    for (tag, kind) in TAGS.iter().zip(kinds.iter()) {
        assert_eq!(ShaderKind::from_tag(tag), *kind);
    }
}

#[test]
fn unknown_tags_select_the_fallback() {
    for tag in ["", "orbit_shader", "jet_shader", "vortex_shader", "Solar_surface", "vortex ", "gas_giant_shader"] {
        assert_eq!(ShaderKind::from_tag(tag), ShaderKind::Fallback);
    }
}

#[test]
fn unknown_tag_shades_black() {
    let s = fields(700, 300, 900);
    assert_eq!(fragment_shader(&lit(1000), &s, "orbit_shader"), Color::new(0, 0, 0));
    assert_eq!(fragment_shader(&lit(1000), &s, ""), Color::new(0, 0, 0));
    assert_eq!(ShaderKind::Fallback.shade(&lit(1000), &s), Color::new(0, 0, 0));
}

#[test]
fn dispatcher_routes_each_tag_to_its_strategy() {
    let f = lit(800);
    let s = Samples { noise: 250, octaves: [-300, 200], pattern: 600, secondary: 400 };
    assert_eq!(fragment_shader(&f, &s, "solar_surface"), solar_shader(&f, &s));
    assert_eq!(fragment_shader(&f, &s, "volcanic_planet_shader"), volcanic_planet_shader(&f, &s));
    assert_eq!(
        fragment_shader(&f, &s, "molten_core_planet_shader"),
        molten_core_planet_shader(&f, &s)
    );
    assert_eq!(fragment_shader(&f, &s, "crystal_planet_shader"), crystal_planet_shader(&f, &s));
    assert_eq!(fragment_shader(&f, &s, "vortex"), vortex_planet_shader(&f, &s));
    assert_eq!(fragment_shader(&f, &s, "ringed_planet"), ringed_planet(&f, &s));
    assert_eq!(fragment_shader(&f, &s, "ring_shader"), ring_shader(&f, &s));
    assert_eq!(fragment_shader(&f, &s, "moon_shader"), moon_shader(&f, &s));
    assert_eq!(fragment_shader(&f, &s, "rocky_planet"), rocky_planet(&f, &s));
    assert_eq!(
        fragment_shader(&f, &s, "earth_like_planet_shader"),
        earth_like_planet_shader(&f, &s)
    );
}

#[test]
fn shading_is_repeatable() {
    let f = lit(730);
    let s = Samples { noise: -412, octaves: [318, -77], pattern: 655, secondary: 120 };
    for tag in TAGS.iter().chain(["no_such_shader"].iter()) {
        let first = fragment_shader(&f, &s, tag);
        let again = fragment_shader(&f, &s, tag);
        assert_eq!(first, again);
        assert_eq!(ShaderKind::from_tag(tag).shade(&f, &s), first);
    }
}

#[test]
fn noise_sources_of_the_strategies() {
    assert_eq!(ShaderKind::Solar.noise_source(), Some((NoiseField::OpenSimplex, 15)));
    assert_eq!(ShaderKind::Volcanic.noise_source(), Some((NoiseField::ValueCubic, 600)));
    assert_eq!(ShaderKind::MoltenCore.noise_source(), Some((NoiseField::Cellular, 10)));
    assert_eq!(ShaderKind::Crystal.noise_source(), Some((NoiseField::Cellular, 20)));
    assert_eq!(ShaderKind::Vortex.noise_source(), Some((NoiseField::Perlin, 20)));
    assert_eq!(ShaderKind::RingedPlanet.noise_source(), None);
    assert_eq!(ShaderKind::Ring.noise_source(), Some((NoiseField::OpenSimplex, 50)));
    assert_eq!(ShaderKind::Moon.noise_source(), Some((NoiseField::OpenSimplex, 80)));
    assert_eq!(ShaderKind::Rocky.noise_source(), Some((NoiseField::Value, 1000)));
    assert_eq!(ShaderKind::EarthLike.noise_source(), Some((NoiseField::Perlin, 200)));
    assert_eq!(ShaderKind::Fallback.noise_source(), None);
    assert_eq!(MOON_GAIN, 120);
    assert_eq!(MOON_LACUNARITY, 2760);
}

#[test]
fn solar_colors() {
    assert_eq!(solar_shader(&lit(1000), &fields(0, 0, 0)), Color::new(222, 165, 43));
    assert_eq!(solar_shader(&lit(800), &fields(500, 1000, 1000)), Color::new(255, 255, 52));
    assert_eq!(solar_shader(&lit(1000), &fields(-1000, -1000, 0)), Color::new(120, 85, 23));
    assert_eq!(solar_shader(&lit(500), &fields(250, -300, 400)), Color::new(211, 132, 21));
}

#[test]
fn solar_ambient_term_is_the_floor() {
    assert_eq!(solar_shader(&lit(0), &fields(0, 0, 0)), Color::new(25, 10, 5));
    assert_eq!(solar_shader(&lit(0), &fields(0, 0, 1000)), Color::new(255, 150, 5));
}

#[test]
fn volcanic_colors() {
    assert_eq!(volcanic_planet_shader(&lit(1000), &fields(0, 0, 0)), Color::new(153, 101, 55));
    assert_eq!(volcanic_planet_shader(&lit(700), &fields(600, 0, 0)), Color::new(114, 83, 50));
    assert_eq!(volcanic_planet_shader(&lit(1000), &fields(-1000, 0, 0)), Color::new(151, 75, 25));
    assert_eq!(volcanic_planet_shader(&lit(1000), &fields(1000, 0, 0)), Color::new(163, 129, 80));
    assert_eq!(volcanic_planet_shader(&lit(0), &fields(1000, 0, 0)), Color::new(12, 6, 6));
}

#[test]
fn molten_core_colors() {
    assert_eq!(molten_core_planet_shader(&lit(1000), &fields(500, 500, 0)), Color::new(255, 40, 0));
    assert_eq!(molten_core_planet_shader(&lit(1000), &fields(300, 1000, 0)), Color::new(35, 0, 0));
    assert_eq!(molten_core_planet_shader(&lit(1000), &fields(-200, 750, 0)), Color::new(60, 0, 0));
    assert_eq!(molten_core_planet_shader(&lit(1000), &fields(301, 0, 0)), Color::new(255, 0, 0));
    assert_eq!(
        molten_core_planet_shader(&lit(0), &fields(500, 500, 0)),
        molten_core_planet_shader(&lit(1000), &fields(500, 500, 0))
    );
}

#[test]
fn crystal_colors() {
    assert_eq!(crystal_planet_shader(&lit(1000), &fields(-400, 500, 0)), Color::new(225, 229, 255));
    assert_eq!(crystal_planet_shader(&lit(1000), &fields(1000, 1000, 0)), Color::new(255, 255, 255));
    assert_eq!(crystal_planet_shader(&lit(1000), &fields(0, 0, 0)), Color::new(151, 121, 184));
    assert_eq!(
        crystal_planet_shader(&lit(1000), &fields(400, 500, 0)),
        crystal_planet_shader(&lit(1000), &fields(-400, 500, 0))
    );
}

#[test]
fn vortex_colors() {
    assert_eq!(vortex_planet_shader(&lit(1000), &fields(0, 500, 0)), Color::new(255, 255, 255));
    assert_eq!(vortex_planet_shader(&lit(600), &fields(1000, 1000, 0)), Color::new(153, 150, 153));
    assert_eq!(vortex_planet_shader(&lit(1000), &fields(-1000, 0, 0)), Color::new(177, 255, 225));
    assert_eq!(vortex_planet_shader(&lit(0), &fields(0, 500, 0)), Color::new(0, 0, 0));
}

#[test]
fn ringed_planet_colors() {
    assert_eq!(ringed_planet(&lit(1000), &fields(0, 500, 500)), Color::new(155, 95, 32));
    assert_eq!(ringed_planet(&lit(500), &fields(0, 0, 0)), Color::new(40, 95, 34));
    assert_eq!(ringed_planet(&lit(1000), &fields(0, 1000, 1000)), Color::new(255, 20, 32));
    assert_eq!(ringed_planet(&lit(1000), &fields(0, 2000, 0)), Color::new(255, 20, 32));
    assert_eq!(ringed_planet(&lit(0), &fields(0, 700, 100)), Color::new(40, 20, 12));
}

#[test]
fn ring_colors() {
    assert_eq!(ring_shader(&lit(1000), &fields(0, 0, 0)), Color::new(198, 180, 162));
    assert_eq!(ring_shader(&lit(1000), &fields(1000, 1000, 0)), Color::new(45, 27, 18));
    assert_eq!(ring_shader(&lit(1000), &fields(-500, 800, 0)), Color::new(119, 95, 79));
    assert_eq!(ring_shader(&lit(0), &fields(-500, 800, 0)), Color::new(119, 95, 79));
}

#[test]
fn rocky_planet_colors() {
    assert_eq!(rocky_planet(&lit(1000), &fields(-1000, 0, 0)), Color::new(139, 69, 19));
    assert_eq!(rocky_planet(&lit(1000), &fields(-300, 0, 0)), Color::new(140, 86, 40));
    assert_eq!(rocky_planet(&lit(800), &fields(-600, 0, 0)), Color::new(112, 64, 24));
}

#[test]
fn rocky_planet_fractures_above_threshold() {
    assert_eq!(rocky_planet(&lit(1000), &fields(-298, 0, 0)), Color::new(60, 30, 10));
    assert_eq!(rocky_planet(&lit(500), &fields(200, 0, 0)), Color::new(30, 15, 5));
    assert_eq!(rocky_planet(&lit(1000), &fields(1000, 0, 0)), Color::new(60, 30, 10));
    assert_eq!(rocky_planet(&lit(1000), &fields(i32::MAX, 0, 0)), Color::new(60, 30, 10));
    assert_eq!(rocky_planet(&lit(1000), &fields(i32::MIN, 0, 0)), Color::new(139, 69, 19));
}

#[test]
fn moon_colors() {
    assert_eq!(moon_shader(&lit(1000), &octaves(0, 0, 0)), Color::new(66, 66, 66));
    assert_eq!(moon_shader(&lit(1000), &octaves(1000, 1000, 1000)), Color::new(88, 88, 88));
    assert_eq!(moon_shader(&lit(900), &octaves(500, -300, 200)), Color::new(66, 66, 66));
}

#[test]
fn moon_weighs_the_first_octave_most() {
    let base = moon_shader(&lit(1000), &octaves(1000, 0, 0));
    let second = moon_shader(&lit(1000), &octaves(0, 1000, 0));
    let third = moon_shader(&lit(1000), &octaves(0, 0, 1000));
    assert_eq!(base, Color::new(85, 85, 85));
    assert_eq!(second, Color::new(68, 68, 68));
    assert_eq!(third, Color::new(66, 66, 66));
}

#[test]
fn earth_like_colors() {
    assert_eq!(earth_like_planet_shader(&lit(1000), &fields(0, 0, 0)), Color::new(0, 105, 148));
    assert_eq!(earth_like_planet_shader(&lit(1000), &fields(200, 0, 0)), Color::new(0, 105, 148));
    assert_eq!(earth_like_planet_shader(&lit(1000), &fields(202, 0, 0)), Color::new(34, 139, 34));
    assert_eq!(earth_like_planet_shader(&lit(500), &fields(1000, 0, 0)), Color::new(17, 69, 17));
}

#[test]
fn extreme_samples_do_not_overflow() {
    let lights: [i32; 5] = [i32::MIN, -1, 0, 1000, i32::MAX];
    let values: [i32; 5] = [i32::MIN, -1000, 0, 1000, i32::MAX];
    for intensity in lights {
        for noise in values {
            for pattern in values {
                let s = Samples { noise, octaves: [pattern, noise], pattern, secondary: noise };
                for tag in TAGS {
                    let c = fragment_shader(&lit(intensity), &s, tag);
                    assert_eq!(c, fragment_shader(&lit(intensity), &s, tag));
                }
            }
        }
    }
}
