use softraster::color::Color;
use softraster::fixed::UNIT;
use softraster::framebuffer::{Framebuffer, FAR};
use softraster::line::draw_line;
use softraster::line::trace;
use softraster::vertex::{Vec2, Vec3, Vertex};

fn screen_vertex(x: i32, y: i32, z: i32) -> Vertex {
    let mut v = Vertex::new(Vec3::new(7, 8, 9), Vec3::new(0, 0, 1000), Vec2::new(0, 0));
    v.set_transformed(Vec3::new(x * 256, y * 256, z), Vec3::new(0, 0, 1000));
    v
}

fn pixels_of(x0: i32, y0: i32, x1: i32, y1: i32) -> Vec<(i32, i32)> {
    trace(x0, y0, x1, y1).iter().map(|p| (p.x, p.y)).collect()
}

#[test]
fn horizontal_line_has_five_fragments() {
    let a = screen_vertex(0, 0, 0);
    let b = screen_vertex(4, 0, 0);
    let fragments = softraster::line::line(&a, &b);
    assert_eq!(fragments.len(), 5);
    for (i, f) in fragments.iter().enumerate() {
        assert_eq!(f.position, Vec2::new(i as i32, 0));
        assert_eq!(f.depth, 0);
        assert_eq!(f.intensity, UNIT);
        assert_eq!(f.vertex_position, Vec3::new(7, 8, 9));
    }
}

#[test]
fn trace_single_pixel() {
    assert_eq!(pixels_of(3, -2, 3, -2), vec![(3, -2)]);
}

#[test]
fn trace_diagonal() {
    assert_eq!(pixels_of(0, 0, 3, 3), vec![(0, 0), (1, 1), (2, 2), (3, 3)]);
    assert_eq!(pixels_of(0, 0, -3, 3), vec![(0, 0), (-1, 1), (-2, 2), (-3, 3)]);
}

#[test]
fn trace_shallow_line_rounds_half_down() {
    assert_eq!(pixels_of(0, 0, 4, 2), vec![(0, 0), (1, 0), (2, 1), (3, 1), (4, 2)]);
    assert_eq!(pixels_of(0, 0, 2, 1), vec![(0, 0), (1, 0), (2, 1)]);
}

#[test]
fn trace_steep_line() {
    assert_eq!(pixels_of(0, 0, 1, 3), vec![(0, 0), (0, 1), (1, 2), (1, 3)]);
    assert_eq!(pixels_of(5, 5, 4, 2), vec![(5, 5), (5, 4), (4, 3), (4, 2)]);
}

#[test]
fn trace_runs_from_first_to_second_endpoint() {
    assert_eq!(pixels_of(4, 0, 0, 0), vec![(4, 0), (3, 0), (2, 0), (1, 0), (0, 0)]);
    assert_eq!(pixels_of(0, 2, 0, -1), vec![(0, 2), (0, 1), (0, 0), (0, -1)]);
}

#[test]
fn trace_step_count_is_longer_span_plus_one() {
    let cases: [(i32, i32, i32, i32); 6] =
        [(0, 0, 10, 3), (0, 0, 3, 10), (-5, 7, 5, -7), (2, 2, 2, 9), (9, 1, -9, 1), (-3, -3, 4, 4)];
    for (x0, y0, x1, y1) in cases {
        let pixels = trace(x0, y0, x1, y1);
        let dx: i32 = (x1 - x0).abs();
        let dy: i32 = (y1 - y0).abs();
        assert_eq!(pixels.len() as i32, dx.max(dy) + 1);
        assert_eq!(pixels[0], Vec2::new(x0, y0));
        assert_eq!(pixels[pixels.len() - 1], Vec2::new(x1, y1));
        for pair in pixels.windows(2) {
            assert!((pair[1].x - pair[0].x).abs() <= 1);
            assert!((pair[1].y - pair[0].y).abs() <= 1);
            assert!(pair[0] != pair[1]);
        }
    }
}

#[test]
fn trace_extreme_coordinates_do_not_overflow() {
    let pixels = trace(i32::MAX - 2, i32::MIN, i32::MAX, i32::MIN + 1);
    assert_eq!(
        pixels,
        vec![
            Vec2::new(i32::MAX - 2, i32::MIN),
            Vec2::new(i32::MAX - 1, i32::MIN),
            Vec2::new(i32::MAX, i32::MIN + 1),
        ]
    );
}

#[test]
fn line_depth_follows_the_steps() {
    let a = screen_vertex(0, 0, 0);
    let b = screen_vertex(4, 0, 100);
    let depths: Vec<i32> = softraster::line::line(&a, &b).iter().map(|f| f.depth).collect();
    assert_eq!(depths, vec![0, 25, 50, 75, 100]);
    let back: Vec<i32> = softraster::line::line(&b, &a).iter().map(|f| f.depth).collect();
    assert_eq!(back, vec![100, 75, 50, 25, 0]);
}

#[test]
fn line_depth_rounds_down() {
    let a = screen_vertex(0, 0, 0);
    let b = screen_vertex(4, 1, 10);
    let depths: Vec<i32> = softraster::line::line(&a, &b).iter().map(|f| f.depth).collect();
    assert_eq!(depths, vec![0, 2, 5, 7, 10]);
    let back: Vec<i32> = softraster::line::line(&b, &a).iter().map(|f| f.depth).collect();
    assert_eq!(back, vec![10, 7, 5, 2, 0]);
}

#[test]
fn vertical_line_interpolates_depth() {
    let a = screen_vertex(2, 0, 8);
    let b = screen_vertex(2, 4, 0);
    let fragments = softraster::line::line(&a, &b);
    assert_eq!(fragments.len(), 5);
    let depths: Vec<i32> = fragments.iter().map(|f| f.depth).collect();
    assert_eq!(depths, vec![8, 6, 4, 2, 0]);
    for (i, f) in fragments.iter().enumerate() {
        assert_eq!(f.position, Vec2::new(2, i as i32));
    }
}

#[test]
fn line_of_one_pixel_has_first_depth() {
    let a = screen_vertex(3, 3, 42);
    let b = screen_vertex(3, 3, 99);
    let fragments = softraster::line::line(&a, &b);
    assert_eq!(fragments.len(), 1);
    assert_eq!(fragments[0].depth, 42);
    assert_eq!(fragments[0].position, Vec2::new(3, 3));
}

#[test]
fn line_depth_extremes_do_not_overflow() {
    let a = screen_vertex(0, 0, i32::MIN);
    let b = screen_vertex(2, 0, i32::MAX);
    let depths: Vec<i32> = softraster::line::line(&a, &b).iter().map(|f| f.depth).collect();
    assert_eq!(depths, vec![i32::MIN, -1, i32::MAX]);
}

#[test]
fn line_cuts_positions_to_pixels_toward_zero() {
    let mut a = screen_vertex(0, 0, 0);
    let mut b = screen_vertex(0, 0, 0);
    a.set_transformed(Vec3::new(255, 256, 0), Vec3::new(0, 0, 1000));
    b.set_transformed(Vec3::new(-1, 511, 0), Vec3::new(0, 0, 1000));
    let fragments = softraster::line::line(&a, &b);
    assert_eq!(fragments.len(), 1);
    assert_eq!(fragments[0].position, Vec2::new(0, 1));
    b.set_transformed(Vec3::new(-256, -257, 0), Vec3::new(0, 0, 1000));
    let longer = softraster::line::line(&a, &b);
    assert_eq!(longer.len(), 3);
    assert_eq!(longer[0].position, Vec2::new(0, 1));
    assert_eq!(longer[2].position, Vec2::new(-1, -1));
}

#[test]
fn line_from_half_a_pixel_left_of_zero_has_four_fragments() {
    let mut a = screen_vertex(0, 0, 0);
    let b = screen_vertex(3, 0, 0);
    a.set_transformed(Vec3::new(-128, 0, 0), Vec3::new(0, 0, 1000));
    let fragments = softraster::line::line(&a, &b);
    assert_eq!(fragments.len(), 4);
    for (i, f) in fragments.iter().enumerate() {
        assert_eq!(f.position, Vec2::new(i as i32, 0));
    }
}

#[test]
fn line_cuts_extreme_positions() {
    let mut a = screen_vertex(0, 0, 0);
    let mut b = screen_vertex(0, 0, 0);
    a.set_transformed(Vec3::new(i32::MIN, i32::MAX, 0), Vec3::new(0, 0, 1000));
    b.set_transformed(Vec3::new(i32::MIN + 511, i32::MAX - 255, 0), Vec3::new(0, 0, 1000));
    let fragments = softraster::line::line(&a, &b);
    assert_eq!(fragments.len(), 3);
    assert_eq!(fragments[0].position, Vec2::new(-8388608, 8388607));
    assert_eq!(fragments[1].position, Vec2::new(-8388607, 8388607));
    assert_eq!(fragments[2].position, Vec2::new(-8388606, 8388607));
}

#[test]
fn draw_line_cuts_positions_toward_zero() {
    let mut fb = Framebuffer::new(4, 2);
    let mut a = screen_vertex(0, 0, 0);
    let mut b = screen_vertex(0, 0, 0);
    a.set_transformed(Vec3::new(-200, -100, 0), Vec3::new(0, 0, 1000));
    b.set_transformed(Vec3::new(700, 300, 0), Vec3::new(0, 0, 1000));
    draw_line(&a, &b, &mut fb, Color::new(1, 2, 3));
    assert_eq!(fb.get_color(0, 0), Some(0x01_0203));
    assert_eq!(fb.get_color(1, 0), Some(0x01_0203));
    assert_eq!(fb.get_color(2, 1), Some(0x01_0203));
    assert_eq!(fb.get_color(3, 0), Some(0));
    assert_eq!(fb.buffer().iter().filter(|&&c| c != 0).count(), 3);
}

#[test]
fn draw_line_writes_every_pixel_at_depth_zero() {
    let mut fb = Framebuffer::new(8, 8);
    fb.clear();
    let color = Color::new(10, 20, 30);
    draw_line(&screen_vertex(0, 0, 55), &screen_vertex(4, 2, 66), &mut fb, color);
    let on_line: [(usize, usize); 5] = [(0, 0), (1, 0), (2, 1), (3, 1), (4, 2)];
    for y in 0..8usize {
        for x in 0..8usize {
            if on_line.contains(&(x, y)) {
                assert_eq!(fb.get_color(x, y), Some(color.to_hex()));
                assert_eq!(fb.get_depth(x, y), Some(0));
            } else {
                assert_eq!(fb.get_color(x, y), Some(0));
                assert_eq!(fb.get_depth(x, y), Some(FAR));
            }
        }
    }
}

#[test]
fn draw_line_clips_at_the_border() {
    let mut fb = Framebuffer::new(3, 3);
    draw_line(&screen_vertex(-2, 1, 0), &screen_vertex(5, 1, 0), &mut fb, Color::new(1, 2, 3));
    for y in 0..3usize {
        for x in 0..3usize {
            if y == 1 {
                assert_eq!(fb.get_color(x, y), Some(0x01_0203));
            } else {
                assert_eq!(fb.get_color(x, y), Some(0));
            }
        }
    }
}

#[test]
fn draw_line_respects_closer_pixels() {
    let mut fb = Framebuffer::new(4, 1);
    fb.write(1, 0, -1, 0xaa_aaaa);
    fb.write(2, 0, 0, 0xbb_bbbb);
    fb.write(3, 0, 1, 0xcc_cccc);
    draw_line(&screen_vertex(0, 0, 0), &screen_vertex(3, 0, 0), &mut fb, Color::new(1, 1, 1));
    assert_eq!(fb.get_color(0, 0), Some(0x01_0101));
    assert_eq!(fb.get_color(1, 0), Some(0xaa_aaaa));
    assert_eq!(fb.get_color(2, 0), Some(0xbb_bbbb));
    assert_eq!(fb.get_color(3, 0), Some(0x01_0101));
}

#[test]
fn draw_line_outside_leaves_current_color() {
    let mut fb = Framebuffer::new(2, 2);
    fb.set_current_color(0x77_7777);
    draw_line(&screen_vertex(5, 5, 0), &screen_vertex(9, 5, 0), &mut fb, Color::new(1, 1, 1));
    fb.point(0, 0, 1);
    assert_eq!(fb.get_color(0, 0), Some(0x77_7777));
}
