use softraster::color::Color;
use softraster::shaders::{
    normalize, transform_vertices, vertex_shader, Projected, TransformError, W_ONE,
};
use softraster::vertex::{Vec2, Vec3, Vec4, Vertex};

fn mesh_vertex() -> Vertex {
    let mut v = Vertex::new(Vec3::new(11, 22, 33), Vec3::new(0, 500, 0), Vec2::new(4, 5));
    v.color = Color::new(9, 8, 7);
    v
}

#[test]
fn w_of_one_keeps_the_position() {
    assert_eq!(W_ONE, 65536);
    let out = vertex_shader(&mesh_vertex(), &Vec4::new(256, 512, 7, W_ONE), &Vec3::new(0, 0, 5));
    let v = out.unwrap();
    assert_eq!(v.transformed_position, Vec3::new(256, 512, 7));
    assert_eq!(v.transformed_normal, Vec3::new(0, 0, 1000));
}

#[test]
fn vertex_shader_keeps_the_attributes() {
    let v = vertex_shader(&mesh_vertex(), &Vec4::new(1, 2, 3, W_ONE), &Vec3::new(1, 0, 0)).unwrap();
    assert_eq!(v.position, Vec3::new(11, 22, 33));
    assert_eq!(v.normal, Vec3::new(0, 500, 0));
    assert_eq!(v.tex_coords, Vec2::new(4, 5));
    assert_eq!(v.color, Color::new(9, 8, 7));
}

#[test]
fn zero_w_is_an_error() {
    let out = vertex_shader(&mesh_vertex(), &Vec4::new(256, 512, 7, 0), &Vec3::new(0, 0, 5));
    assert_eq!(out, Err(TransformError::ZeroW));
    let zero = vertex_shader(&mesh_vertex(), &Vec4::new(0, 0, 0, 0), &Vec3::new(0, 0, 0));
    assert_eq!(zero, Err(TransformError::ZeroW));
}

#[test]
fn smallest_w_is_not_an_error() {
    let v = vertex_shader(&mesh_vertex(), &Vec4::new(5, -5, 0, 1), &Vec3::new(0, 0, 1)).unwrap();
    assert_eq!(v.transformed_position, Vec3::new(327680, -327680, 0));
    let n = vertex_shader(&mesh_vertex(), &Vec4::new(5, -5, 0, -1), &Vec3::new(0, 0, 1)).unwrap();
    assert_eq!(n.transformed_position, Vec3::new(-327680, 327680, 0));
}

#[test]
fn perspective_division_rounds_down() {
    let v = vertex_shader(&mesh_vertex(), &Vec4::new(100, -101, 7, 2 * W_ONE), &Vec3::new(0, 0, 1))
        .unwrap();
    assert_eq!(v.transformed_position, Vec3::new(50, -51, 3));
}

#[test]
fn negative_w_mirrors_the_position() {
    let v = vertex_shader(&mesh_vertex(), &Vec4::new(100, -100, 7, -W_ONE), &Vec3::new(0, 0, 1))
        .unwrap();
    assert_eq!(v.transformed_position, Vec3::new(-100, 100, -7));
    let h = vertex_shader(&mesh_vertex(), &Vec4::new(7, 0, -7, -2 * W_ONE), &Vec3::new(0, 0, 1))
        .unwrap();
    assert_eq!(h.transformed_position, Vec3::new(-4, 0, 3));
}

#[test]
fn perspective_division_saturates() {
    let v = vertex_shader(&mesh_vertex(), &Vec4::new(i32::MAX, i32::MIN, 1, 1), &Vec3::new(0, 0, 1))
        .unwrap();
    assert_eq!(v.transformed_position, Vec3::new(i32::MAX, i32::MIN, 65536));
    let n = vertex_shader(&mesh_vertex(), &Vec4::new(i32::MIN, i32::MAX, 0, -1), &Vec3::new(0, 0, 1))
        .unwrap();
    assert_eq!(n.transformed_position, Vec3::new(i32::MAX, i32::MIN, 0));
    let wide =
        vertex_shader(&mesh_vertex(), &Vec4::new(1, -1, i32::MAX, i32::MAX), &Vec3::new(0, 0, 1))
            .unwrap();
    assert_eq!(wide.transformed_position, Vec3::new(0, -1, 65536));
    let low =
        vertex_shader(&mesh_vertex(), &Vec4::new(1, -1, 0, i32::MIN), &Vec3::new(0, 0, 1)).unwrap();
    assert_eq!(low.transformed_position, Vec3::new(-1, 0, 0));
}

#[test]
fn normalize_gives_unit_length_in_thousandths() {
    assert_eq!(normalize(&Vec3::new(0, 0, 5)), Vec3::new(0, 0, 1000));
    assert_eq!(normalize(&Vec3::new(3, 4, 0)), Vec3::new(600, 800, 0));
    assert_eq!(normalize(&Vec3::new(0, -7, 0)), Vec3::new(0, -1000, 0));
    assert_eq!(normalize(&Vec3::new(1, 1, 0)), Vec3::new(707, 707, 0));
    assert_eq!(normalize(&Vec3::new(-1, -1, 0)), Vec3::new(-707, -707, 0));
    assert_eq!(normalize(&Vec3::new(1, -2, 2)), Vec3::new(333, -667, 667));
    assert_eq!(normalize(&Vec3::new(1000, 2000, -3000)), Vec3::new(267, 535, -802));
    assert_eq!(normalize(&Vec3::new(1, 0, 1000)), Vec3::new(1, 0, 1000));
}

#[test]
fn normalize_guards_the_zero_vector() {
    assert_eq!(normalize(&Vec3::new(0, 0, 0)), Vec3::new(0, 0, 0));
    let v = vertex_shader(&mesh_vertex(), &Vec4::new(0, 0, 0, W_ONE), &Vec3::new(0, 0, 0)).unwrap();
    assert_eq!(v.transformed_normal, Vec3::new(0, 0, 0));
    assert_eq!(v.light(), 0);
}

#[test]
fn normalize_extremes_do_not_overflow() {
    assert_eq!(normalize(&Vec3::new(i32::MAX, 0, 0)), Vec3::new(1000, 0, 0));
    assert_eq!(normalize(&Vec3::new(i32::MIN, 0, 0)), Vec3::new(-1000, 0, 0));
    assert_eq!(
        normalize(&Vec3::new(i32::MIN, i32::MIN, i32::MIN)),
        Vec3::new(-577, -577, -577)
    );
    assert_eq!(
        normalize(&Vec3::new(i32::MAX, i32::MAX, i32::MAX)),
        Vec3::new(577, 577, 577)
    );
}

#[test]
fn normalize_is_idempotent_on_axis_vectors() {
    for v in [Vec3::new(1000, 0, 0), Vec3::new(0, -1000, 0), Vec3::new(0, 0, 1000)] {
        assert_eq!(normalize(&v), v);
        assert_eq!(normalize(&normalize(&v)), v);
    }
}

fn projected(x: i32, w: i32) -> Projected {
    Projected { vertex: mesh_vertex(), clip: Vec4::new(x, 2 * x, 7, w), normal: Vec3::new(0, 0, 9) }
}

#[test]
fn transform_vertices_transforms_each_in_order() {
    let inputs = [projected(100, W_ONE), projected(100, 2 * W_ONE), projected(-100, -W_ONE)];
    let vertices = transform_vertices(&inputs).unwrap();
    assert_eq!(vertices.len(), 3);
    assert_eq!(vertices[0].transformed_position, Vec3::new(100, 200, 7));
    assert_eq!(vertices[1].transformed_position, Vec3::new(50, 100, 3));
    assert_eq!(vertices[2].transformed_position, Vec3::new(100, 200, -7));
    for (input, vertex) in inputs.iter().zip(vertices.iter()) {
        let alone = vertex_shader(&input.vertex, &input.clip, &input.normal).unwrap();
        assert_eq!(*vertex, alone);
        assert_eq!(vertex.transformed_normal, Vec3::new(0, 0, 1000));
    }
}

#[test]
fn transform_vertices_fails_on_any_zero_w() {
    for place in 0..3usize {
        let mut inputs = [projected(1, W_ONE), projected(2, W_ONE), projected(3, W_ONE)];
        inputs[place].clip.w = 0;
        assert_eq!(transform_vertices(&inputs), Err(TransformError::ZeroW));
    }
    assert_eq!(transform_vertices(&[projected(1, 0)]), Err(TransformError::ZeroW));
}

#[test]
fn transform_vertices_of_nothing_is_nothing() {
    assert_eq!(transform_vertices(&[]), Ok(Vec::new()));
}
