use soft_rend::algorithm::u8s_to_u32;
use soft_rend::graphics::screen::Screen;
use soft_rend::inputs::{Collected, InputState};
use soft_rend::pipeline::shader::{opaque_pixel, untextured_pixel, ShaderType};
use soft_rend::resources::loaders::{
    cube_corner, face_corners, face_uv, quad_triangles, DefaultTexture, TextureLoader,
};
use soft_rend::resources::texture::Format;
use soft_rend::scene::camera::{CameraStyle, Direction};

fn chessboard(width: u32, height: u32, nb_squares_width: u32) -> Vec<Vec<u8>> {
    let texture = TextureLoader::new().load_default_texture(DefaultTexture::Checkered {
        width,
        height,
        nb_squares_width,
    });
    assert!(matches!(texture.format(), Format::RGB24));
    assert_eq!((texture.width(), texture.height()), (width as usize, height as usize));
    assert_eq!(texture.pixels().len(), (3 * width * height) as usize);
    let mut rows = Vec::new();
    for row in 0..height as usize {
        let mut values = Vec::new();
        for column in 0..width as usize {
            let pixel = texture.pixel_at(column, row);
            assert!(pixel[0] == pixel[1] && pixel[1] == pixel[2]);
            values.push(pixel[0]);
        }
        rows.push(values);
    }
    rows
}

#[test]
fn loader_keeps_every_pixel() {
    assert_eq!(TextureLoader::new().sampling(), 1);
}

#[test]
fn two_by_two_texture_is_white_on_the_diagonal() {
    assert_eq!(chessboard(2, 2, 2), vec![vec![255, 0], vec![0, 255]]);
}

#[test]
fn squares_are_as_high_as_wide() {
    assert_eq!(
        chessboard(4, 5, 2),
        vec![
            vec![255, 255, 0, 0],
            vec![255, 255, 0, 0],
            vec![0, 0, 255, 255],
            vec![0, 0, 255, 255],
            vec![255, 255, 0, 0],
        ]
    );
}

#[test]
fn square_side_is_rounded_up() {
    assert_eq!(
        chessboard(5, 4, 2),
        vec![
            vec![255, 255, 255, 0, 0],
            vec![255, 255, 255, 0, 0],
            vec![255, 255, 255, 0, 0],
            vec![0, 0, 0, 255, 255],
        ]
    );
    assert_eq!(chessboard(3, 1, 7), vec![vec![255, 0, 255]]);
}

#[test]
fn checkered_texture_without_pixels_is_empty() {
    assert!(chessboard(0, 0, 3).is_empty());
    assert_eq!(chessboard(0, 2, 1), vec![Vec::<u8>::new(), Vec::new()]);
}

#[test]
fn quad_triangles_take_two_triangles_a_face() {
    assert!(quad_triangles(0).is_empty());
    assert_eq!(quad_triangles(1), vec![0, 1, 2, 2, 3, 0]);
    assert_eq!(quad_triangles(3), vec![0, 1, 2, 2, 3, 0, 4, 5, 6, 6, 7, 4, 8, 9, 10, 10, 11, 8]);
}

#[test]
fn cube_faces_look_outward() {
    let normals = [(-1, 0, 0), (1, 0, 0), (0, -1, 0), (0, 1, 0), (0, 0, -1), (0, 0, 1)];
    let corner = |k: usize| {
        let (x, y, z) = cube_corner(k);
        (x as i32, y as i32, z as i32)
    };
    let cross = |a: (i32, i32, i32), b: (i32, i32, i32), c: (i32, i32, i32)| {
        let u = (b.0 - a.0, b.1 - a.1, b.2 - a.2);
        let v = (c.0 - a.0, c.1 - a.1, c.2 - a.2);
        (u.1 * v.2 - u.2 * v.1, u.2 * v.0 - u.0 * v.2, u.0 * v.1 - u.1 * v.0)
    };
    for face in 0..6 {
        let corners = face_corners(face);
        let triangles = quad_triangles(1);
        for triangle in triangles.chunks(3) {
            let a = corner(corners[triangle[0]]);
            let b = corner(corners[triangle[1]]);
            let c = corner(corners[triangle[2]]);
            assert_eq!(cross(a, b, c), normals[face]);
        }
    }
    assert_eq!(face_corners(0), [4, 0, 3, 7]);
    assert_eq!(face_corners(5), [3, 2, 6, 7]);
    assert_eq!(cube_corner(0), (0, 0, 0));
    assert_eq!(cube_corner(2), (1, 0, 1));
    assert_eq!(cube_corner(7), (0, 1, 1));
    assert_eq!([face_uv(0), face_uv(1), face_uv(2), face_uv(3)], [(0, 0), (1, 0), (1, 1), (0, 1)]);
}

#[test]
fn bytes_are_packed_most_significant_first() {
    assert_eq!(u8s_to_u32(0x12, 0x34, 0x56, 0x78), 0x1234_5678);
    assert_eq!(u8s_to_u32(0, 0, 0, 0), 0);
    assert_eq!(u8s_to_u32(255, 255, 255, 255), u32::MAX);
    assert_eq!(u8s_to_u32(1, 0, 0, 0), 1 << 24);
    assert_eq!(u8s_to_u32(9, 8, 7, 6), u32::from_be_bytes([9, 8, 7, 6]));
}

#[test]
fn texel_is_drawn_opaque() {
    assert_eq!(opaque_pixel(&[1, 2, 3]), Some([1, 2, 3, 255]));
    assert_eq!(opaque_pixel(&[1, 2, 3, 9]), Some([1, 2, 3, 255]));
    assert_eq!(opaque_pixel(&[1, 2]), None);
    assert_eq!(opaque_pixel(&[]), None);
    assert_eq!(untextured_pixel(), [0, 0, 0, 255]);
    assert_ne!(ShaderType::Flat, ShaderType::Phong);
    assert_ne!(ShaderType::Flat, ShaderType::Gouraud);
}

#[test]
fn new_screen_shows_the_background() {
    let screen = Screen::new(3, 2);
    assert_eq!((screen.width(), screen.height()), (3, 2));
    assert_eq!(screen.bg_color(), &[42, 0, 23, 255]);
    assert_eq!(screen.frame().len(), 24);
    for pixel in screen.frame().chunks(4) {
        assert_eq!(pixel, &[42, 0, 23, 255]);
    }
    assert!(Screen::new(0, 5).frame().is_empty());
}

#[test]
fn put_pixel_changes_one_pixel() {
    let mut screen = Screen::new(3, 2);
    screen.put_pixel(2, 1, [9, 8, 7, 6]);
    screen.put_pixel(0, 0, [1, 2, 3, 4]);
    for (i, pixel) in screen.frame().chunks(4).enumerate() {
        let expected: [u8; 4] = match i {
            0 => [1, 2, 3, 4],
            5 => [9, 8, 7, 6],
            _ => [42, 0, 23, 255],
        };
        assert_eq!(pixel, &expected);
    }
}

#[test]
fn screen_is_cleared_to_the_new_background() {
    let mut screen = Screen::new(2, 2);
    screen.put_pixel(1, 1, [9, 9, 9, 9]);
    screen.set_bg_color([5, 6, 7, 255]);
    assert_eq!(screen.frame()[0..4], [42, 0, 23, 255]);
    screen.screen_clear();
    for pixel in screen.frame().chunks(4) {
        assert_eq!(pixel, &[5, 6, 7, 255]);
    }
}

#[test]
fn released_key_remembers_a_press_nobody_saw() {
    assert_eq!(InputState::press(), InputState::Pressed);
    assert_eq!(InputState::Pressed.release(), InputState::PressedReleased);
    assert_eq!(InputState::Held.release(), InputState::Released);
    assert_eq!(InputState::Released.release(), InputState::Released);
    assert_eq!(InputState::PressedReleased.release(), InputState::PressedReleased);
}

#[test]
fn collection_fires_the_bindings_of_the_key() {
    let held = Some(InputState::Held);
    let pressed = Some(InputState::Pressed);
    let outcome = |down, released, next| Collected { down, released, next };
    assert_eq!(InputState::Held.collect(true, true, true), outcome(held, false, held));
    assert_eq!(InputState::Held.collect(true, false, true), outcome(None, false, held));
    assert_eq!(InputState::Released.collect(true, true, true), outcome(None, true, None));
    assert_eq!(InputState::Released.collect(true, true, false), outcome(None, false, None));
    assert_eq!(InputState::Pressed.collect(true, true, true), outcome(pressed, false, held));
    assert_eq!(InputState::Pressed.collect(false, true, true), outcome(held, false, held));
    assert_eq!(InputState::Pressed.collect(false, false, true), outcome(None, false, held));
    assert_eq!(InputState::PressedReleased.collect(true, true, true), outcome(pressed, true, None));
    assert_eq!(InputState::PressedReleased.collect(false, true, false), outcome(held, false, None));
    assert_eq!(InputState::PressedReleased.collect(false, false, false), outcome(None, false, None));
}

#[test]
fn directions_are_the_axes_of_the_camera() {
    assert_eq!(Direction::Forwards.axis(), (0, 0, -1));
    assert_eq!(Direction::Backwards.axis(), (0, 0, 1));
    assert_eq!(Direction::Left.axis(), (-1, 0, 0));
    assert_eq!(Direction::Right.axis(), (1, 0, 0));
    assert_eq!(Direction::Up.axis(), (0, 1, 0));
    assert_eq!(Direction::Down.axis(), (0, -1, 0));
}

#[test]
fn camera_styles_differ_in_yaw_roll_and_pitch_limit() {
    let fps = CameraStyle::FPSLike;
    assert!(fps.yaws_around_world() && !fps.applies_roll() && fps.clamps_pitch());
    let free = CameraStyle::Free;
    assert!(!free.yaws_around_world() && free.applies_roll() && !free.clamps_pitch());
}
