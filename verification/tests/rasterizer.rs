use soft_rend::graphics::screen::Screen;
use soft_rend::pipeline::rasterizer::{
    tile_origin, tiles_in, Aabb, BinnedTriangle, Rasterizer, Tile, FARTHEST,
};

const RED: [u8; 4] = [255, 0, 0, 255];
const BLUE: [u8; 4] = [0, 0, 255, 255];
const GREEN: [u8; 4] = [0, 255, 0, 255];
const BACKGROUND: [u8; 4] = [42, 0, 23, 255];

fn pixel(screen: &Screen, x: usize, y: usize) -> [u8; 4] {
    let first = 4 * (x + y * screen.width());
    let frame = screen.frame();
    [frame[first], frame[first + 1], frame[first + 2], frame[first + 3]]
}

#[test]
fn tiles_span_the_extent() {
    assert_eq!(tiles_in(0, 64), 0);
    assert_eq!(tiles_in(1, 64), 1);
    assert_eq!(tiles_in(64, 64), 1);
    assert_eq!(tiles_in(65, 64), 2);
    assert_eq!(tiles_in(800, 64), 13);
    assert_eq!(tiles_in(600, 64), 10);
    assert_eq!(tiles_in(usize::MAX, 1), usize::MAX);
    assert_eq!(tiles_in(usize::MAX, usize::MAX), 1);
}

#[test]
fn new_rasterizer_has_a_cleared_tile_for_every_cell() {
    let mut rasterizer = Rasterizer::new(64, 800, 600);
    assert_eq!(rasterizer.tile_size(), 64);
    assert_eq!((rasterizer.width(), rasterizer.height()), (800, 600));
    assert_eq!((rasterizer.nb_tiles_x(), rasterizer.nb_tiles_y()), (13, 10));
    assert_eq!(rasterizer.tiles().len(), 130);
    assert!(rasterizer.is_consistent());
    for tile in rasterizer.tiles_mut().iter_mut() {
        assert_eq!(tile.size(), 64);
        let (color, depth) = tile.get_buffers();
        assert_eq!(color.len(), 64 * 64 * 4);
        assert_eq!(depth.len(), 64 * 64);
        assert!(depth.iter().all(|&d| d == FARTHEST));
        assert!(color.iter().all(|&c| c == 0));
    }
}

#[test]
fn rasterizer_for_an_empty_screen_has_no_tile() {
    let rasterizer = Rasterizer::new(8, 0, 100);
    assert_eq!(rasterizer.tiles().len(), 0);
    let bins = rasterizer.bin_triangles(&vec![Aabb { min_x: 0, max_x: 5, min_y: 0, max_y: 5 }]);
    assert!(bins.is_empty());
}

#[test]
fn depth_test_is_strict() {
    let mut tile = Tile::new(4);
    assert!(tile.passes(1, 2, 10));
    assert!(tile.write_fragment(1, 2, 10, RED));
    assert_eq!(tile.shown(1, 2, &BACKGROUND), RED);
    assert!(!tile.passes(1, 2, 10));
    assert!(!tile.write_fragment(1, 2, 10, BLUE));
    assert!(!tile.write_fragment(1, 2, 11, BLUE));
    assert_eq!(tile.shown(1, 2, &BACKGROUND), RED);
    assert!(tile.write_fragment(1, 2, 9, BLUE));
    assert_eq!(tile.shown(1, 2, &BACKGROUND), BLUE);
    let (color, depth) = tile.get_buffers();
    assert_eq!(depth[1 + 2 * 4], 9);
    assert_eq!(color[4 * 9..4 * 9 + 4], BLUE);
    assert_eq!(depth.iter().filter(|&&d| d != FARTHEST).count(), 1);
}

#[test]
fn second_fragment_is_drawn_only_if_closer() {
    for first in [0u64, 5, 100, FARTHEST - 1] {
        for second in [0u64, 4, 5, 6, 100, FARTHEST - 1, FARTHEST] {
            let mut tile = Tile::new(2);
            tile.write_fragment(0, 1, first, RED);
            let drawn = tile.write_fragment(0, 1, second, BLUE);
            assert_eq!(drawn, second < first);
            let expected = if second < first { BLUE } else { RED };
            assert_eq!(tile.shown(0, 1, &BACKGROUND), expected);
        }
    }
}

#[test]
fn fragments_commute_when_depths_differ() {
    let mut one = Tile::new(2);
    one.write_fragment(1, 1, 7, RED);
    one.write_fragment(1, 1, 3, BLUE);
    one.write_fragment(0, 1, 3, GREEN);
    let mut other = Tile::new(2);
    other.write_fragment(0, 1, 3, GREEN);
    other.write_fragment(1, 1, 3, BLUE);
    other.write_fragment(1, 1, 7, RED);
    let (color_one, depth_one) = one.get_buffers();
    let (color_other, depth_other) = other.get_buffers();
    assert_eq!(color_one, color_other);
    assert_eq!(depth_one, depth_other);
}

#[test]
fn farthest_fragment_and_fragment_outside_the_tile_are_not_drawn() {
    let mut tile = Tile::new(3);
    assert!(!tile.write_fragment(0, 0, FARTHEST, RED));
    assert!(!tile.write_fragment(3, 0, 1, RED));
    assert!(!tile.write_fragment(0, 3, 1, RED));
    assert!(!tile.passes(usize::MAX, usize::MAX, 0));
    let (color, depth) = tile.get_buffers();
    assert!(depth.iter().all(|&d| d == FARTHEST));
    assert!(color.iter().all(|&c| c == 0));
}

#[test]
fn cleared_tile_shows_the_background_and_keeps_its_bytes() {
    let mut tile = Tile::new(2);
    tile.write_fragment(1, 0, 5, RED);
    tile.clear();
    assert_eq!(tile.shown(1, 0, &BACKGROUND), BACKGROUND);
    assert!(tile.write_fragment(1, 0, 500, BLUE));
    tile.clear();
    let (color, depth) = tile.get_buffers();
    assert!(depth.iter().all(|&d| d == FARTHEST));
    assert_eq!(color[4..8], BLUE);
}

#[test]
fn blit_shows_fragments_and_background() {
    let mut rasterizer = Rasterizer::new(4, 8, 8);
    let mut screen = Screen::new(8, 8);
    rasterizer.tiles_mut()[0].write_fragment(0, 0, 1, RED);
    rasterizer.tiles_mut()[1].write_fragment(3, 2, 1, BLUE);
    rasterizer.tiles_mut()[2].write_fragment(1, 3, 1, GREEN);
    rasterizer.tiles_mut()[3].write_fragment(0, 0, 1, RED);
    rasterizer.blit(&mut screen);
    for y in 0..8 {
        for x in 0..8 {
            let expected = match (x, y) {
                (0, 0) => RED,
                (7, 2) => BLUE,
                (1, 7) => GREEN,
                (4, 4) => RED,
                _ => BACKGROUND,
            };
            assert_eq!(pixel(&screen, x, y), expected, "at {x}, {y}");
        }
    }
}

#[test]
fn blit_stops_at_the_right_and_bottom_edges() {
    let mut rasterizer = Rasterizer::new(4, 6, 5);
    assert_eq!((rasterizer.nb_tiles_x(), rasterizer.nb_tiles_y()), (2, 2));
    let mut screen = Screen::new(6, 5);
    for (nb, tile) in rasterizer.tiles_mut().iter_mut().enumerate() {
        for y in 0..4 {
            for x in 0..4 {
                tile.write_fragment(x, y, 1, [nb as u8, x as u8, y as u8, 255]);
            }
        }
    }
    rasterizer.blit(&mut screen);
    assert_eq!(screen.frame().len(), 6 * 5 * 4);
    for y in 0..5 {
        for x in 0..6 {
            let nb = (x / 4 + 2 * (y / 4)) as u8;
            assert_eq!(pixel(&screen, x, y), [nb, (x % 4) as u8, (y % 4) as u8, 255]);
        }
    }
}

#[test]
fn blit_tile_writes_its_region_and_nothing_else() {
    let mut rasterizer = Rasterizer::new(4, 6, 5);
    let mut screen = Screen::new(6, 5);
    for tile in rasterizer.tiles_mut().iter_mut() {
        for y in 0..4 {
            for x in 0..4 {
                tile.write_fragment(x, y, 1, GREEN);
            }
        }
    }
    let regions = [(0, 0, 4, 4), (1, 0, 2, 4), (0, 1, 4, 1), (1, 1, 2, 1)];
    let mut written = vec![0u32; 6 * 5];
    for (tile_x, tile_y, columns, rows) in regions {
        screen.screen_clear();
        rasterizer.blit_tile(tile_x, tile_y, &mut screen);
        let mut count = 0;
        for y in 0..5 {
            for x in 0..6 {
                let inside = x / 4 == tile_x && y / 4 == tile_y;
                assert_eq!(pixel(&screen, x, y), if inside { GREEN } else { BACKGROUND });
                if inside {
                    count += 1;
                    written[x + 6 * y] += 1;
                }
            }
        }
        assert_eq!(count, columns * rows);
    }
    assert!(written.iter().all(|&times| times == 1));
}

#[test]
fn blit_after_clear_shows_only_the_background() {
    let mut rasterizer = Rasterizer::new(4, 4, 4);
    let mut screen = Screen::new(4, 4);
    rasterizer.tiles_mut()[0].write_fragment(2, 2, 1, RED);
    rasterizer.blit(&mut screen);
    assert_eq!(pixel(&screen, 2, 2), RED);
    rasterizer.clear();
    screen.set_bg_color([1, 2, 3, 255]);
    rasterizer.blit(&mut screen);
    for y in 0..4 {
        for x in 0..4 {
            assert_eq!(pixel(&screen, x, y), [1, 2, 3, 255]);
        }
    }
}

#[test]
fn triangles_are_binned_into_the_tiles_they_reach() {
    let rasterizer = Rasterizer::new(64, 128, 128);
    let boxes = vec![
        Aabb { min_x: 60, max_x: 70, min_y: 10, max_y: 20 },
        Aabb { min_x: 100, max_x: 110, min_y: 100, max_y: 120 },
        Aabb { min_x: 0, max_x: 500, min_y: 63, max_y: 64 },
        Aabb { min_x: 900, max_x: 950, min_y: 0, max_y: 10 },
    ];
    let bins = rasterizer.bin_triangles(&boxes);
    assert_eq!(bins.len(), 4);
    let entry = |min_x, min_y, max_x, max_y, triangle_start| BinnedTriangle {
        min_x,
        min_y,
        max_x,
        max_y,
        triangle_start,
    };
    assert_eq!(bins[0], vec![entry(60, 10, 63, 20, 0), entry(0, 63, 63, 63, 6)]);
    assert_eq!(bins[1], vec![entry(0, 10, 6, 20, 0), entry(0, 63, 63, 63, 6)]);
    assert_eq!(bins[2], vec![entry(0, 0, 63, 0, 6)]);
    assert_eq!(bins[3], vec![entry(36, 36, 46, 56, 3), entry(0, 0, 63, 0, 6)]);
}

#[test]
fn binned_boxes_cover_the_box_on_the_screen_once() {
    let rasterizer = Rasterizer::new(8, 30, 20);
    let boxes = vec![Aabb { min_x: 5, max_x: 40, min_y: 7, max_y: 17 }];
    let bins = rasterizer.bin_triangles(&boxes);
    let nb_tiles_x = rasterizer.nb_tiles_x();
    let mut covered = vec![0u32; 30 * 20];
    for (nb, bin) in bins.iter().enumerate() {
        for binned in bin {
            assert!(binned.max_x < 8 && binned.max_y < 8);
            for y in binned.min_y..=binned.max_y {
                for x in binned.min_x..=binned.max_x {
                    let (sx, sy) = ((nb % nb_tiles_x) * 8 + x, (nb / nb_tiles_x) * 8 + y);
                    covered[sx + 30 * sy] += 1;
                }
            }
        }
    }
    for y in 0..20 {
        for x in 0..30 {
            let expected = if (5..30).contains(&x) && (7..=17).contains(&y) { 1 } else { 0 };
            assert_eq!(covered[x + 30 * y], expected, "at {x}, {y}");
        }
    }
}

#[test]
fn new_binned_triangle_is_zero() {
    let binned = BinnedTriangle::new();
    assert_eq!(
        (binned.min_x, binned.min_y, binned.max_x, binned.max_y, binned.triangle_start),
        (0, 0, 0, 0, 0)
    );
}

#[test]
fn rasterizer_notices_a_tile_of_another_size() {
    let mut rasterizer = Rasterizer::new(4, 8, 4);
    assert!(rasterizer.is_consistent());
    rasterizer.tiles_mut()[1] = Tile::new(2);
    assert!(!rasterizer.is_consistent());
    rasterizer.tiles_mut()[1] = Tile::new(4);
    assert!(rasterizer.is_consistent());
}

#[test]
fn tiles_are_numbered_row_by_row() {
    assert_eq!(tile_origin(0, 13, 64), (0, 0));
    assert_eq!(tile_origin(12, 13, 64), (768, 0));
    assert_eq!(tile_origin(13, 13, 64), (0, 64));
    assert_eq!(tile_origin(129, 13, 64), (768, 576));
}
