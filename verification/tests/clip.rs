use soft_rend::pipeline::clip::{ClipPlane, Clipper, EdgeCut};
use soft_rend::pipeline::geometry::Geometry;
use soft_rend::resources::mesh::{InvalidMesh, Mesh};

fn cut(from: usize, to: usize, vertex: usize) -> EdgeCut {
    EdgeCut { from, to, vertex }
}

#[test]
fn planes_come_in_clipping_order_with_outward_normals() {
    let planes = ClipPlane::all();
    let expected = [
        (ClipPlane::XP, [1, 0, 0, -1]),
        (ClipPlane::XN, [-1, 0, 0, -1]),
        (ClipPlane::YP, [0, 1, 0, -1]),
        (ClipPlane::YN, [0, -1, 0, -1]),
        (ClipPlane::ZP, [0, 0, 1, -1]),
        (ClipPlane::ZN, [0, 0, -1, -1]),
    ];
    for (i, (plane, normal)) in expected.iter().enumerate() {
        assert_eq!(planes[i], *plane);
        assert_eq!(planes[i].ordinal(), i);
        assert_eq!(planes[i].normal(), *normal);
    }
}

#[test]
fn polygon_inside_the_plane_is_turned_by_one() {
    let mut clipper = Clipper::new(10);
    let (shape, cuts) = clipper.clip_polygon(
        ClipPlane::YP,
        &vec![7, 8, 9, 2],
        &vec![true; 4],
        &vec![true; 4],
    );
    assert_eq!(shape, vec![8, 9, 2, 7]);
    assert!(cuts.is_empty());
    assert_eq!(clipper.vertex_count(), 10);
}

#[test]
fn triangle_inside_every_plane_comes_back_unchanged() {
    let mut clipper = Clipper::new(3);
    let mut polygon = vec![0, 1, 2];
    for plane in ClipPlane::all() {
        let (shape, cuts) = clipper.clip_polygon(plane, &polygon, &vec![true; 3], &vec![false; 3]);
        assert!(cuts.is_empty());
        polygon = shape;
    }
    assert_eq!(polygon, vec![0, 1, 2]);
    clipper.emit_fan(&polygon);
    assert_eq!(clipper.triangles(), &vec![0, 1, 2]);
    assert_eq!(clipper.vertex_count(), 3);
}

#[test]
fn polygon_outside_the_plane_vanishes() {
    let mut clipper = Clipper::new(3);
    let (shape, cuts) =
        clipper.clip_polygon(ClipPlane::XP, &vec![0, 1, 2], &vec![false; 3], &vec![false; 3]);
    assert!(shape.is_empty());
    assert!(cuts.is_empty());
    clipper.emit_fan(&shape);
    assert!(clipper.triangles().is_empty());
}

#[test]
fn one_corner_outside_makes_a_quad() {
    let mut clipper = Clipper::new(3);
    let (shape, cuts) = clipper.clip_polygon(
        ClipPlane::ZN,
        &vec![0, 1, 2],
        &vec![true, true, false],
        &vec![false; 3],
    );
    assert_eq!(shape, vec![1, 3, 4, 0]);
    assert_eq!(cuts, vec![cut(1, 2, 3), cut(2, 0, 4)]);
    assert_eq!(clipper.vertex_count(), 5);
    clipper.emit_fan(&shape);
    assert_eq!(clipper.triangles(), &vec![1, 3, 4, 1, 4, 0]);
}

#[test]
fn two_corners_outside_make_a_triangle() {
    let mut clipper = Clipper::new(3);
    let (shape, cuts) = clipper.clip_polygon(
        ClipPlane::XN,
        &vec![0, 1, 2],
        &vec![false, true, false],
        &vec![false; 3],
    );
    assert_eq!(shape, vec![3, 1, 4]);
    assert_eq!(cuts, vec![cut(0, 1, 3), cut(1, 2, 4)]);
}

#[test]
fn shared_edge_is_cut_once_per_plane() {
    let mut clipper = Clipper::new(6);
    let inside = vec![true, true, false];
    let (first, cuts) = clipper.clip_polygon(ClipPlane::XP, &vec![0, 1, 2], &inside, &vec![false; 3]);
    assert_eq!(first, vec![1, 6, 7, 0]);
    assert_eq!(cuts, vec![cut(1, 2, 6), cut(2, 0, 7)]);
    assert_eq!(clipper.cut_vertex(1, 2, ClipPlane::XP), Some(6));
    assert_eq!(clipper.cut_vertex(2, 1, ClipPlane::XP), Some(6));
    assert_eq!(clipper.cut_vertex(0, 2, ClipPlane::XP), Some(7));
    assert_eq!(clipper.cut_vertex(0, 1, ClipPlane::XP), None);
    assert_eq!(clipper.cut_vertex(1, 2, ClipPlane::XN), None);

    let (second, cuts) = clipper.clip_polygon(
        ClipPlane::XP,
        &vec![2, 1, 5],
        &vec![false, true, true],
        &vec![false; 3],
    );
    assert_eq!(second, vec![6, 1, 5, 8]);
    assert_eq!(cuts, vec![cut(5, 2, 8)]);

    let (third, cuts) = clipper.clip_polygon(
        ClipPlane::YP,
        &vec![2, 1, 5],
        &vec![false, true, true],
        &vec![false; 3],
    );
    assert_eq!(third, vec![9, 1, 5, 10]);
    assert_eq!(cuts, vec![cut(2, 1, 9), cut(5, 2, 10)]);
    assert_eq!(clipper.vertex_count(), 11);
}

#[test]
fn parallel_crossing_edge_is_not_cut() {
    let mut clipper = Clipper::new(3);
    let (shape, cuts) = clipper.clip_polygon(
        ClipPlane::XP,
        &vec![0, 1, 2],
        &vec![true, false, true],
        &vec![true, false, false],
    );
    assert_eq!(shape, vec![1, 3, 2, 0]);
    assert_eq!(cuts, vec![cut(1, 2, 3)]);

    let mut clipper = Clipper::new(3);
    let (shape, cuts) = clipper.clip_polygon(
        ClipPlane::XP,
        &vec![0, 1, 2],
        &vec![false, true, true],
        &vec![true, false, false],
    );
    assert_eq!(shape, vec![0, 1, 2, 3]);
    assert_eq!(cuts, vec![cut(2, 0, 3)]);
}

#[test]
fn parallel_flag_of_an_edge_that_does_not_cross_is_ignored() {
    let mut clipper = Clipper::new(3);
    let (shape, cuts) = clipper.clip_polygon(
        ClipPlane::ZP,
        &vec![0, 1, 2],
        &vec![true, true, false],
        &vec![true, false, false],
    );
    assert_eq!(shape, vec![1, 3, 4, 0]);
    assert_eq!(cuts.len(), 2);
}

#[test]
fn without_parallel_edges_only_inside_vertices_and_cuts_come_out() {
    let polygon = vec![0, 1, 2, 3, 4];
    for mask in 0u32..32 {
        let inside: Vec<bool> = (0..5).map(|i| mask >> i & 1 == 1).collect();
        let mut clipper = Clipper::new(5);
        let (shape, _) =
            clipper.clip_polygon(ClipPlane::YN, &polygon, &inside, &vec![false; 5]);
        for &vertex in shape.iter() {
            assert!(vertex >= 5 || inside[vertex]);
        }
        for (i, &vertex) in polygon.iter().enumerate() {
            assert_eq!(shape.contains(&vertex), inside[i]);
        }
    }
}

#[test]
fn empty_polygon_stays_empty() {
    let mut clipper = Clipper::new(0);
    let (shape, cuts) = clipper.clip_polygon(ClipPlane::XP, &vec![], &vec![], &vec![]);
    assert!(shape.is_empty() && cuts.is_empty());
}

#[test]
fn fan_goes_around_the_first_vertex() {
    let mut clipper = Clipper::new(9);
    clipper.emit_fan(&vec![4, 5]);
    assert!(clipper.triangles().is_empty());
    clipper.emit_fan(&vec![7, 8, 0]);
    clipper.emit_fan(&vec![1, 2, 3, 4, 5]);
    assert_eq!(clipper.triangles(), &vec![7, 8, 0, 1, 2, 3, 1, 3, 4, 1, 4, 5]);
    assert_eq!(clipper.into_triangles(), vec![7, 8, 0, 1, 2, 3, 1, 3, 4, 1, 4, 5]);
}

#[test]
fn run_takes_each_triangle_through_the_six_planes() {
    let geometry = Geometry::new(4, &vec![0, 1, 2, 2, 3, 0], Some(7)).unwrap();
    let mut run = geometry.clip_geometry();
    assert_eq!(run.vertex_count(), 4);
    let mut asked = Vec::new();
    while let Some(plane) = run.pending() {
        asked.push((plane, run.polygon().clone()));
        let count = run.polygon().len();
        let cuts = run.answer(&vec![true; count], &vec![false; count]);
        assert!(cuts.is_empty());
    }
    let planes = ClipPlane::all();
    assert_eq!(asked.len(), 12);
    for (i, (plane, polygon)) in asked.iter().enumerate() {
        assert_eq!(*plane, planes[i % 6]);
        let triangle = if i < 6 { [0, 1, 2] } else { [2, 3, 0] };
        let turned: Vec<usize> = (0..3).map(|k| triangle[(k + i) % 3]).collect();
        assert_eq!(*polygon, turned);
    }
    let clipped = run.finish();
    assert_eq!(clipped.triangles(), &[0, 1, 2, 2, 3, 0]);
    assert_eq!(clipped.vertex_count(), 4);
    assert_eq!(clipped.texture_id(), Some(7));
}

#[test]
fn run_cuts_at_the_plane_it_asked_about() {
    let geometry = Geometry::new(4, &vec![0, 1, 2, 2, 3, 0], None).unwrap();
    let mut run = geometry.clip_geometry();
    let mut added = Vec::new();
    while let Some(plane) = run.pending() {
        let polygon = run.polygon().clone();
        let inside: Vec<bool> =
            polygon.iter().map(|&v| !(plane == ClipPlane::YN && v == 2)).collect();
        added.extend(run.answer(&inside, &vec![false; polygon.len()]));
    }
    assert_eq!(added, vec![cut(1, 2, 4), cut(2, 0, 5), cut(2, 3, 6)]);
    let clipped = run.finish();
    assert_eq!(clipped.vertex_count(), 7);
    assert_eq!(clipped.triangles(), &[5, 0, 1, 5, 1, 4, 0, 5, 6, 0, 6, 3]);
}

#[test]
fn run_over_no_triangle_is_finished_at_once() {
    let geometry = Geometry::new(5, &vec![], Some(2)).unwrap();
    let run = geometry.clip_geometry();
    assert!(run.pending().is_none());
    assert!(run.polygon().is_empty());
    let clipped = run.finish();
    assert_eq!(clipped.triangle_count(), 0);
    assert_eq!(clipped.vertex_count(), 5);
    assert_eq!(clipped.texture_id(), Some(2));
}

#[test]
fn run_drops_a_triangle_that_lies_outside() {
    let geometry = Geometry::new(6, &vec![0, 1, 2, 3, 4, 5], None).unwrap();
    let mut run = geometry.clip_geometry();
    while let Some(plane) = run.pending() {
        let polygon = run.polygon().clone();
        let inside: Vec<bool> =
            polygon.iter().map(|&v| !(plane == ClipPlane::XN && v < 3)).collect();
        assert!(run.answer(&inside, &vec![false; polygon.len()]).is_empty());
    }
    let clipped = run.finish();
    assert_eq!(clipped.triangles(), &[3, 4, 5]);
    assert_eq!(clipped.vertex_count(), 6);
}

#[test]
fn geometry_checks_its_triangles() {
    assert!(matches!(
        Geometry::new(3, &vec![0, 1, 2, 0], None),
        Err(InvalidMesh::IndexCount { len: 4 })
    ));
    assert!(matches!(
        Geometry::new(3, &vec![0, 3, 9], None),
        Err(InvalidMesh::IndexOutOfRange { position: 1, index: 3 })
    ));
    assert!(matches!(
        Geometry::new(0, &vec![0, 0], None),
        Err(InvalidMesh::IndexCount { len: 2 })
    ));
    let empty = Geometry::new(0, &vec![], None).unwrap();
    assert_eq!(empty.triangle_count(), 0);
    let geometry = Geometry::new(3, &vec![2, 1, 0], Some(1)).unwrap();
    assert_eq!(geometry.triangles(), &[2, 1, 0]);
    assert_eq!(geometry.vertex_count(), 3);
}

#[test]
fn mesh_checks_its_triangles() {
    assert_eq!(
        Mesh::new(None, 4, vec![0, 1]).err(),
        Some(InvalidMesh::IndexCount { len: 2 })
    );
    assert_eq!(
        Mesh::new(None, 4, vec![0, 1, 2, 2, 4, 0]).err(),
        Some(InvalidMesh::IndexOutOfRange { position: 4, index: 4 })
    );
    let mut mesh = Mesh::new(Some(3), 4, vec![0, 1, 2, 2, 3, 0]).unwrap();
    assert_eq!(mesh.texture_id(), Some(3));
    assert_eq!(mesh.vertex_count(), 4);
    assert_eq!(mesh.triangles(), &vec![0, 1, 2, 2, 3, 0]);
    mesh.set_texture(None);
    assert_eq!(mesh.texture_id(), None);
    let geometry = Geometry::from_mesh(&mesh);
    assert_eq!(geometry.triangles(), &[0, 1, 2, 2, 3, 0]);
    assert_eq!(geometry.vertex_count(), 4);
    assert_eq!(geometry.texture_id(), None);
}

#[test]
fn cull_keeps_the_facing_triangles_in_order() {
    let triangles = vec![0, 1, 2, 3, 4, 5, 6, 7, 8, 2, 1, 0];
    let mut geometry = Geometry::new(9, &triangles, None).unwrap();
    geometry.cull_backface(&vec![true, false, true, true]);
    assert_eq!(geometry.triangles(), &[0, 1, 2, 6, 7, 8, 2, 1, 0]);
    assert_eq!(geometry.vertex_count(), 9);
    geometry.cull_backface(&vec![false, false, true]);
    assert_eq!(geometry.triangles(), &[2, 1, 0]);
    geometry.cull_backface(&vec![false]);
    assert!(geometry.triangles().is_empty());
    geometry.cull_backface(&vec![]);
    assert_eq!(geometry.triangle_count(), 0);
}

#[test]
fn cull_never_drops_a_facing_triangle() {
    let triangles: Vec<usize> = (0..15).collect();
    for mask in 0u32..32 {
        let facing: Vec<bool> = (0..5).map(|i| mask >> i & 1 == 1).collect();
        let mut geometry = Geometry::new(15, &triangles, None).unwrap();
        geometry.cull_backface(&facing);
        let kept: Vec<&[usize]> = geometry.triangles().chunks(3).collect();
        assert_eq!(kept.len(), mask.count_ones() as usize);
        for (k, &faces) in facing.iter().enumerate() {
            assert_eq!(kept.contains(&&triangles[3 * k..3 * k + 3]), faces);
        }
    }
}
