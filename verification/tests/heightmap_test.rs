use rts_engine::heightmap::{create_vertex_index_rings, mirror_triangles, optimize_vertex_index, GridVertex};

#[test]
fn optimize_merges_equal_keys() {
    // vertices 0 and 2 share a key, as do 1 and 3
    let keys = vec![10i128, 20, 10, 20, 30];
    let index = vec![2u32, 1, 4, 0, 3, 4];
    let (kept, new_index) = optimize_vertex_index(&keys, index);
    assert_eq!(kept, vec![2, 1, 4]);
    assert_eq!(new_index, vec![0, 1, 2, 0, 1, 2]);
}

#[test]
fn optimize_keeps_referenced_vertices_only() {
    let keys = vec![1i128, 2, 3, 4];
    let index = vec![3u32, 3, 1];
    let (kept, new_index) = optimize_vertex_index(&keys, index);
    assert_eq!(kept, vec![3, 1]);
    assert_eq!(new_index, vec![0, 0, 1]);
}

#[test]
fn optimize_empty() {
    let (kept, new_index) = optimize_vertex_index(&vec![5i128], vec![]);
    assert!(kept.is_empty());
    assert!(new_index.is_empty());
}

#[test]
fn optimize_preserves_vertex_keys() {
    let keys: Vec<i128> = (0..40).map(|v| (v % 7) as i128).collect();
    let index: Vec<u32> = (0..120).map(|k| ((k * 13) % 40) as u32).collect();
    let (kept, new_index) = optimize_vertex_index(&keys, index.clone());
    assert_eq!(kept.len(), 7);
    for k in 0..index.len() {
        assert_eq!(keys[kept[new_index[k] as usize] as usize], keys[index[k] as usize]);
    }
}

#[test]
fn mirror_swaps_and_offsets() {
    let r = mirror_triangles(&vec![0, 1, 2, 3, 4, 5], 10);
    assert_eq!(r, vec![11, 10, 12, 14, 13, 15]);
}

#[test]
fn mirror_empty() {
    assert!(mirror_triangles(&vec![], 7).is_empty());
}

fn ring_mesh_of(hsize: u32) -> (Vec<GridVertex>, Vec<u32>) {
    create_vertex_index_rings(hsize)
}

#[test]
fn rings_start_with_the_grid_squares() {
    let (verts, index) = ring_mesh_of(2);
    let first: Vec<(i32, i32)> = verts[..6].iter().map(|v| (v.x, v.y)).collect();
    // square (0, 0) of side 1, then square (0, 1) shares its upper side
    assert_eq!(first, vec![(0, 0), (1, 0), (1, 1), (0, 1), (1, 2), (0, 2)]);
    assert_eq!(index[..12].to_vec(), vec![0, 1, 2, 0, 2, 3, 3, 2, 4, 3, 4, 5]);
}

#[test]
fn rings_form_a_valid_symmetric_mesh() {
    let (verts, index) = ring_mesh_of(3);
    assert_eq!(verts.len() % 4, 0);
    assert_eq!(index.len() % 12, 0);
    assert!(index.iter().all(|&i| (i as usize) < verts.len()));
    let n = verts.len() / 4;
    for k in 0..n {
        let v = verts[k];
        assert_eq!((verts[k + n].x, verts[k + n].y), (-v.x, v.y));
        assert_eq!((verts[k + 2 * n].x, verts[k + 2 * n].y), (v.x, -v.y));
        assert_eq!((verts[k + 3 * n].x, verts[k + 3 * n].y), (-v.x, -v.y));
    }
    let q = index.len() / 4;
    for t in 0..q / 3 {
        assert_eq!(index[q + 3 * t], index[3 * t + 1] + n as u32);
        assert_eq!(index[q + 3 * t + 1], index[3 * t] + n as u32);
        assert_eq!(index[q + 3 * t + 2], index[3 * t + 2] + n as u32);
    }
}

#[test]
fn rings_keep_one_vertex_per_position() {
    let (verts, _) = ring_mesh_of(2);
    let n = verts.len() / 4;
    let mut seen = std::collections::HashSet::new();
    for v in &verts[..n] {
        assert!(seen.insert((v.x, v.y)));
    }
    // the outermost ring ends 7968 half texels beyond the grid
    let far = verts[..n].iter().map(|v| v.x.max(v.y)).max().unwrap();
    assert_eq!(far, 2 + 7968);
}

#[test]
fn ring_mesh_fits_small_grids_only() {
    assert!(!rts_engine::heightmap::ring_mesh_fits(0));
    assert!(rts_engine::heightmap::ring_mesh_fits(1));
    assert!(rts_engine::heightmap::ring_mesh_fits(128));
    assert!(!rts_engine::heightmap::ring_mesh_fits(40000));
    assert!(!rts_engine::heightmap::ring_mesh_fits(u32::MAX));
}
