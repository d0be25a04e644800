use rts_engine::heightmap_zones::{mipmap_texels, HeightmapZones, ZoneRect, ZoneUpdate, UPDATE_PER_STEP};

#[test]
fn new_zone_lists_have_one_zone_per_block() {
    let z = HeightmapZones::new(256, 256);
    assert_eq!(z.zone_to_update_mip0.len(), 25);
    assert_eq!(z.zone_to_update_mip1.len(), 9);
    assert_eq!(z.zone_to_update_mip2.len(), 4);
    assert!(z.zone_to_update_mip0.iter().all(|v| *v == 0));
    assert!(!z.mip4_to_update);
}

#[test]
fn update_rect_marks_the_zones_it_meets() {
    let mut z = HeightmapZones::new(256, 256);
    z.update_rect(70, 10, 60, 0);
    // columns 1 and 2 of the finest zones, row 0
    let mut expected0 = vec![0; 25];
    expected0[1] = -1;
    expected0[2] = -1;
    assert_eq!(z.zone_to_update_mip0, expected0);
    assert_eq!(z.zone_to_update_mip1, vec![-1, -1, 0, 0, 0, 0, 0, 0, 0]);
    assert_eq!(z.zone_to_update_mip2, vec![-1, 0, 0, 0]);
    assert!(z.mip4_to_update);
}

#[test]
fn update_rect_keeps_the_age_of_waiting_zones() {
    let mut z = HeightmapZones::new(256, 256);
    z.update_rect(0, 0, 0, 0);
    z.zone_to_update_mip0[0] = -7;
    z.update_rect(0, 0, 0, 0);
    assert_eq!(z.zone_to_update_mip0[0], -7);
}

#[test]
fn step_refreshes_marked_zones_coarse_first() {
    let mut z = HeightmapZones::new(256, 256);
    z.update_rect(0, 0, 10, 10);
    let plan = z.step();
    assert!(plan.refresh_coarse_mips);
    assert_eq!(
        plan.mip2,
        vec![ZoneUpdate { zone: 0, rect: Some(ZoneRect { min_x: 0, min_y: 0, width: 256, height: 256 }) }]
    );
    assert_eq!(
        plan.mip1,
        vec![ZoneUpdate { zone: 0, rect: Some(ZoneRect { min_x: 0, min_y: 0, width: 128, height: 128 }) }]
    );
    assert_eq!(
        plan.mip0,
        vec![ZoneUpdate { zone: 0, rect: Some(ZoneRect { min_x: 0, min_y: 0, width: 64, height: 64 }) }]
    );
    assert_eq!(plan.lod, vec![0u8; 16]);
    assert!(!z.mip4_to_update);
    assert!(z.zone_to_update_mip0.iter().all(|v| *v == 0));
    let again = z.step();
    assert!(!again.refresh_coarse_mips);
    assert!(again.mip2.is_empty() && again.mip1.is_empty() && again.mip0.is_empty());
}

#[test]
fn step_clips_zones_at_the_map_edge() {
    let mut z = HeightmapZones::new(320, 100);
    // the finest zone of row 1 starts at y = 64 and is 36 texels high
    z.update_rect(0, 70, 0, 0);
    let plan = z.step();
    assert_eq!(
        plan.mip0,
        vec![ZoneUpdate { zone: 5, rect: Some(ZoneRect { min_x: 0, min_y: 64, width: 64, height: 36 }) }]
    );
    assert_eq!(
        plan.mip2,
        vec![ZoneUpdate { zone: 0, rect: Some(ZoneRect { min_x: 0, min_y: 0, width: 256, height: 100 }) }]
    );
}

#[test]
fn step_stays_within_budget_and_ages_the_rest() {
    let mut z = HeightmapZones::new(1280, 1280);
    z.update_rect(0, 0, 1279, 1279);
    let first = z.step();
    assert_eq!(first.mip2.len(), 25);
    assert_eq!(first.mip1.len(), 100);
    assert_eq!(first.mip0.len(), 25);
    assert!(first.mip2.len() + first.mip1.len() + first.mip0.len() <= UPDATE_PER_STEP / 2);
    let zones: Vec<usize> = first.mip0.iter().map(|u| u.zone).collect();
    assert_eq!(zones, (0..25).collect::<Vec<usize>>());
    assert_eq!(z.zone_to_update_mip0[25], -2);
    assert_eq!(z.zone_to_update_mip0[0], 0);
    // finest zones already refreshed show level 0, the others level 1
    assert_eq!(first.lod[0], 0);
    assert_eq!(first.lod[24], 0);
    assert_eq!(first.lod[25], 1);
    let second = z.step();
    assert_eq!(second.mip0.len(), UPDATE_PER_STEP);
    assert_eq!(second.mip0[0].zone, 25);
    let third = z.step();
    assert_eq!(third.mip0.len(), 75);
    assert!(z.zone_to_update_mip0.iter().all(|v| *v == 0));
}

#[test]
fn step_refreshes_the_oldest_zones_first() {
    let mut z = HeightmapZones::new(64 * 30, 64 * 30);
    z.update_rect(0, 0, 64 * 30 - 1, 64 * 30 - 1);
    z.zone_to_update_mip2 = vec![0; z.zone_to_update_mip2.len()];
    z.zone_to_update_mip1 = vec![0; z.zone_to_update_mip1.len()];
    z.mip4_to_update = false;
    z.zone_to_update_mip0[500] = -9;
    z.zone_to_update_mip0[400] = -5;
    let plan = z.step();
    assert_eq!(plan.mip0.len(), UPDATE_PER_STEP);
    assert_eq!(plan.mip0[0].zone, 500);
    assert_eq!(plan.mip0[1].zone, 400);
    assert_eq!(plan.mip0[2].zone, 0);
}

#[test]
fn mipmap_keeps_one_texel_in_two() {
    let texels: Vec<u32> = (0..16).collect();
    assert_eq!(mipmap_texels(&texels, 4, 1, 0, 0, 4, 4), vec![0, 2, 8, 10]);
    assert_eq!(mipmap_texels(&texels, 4, 0, 1, 2, 2, 1), vec![9, 10]);
}

#[test]
fn mipmap_of_an_empty_rect_is_empty() {
    let texels: Vec<u32> = (0..16).collect();
    assert!(mipmap_texels(&texels, 4, 2, 0, 0, 3, 3).is_empty());
}
