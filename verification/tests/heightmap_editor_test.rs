use rts_engine::heightmap_editor::pen_rect;
use rts_engine::heightmap_zones::ZoneRect;

#[test]
fn pen_covers_a_square_around_its_centre() {
    assert_eq!(pen_rect(50, 60, 10, 1024, 1024), Some(ZoneRect { min_x: 40, min_y: 50, width: 21, height: 21 }));
}

#[test]
fn pen_is_clipped_to_the_map() {
    assert_eq!(pen_rect(3, 1020, 10, 1024, 1024), Some(ZoneRect { min_x: 0, min_y: 1010, width: 14, height: 14 }));
}

#[test]
fn pen_off_the_map_covers_nothing() {
    assert_eq!(pen_rect(-30, 5, 10, 100, 100), None);
    assert_eq!(pen_rect(5, 200, 10, 100, 100), None);
}
