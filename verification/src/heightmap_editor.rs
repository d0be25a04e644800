use vstd::prelude::*;
use crate::heightmap_zones::ZoneRect;

verus! {

/// The texels that a pen of half side `pen_size` centred on texel
/// `(middle_i, middle_j)` covers on a `width` x `height` map, clipped to the
/// map: `None` when nothing of the map is covered.
pub open spec fn pen_rect_of(middle_i: int, middle_j: int, pen_size: int, width: int, height: int) -> Option<ZoneRect> {
    let min_i = if middle_i - pen_size > 0 { middle_i - pen_size } else { 0 };
    let min_j = if middle_j - pen_size > 0 { middle_j - pen_size } else { 0 };
    let max_i = if middle_i + pen_size < width - 1 { middle_i + pen_size } else { width - 1 };
    let max_j = if middle_j + pen_size < height - 1 { middle_j + pen_size } else { height - 1 };
    if max_i - min_i + 1 > 0 && max_j - min_j + 1 > 0 {
        Some(
            ZoneRect {
                min_x: min_i as u32,
                min_y: min_j as u32,
                width: (max_i - min_i + 1) as u32,
                height: (max_j - min_j + 1) as u32,
            },
        )
    } else {
        None
    }
}

/// The rectangle of texels a pen stroke changes, to be marked for refresh.
pub fn pen_rect(middle_i: i32, middle_j: i32, pen_size: i32, width: i32, height: i32) -> (r: Option<ZoneRect>)
    requires
        i32::MIN <= middle_i - pen_size <= i32::MAX,
        i32::MIN <= middle_i + pen_size <= i32::MAX,
        i32::MIN <= middle_j - pen_size <= i32::MAX,
        i32::MIN <= middle_j + pen_size <= i32::MAX,
        i32::MIN < width,
        i32::MIN < height,
    ensures
        r == pen_rect_of(middle_i as int, middle_j as int, pen_size as int, width as int, height as int),
{
    let lo_i = middle_i - pen_size;
    let lo_j = middle_j - pen_size;
    let min_i = if lo_i > 0 { lo_i } else { 0 };
    let min_j = if lo_j > 0 { lo_j } else { 0 };
    let hi_i = middle_i + pen_size;
    let hi_j = middle_j + pen_size;
    let max_i = if hi_i < width - 1 { hi_i } else { width - 1 };
    let max_j = if hi_j < height - 1 { hi_j } else { height - 1 };
    if (max_i as i64) - (min_i as i64) + 1 > 0 && (max_j as i64) - (min_j as i64) + 1 > 0 {
        Some(
            ZoneRect {
                min_x: min_i as u32,
                min_y: min_j as u32,
                width: ((max_i as i64) - (min_i as i64) + 1) as u32,
                height: ((max_j as i64) - (min_j as i64) + 1) as u32,
            },
        )
    } else {
        None
    }
}

} // verus!
