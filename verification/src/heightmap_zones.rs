use vstd::prelude::*;

verus! {

/// Side of a zone of the finest mip level, in texels.
pub const ZONE_SIZE_MIP0: u32 = 64;

/// Zones refreshed at most per step.
pub const UPDATE_PER_STEP: usize = 300;

/// Mip levels of the height texture.
pub const MIP_COUNT: u32 = 5;

/// Which zones of the height texture wait for a refresh, at the three
/// finest mip levels. A zone holds 0 when it is up to date, and otherwise a
/// negative age that grows more negative at each step it keeps waiting.
pub struct HeightmapZones {
    pub map_width: u32,
    pub map_height: u32,
    pub zone_to_update_mip0: Vec<i32>,
    pub zone_to_update_mip1: Vec<i32>,
    pub zone_to_update_mip2: Vec<i32>,
    pub mip4_to_update: bool,
}

/// Number of zones of side `d` along a side of `n` texels, counting the
/// zone that starts at `n` itself.
pub open spec fn zone_count(n: u32, d: u32) -> nat {
    (n / d) as nat + 1
}

/// Index, in the zone list of mip level `level`, of the finest-level zone
/// at column `i`, row `j`, when a row of finest-level zones is `w` long.
pub open spec fn zone_index(level: int, i: int, j: int, w: int) -> int {
    if level == 0 {
        i + j * w
    } else if level == 1 {
        i / 2 + (j / 2) * (w / 2)
    } else {
        i / 4 + (j / 4) * (w / 4)
    }
}

impl HeightmapZones {
    /// The zone lists have one zone per `64 << level` texels along each
    /// side, and their indices fit in a `u32`.
    pub open spec fn wf(&self) -> bool {
        &&& self.zone_to_update_mip0@.len() == zone_count(self.map_width, 64) * zone_count(self.map_height, 64)
        &&& self.zone_to_update_mip1@.len() == zone_count(self.map_width, 128) * zone_count(self.map_height, 128)
        &&& self.zone_to_update_mip2@.len() == zone_count(self.map_width, 256) * zone_count(self.map_height, 256)
        &&& zone_count(self.map_width, 64) * zone_count(self.map_height, 64) <= u32::MAX
        &&& self.map_height <= 0x4000_0000
    }

    /// The zone list of mip level `level`.
    pub open spec fn zones(&self, level: int) -> Seq<i32> {
        if level == 0 {
            self.zone_to_update_mip0@
        } else if level == 1 {
            self.zone_to_update_mip1@
        } else {
            self.zone_to_update_mip2@
        }
    }
}

proof fn lemma_zone_counts(w: u32, h: u32)
    ensures
        zone_count(w, 128) * zone_count(h, 128) <= zone_count(w, 64) * zone_count(h, 64),
        zone_count(w, 256) * zone_count(h, 256) <= zone_count(w, 64) * zone_count(h, 64),
{
    assert(zone_count(w, 128) <= zone_count(w, 64));
    assert(zone_count(h, 128) <= zone_count(h, 64));
    assert(zone_count(w, 256) <= zone_count(w, 64));
    assert(zone_count(h, 256) <= zone_count(h, 64));
    let (a, b, c, d) = (zone_count(w, 128), zone_count(h, 128), zone_count(w, 64), zone_count(h, 64));
    assert(a * b <= c * d) by (nonlinear_arith)
        requires
            a <= c,
            b <= d,
    ;
    let (e, f) = (zone_count(w, 256), zone_count(h, 256));
    assert(e * f <= c * d) by (nonlinear_arith)
        requires
            e <= c,
            f <= d,
    ;
}

/// A list of `n` up-to-date zones.
fn zeros(n: usize) -> (v: Vec<i32>)
    ensures
        v@.len() == n,
        forall|k: int| 0 <= k < n ==> v@[k] == 0,
{
    let mut v: Vec<i32> = Vec::new();
    let mut k: usize = 0;
    while k < n
        invariant
            0 <= k <= n,
            v@.len() == k,
            forall|x: int| 0 <= x < k ==> v@[x] == 0,
        decreases n - k,
    {
        v.push(0);
        k = k + 1;
    }
    v
}

impl HeightmapZones {
    /// Zones of a `map_width` x `map_height` height map, all up to date.
    pub fn new(map_width: u32, map_height: u32) -> (r: HeightmapZones)
        requires
            zone_count(map_width, 64) * zone_count(map_height, 64) <= u32::MAX,
            map_height <= 0x4000_0000,
        ensures
            r.wf(),
            r.map_width == map_width,
            r.map_height == map_height,
            !r.mip4_to_update,
            forall|level: int, k: int| 0 <= level < 3 && 0 <= k < r.zones(level).len() ==> r.zones(level)[k] == 0,
    {
        proof {
            lemma_zone_counts(map_width, map_height);
        }
        let n0 = ((map_width / 64) as usize + 1) * ((map_height / 64) as usize + 1);
        let n1 = ((map_width / 128) as usize + 1) * ((map_height / 128) as usize + 1);
        let n2 = ((map_width / 256) as usize + 1) * ((map_height / 256) as usize + 1);
        HeightmapZones {
            map_width,
            map_height,
            zone_to_update_mip0: zeros(n0),
            zone_to_update_mip1: zeros(n1),
            zone_to_update_mip2: zeros(n2),
            mip4_to_update: false,
        }
    }
}

/// Some finest-level zone at column `i`, row `j` with `i0 <= i <= i1` and
/// `j0 <= j <= j1`, taken before `(ci, cj)` in column-major order, lies in
/// zone `k` of mip level `level`.
pub open spec fn covered_before(level: int, k: int, i0: int, j0: int, j1: int, ci: int, cj: int, w: int) -> bool {
    exists|i: int, j: int|
        #![trigger zone_index(level, i, j, w)]
        ((i0 <= i < ci && j0 <= j <= j1) || (i == ci && j0 <= j < cj)) && zone_index(level, i, j, w) == k
}

/// Zone `k` of mip level `level` holds some finest-level zone at column `i`,
/// row `j` with `i0 <= i <= i1` and `j0 <= j <= j1`.
pub open spec fn covered(level: int, k: int, i0: int, i1: int, j0: int, j1: int, w: int) -> bool {
    exists|i: int, j: int|
        #![trigger zone_index(level, i, j, w)]
        i0 <= i <= i1 && j0 <= j <= j1 && zone_index(level, i, j, w) == k
}

proof fn lemma_zone_index_monotone(level: int, i: int, j: int, i1: int, j1: int, w: int)
    requires
        0 <= i <= i1,
        0 <= j <= j1,
        0 <= w,
    ensures
        0 <= zone_index(level, i, j, w) <= zone_index(level, i1, j1, w),
{
    if level == 0 {
        assert(j * w <= j1 * w) by (nonlinear_arith)
            requires
                0 <= j <= j1,
                0 <= w,
        ;
        assert(0 <= j * w) by (nonlinear_arith)
            requires
                0 <= j,
                0 <= w,
        ;
    } else if level == 1 {
        vstd::arithmetic::div_mod::lemma_div_is_ordered(i, i1, 2);
        vstd::arithmetic::div_mod::lemma_div_is_ordered(j, j1, 2);
        let (a, b, c) = (j / 2, j1 / 2, w / 2);
        assert(0 <= a * c <= b * c) by (nonlinear_arith)
            requires
                0 <= a <= b,
                0 <= c,
        ;
    } else {
        vstd::arithmetic::div_mod::lemma_div_is_ordered(i, i1, 4);
        vstd::arithmetic::div_mod::lemma_div_is_ordered(j, j1, 4);
        let (a, b, c) = (j / 4, j1 / 4, w / 4);
        assert(0 <= a * c <= b * c) by (nonlinear_arith)
            requires
                0 <= a <= b,
                0 <= c,
        ;
    }
}

/// Marks zone `idx` of `zones` as waiting when it is up to date.
fn mark_zone(zones: &mut Vec<i32>, idx: usize)
    requires
        idx < old(zones)@.len(),
    ensures
        final(zones)@ == old(zones)@.update(
            idx as int,
            if old(zones)@[idx as int] == 0 {
                -1i32
            } else {
                old(zones)@[idx as int]
            },
        ),
{
    if zones[idx] == 0 {
        zones.set(idx, -1);
    }
}

impl HeightmapZones {
    /// Marks as waiting every up-to-date zone, at each of the three finest
    /// levels, that meets the rectangle of `width` x `height` texels whose
    /// corner is `(min_x, min_y)` (the rectangle's far edges included), and
    /// asks for the coarse levels to be refreshed.
    pub fn update_rect(&mut self, min_x: u32, min_y: u32, width: u32, height: u32)
        requires
            old(self).wf(),
            min_x + width <= u32::MAX,
            min_y + height <= u32::MAX,
            forall|level: int|
                0 <= level < 3 ==> zone_index(
                    level,
                    ((min_x + width) / 64) as int,
                    ((min_y + height) / 64) as int,
                    (old(self).map_width / 64) as int,
                ) < old(self).zones(level).len(),
        ensures
            final(self).wf(),
            final(self).map_width == old(self).map_width,
            final(self).map_height == old(self).map_height,
            final(self).mip4_to_update,
            forall|level: int, k: int|
                0 <= level < 3 && 0 <= k < old(self).zones(level).len() ==> #[trigger] final(self).zones(level)[k] == if old(self).zones(level)[k] == 0 && covered(
                    level,
                    k,
                    (min_x / 64) as int,
                    ((min_x + width) / 64) as int,
                    (min_y / 64) as int,
                    ((min_y + height) / 64) as int,
                    (old(self).map_width / 64) as int,
                ) {
                    -1i32
                } else {
                    old(self).zones(level)[k]
                },
            forall|level: int| 0 <= level < 3 ==> final(self).zones(level).len() == old(self).zones(level).len(),
            forall|level: int, k: int|
                0 <= level < 3 && 0 <= k < old(self).zones(level).len() && covered(
                    level,
                    k,
                    (min_x / 64) as int,
                    ((min_x + width) / 64) as int,
                    (min_y / 64) as int,
                    ((min_y + height) / 64) as int,
                    (old(self).map_width / 64) as int,
                ) ==> #[trigger] final(self).zones(level)[k] != 0,
    {
        let ghost old_self = *self;
        let i0 = min_x / 64;
        let i1 = (min_x + width) / 64;
        let j0 = min_y / 64;
        let j1 = (min_y + height) / 64;
        let w = self.map_width / 64;
        let ghost wi = w as int;
        let mut i = i0;
        while i <= i1
            invariant
                i0 <= i <= i1 + 1,
                i1 < u32::MAX,
                j1 < u32::MAX,
                wi == w as int,
                old_self.wf(),
                j0 <= j1,
                i0 <= i1,
                w == self.map_width / 64,
                self.map_width == old_self.map_width,
                self.map_height == old_self.map_height,
                forall|level: int| 0 <= level < 3 ==> self.zones(level).len() == old_self.zones(level).len(),
                forall|level: int|
                    0 <= level < 3 ==> zone_index(level, i1 as int, j1 as int, wi) < old_self.zones(level).len(),
                forall|level: int, k: int|
                    0 <= level < 3 && 0 <= k < old_self.zones(level).len() ==> #[trigger] self.zones(level)[k] == if old_self.zones(level)[k] == 0 && covered_before(
                        level, k, i0 as int, j0 as int, j1 as int, i as int, j0 as int, wi,
                    ) {
                        -1i32
                    } else {
                        old_self.zones(level)[k]
                    },
            decreases i1 + 1 - i,
        {
            let mut j = j0;
            while j <= j1
                invariant
                    i0 <= i <= i1,
                    j0 <= j <= j1 + 1,
                    i1 < u32::MAX,
                    j1 < u32::MAX,
                    wi == w as int,
                    old_self.wf(),
                    w == self.map_width / 64,
                    self.map_width == old_self.map_width,
                    self.map_height == old_self.map_height,
                    forall|level: int| 0 <= level < 3 ==> self.zones(level).len() == old_self.zones(level).len(),
                    forall|level: int|
                        0 <= level < 3 ==> zone_index(level, i1 as int, j1 as int, wi) < old_self.zones(level).len(),
                    forall|level: int, k: int|
                        0 <= level < 3 && 0 <= k < old_self.zones(level).len() ==> #[trigger] self.zones(level)[k] == if old_self.zones(level)[k] == 0 && covered_before(
                            level, k, i0 as int, j0 as int, j1 as int, i as int, j as int, wi,
                        ) {
                            -1i32
                        } else {
                            old_self.zones(level)[k]
                        },
                decreases j1 + 1 - j,
            {
                proof {
                    lemma_zone_index_monotone(0, i as int, j as int, i1 as int, j1 as int, wi);
                    lemma_zone_index_monotone(1, i as int, j as int, i1 as int, j1 as int, wi);
                    lemma_zone_index_monotone(2, i as int, j as int, i1 as int, j1 as int, wi);
                    lemma_zone_counts(old_self.map_width, old_self.map_height);
                }
                let ghost before = *self;
                let idx2 = (i / 4 + (j / 4) * (w / 4)) as usize;
                mark_zone(&mut self.zone_to_update_mip2, idx2);
                let idx1 = (i / 2 + (j / 2) * (w / 2)) as usize;
                mark_zone(&mut self.zone_to_update_mip1, idx1);
                let idx0 = (i + j * w) as usize;
                mark_zone(&mut self.zone_to_update_mip0, idx0);
                proof {
                    assert forall|level: int, k: int|
                        0 <= level < 3 && 0 <= k < old_self.zones(level).len() implies #[trigger] self.zones(level)[k] == if old_self.zones(level)[k] == 0 && covered_before(
                            level, k, i0 as int, j0 as int, j1 as int, i as int, j + 1, wi,
                        ) {
                            -1i32
                        } else {
                            old_self.zones(level)[k]
                        } by {
                        let here = zone_index(level, i as int, j as int, wi);
                        if covered_before(level, k, i0 as int, j0 as int, j1 as int, i as int, j + 1, wi) {
                            if k != here {
                                let (a, b) = choose|a: int, b: int|
                                    #![trigger zone_index(level, a, b, wi)]
                                    ((i0 <= a < i && j0 <= b <= j1) || (a == i && j0 <= b < j + 1)) && zone_index(level, a, b, wi) == k;
                                assert(covered_before(level, k, i0 as int, j0 as int, j1 as int, i as int, j as int, wi));
                            }
                        }
                        if k == here {
                            assert(covered_before(level, k, i0 as int, j0 as int, j1 as int, i as int, j + 1, wi));
                        } else {
                            if covered_before(level, k, i0 as int, j0 as int, j1 as int, i as int, j as int, wi) {
                                let (a, b) = choose|a: int, b: int|
                                    #![trigger zone_index(level, a, b, wi)]
                                    ((i0 <= a < i && j0 <= b <= j1) || (a == i && j0 <= b < j)) && zone_index(level, a, b, wi) == k;
                                assert(covered_before(level, k, i0 as int, j0 as int, j1 as int, i as int, j + 1, wi));
                            }
                        }
                    }
                }
                j = j + 1;
            }
            proof {
                assert forall|level: int, k: int|
                    0 <= level < 3 && 0 <= k < old_self.zones(level).len() implies #[trigger] covered_before(
                        level, k, i0 as int, j0 as int, j1 as int, i as int, j1 + 1, wi,
                    ) == covered_before(level, k, i0 as int, j0 as int, j1 as int, i + 1, j0 as int, wi) by {
                    if covered_before(level, k, i0 as int, j0 as int, j1 as int, i as int, j1 + 1, wi) {
                        let (a, b) = choose|a: int, b: int|
                            #![trigger zone_index(level, a, b, wi)]
                            ((i0 <= a < i && j0 <= b <= j1) || (a == i && j0 <= b < j1 + 1)) && zone_index(level, a, b, wi) == k;
                        assert(covered_before(level, k, i0 as int, j0 as int, j1 as int, i + 1, j0 as int, wi));
                    }
                    if covered_before(level, k, i0 as int, j0 as int, j1 as int, i + 1, j0 as int, wi) {
                        let (a, b) = choose|a: int, b: int|
                            #![trigger zone_index(level, a, b, wi)]
                            ((i0 <= a < i + 1 && j0 <= b <= j1) || (a == i + 1 && j0 <= b < j0)) && zone_index(level, a, b, wi) == k;
                        assert(covered_before(level, k, i0 as int, j0 as int, j1 as int, i as int, j1 + 1, wi));
                    }
                }
            }
            i = i + 1;
        }
        proof {
            assert forall|level: int, k: int|
                0 <= level < 3 && 0 <= k < old_self.zones(level).len() implies #[trigger] covered_before(
                    level, k, i0 as int, j0 as int, j1 as int, i1 + 1, j0 as int, wi,
                ) == covered(level, k, i0 as int, i1 as int, j0 as int, j1 as int, wi) by {
                if covered_before(level, k, i0 as int, j0 as int, j1 as int, i1 + 1, j0 as int, wi) {
                    let (a, b) = choose|a: int, b: int|
                        #![trigger zone_index(level, a, b, wi)]
                        ((i0 <= a < i1 + 1 && j0 <= b <= j1) || (a == i1 + 1 && j0 <= b < j0)) && zone_index(level, a, b, wi) == k;
                    assert(covered(level, k, i0 as int, i1 as int, j0 as int, j1 as int, wi));
                }
                if covered(level, k, i0 as int, i1 as int, j0 as int, j1 as int, wi) {
                    let (a, b) = choose|a: int, b: int|
                        #![trigger zone_index(level, a, b, wi)]
                        i0 <= a <= i1 && j0 <= b <= j1 && zone_index(level, a, b, wi) == k;
                    assert(covered_before(level, k, i0 as int, j0 as int, j1 as int, i1 + 1, j0 as int, wi));
                }
            }
        }
        self.mip4_to_update = true;
        proof {
            assert(self.zones(0).len() == old_self.zones(0).len());
            assert(self.zones(1).len() == old_self.zones(1).len());
            assert(self.zones(2).len() == old_self.zones(2).len());
        }
    }
}

/// The texels of the height map that a zone covers: its corner and size.
#[derive(Debug, Clone, Copy, PartialEq, Eq, Structural)]
pub struct ZoneRect {
    pub min_x: u32,
    pub min_y: u32,
    pub width: u32,
    pub height: u32,
}

/// A zone refreshed by a step, and the texels to upload for it (`None` when
/// the zone lies outside the map).
#[derive(Debug, Clone, Copy, PartialEq, Eq, Structural)]
pub struct ZoneUpdate {
    pub zone: usize,
    pub rect: Option<ZoneRect>,
}

/// Number of waiting zones in `z`.
pub open spec fn count_nonzero(z: Seq<i32>) -> nat
    decreases z.len(),
{
    if z.len() == 0 {
        0
    } else {
        count_nonzero(z.drop_last()) + if z.last() != 0 {
            1nat
        } else {
            0nat
        }
    }
}

/// Number of zones in `z` whose age is `v`.
pub open spec fn count_value(z: Seq<i32>, v: i32) -> nat
    decreases z.len(),
{
    if z.len() == 0 {
        0
    } else {
        count_value(z.drop_last(), v) + if z.last() == v {
            1nat
        } else {
            0nat
        }
    }
}

/// Zone `a` of `z` comes before zone `b` in refresh order: older (more
/// negative) first, then by position.
pub open spec fn refreshed_before(z: Seq<i32>, a: int, b: int) -> bool {
    z[a] < z[b] || (z[a] == z[b] && a < b)
}

/// How many zones of `z` a step refreshes with `budget` refreshes left.
pub open spec fn refresh_count(z: Seq<i32>, budget: nat) -> nat {
    let n = count_nonzero(z);
    let m = if n < 300 {
        n
    } else {
        300
    };
    if m < budget {
        m
    } else {
        budget
    }
}

/// The texels of zone `k` of a level whose zones have side `d`, on a map
/// of `map_width` x `map_height` texels, rows of zones being
/// `map_width / d` long.
pub open spec fn zone_rect(k: int, d: int, map_width: int, map_height: int) -> Option<ZoneRect> {
    let per_row = map_width / d;
    let min_x = (k % per_row) * d;
    let min_y = (k / per_row) * d;
    if min_x < map_width && min_y < map_height {
        Some(
            ZoneRect {
                min_x: min_x as u32,
                min_y: min_y as u32,
                width: (if d < map_width - min_x {
                    d
                } else {
                    map_width - min_x
                }) as u32,
                height: (if d < map_height - min_y {
                    d
                } else {
                    map_height - min_y
                }) as u32,
            },
        )
    } else {
        None
    }
}

/// Zone `k` is among the zones of `ups`.
pub open spec fn is_refreshed(ups: Seq<ZoneUpdate>, k: int) -> bool {
    exists|m: int| 0 <= m < ups.len() && (#[trigger] ups[m]).zone == k
}

/// One level of a step: with `budget` refreshes left, the
/// `refresh_count` waiting zones that come first in refresh order are
/// refreshed, in that order, and the zones left waiting grow one step
/// older; with no budget left the level is untouched.
pub open spec fn level_step(
    z_old: Seq<i32>,
    z_new: Seq<i32>,
    ups: Seq<ZoneUpdate>,
    budget: nat,
    d: int,
    map_width: int,
    map_height: int,
) -> bool {
    if budget == 0 {
        z_new == z_old && ups.len() == 0
    } else {
        &&& ups.len() == refresh_count(z_old, budget)
        &&& z_new.len() == z_old.len()
        &&& forall|m: int|
            #![trigger ups[m]]
            0 <= m < ups.len() ==> {
                &&& ups[m].zone < z_old.len()
                &&& z_old[ups[m].zone as int] != 0
                &&& ups[m].rect == zone_rect(ups[m].zone as int, d, map_width, map_height)
            }
        &&& forall|m1: int, m2: int|
            0 <= m1 < m2 < ups.len() ==> refreshed_before(z_old, #[trigger] ups[m1].zone as int, #[trigger] ups[m2].zone as int)
        &&& forall|m: int, k: int|
            0 <= m < ups.len() && 0 <= k < z_old.len() && z_old[k] != 0 && !is_refreshed(ups, k)
                ==> #[trigger] refreshed_before(z_old, ups[m].zone as int, k)
        &&& forall|k: int|
            0 <= k < z_old.len() ==> #[trigger] z_new[k] == if is_refreshed(ups, k) {
                0
            } else if z_old[k] != 0 {
                (z_old[k] - 1) as i32
            } else {
                0
            }
    }
}

/// Calls `slice::sort_by_key` with the zone's age as the key. The sort is
/// documented as stable, so zones of equal age, which come in increasing
/// position, stay in increasing position: the result is ordered by age,
/// then by position, and holds the same entries.
#[verifier::external_body]
fn sort_by_age(v: &mut Vec<(usize, i32)>)
    requires
        forall|a: int, b: int| 0 <= a < b < old(v)@.len() ==> old(v)@[a].0 < old(v)@[b].0,
    ensures
        final(v)@.len() == old(v)@.len(),
        forall|x: (usize, i32)| final(v)@.contains(x) <==> old(v)@.contains(x),
        forall|a: int, b: int|
            0 <= a < b < final(v)@.len() ==> final(v)@[a].1 < final(v)@[b].1 || (final(v)@[a].1 == final(v)@[b].1
                && final(v)@[a].0 < final(v)@[b].0),
{
    v.sort_by_key(|e| e.1);
}

proof fn lemma_count_value_lower(z: Seq<i32>, v: i32, ks: Seq<usize>)
    requires
        forall|a: int, b: int| 0 <= a < b < ks.len() ==> ks[a] != ks[b],
        forall|a: int| 0 <= a < ks.len() ==> ks[a] < z.len() && z[ks[a] as int] == v,
    ensures
        count_value(z, v) >= ks.len(),
    decreases z.len(),
{
    if z.len() == 0 {
        if ks.len() > 0 {
            assert(ks[0] < z.len());
        }
    } else {
        let n: int = z.len() - 1;
        let zs = z.drop_last();
        if exists|p: int| 0 <= p < ks.len() && ks[p] as int == n {
            let p = choose|p: int| 0 <= p < ks.len() && ks[p] as int == n;
            let rest = ks.remove(p);
            assert forall|a: int| 0 <= a < rest.len() implies rest[a] < zs.len() && zs[rest[a] as int] == v by {
                if a < p {
                    assert(rest[a] == ks[a]);
                    assert(ks[a] != ks[p]);
                } else {
                    assert(rest[a] == ks[a + 1]);
                    assert(ks[a + 1] != ks[p]);
                }
            }
            assert forall|a: int, b: int| 0 <= a < b < rest.len() implies rest[a] != rest[b] by {
                let a2 = if a < p { a } else { a + 1 };
                let b2 = if b < p { b } else { b + 1 };
                assert(rest[a] == ks[a2] && rest[b] == ks[b2]);
            }
            lemma_count_value_lower(zs, v, rest);
            assert(z.last() == v);
        } else {
            assert forall|a: int| 0 <= a < ks.len() implies ks[a] < zs.len() && zs[ks[a] as int] == v by {
                assert(ks[a] as int != n);
            }
            lemma_count_value_lower(zs, v, ks);
        }
    }
}

/// First texel row of the zones at position `k` of a level whose rows
/// hold `per_row` zones of side `d`.
pub open spec fn zone_row_offset(k: int, per_row: int, d: int) -> int {
    (k / per_row) * d
}

/// The texels of zone `k` of a level whose zones have side `d`.
fn zone_rect_of(k: usize, d: u32, map_width: u32, map_height: u32) -> (r: Option<ZoneRect>)
    requires
        d > 0,
        map_width / d > 0,
        k <= u32::MAX,
        zone_row_offset(k as int, (map_width / d) as int, d as int) <= u32::MAX,
    ensures
        r == zone_rect(k as int, d as int, map_width as int, map_height as int),
{
    let per_row = map_width / d;
    let i = (k as u32) % per_row;
    let j = (k as u32) / per_row;
    assert(i * d < map_width) by (nonlinear_arith)
        requires
            i < per_row,
            per_row == map_width / d,
            d > 0,
    ;
    let min_x = i * d;
    let min_y = j * d;
    if min_x < map_width && min_y < map_height {
        let width = if d < map_width - min_x { d } else { map_width - min_x };
        let height = if d < map_height - min_y { d } else { map_height - min_y };
        Some(ZoneRect { min_x, min_y, width, height })
    } else {
        None
    }
}

/// Runs one level of a step on `zones` with `budget` refreshes left.
#[verifier::rlimit(50)]
fn refresh_level(zones: &mut Vec<i32>, budget: usize, d: u32, map_width: u32, map_height: u32) -> (ups: Vec<ZoneUpdate>)
    requires
        d > 0,
        old(zones)@.len() <= u32::MAX,
        budget > 0 && refresh_count(old(zones)@, budget as nat) > 0 ==> map_width / d > 0,
        budget > 0 ==> count_value(old(zones)@, i32::MIN) <= refresh_count(old(zones)@, budget as nat),
        map_width / d > 0 ==> forall|k: int| 0 <= k < old(zones)@.len() ==> #[trigger] zone_row_offset(k, (map_width / d) as int, d as int) <= u32::MAX,
    ensures
        level_step(old(zones)@, final(zones)@, ups@, budget as nat, d as int, map_width as int, map_height as int),
{
    if budget == 0 {
        return Vec::new();
    }
    let ghost z = zones@;
    let n = zones.len();
    let mut cand: Vec<(usize, i32)> = Vec::new();
    let mut i: usize = 0;
    while i < n
        invariant
            n == z.len(),
            zones@ == z,
            0 <= i <= n,
            cand@.len() == count_nonzero(z.take(i as int)),
            forall|m: int|
                #![trigger cand@[m]]
                0 <= m < cand@.len() ==> cand@[m].0 < i && cand@[m].1 == z[cand@[m].0 as int] && cand@[m].1 != 0,
            forall|a: int, b: int| 0 <= a < b < cand@.len() ==> cand@[a].0 < cand@[b].0,
            forall|k: int| 0 <= k < i && z[k] != 0 ==> cand@.contains((k as usize, z[k])),
        decreases n - i,
    {
        let ghost before = cand@;
        if zones[i] != 0 {
            cand.push((i, zones[i]));
            proof {
                assert(cand@[before.len() as int] == (i, z[i as int]));
            }
        }
        proof {
            assert(z.take(i + 1).drop_last() =~= z.take(i as int));
            assert forall|k: int| 0 <= k < i + 1 && z[k] != 0 implies cand@.contains((k as usize, z[k])) by {
                if k < i {
                    let m = choose|m: int| 0 <= m < before.len() && before[m] == (k as usize, z[k]);
                    assert(cand@[m] == before[m]);
                } else {
                    assert(cand@[before.len() as int] == (i, z[i as int]));
                }
            }
        }
        i = i + 1;
    }
    proof {
        assert(z.take(n as int) =~= z);
    }
    let count = cand.len();
    let mut t = count;
    if t > UPDATE_PER_STEP {
        t = UPDATE_PER_STEP;
    }
    if t > budget {
        t = budget;
    }
    assert(t == refresh_count(z, budget as nat));
    let ghost unsorted = cand@;
    sort_by_age(&mut cand);
    let ghost sorted = cand@;
    proof {
        assert forall|m: int| #![trigger sorted[m]] 0 <= m < sorted.len() implies sorted[m].0 < n && sorted[m].1 == z[sorted[m].0 as int] && sorted[m].1 != 0 by {
            assert(sorted.contains(sorted[m]));
            let p = choose|p: int| 0 <= p < unsorted.len() && unsorted[p] == sorted[m];
            assert(unsorted[p] == sorted[m]);
        }
        assert forall|a: int, b: int| 0 <= a < sorted.len() && 0 <= b < sorted.len() && a != b implies #[trigger] sorted[a].0 != #[trigger] sorted[b].0 by {
            if a < b {
                assert(sorted[a].1 < sorted[b].1 || (sorted[a].1 == sorted[b].1 && sorted[a].0 < sorted[b].0));
            } else {
                assert(sorted[b].1 < sorted[a].1 || (sorted[b].1 == sorted[a].1 && sorted[b].0 < sorted[a].0));
            }
        }
    }
    let mut m: usize = t;
    while m < count
        invariant
            t <= m <= count,
            count == sorted.len(),
            cand@ == sorted,
            zones@.len() == z.len(),
            n == z.len(),
            t == refresh_count(z, budget as nat),
            budget > 0,
            count_value(z, i32::MIN) <= t,
            forall|x: int| #![trigger sorted[x]] 0 <= x < sorted.len() ==> sorted[x].0 < n && sorted[x].1 == z[sorted[x].0 as int] && sorted[x].1 != 0,
            forall|a: int, b: int| 0 <= a < sorted.len() && 0 <= b < sorted.len() && a != b ==> #[trigger] sorted[a].0 != #[trigger] sorted[b].0,
            forall|a: int, b: int|
                0 <= a < b < sorted.len() ==> sorted[a].1 < sorted[b].1 || (sorted[a].1 == sorted[b].1
                    && sorted[a].0 < sorted[b].0),
            forall|k: int|
                0 <= k < z.len() ==> #[trigger] zones@[k] == if exists|x: int| t <= x < m && sorted[x].0 == k {
                    (z[k] - 1) as i32
                } else {
                    z[k]
                },
        decreases count - m,
    {
        let k = cand[m].0;
        proof {
            assert(sorted[m as int].0 == k);
            assert(!(exists|x: int| t <= x < m && sorted[x].0 == k)) by {
                if exists|x: int| t <= x < m && sorted[x].0 == k {
                    let x = choose|x: int| t <= x < m && sorted[x].0 == k;
                    assert(sorted[x].0 != sorted[m as int].0);
                }
            }
            assert(zones@[k as int] == z[k as int]);
            if z[k as int] == i32::MIN {
                let ks = Seq::new((m + 1) as nat, |x: int| sorted[x].0);
                assert forall|a: int| 0 <= a < ks.len() implies ks[a] < z.len() && z[ks[a] as int] == i32::MIN by {
                    if a < m {
                        assert(sorted[a].1 < sorted[m as int].1 || (sorted[a].1 == sorted[m as int].1 && sorted[a].0 < sorted[m as int].0));
                    }
                }
                assert forall|a: int, b: int| 0 <= a < b < ks.len() implies ks[a] != ks[b] by {
                    assert(sorted[a].0 != sorted[b].0);
                }
                lemma_count_value_lower(z, i32::MIN, ks);
            }
        }
        let age = zones[k];
        zones.set(k, age - 1);
        proof {
            assert forall|kk: int| 0 <= kk < z.len() implies #[trigger] zones@[kk] == if exists|x: int| t <= x < m + 1 && sorted[x].0 == kk {
                (z[kk] - 1) as i32
            } else {
                z[kk]
            } by {
                if kk == k as int {
                    assert(sorted[m as int].0 == kk);
                } else {
                    if exists|x: int| t <= x < m + 1 && sorted[x].0 == kk {
                        let x = choose|x: int| t <= x < m + 1 && sorted[x].0 == kk;
                        assert(x != m);
                    }
                }
            }
        }
        m = m + 1;
    }
    let ghost aged = zones@;
    let mut ups: Vec<ZoneUpdate> = Vec::new();
    let mut m: usize = 0;
    while m < t
        invariant
            0 <= m <= t,
            t <= count,
            count == sorted.len(),
            cand@ == sorted,
            zones@.len() == z.len(),
            n == z.len(),
            n <= u32::MAX,
            d > 0,
            t == refresh_count(z, budget as nat),
            budget > 0,
            t > 0 ==> map_width / d > 0,
            map_width / d > 0 ==> forall|k: int| 0 <= k < z.len() ==> #[trigger] zone_row_offset(k, (map_width / d) as int, d as int) <= u32::MAX,
            ups@.len() == m,
            forall|x: int| #![trigger sorted[x]] 0 <= x < sorted.len() ==> sorted[x].0 < n && sorted[x].1 == z[sorted[x].0 as int] && sorted[x].1 != 0,
            forall|a: int, b: int| 0 <= a < sorted.len() && 0 <= b < sorted.len() && a != b ==> #[trigger] sorted[a].0 != #[trigger] sorted[b].0,
            forall|x: int| #![trigger ups@[x]] 0 <= x < m ==> ups@[x] == (ZoneUpdate {
                zone: sorted[x].0,
                rect: zone_rect(sorted[x].0 as int, d as int, map_width as int, map_height as int),
            }),
            forall|k: int|
                0 <= k < z.len() ==> #[trigger] zones@[k] == if exists|x: int| 0 <= x < m && sorted[x].0 == k {
                    0i32
                } else {
                    aged[k]
                },
        decreases t - m,
    {
        let k = cand[m].0;
        proof {
            assert(sorted[m as int].0 == k);
        }
        zones.set(k, 0);
        let rect = zone_rect_of(k, d, map_width, map_height);
        ups.push(ZoneUpdate { zone: k, rect });
        proof {
            assert forall|kk: int| 0 <= kk < z.len() implies #[trigger] zones@[kk] == if exists|x: int| 0 <= x < m + 1 && sorted[x].0 == kk {
                0i32
            } else {
                aged[kk]
            } by {
                if kk == k as int {
                    assert(sorted[m as int].0 == kk);
                } else {
                    if exists|x: int| 0 <= x < m + 1 && sorted[x].0 == kk {
                        let x = choose|x: int| 0 <= x < m + 1 && sorted[x].0 == kk;
                        assert(x != m);
                    }
                }
            }
        }
        m = m + 1;
    }
    proof {
        let u = ups@;
        assert forall|x: int| 0 <= x < u.len() implies (#[trigger] u[x]).zone == sorted[x].0 by {
            assert(u[x] == (ZoneUpdate { zone: sorted[x].0, rect: zone_rect(sorted[x].0 as int, d as int, map_width as int, map_height as int) }));
        }
        assert forall|k: int| 0 <= k < z.len() implies is_refreshed(u, k) == exists|x: int| 0 <= x < t && sorted[x].0 == k by {
            if is_refreshed(u, k) {
                let x = choose|x: int| 0 <= x < u.len() && (#[trigger] u[x]).zone == k;
                assert(u[x].zone == sorted[x].0);
            }
            if exists|x: int| 0 <= x < t && sorted[x].0 == k {
                let x = choose|x: int| 0 <= x < t && sorted[x].0 == k;
                assert(u[x].zone == sorted[x].0);
            }
        }
        assert forall|k: int| 0 <= k < z.len() && z[k] != 0 implies exists|x: int| 0 <= x < count && sorted[x].0 == k by {
            assert(unsorted.contains((k as usize, z[k])));
            assert(sorted.contains((k as usize, z[k])));
            let x = choose|x: int| 0 <= x < sorted.len() && sorted[x] == (k as usize, z[k]);
            assert(sorted[x].0 == k);
        }
        assert forall|k: int| 0 <= k < z.len() implies #[trigger] zones@[k] == if is_refreshed(u, k) {
            0
        } else if z[k] != 0 {
            (z[k] - 1) as i32
        } else {
            0
        } by {
            if !is_refreshed(u, k) && z[k] != 0 {
                let x = choose|x: int| 0 <= x < count && sorted[x].0 == k;
                assert(x >= t);
            }
            if exists|x: int| t <= x < count && sorted[x].0 == k {
                let x = choose|x: int| t <= x < count && sorted[x].0 == k;
                assert(sorted[x].1 == z[k]);
            }
        }
        assert forall|m1: int, m2: int|
            0 <= m1 < m2 < u.len() implies refreshed_before(z, #[trigger] u[m1].zone as int, #[trigger] u[m2].zone as int) by {
            assert(u[m1].zone == sorted[m1].0 && u[m2].zone == sorted[m2].0);
            assert(sorted[m1].1 < sorted[m2].1 || (sorted[m1].1 == sorted[m2].1 && sorted[m1].0 < sorted[m2].0));
        }
        assert forall|mm: int, k: int|
            0 <= mm < u.len() && 0 <= k < z.len() && z[k] != 0 && !is_refreshed(u, k)
                implies #[trigger] refreshed_before(z, u[mm].zone as int, k) by {
            let x = choose|x: int| 0 <= x < count && sorted[x].0 == k;
            assert(x >= t);
            assert(u[mm].zone == sorted[mm].0);
            assert(sorted[mm].1 < sorted[x].1 || (sorted[mm].1 == sorted[x].1 && sorted[mm].0 < sorted[x].0));
        }
        assert forall|x: int|
            #![trigger u[x]]
            0 <= x < u.len() implies {
                &&& u[x].zone < z.len()
                &&& z[u[x].zone as int] != 0
                &&& u[x].rect == zone_rect(u[x].zone as int, d as int, map_width as int, map_height as int)
            } by {
            assert(u[x].zone == sorted[x].0);
        }
    }
    ups
}

/// What a step asks of the graphics side: whether to refresh the coarse
/// mip levels of the whole map, the zones refreshed at mip levels 2, 1 and 0
/// (uploaded in that order), and the finest level available in each zone
/// of the finest level (0 to 3), row by row.
#[derive(Debug, Clone)]
pub struct StepPlan {
    pub refresh_coarse_mips: bool,
    pub mip2: Vec<ZoneUpdate>,
    pub mip1: Vec<ZoneUpdate>,
    pub mip0: Vec<ZoneUpdate>,
    pub lod: Vec<u8>,
}

/// Finest mip level available in finest-level zone `(i, j)`, rows of zones
/// being `w` long.
pub open spec fn lod_level(z0: Seq<i32>, z1: Seq<i32>, z2: Seq<i32>, i: int, j: int, w: int) -> u8 {
    if z0[i + j * w] == 0 {
        0
    } else if z1[i / 2 + ((j / 2) * w) / 2] == 0 {
        1
    } else if z2[i / 4 + (j / 4) * (w / 4)] == 0 {
        2
    } else {
        3
    }
}

impl HeightmapZones {
    /// Refreshes left for mip level 2: half the step's refreshes when the
    /// coarse levels are refreshed too.
    pub open spec fn budget2(&self) -> nat {
        if self.mip4_to_update {
            150
        } else {
            300
        }
    }

    /// Refreshes left for mip level 1.
    pub open spec fn budget1(&self) -> nat {
        let b = self.budget2();
        (b - refresh_count(self.zone_to_update_mip2@, b)) as nat
    }

    /// Refreshes left for mip level 0.
    pub open spec fn budget0(&self) -> nat {
        let b = self.budget1();
        if b == 0 {
            0
        } else {
            (b - refresh_count(self.zone_to_update_mip1@, b)) as nat
        }
    }

    /// A step can run a level: the zones it refreshes have rows (the map is
    /// at least a zone wide) and no zone left waiting is as old as an `i32`
    /// can count.
    pub open spec fn level_runs(z: Seq<i32>, budget: nat, d: u32, map_width: u32) -> bool {
        budget > 0 ==> {
            &&& refresh_count(z, budget) > 0 ==> map_width / d > 0
            &&& count_value(z, i32::MIN) <= refresh_count(z, budget)
        }
    }
}

proof fn lemma_row_offset_fits(k: int, w: u32, h: u32, d: u32)
    requires
        d == 64 || d == 128 || d == 256,
        w / d > 0,
        h <= 0x4000_0000,
        0 <= k < zone_count(w, d) * zone_count(h, d),
    ensures
        zone_row_offset(k, (w / d) as int, d as int) <= u32::MAX,
{
    let a = (w / d) as int;
    let b = (h / d) as int;
    let q = k / a;
    assert(q * a <= k) by (nonlinear_arith)
        requires
            a > 0,
            q == k / a,
            k >= 0,
    ;
    assert(k < 2 * a * (b + 1)) by (nonlinear_arith)
        requires
            k < (a + 1) * (b + 1),
            a >= 1,
            b >= 0,
    ;
    assert(q < 2 * (b + 1)) by (nonlinear_arith)
        requires
            q * a <= k,
            k < 2 * a * (b + 1),
            a >= 1,
    ;
    assert(b * d <= h) by (nonlinear_arith)
        requires
            b == h as int / d as int,
            d > 0,
    ;
    assert(q * d <= 2 * (b + 1) * d) by (nonlinear_arith)
        requires
            q < 2 * (b + 1),
            d > 0,
            q >= 0,
    ;
}

proof fn lemma_lod_indices(i: int, j: int, mw: u32, mh: u32)
    requires
        0 <= i < (mw / 64) as int,
        0 <= j < (mh / 64) as int,
    ensures
        (i + j * ((mw / 64) as int)) < zone_count(mw, 64) * zone_count(mh, 64),
        (i / 2 + ((j / 2) * ((mw / 64) as int)) / 2) < zone_count(mw, 128) * zone_count(mh, 128),
        (i / 4 + (j / 4) * (((mw / 64) as int) / 4)) < zone_count(mw, 256) * zone_count(mh, 256),
        0 <= i + j * (mw / 64) as int,
        0 <= i / 2 + ((j / 2) * (mw / 64) as int) / 2,
        0 <= i / 4 + (j / 4) * ((mw / 64) as int / 4),
{
    let w = (mw / 64) as int;
    let h = (mh / 64) as int;
    assert(i + j * w < (w + 1) * (h + 1)) by (nonlinear_arith)
        requires
            0 <= i < w,
            0 <= j < h,
    ;
    assert(0 <= j * w) by (nonlinear_arith)
        requires
            0 <= j,
            0 <= w,
    ;
    vstd::arithmetic::div_mod::lemma_div_denominator(mw as int, 64, 2);
    vstd::arithmetic::div_mod::lemma_div_denominator(mh as int, 64, 2);
    vstd::arithmetic::div_mod::lemma_div_denominator(mw as int, 64, 4);
    vstd::arithmetic::div_mod::lemma_div_denominator(mh as int, 64, 4);
    let a = w / 2;
    let b = h / 2;
    assert(mw as int / 128 == a);
    assert(mh as int / 128 == b);
    let i2 = i / 2;
    let j2 = j / 2;
    assert(i2 <= a && j2 <= b && 0 <= i2 && 0 <= j2);
    assert(w <= 2 * a + 1);
    assert(j2 * w <= j2 * (2 * a + 1)) by (nonlinear_arith)
        requires
            0 <= j2,
            w <= 2 * a + 1,
    ;
    assert((j2 * w) / 2 <= a * j2 + j2 / 2) by (nonlinear_arith)
        requires
            j2 * w <= j2 * (2 * a + 1),
            0 <= j2,
            0 <= a,
            0 <= w,
    ;
    assert(a * j2 <= a * b) by (nonlinear_arith)
        requires
            0 <= a,
            0 <= j2 <= b,
    ;
    assert(i2 + (j2 * w) / 2 < (a + 1) * (b + 1)) by (nonlinear_arith)
        requires
            i2 <= a,
            (j2 * w) / 2 <= a * j2 + j2 / 2,
            a * j2 <= a * b,
            0 <= j2 <= b,
            0 <= a,
    ;
    assert(0 <= j2 * w) by (nonlinear_arith)
        requires
            0 <= j2,
            0 <= w,
    ;
    let c = w / 4;
    let e = h / 4;
    assert(mw as int / 256 == c);
    assert(mh as int / 256 == e);
    let i4 = i / 4;
    let j4 = j / 4;
    assert(i4 <= c && j4 <= e && 0 <= i4 && 0 <= j4);
    assert(i4 + j4 * c < (c + 1) * (e + 1)) by (nonlinear_arith)
        requires
            0 <= i4 <= c,
            0 <= j4 <= e,
    ;
    assert(0 <= j4 * c) by (nonlinear_arith)
        requires
            0 <= j4,
            0 <= c,
    ;
}

impl HeightmapZones {
    /// One step of the progressive refresh of the height texture: the
    /// coarse levels first when asked for, then as many waiting zones of
    /// mip levels 2, 1 and 0 as the step's refreshes allow, oldest first,
    /// and the level of detail available in each finest-level zone.
    pub fn step(&mut self) -> (plan: StepPlan)
        requires
            old(self).wf(),
            Self::level_runs(old(self).zone_to_update_mip2@, old(self).budget2(), 256, old(self).map_width),
            Self::level_runs(old(self).zone_to_update_mip1@, old(self).budget1(), 128, old(self).map_width),
            Self::level_runs(old(self).zone_to_update_mip0@, old(self).budget0(), 64, old(self).map_width),
        ensures
            final(self).wf(),
            final(self).map_width == old(self).map_width,
            final(self).map_height == old(self).map_height,
            !final(self).mip4_to_update,
            plan.refresh_coarse_mips == old(self).mip4_to_update,
            level_step(old(self).zone_to_update_mip2@, final(self).zone_to_update_mip2@, plan.mip2@, old(self).budget2(), 256, old(self).map_width as int, old(self).map_height as int),
            level_step(old(self).zone_to_update_mip1@, final(self).zone_to_update_mip1@, plan.mip1@, old(self).budget1(), 128, old(self).map_width as int, old(self).map_height as int),
            level_step(old(self).zone_to_update_mip0@, final(self).zone_to_update_mip0@, plan.mip0@, old(self).budget0(), 64, old(self).map_width as int, old(self).map_height as int),
            plan.lod@.len() == (old(self).map_width / 64) as int * (old(self).map_height / 64) as int,
            forall|i: int, j: int|
                0 <= i < (old(self).map_width / 64) as int && 0 <= j < (old(self).map_height / 64) as int ==> #[trigger] plan.lod@[i + j * (old(self).map_width / 64) as int] == lod_level(
                    final(self).zone_to_update_mip0@,
                    final(self).zone_to_update_mip1@,
                    final(self).zone_to_update_mip2@,
                    i,
                    j,
                    (old(self).map_width / 64) as int,
                ),
    {
        let ghost old_self = *self;
        let mw = self.map_width;
        let mh = self.map_height;
        proof {
            lemma_zone_counts(mw, mh);
            assert forall|k: int| 0 <= k < old_self.zone_to_update_mip2@.len() && mw / 256 > 0 implies #[trigger] zone_row_offset(k, (mw / 256) as int, 256) <= u32::MAX by {
                lemma_row_offset_fits(k, mw, mh, 256);
            }
            assert forall|k: int| 0 <= k < old_self.zone_to_update_mip1@.len() && mw / 128 > 0 implies #[trigger] zone_row_offset(k, (mw / 128) as int, 128) <= u32::MAX by {
                lemma_row_offset_fits(k, mw, mh, 128);
            }
            assert forall|k: int| 0 <= k < old_self.zone_to_update_mip0@.len() && mw / 64 > 0 implies #[trigger] zone_row_offset(k, (mw / 64) as int, 64) <= u32::MAX by {
                lemma_row_offset_fits(k, mw, mh, 64);
            }
        }
        let mut update_left: usize = UPDATE_PER_STEP;
        let refresh_coarse_mips = self.mip4_to_update;
        if self.mip4_to_update {
            self.mip4_to_update = false;
            update_left = update_left / 2;
        }
        let mip2 = refresh_level(&mut self.zone_to_update_mip2, update_left, 256, mw, mh);
        update_left = update_left - mip2.len();
        let mip1 = refresh_level(&mut self.zone_to_update_mip1, update_left, 128, mw, mh);
        update_left = update_left - mip1.len();
        let mip0 = refresh_level(&mut self.zone_to_update_mip0, update_left, 64, mw, mh);
        let w = mw / 64;
        let h = mh / 64;
        proof {
            assert(w as int * h as int <= zone_count(mw, 64) * zone_count(mh, 64)) by (nonlinear_arith)
                requires
                    w as int + 1 == zone_count(mw, 64),
                    h as int + 1 == zone_count(mh, 64),
            ;
        }
        let mut lod: Vec<u8> = Vec::new();
        let mut j: u32 = 0;
        while j < h
            invariant
                0 <= j <= h,
                w == mw / 64,
                h == mh / 64,
                self.wf(),
                self.map_width == mw,
                self.map_height == mh,
                lod@.len() == j as int * w as int,
                forall|a: int, b: int|
                    0 <= a < w && 0 <= b < j ==> #[trigger] lod@[a + b * w as int] == lod_level(
                        self.zone_to_update_mip0@,
                        self.zone_to_update_mip1@,
                        self.zone_to_update_mip2@,
                        a,
                        b,
                        w as int,
                    ),
            decreases h - j,
        {
            let mut i: u32 = 0;
            while i < w
                invariant
                    0 <= i <= w,
                    0 <= j < h,
                    w == mw / 64,
                    h == mh / 64,
                    self.wf(),
                    self.map_width == mw,
                    self.map_height == mh,
                    lod@.len() == j as int * w as int + i as int,
                    forall|a: int, b: int|
                        0 <= a < w && 0 <= b < j ==> #[trigger] lod@[a + b * w as int] == lod_level(
                            self.zone_to_update_mip0@,
                            self.zone_to_update_mip1@,
                            self.zone_to_update_mip2@,
                            a,
                            b,
                            w as int,
                        ),
                    forall|a: int|
                        0 <= a < i ==> #[trigger] lod@[a + j as int * w as int] == lod_level(
                            self.zone_to_update_mip0@,
                            self.zone_to_update_mip1@,
                            self.zone_to_update_mip2@,
                            a,
                            j as int,
                            w as int,
                        ),
                decreases w - i,
            {
                proof {
                    lemma_lod_indices(i as int, j as int, mw, mh);
                    lemma_zone_counts(mw, mh);
                    assert((j / 2) as int * w as int <= j as int * w as int) by (nonlinear_arith)
                        requires
                            0 <= w,
                    ;
                    assert(j as int * w as int <= w as int * h as int) by (nonlinear_arith)
                        requires
                            0 <= j < h,
                            0 <= w,
                    ;
                    assert(w as int * h as int <= zone_count(mw, 64) * zone_count(mh, 64)) by (nonlinear_arith)
                        requires
                            w as int + 1 == zone_count(mw, 64),
                            h as int + 1 == zone_count(mh, 64),
                    ;
                }
                let i0 = (i + j * w) as usize;
                let i1 = (i / 2 + ((j / 2) * w) / 2) as usize;
                let i2 = (i / 4 + (j / 4) * (w / 4)) as usize;
                let level: u8 = if self.zone_to_update_mip0[i0] == 0 {
                    0
                } else if self.zone_to_update_mip1[i1] == 0 {
                    1
                } else if self.zone_to_update_mip2[i2] == 0 {
                    2
                } else {
                    3
                };
                let ghost before = lod@;
                lod.push(level);
                proof {
                    assert(lod@[i as int + j as int * w as int] == level);
                    assert forall|a: int, b: int|
                        0 <= a < w && 0 <= b < j implies #[trigger] lod@[a + b * w as int] == before[a + b * w as int] by {
                        assert(a + b * w < j as int * w as int) by (nonlinear_arith)
                            requires
                                0 <= a < w,
                                0 <= b < j,
                        ;
                        assert(0 <= b * w) by (nonlinear_arith)
                            requires
                                0 <= b,
                                0 <= w,
                        ;
                    }
                }
                i = i + 1;
            }
            proof {
                assert((j as int + 1) * w as int == j as int * w as int + w as int) by (nonlinear_arith);
            }
            j = j + 1;
        }
        proof {
            assert(h as int * w as int == w as int * h as int) by (nonlinear_arith);
        }
        StepPlan { refresh_coarse_mips, mip2, mip1, mip0, lod }
    }
}

/// One step refreshes at most `UPDATE_PER_STEP` zones over the three finest
/// levels together, and at most half as many when it also refreshes the
/// coarse levels.
pub proof fn law_step_within_budget(before: HeightmapZones, after: HeightmapZones, plan: StepPlan)
    requires
        level_step(before.zone_to_update_mip2@, after.zone_to_update_mip2@, plan.mip2@, before.budget2(), 256, before.map_width as int, before.map_height as int),
        level_step(before.zone_to_update_mip1@, after.zone_to_update_mip1@, plan.mip1@, before.budget1(), 128, before.map_width as int, before.map_height as int),
        level_step(before.zone_to_update_mip0@, after.zone_to_update_mip0@, plan.mip0@, before.budget0(), 64, before.map_width as int, before.map_height as int),
    ensures
        plan.mip2@.len() + plan.mip1@.len() + plan.mip0@.len() <= if before.mip4_to_update {
            UPDATE_PER_STEP / 2
        } else {
            UPDATE_PER_STEP
        },
{
}

/// Position, in a height map `texels_width` texels wide, of the texel that
/// stands for texel `(ii, jj)` of the mip level whose texels span `m`
/// texels of the map.
pub open spec fn mip_texel_index(ii: int, jj: int, m: int, texels_width: int) -> int {
    ii * m + (jj * m) * (texels_width / m) * m
}

/// `2^e`.
fn power_of_two(e: u32) -> (m: u32)
    requires
        e < 32,
    ensures
        m == vstd::arithmetic::power2::pow2(e as nat),
        m >= 1,
{
    let mut m: u32 = 1;
    let mut k: u32 = 0;
    proof {
        vstd::arithmetic::power2::lemma2_to64();
    }
    while k < e
        invariant
            0 <= k <= e,
            e < 32,
            m == vstd::arithmetic::power2::pow2(k as nat),
        decreases e - k,
    {
        proof {
            vstd::arithmetic::power2::lemma_pow2_unfold((k + 1) as nat);
            vstd::arithmetic::power2::lemma_pow2_strictly_increases((k + 1) as nat, 32);
            vstd::arithmetic::power2::lemma2_to64();
        }
        m = m * 2;
        k = k + 1;
    }
    proof {
        vstd::arithmetic::power2::lemma_pow2_pos(e as nat);
    }
    m
}

proof fn lemma_mip_index_monotone(ii: int, jj: int, i1: int, j1: int, m: int, tw: int)
    requires
        0 <= ii <= i1,
        0 <= jj <= j1,
        m >= 1,
        tw >= 0,
    ensures
        0 <= mip_texel_index(ii, jj, m, tw) <= mip_texel_index(i1, j1, m, tw),
        0 <= (jj * m) * (tw / m) <= mip_texel_index(i1, j1, m, tw),
        0 <= jj * m <= mip_texel_index(i1, j1, m, tw) || tw / m == 0,
{
    let q = tw / m;
    assert(0 <= q);
    assert(ii * m <= i1 * m) by (nonlinear_arith)
        requires
            0 <= ii <= i1,
            m >= 1,
    ;
    assert(0 <= ii * m) by (nonlinear_arith)
        requires
            0 <= ii,
            m >= 1,
    ;
    assert(0 <= (jj * m) * q * m <= (j1 * m) * q * m) by (nonlinear_arith)
        requires
            0 <= jj <= j1,
            m >= 1,
            q >= 0,
    ;
    assert((jj * m) * q <= (jj * m) * q * m) by (nonlinear_arith)
        requires
            0 <= jj,
            m >= 1,
            q >= 0,
    ;
    assert(0 <= (jj * m) * q) by (nonlinear_arith)
        requires
            0 <= jj,
            m >= 1,
            q >= 0,
    ;
    assert(q >= 1 ==> jj * m <= (jj * m) * q) by (nonlinear_arith)
        requires
            0 <= jj,
            m >= 1,
    ;
    assert(0 <= i1 * m) by (nonlinear_arith)
        requires
            0 <= i1,
            m >= 1,
    ;
}

/// The texels of mip level `mip` over the rectangle of the map with corner
/// `(i, j)` and size `width` x `height` (in map texels), row by row: the
/// level keeps one map texel out of `2^mip` along each side.
pub fn mipmap_texels<T: Copy>(
    texels: &Vec<T>,
    texels_width: u32,
    mip: u32,
    i: u32,
    j: u32,
    width: u32,
    height: u32,
) -> (r: Vec<T>)
    requires
        mip < 32,
        ({
            let m = vstd::arithmetic::power2::pow2(mip as nat) as int;
            let (w, h, x0, y0) = (width as int / m, height as int / m, i as int / m, j as int / m);
            &&& x0 + w <= u32::MAX
            &&& y0 + h <= u32::MAX
            &&& w > 0 && h > 0 ==> mip_texel_index(x0 + w - 1, y0 + h - 1, m, texels_width as int) < texels@.len()
            &&& w > 0 && h > 0 ==> mip_texel_index(x0 + w - 1, y0 + h - 1, m, texels_width as int) <= u32::MAX
            &&& w > 0 && h > 0 ==> (y0 + h - 1) * m <= u32::MAX
        }),
    ensures
        ({
            let m = vstd::arithmetic::power2::pow2(mip as nat) as int;
            let (w, h, x0, y0) = (width as int / m, height as int / m, i as int / m, j as int / m);
            &&& r@.len() == w * h
            &&& forall|a: int, b: int|
                0 <= a < h && 0 <= b < w ==> #[trigger] r@[a * w + b] == texels@[mip_texel_index(
                    x0 + b,
                    y0 + a,
                    m,
                    texels_width as int,
                )]
        }),
{
    let m = power_of_two(mip);
    let w = width / m;
    let h = height / m;
    let min_x = i / m;
    let min_y = j / m;
    let ghost gm = m as int;
    let mut out: Vec<T> = Vec::new();
    let mut y = min_y;
    while y < min_y + h
        invariant
            min_y <= y <= min_y + h,
            min_x + w <= u32::MAX,
            min_y + h <= u32::MAX,
            m >= 1,
            gm == m as int,
            w > 0 && h > 0 ==> mip_texel_index((min_x + w - 1) as int, (min_y + h - 1) as int, gm, texels_width as int) < texels@.len(),
            w > 0 && h > 0 ==> mip_texel_index((min_x + w - 1) as int, (min_y + h - 1) as int, gm, texels_width as int) <= u32::MAX,
            w > 0 && h > 0 ==> (min_y + h - 1) as int * gm <= u32::MAX,
            out@.len() == (y - min_y) as int * w as int,
            forall|a: int, b: int|
                0 <= a < y - min_y && 0 <= b < w ==> #[trigger] out@[a * w as int + b] == texels@[mip_texel_index(
                    min_x as int + b,
                    min_y as int + a,
                    gm,
                    texels_width as int,
                )],
        decreases min_y + h - y,
    {
        let mut x = min_x;
        while x < min_x + w
            invariant
                min_x <= x <= min_x + w,
                min_y <= y < min_y + h,
                min_x + w <= u32::MAX,
                min_y + h <= u32::MAX,
                m >= 1,
                gm == m as int,
                w > 0 && h > 0 ==> mip_texel_index((min_x + w - 1) as int, (min_y + h - 1) as int, gm, texels_width as int) < texels@.len(),
                w > 0 && h > 0 ==> mip_texel_index((min_x + w - 1) as int, (min_y + h - 1) as int, gm, texels_width as int) <= u32::MAX,
                w > 0 && h > 0 ==> (min_y + h - 1) as int * gm <= u32::MAX,
                out@.len() == (y - min_y) as int * w as int + (x - min_x) as int,
                forall|a: int, b: int|
                    0 <= a < y - min_y && 0 <= b < w ==> #[trigger] out@[a * w as int + b] == texels@[mip_texel_index(
                        min_x as int + b,
                        min_y as int + a,
                        gm,
                        texels_width as int,
                    )],
                forall|b: int|
                    0 <= b < x - min_x ==> #[trigger] out@[(y - min_y) as int * w as int + b] == texels@[mip_texel_index(
                        min_x as int + b,
                        y as int,
                        gm,
                        texels_width as int,
                    )],
            decreases min_x + w - x,
        {
            proof {
                lemma_mip_index_monotone(x as int, y as int, (min_x + w - 1) as int, (min_y + h - 1) as int, gm, texels_width as int);
                assert(x as int * gm <= mip_texel_index(x as int, y as int, gm, texels_width as int)) by (nonlinear_arith)
                    requires
                        x >= 0,
                        y >= 0,
                        gm >= 1,
                        texels_width >= 0,
                ;
                assert(y as int * gm <= (min_y + h - 1) as int * gm) by (nonlinear_arith)
                    requires
                        min_y <= y <= min_y + h - 1,
                        gm >= 1,
                ;
            }
            let idx = x * m + (y * m) * (texels_width / m) * m;
            let ghost before = out@;
            out.push(texels[idx as usize]);
            proof {
                assert forall|a: int, b: int|
                    0 <= a < y - min_y && 0 <= b < w implies #[trigger] out@[a * w as int + b] == before[a * w as int + b] by {
                    assert(a * w + b < (y - min_y) as int * w as int) by (nonlinear_arith)
                        requires
                            0 <= a < y - min_y,
                            0 <= b < w,
                    ;
                    assert(0 <= a * w) by (nonlinear_arith)
                        requires
                            0 <= a,
                            0 <= w,
                    ;
                }
            }
            x = x + 1;
        }
        proof {
            assert forall|a: int, b: int|
                0 <= a < y + 1 - min_y && 0 <= b < w implies #[trigger] out@[a * w as int + b] == texels@[mip_texel_index(
                    min_x as int + b,
                    min_y as int + a,
                    gm,
                    texels_width as int,
                )] by {
                if a == y - min_y {
                    assert(min_y as int + a == y as int);
                }
            }
            assert(((y - min_y) as int + 1) * w as int == (y - min_y) as int * w as int + w as int) by (nonlinear_arith);
        }
        y = y + 1;
    }
    proof {
        assert(h as int * w as int == w as int * h as int) by (nonlinear_arith);
        assert(gm == vstd::arithmetic::power2::pow2(mip as nat) as int);
    }
    out
}


/// The rectangle refreshed for zone `k` = `col + row * per_row` of side `d`
/// (`per_row = map_width / d`, `col < per_row`) starts at texel column
/// `col * d` and row `row * d`, and covers the texel `(x, y)` whenever
/// `x / d == col` and `y / d == row` lie on the map.
proof fn lemma_zone_rect_covers(x: int, y: int, d: int, map_width: u32, map_height: u32)
    requires
        d > 0,
        (map_width as int) / d > 0,
        0 <= x < ((map_width as int) / d) * d,
        0 <= y < map_height,
    ensures
        ({
            let per_row = (map_width as int) / d;
            let k = x / d + (y / d) * per_row;
            zone_rect(k, d, map_width as int, map_height as int) matches Some(r) && r.min_x == (x / d) * d
                && r.min_y == (y / d) * d && r.min_x <= x < r.min_x + r.width && r.min_y <= y < r.min_y
                + r.height
        }),
{
    let per_row = (map_width as int) / d;
    let cx = x / d;
    let cy = y / d;
    vstd::arithmetic::div_mod::lemma_fundamental_div_mod(x, d);
    vstd::arithmetic::div_mod::lemma_fundamental_div_mod(y, d);
    assert(0 <= cx < per_row) by (nonlinear_arith)
        requires
            x == d * cx + x % d,
            0 <= x % d < d,
            0 <= x < per_row * d,
            d > 0,
    ;
    assert(cy >= 0) by (nonlinear_arith)
        requires
            y == d * cy + y % d,
            0 <= y % d < d,
            y >= 0,
            d > 0,
    ;
    let k = cx + cy * per_row;
    vstd::arithmetic::div_mod::lemma_fundamental_div_mod_converse(k, per_row, cy, cx);
    assert(cx * d <= x < cx * d + d) by (nonlinear_arith)
        requires
            x == d * cx + x % d,
            0 <= x % d < d,
    ;
    assert(cy * d <= y < cy * d + d) by (nonlinear_arith)
        requires
            y == d * cy + y % d,
            0 <= y % d < d,
    ;
    assert(x < map_width) by (nonlinear_arith)
        requires
            x < per_row * d,
            per_row == (map_width as int) / d,
            d > 0,
    ;
}

/// Every texel on the map, outside the last partial column of zones,
/// lies in the rectangle that a step refreshes for the zone which
/// `update_rect` marks for it, at each of the three finest levels: the
/// refreshed rectangle of a zone starts at its column and row times the
/// zone's side, and is that zone's own texels.
pub proof fn law_refreshed_rect_covers_marked_texel(level: int, x: int, y: int, map_width: u32, map_height: u32)
    requires
        0 <= level < 3,
        (map_width as int) / (64 * pow_level(level)) > 0,
        0 <= x < ((map_width as int) / (64 * pow_level(level))) * (64 * pow_level(level)),
        0 <= y < map_height,
    ensures
        ({
            let d = 64 * pow_level(level);
            let k = zone_index(level, x / 64, y / 64, (map_width / 64) as int);
            zone_rect(k, d, map_width as int, map_height as int) matches Some(r) && r.min_x == (x / d) * d
                && r.min_y == (y / d) * d && r.min_x <= x < r.min_x + r.width && r.min_y <= y < r.min_y
                + r.height
        }),
{
    let d = 64 * pow_level(level);
    lemma_zone_rect_covers(x, y, d, map_width, map_height);
    if level == 1 {
        vstd::arithmetic::div_mod::lemma_div_denominator(x, 64, 2);
        vstd::arithmetic::div_mod::lemma_div_denominator(y, 64, 2);
        vstd::arithmetic::div_mod::lemma_div_denominator(map_width as int, 64, 2);
    } else if level == 2 {
        vstd::arithmetic::div_mod::lemma_div_denominator(x, 64, 4);
        vstd::arithmetic::div_mod::lemma_div_denominator(y, 64, 4);
        vstd::arithmetic::div_mod::lemma_div_denominator(map_width as int, 64, 4);
    }
}

/// How many finest zones a zone of level `level` spans along a side.
pub open spec fn pow_level(level: int) -> int {
    if level == 0 {
        1
    } else if level == 1 {
        2
    } else {
        4
    }
}

} // verus!
