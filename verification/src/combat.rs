use vstd::prelude::*;

verus! {

/// Life that a hit by a projectile takes away.
pub const HIT_DAMAGE: i32 = 10;

/// The life of a unit after a hit: ten less, and never below zero.
pub fn life_after_hit(life: i32) -> (r: i32)
    requires
        life >= i32::MIN + HIT_DAMAGE,
    ensures
        r == if life - HIT_DAMAGE > 0 {
            life - HIT_DAMAGE
        } else {
            0
        },
{
    let l = life - HIT_DAMAGE;
    if l > 0 {
        l
    } else {
        0
    }
}

/// Whether a unit that last fired at frame `last_shot` and needs
/// `reload_frames` frames to reload can fire at frame `frame`: more than
/// `reload_frames` frames have gone by.
pub fn can_shoot(frame: i32, last_shot: i32, reload_frames: i32) -> (r: bool)
    requires
        i32::MIN <= frame - last_shot <= i32::MAX,
    ensures
        r == (frame - last_shot > reload_frames),
{
    frame - last_shot > reload_frames
}

/// The life of a unit after `hits` hits.
pub open spec fn life_after_hits(life: int, hits: nat) -> int
    decreases hits,
{
    if hits == 0 {
        life
    } else {
        let l = life_after_hits(life, (hits - 1) as nat) - HIT_DAMAGE;
        if l > 0 {
            l
        } else {
            0
        }
    }
}

/// A unit that takes `hits` hits loses ten life per hit until none is
/// left, and its life never goes below zero: enough hits always kill.
pub proof fn law_hits_kill(life: int, hits: nat)
    requires
        life >= 0,
    ensures
        life_after_hits(life, hits) == if life - HIT_DAMAGE * hits > 0 {
            life - HIT_DAMAGE * hits
        } else {
            0
        },
        hits * HIT_DAMAGE >= life ==> life_after_hits(life, hits) == 0,
    decreases hits,
{
    if hits > 0 {
        law_hits_kill(life, (hits - 1) as nat);
    }
}

} // verus!
