//! The per-tick steps around the systems: clearing the frame and turning a
//! snapshot of held keys into the player's velocity.
use vstd::prelude::*;

use crate::ecs::{Entity, EntityManager, LookupError, Velocity};
use crate::{PLAYER_BOOST_SPEED, PLAYER_SPEED};

verus! {

/// Which keys are held during this tick.
#[derive(Debug, Clone, Copy, PartialEq, Eq, Structural)]
pub struct KeyState {
    pub up: bool,
    pub down: bool,
    pub left: bool,
    pub right: bool,
    pub boost: bool,
}

/// Velocity along one axis from its two keys: the negative key wins over the
/// positive one, and the boost key selects the faster speed.
pub open spec fn axis_input(negative: bool, positive: bool, boost: bool) -> i32 {
    let speed = if boost {
        PLAYER_BOOST_SPEED
    } else {
        PLAYER_SPEED
    };
    if negative {
        (-speed) as i32
    } else if positive {
        speed
    } else {
        0
    }
}

fn read_axis(negative: bool, positive: bool, boost: bool) -> (r: i32)
    ensures
        r == axis_input(negative, positive, boost),
{
    let speed = if boost {
        PLAYER_BOOST_SPEED
    } else {
        PLAYER_SPEED
    };
    if negative {
        -speed
    } else if positive {
        speed
    } else {
        0
    }
}

/// Sets every pixel to black.
pub fn clear_window(buffer: &mut [u32])
    ensures
        final(buffer)@.len() == old(buffer)@.len(),
        forall|i: int| 0 <= i < final(buffer)@.len() ==> final(buffer)@[i] == 0,
{
    let n = buffer.len();
    let mut i: usize = 0;
    while i < n
        invariant
            n == buffer@.len(),
            n == old(buffer)@.len(),
            i <= n,
            forall|j: int| 0 <= j < i ==> buffer@[j] == 0,
        decreases n - i,
    {
        buffer[i] = 0;
        i += 1;
    }
}

/// Gives `player` the velocity that the held keys ask for. With no direction
/// held on either axis the velocity is reset to zero, which fails when the
/// player has no velocity; otherwise an axis without a held key gets zero.
pub fn handle_input(keys: KeyState, ecs: &mut EntityManager, player: Entity) -> (r: Result<
    (),
    LookupError,
>)
    requires
        old(ecs).wf(),
    ensures
        final(ecs).wf(),
        final(ecs).spec_next_id() == old(ecs).spec_next_id(),
        ({
            let dx = axis_input(keys.left, keys.right, keys.boost);
            let dy = axis_input(keys.up, keys.down, keys.boost);
            &&& r is Err <==> (dx == 0 && dy == 0 && old(ecs).spec_components().velocities.spec_get(
                player,
            ) is None)
            &&& r is Err ==> r == Err::<(), LookupError>(LookupError { entity: player })
                && final(ecs).spec_components() == old(ecs).spec_components()
            &&& r is Ok ==> final(ecs).spec_components().velocities.spec_get(player) == Some(
                Velocity { dx, dy },
            )
        }),
        forall|k: Entity|
            k != player ==> final(ecs).spec_components().velocities.spec_get(k) == old(
                ecs,
            ).spec_components().velocities.spec_get(k),
        final(ecs).spec_components().positions == old(ecs).spec_components().positions,
        final(ecs).spec_components().sprites == old(ecs).spec_components().sprites,
        final(ecs).spec_components().tags == old(ecs).spec_components().tags,
{
    let dy = read_axis(keys.up, keys.down, keys.boost);
    let dx = read_axis(keys.left, keys.right, keys.boost);
    if dx == 0 && dy == 0 {
        ecs.reset_velocity(player, true, true)
    } else {
        ecs.add_velocity(player, dx, dy);
        Ok(())
    }
}

} // verus!
