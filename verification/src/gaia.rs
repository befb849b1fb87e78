use vstd::prelude::*;
use crate::unit::UnitId;
use crate::world::WorldPos;

verus! {

pub type GaiaId = u32;

/// What a wild creature is doing. `cooldown` is the bit pattern of an `f32`
/// tick count.
#[derive(Clone, Copy, Debug, PartialEq, Eq, Structural)]
pub enum GaiaBehavior {
    /// Wandering its territory; `idle_ticks` counts down before a new
    /// waypoint is picked.
    Roaming { waypoint: WorldPos, idle_ticks: u32 },
    Chasing { target: UnitId },
    Attacking { target: UnitId, cooldown: u32 },
    Returning,
}

/// A wild creature guarding a circular territory. `territory_radius`, `hp`
/// and `max_hp` hold bit patterns of `f32` values.
#[derive(Clone, Copy, Debug)]
pub struct CGaiaEntity {
    pub id: GaiaId,
    pub pos: WorldPos,
    pub territory_center: WorldPos,
    pub territory_radius: u32,
    pub hp: u32,
    pub max_hp: u32,
    pub behavior: GaiaBehavior,
}

/// Ticks a roaming creature lingers before picking a new waypoint (5 s).
pub const ROAM_IDLE_TICKS: u32 = 100;

/// Bit pattern of `60.0f32`, a creature's hit points.
pub const GAIA_HP_BITS: u32 = 0x4270_0000;

impl CGaiaEntity {
    /// A creature at `pos` with 60 of 60 hit points, roaming towards the
    /// centre of its territory.
    pub fn new(id: GaiaId, pos: WorldPos, territory_center: WorldPos, territory_radius: u32) -> (g: Self)
        ensures
            g.id == id,
            g.pos == pos,
            g.territory_center == territory_center,
            g.territory_radius == territory_radius,
            g.hp == GAIA_HP_BITS,
            g.max_hp == GAIA_HP_BITS,
            g.behavior == (GaiaBehavior::Roaming { waypoint: territory_center, idle_ticks: ROAM_IDLE_TICKS }),
    {
        CGaiaEntity {
            id,
            pos,
            territory_center,
            territory_radius,
            hp: GAIA_HP_BITS,
            max_hp: GAIA_HP_BITS,
            behavior: GaiaBehavior::Roaming { waypoint: territory_center, idle_ticks: ROAM_IDLE_TICKS },
        }
    }
}


/// Where a creature's target stands, as measured by the caller.
#[derive(Clone, Copy, Debug, PartialEq, Eq, Structural)]
pub enum TargetState {
    /// No unit with the target's id, or it is dead.
    Gone,
    /// Farther than the leash (twice the territory radius).
    BeyondLeash,
    /// Within the leash but beyond striking range.
    OutOfReach,
    /// Within striking range.
    InReach,
}

/// What a creature does this tick.
#[derive(Clone, Copy, Debug, PartialEq, Eq, Structural)]
pub enum GaiaStep {
    /// An intruder entered the territory: chase it.
    Chase { target: UnitId },
    /// The waypoint was reached or the wait ran out: pick a new random
    /// waypoint inside the territory and wait the full time again.
    NewWaypoint,
    /// Walk towards the waypoint, one tick less to wait.
    Roam { idle_ticks: u32 },
    /// Give up and head back to the territory centre.
    Return,
    /// The target came within reach: start attacking it, ready to strike.
    StartAttack { target: UnitId },
    /// Keep chasing: walk towards the target.
    Pursue,
    /// Keep attacking: count the cooldown down and strike when it runs out.
    Strike,
    /// The target slipped out of reach: chase it again.
    ResumeChase { target: UnitId },
    /// Back at the centre: roam again from there, waiting the full time.
    Settle,
    /// Walk back towards the territory centre.
    HeadHome,
}

/// The creature's decision for one tick, from its behavior and what it
/// senses: `intruder` is the closest living player unit inside the
/// territory; `arrived` says it is within a step of where it is heading
/// (its waypoint when roaming, the centre when returning); `target` is where
/// its current target stands (when chasing or attacking).
pub open spec fn gaia_step(b: GaiaBehavior, intruder: Option<UnitId>, arrived: bool, target: TargetState) -> GaiaStep {
    match b {
        GaiaBehavior::Roaming { idle_ticks, .. } => match intruder {
            Some(u) => GaiaStep::Chase { target: u },
            None => if arrived || idle_ticks == 0 {
                GaiaStep::NewWaypoint
            } else {
                GaiaStep::Roam { idle_ticks: (idle_ticks - 1) as u32 }
            },
        },
        GaiaBehavior::Chasing { target: t } => match target {
            TargetState::Gone => GaiaStep::Return,
            TargetState::BeyondLeash => GaiaStep::Return,
            TargetState::InReach => GaiaStep::StartAttack { target: t },
            TargetState::OutOfReach => GaiaStep::Pursue,
        },
        GaiaBehavior::Attacking { target: t, .. } => match target {
            TargetState::Gone => GaiaStep::Return,
            TargetState::InReach => GaiaStep::Strike,
            _ => GaiaStep::ResumeChase { target: t },
        },
        GaiaBehavior::Returning => if arrived {
            GaiaStep::Settle
        } else {
            GaiaStep::HeadHome
        },
    }
}

/// Decides what a living creature does this tick (see [`gaia_step`]).
pub fn decide(behavior: GaiaBehavior, intruder: Option<UnitId>, arrived: bool, target: TargetState) -> (r: GaiaStep)
    ensures
        r == gaia_step(behavior, intruder, arrived, target),
{
    match behavior {
        GaiaBehavior::Roaming { idle_ticks, .. } => match intruder {
            Some(u) => GaiaStep::Chase { target: u },
            None => if arrived || idle_ticks == 0 {
                GaiaStep::NewWaypoint
            } else {
                GaiaStep::Roam { idle_ticks: idle_ticks - 1 }
            },
        },
        GaiaBehavior::Chasing { target: t } => match target {
            TargetState::Gone => GaiaStep::Return,
            TargetState::BeyondLeash => GaiaStep::Return,
            TargetState::InReach => GaiaStep::StartAttack { target: t },
            TargetState::OutOfReach => GaiaStep::Pursue,
        },
        GaiaBehavior::Attacking { target: t, .. } => match target {
            TargetState::Gone => GaiaStep::Return,
            TargetState::InReach => GaiaStep::Strike,
            _ => GaiaStep::ResumeChase { target: t },
        },
        GaiaBehavior::Returning => if arrived {
            GaiaStep::Settle
        } else {
            GaiaStep::HeadHome
        },
    }
}

/// A creature never chases or attacks anything but a unit it sensed or was
/// already after, and losing its target always sends it home.
pub proof fn lemma_gaia_targets(b: GaiaBehavior, intruder: Option<UnitId>, arrived: bool, target: TargetState)
    ensures
        gaia_step(b, intruder, arrived, target) matches GaiaStep::Chase { target: u } ==> intruder == Some(u),
        gaia_step(b, intruder, arrived, target) matches GaiaStep::StartAttack { target: u } ==> b == (GaiaBehavior::Chasing { target: u }),
        gaia_step(b, intruder, arrived, target) matches GaiaStep::ResumeChase { target: u } ==> (b matches GaiaBehavior::Attacking { target: t, .. } && t == u),
        (b is Chasing || b is Attacking) && target == TargetState::Gone ==> gaia_step(b, intruder, arrived, target) == GaiaStep::Return,
{
}

/// How a creature's senses drive its decision. A roaming creature that
/// senses an intruder chases that very unit, whether or not it has reached
/// its waypoint and however long it has waited; with no intruder it picks a
/// new waypoint exactly when it has arrived or its wait has run out, and
/// otherwise walks on with one tick less to wait. A chasing creature
/// attacks its own target once within reach, walks after it while out of
/// reach, and gives up when the target is gone or beyond the leash. An
/// attacking creature strikes while the target is in reach, chases it
/// again when it slips away, and gives up when it is gone. A returning
/// creature settles exactly when it is back at the centre.
pub proof fn lemma_gaia_senses(b: GaiaBehavior, intruder: Option<UnitId>, arrived: bool, target: TargetState)
    ensures
        b is Roaming ==> (intruder matches Some(u) ==> gaia_step(b, intruder, arrived, target) == (GaiaStep::Chase { target: u })),
        intruder is None ==> (b matches GaiaBehavior::Roaming { idle_ticks, .. } ==> gaia_step(b, intruder, arrived, target) == (if arrived || idle_ticks == 0 {
            GaiaStep::NewWaypoint
        } else {
            GaiaStep::Roam { idle_ticks: (idle_ticks - 1) as u32 }
        })),
        target == TargetState::InReach ==> (b matches GaiaBehavior::Chasing { target: t } ==> gaia_step(b, intruder, arrived, target) == (GaiaStep::StartAttack { target: t })),
        (b is Chasing && target == TargetState::OutOfReach) ==> gaia_step(b, intruder, arrived, target) == GaiaStep::Pursue,
        (b is Chasing && (target == TargetState::Gone || target == TargetState::BeyondLeash)) ==> gaia_step(b, intruder, arrived, target) == GaiaStep::Return,
        (b is Attacking && target == TargetState::InReach) ==> gaia_step(b, intruder, arrived, target) == GaiaStep::Strike,
        (target == TargetState::OutOfReach || target == TargetState::BeyondLeash) ==> (b matches GaiaBehavior::Attacking { target: t, .. } ==> gaia_step(b, intruder, arrived, target) == (GaiaStep::ResumeChase { target: t })),
        (b is Returning) ==> (gaia_step(b, intruder, arrived, target) == GaiaStep::Settle <==> arrived),
        (b is Returning && !arrived) ==> gaia_step(b, intruder, arrived, target) == GaiaStep::HeadHome,
        !(b is Roaming) ==> !(gaia_step(b, intruder, arrived, target) is Chase),
{
}

} // verus!
