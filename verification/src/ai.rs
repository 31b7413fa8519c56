//! Behavior states of autonomous entities, and the confusion state machine.
//!
//! `Basic` chases and attacks; `Confused` overrides the prior state for a
//! timed number of ticks, then restores it. The scheduler advances each
//! behavior-bearing entity exactly once per consumed turn.

use vstd::prelude::*;

use crate::color::ColorTag;
use crate::fighter::XP_MAX;
use crate::game::{move_by, spec_move_by, FovGrid, Game, PLAYER};
use crate::message::{LogEntry, LogText, MessageKind};
use crate::object::{spec_attack_effect, Object};
use crate::tile::{DungeonMap, MAP_HEIGHT, MAP_WIDTH};

verus! {

/// How many ticks a freshly cast confusion lasts.
pub const CONFUSE_NUM_TURNS: i32 = 10;

/// The behavior state of one entity.
#[derive(PartialEq, Eq, Debug)]
pub enum Ai {
    Basic,
    Confused { previous_ai: Box<Ai>, lasts_for: i32 },
}

/// The bookkeeping half of one behavior tick: how the state itself evolves,
/// independent of what the entity does in the world. `Basic` stays `Basic`;
/// `Confused` counts down while `lasts_for` is non-negative and reverts to
/// the prior state once it has gone below zero.
pub open spec fn confusion_next(ai: Ai) -> Ai {
    match ai {
        Ai::Basic => Ai::Basic,
        Ai::Confused { previous_ai, lasts_for } => {
            if lasts_for >= 0 {
                Ai::Confused { previous_ai, lasts_for: (lasts_for - 1) as i32 }
            } else {
                *previous_ai
            }
        },
    }
}

/// The behavior state after `k` scheduler ticks.
pub open spec fn ai_after_ticks(ai: Ai, k: nat) -> Ai
    decreases k,
{
    if k == 0 {
        ai
    } else {
        confusion_next(ai_after_ticks(ai, (k - 1) as nat))
    }
}

/// Law: a confusion that starts with `lasts_for = n` keeps the entity
/// confused, with a counter that goes down by one per tick, through the
/// ticks numbered 0 to n + 1; the tick after that — the (n + 2)-th
/// invocation overall — restores exactly the prior state.
pub proof fn lemma_confusion_reverts(previous_ai: Box<Ai>, lasts_for: i32, k: nat)
    requires
        0 <= lasts_for,
    ensures
        k <= lasts_for + 1 ==> ai_after_ticks(Ai::Confused { previous_ai, lasts_for }, k)
            == (Ai::Confused { previous_ai, lasts_for: (lasts_for - k) as i32 }),
        k == lasts_for + 2 ==> ai_after_ticks(Ai::Confused { previous_ai, lasts_for }, k)
            == *previous_ai,
    decreases k,
{
    if k > 0 && k <= lasts_for + 2 {
        lemma_confusion_reverts(previous_ai, lasts_for, (k - 1) as nat);
    }
}


/// The behavior state after one tick, lifted to the optional component.
pub open spec fn ai_next_opt(a: Option<Ai>) -> Option<Ai> {
    match a {
        Some(x) => Some(confusion_next(x)),
        None => None,
    }
}

/// One step of the normalized, rounded 8-directional vector from (ox, oy)
/// toward (tx, ty): each axis moves by one exactly when its share of the
/// distance is at least half of it — `|d| / dist >= 1/2`, squared to stay in
/// integers: `4 d^2 >= dx^2 + dy^2`, that is `3 d^2` at least the other
/// axis's square.
pub open spec fn spec_step_toward(ox: int, oy: int, tx: int, ty: int) -> (int, int) {
    let dx = tx - ox;
    let dy = ty - oy;
    let sx: int = if 3 * (dx * dx) >= dy * dy {
        if dx > 0 {
            1
        } else if dx < 0 {
            -1
        } else {
            0
        }
    } else {
        0
    };
    let sy: int = if 3 * (dy * dy) >= dx * dx {
        if dy > 0 {
            1
        } else if dy < 0 {
            -1
        } else {
            0
        }
    } else {
        0
    };
    (sx, sy)
}

/// Step entity `id` one tile along the normalized, rounded vector toward
/// (target_x, target_y); there is no pathfinding, so the entity can stall
/// indefinitely against an obstacle it cannot route around.
pub fn move_towards(id: usize, target_x: i32, target_y: i32, game: &Game, objects: &mut Vec<
    Object,
>)
    requires
        game.wf(),
        id < old(objects)@.len(),
        old(objects)@[id as int].wf(),
        0 <= target_x < MAP_WIDTH,
        0 <= target_y < MAP_HEIGHT,
    ensures
        final(objects)@ == ({
            let (sx, sy) = spec_step_toward(
                old(objects)@[id as int].x as int,
                old(objects)@[id as int].y as int,
                target_x as int,
                target_y as int,
            );
            spec_move_by(old(objects)@, id as int, sx, sy, game.map)
        }),
{
    let dx = target_x - objects[id].x;
    let dy = target_y - objects[id].y;
    proof {
        assert(0 <= dx * dx <= 6400) by (nonlinear_arith)
            requires
                -80 <= dx <= 80,
        ;
        assert(0 <= dy * dy <= 6400) by (nonlinear_arith)
            requires
                -80 <= dy <= 80,
        ;
    }
    let sx: i32 = if 3 * (dx * dx) >= dy * dy {
        if dx > 0 {
            1
        } else if dx < 0 {
            -1
        } else {
            0
        }
    } else {
        0
    };
    let sy: i32 = if 3 * (dy * dy) >= dx * dx {
        if dy > 0 {
            1
        } else if dy < 0 {
            -1
        } else {
            0
        }
    } else {
        0
    };
    move_by(id, sx, sy, game, objects);
}

/// The reactive behavior's full effect on the world and the log: a visible
/// monster two or more tiles away steps toward the player; a visible one
/// closer than that attacks a living, combat-capable player; anything else
/// stands still.
pub open spec fn spec_ai_basic_effect(
    monster_id: int,
    visible: bool,
    objects: Seq<Object>,
    inv: Seq<Object>,
    log: Seq<LogEntry>,
    map: DungeonMap,
) -> (Seq<Object>, Seq<LogEntry>) {
    let m = objects[monster_id];
    let p = objects[0];
    let d2 = (p.x - m.x) * (p.x - m.x) + (p.y - m.y) * (p.y - m.y);
    if !visible {
        (objects, log)
    } else if d2 >= 4 {
        let (sx, sy) = spec_step_toward(m.x as int, m.y as int, p.x as int, p.y as int);
        (spec_move_by(objects, monster_id, sx, sy, map), log)
    } else if p.alive && p.fighter is Some {
        let (a2, t2, log2) = spec_attack_effect(m, p, inv, log);
        (objects.update(monster_id, a2).update(0, t2), log2)
    } else {
        (objects, log)
    }
}

/// One reactive tick: chase the player while at distance two or more, attack
/// when adjacent; stay `Basic`. `visible` is the visibility collaborator's
/// verdict on the monster's own tile.
pub fn ai_basic(monster_id: usize, visible: bool, game: &mut Game, objects: &mut Vec<Object>) -> (r:
    Ai)
    requires
        old(game).wf(),
        1 <= monster_id < old(objects)@.len(),
        forall|i: int| 0 <= i < old(objects)@.len() ==> (#[trigger] old(objects)@[i]).wf(),
        old(objects)@[monster_id as int].fighter is Some,
        (match (old(objects)@[monster_id as int].fighter, old(objects)@[PLAYER as int].fighter) {
            (Some(a), Some(t)) => a.xp + t.xp <= XP_MAX,
            _ => true,
        }),
    ensures
        r == Ai::Basic,
        final(game).wf(),
        final(game).map == old(game).map,
        final(game).inventory == old(game).inventory,
        final(game).dungeon_level == old(game).dungeon_level,
        forall|i: int| 0 <= i < final(objects)@.len() ==> (#[trigger] final(objects)@[i]).wf(),
        (final(objects)@, final(game).messages.entries@) == spec_ai_basic_effect(
            monster_id as int,
            visible,
            old(objects)@,
            old(game).inventory@,
            old(game).messages.entries@,
            old(game).map,
        ),
{
    if visible {
        let d2 = objects[monster_id].distance_sq_to(&objects[PLAYER]);
        if d2 >= 4 {
            let player_x = objects[PLAYER].x;
            let player_y = objects[PLAYER].y;
            move_towards(monster_id, player_x, player_y, game, objects);
        } else {
            let player_can_be_fought = objects[PLAYER].alive && objects[PLAYER].fighter.is_some();
            if player_can_be_fought {
                let mut monster = objects.remove(monster_id);
                let mut player = objects.remove(PLAYER);
                monster.attack(&mut player, game);
                objects.insert(PLAYER, player);
                objects.insert(monster_id, monster);
                proof {
                    assert(objects@ =~= old(objects)@.update(
                        monster_id as int,
                        objects@[monster_id as int],
                    ).update(0, objects@[0]));
                }
            }
        }
    }
    Ai::Basic
}

/// One confused tick: while the counter is non-negative, stumble by a
/// uniformly random offset in {-1, 0, 1} on each axis (the null offset
/// included) and count down; once it has gone below zero, log the recovery
/// and restore the prior state.
pub fn ai_confused(
    monster_id: usize,
    game: &mut Game,
    objects: &mut Vec<Object>,
    previous_ai: Box<Ai>,
    lasts_for: i32,
) -> (r: Ai)
    requires
        old(game).wf(),
        monster_id < old(objects)@.len(),
        forall|i: int| 0 <= i < old(objects)@.len() ==> (#[trigger] old(objects)@[i]).wf(),
    ensures
        final(game).wf(),
        final(game).map == old(game).map,
        final(game).inventory == old(game).inventory,
        final(game).dungeon_level == old(game).dungeon_level,
        forall|i: int| 0 <= i < final(objects)@.len() ==> (#[trigger] final(objects)@[i]).wf(),
        r == confusion_next(Ai::Confused { previous_ai, lasts_for }),
        if lasts_for >= 0 {
            &&& exists|dx: int, dy: int|
                #![auto]
                -1 <= dx <= 1 && -1 <= dy <= 1 && final(objects)@ == spec_move_by(
                    old(objects)@,
                    monster_id as int,
                    dx,
                    dy,
                    old(game).map,
                )
            &&& final(game).messages == old(game).messages
        } else {
            &&& final(objects)@ == old(objects)@
            &&& final(game).messages.entries@ == old(game).messages.entries@.push(
                LogEntry {
                    text: LogText {
                        kind: MessageKind::NoLongerConfused,
                        subject: Some(old(objects)@[monster_id as int].name),
                        target: None,
                        slot: None,
                        amount: 0,
                    },
                    color: ColorTag::Red,
                },
            )
        },
{
    if lasts_for >= 0 {
        let dx = crate::rng::rand_range(-1, 2);
        let dy = crate::rng::rand_range(-1, 2);
        move_by(monster_id, dx, dy, game, objects);
        Ai::Confused { previous_ai, lasts_for: lasts_for - 1 }
    } else {
        let name = objects[monster_id].name;
        game.messages.add(LogText::named(MessageKind::NoLongerConfused, name), ColorTag::Red);
        *previous_ai
    }
}

/// The log entry announcing that a confusion has worn off.
pub open spec fn spec_recovery_entry(o: Object) -> LogEntry {
    LogEntry {
        text: LogText {
            kind: MessageKind::NoLongerConfused,
            subject: Some(o.name),
            target: None,
            slot: None,
            amount: 0,
        },
        color: ColorTag::Red,
    }
}

/// The world after one confused stumble: the acting entity (its stored state
/// taken out) steps by (dx, dy) if possible, and carries the counted-down
/// confusion afterwards.
pub open spec fn spec_confused_step(
    objs0: Seq<Object>,
    monster_id: int,
    dx: int,
    dy: int,
    map: DungeonMap,
    previous_ai: Box<Ai>,
    lasts_for: i32,
) -> Seq<Object> {
    let mid = objs0.update(monster_id, Object { ai: None, ..objs0[monster_id] });
    let moved = spec_move_by(mid, monster_id, dx, dy, map);
    moved.update(
        monster_id,
        Object {
            ai: Some(Ai::Confused { previous_ai, lasts_for: (lasts_for - 1) as i32 }),
            ..moved[monster_id]
        },
    )
}

/// The full effect of one behavior tick on the world and the log: an entity
/// without a behavior state does nothing; a `Basic` entity acts by the
/// reactive rule and stays `Basic`; a confused entity with ticks left
/// stumbles one random step and counts down; an expired confusion logs the
/// recovery and restores the prior state. The acting entity carries no
/// stored state while it acts, so the rule sees it with its state taken out.
pub open spec fn spec_ai_tick_effect(
    monster_id: int,
    visible: bool,
    objs0: Seq<Object>,
    log0: Seq<LogEntry>,
    inv: Seq<Object>,
    map: DungeonMap,
    objs1: Seq<Object>,
    log1: Seq<LogEntry>,
) -> bool {
    match objs0[monster_id].ai {
        None => objs1 == objs0 && log1 == log0,
        Some(a) => {
            let mid = objs0.update(monster_id, Object { ai: None, ..objs0[monster_id] });
            match a {
                Ai::Basic => {
                    let (objs2, log2) = spec_ai_basic_effect(
                        monster_id,
                        visible,
                        mid,
                        inv,
                        log0,
                        map,
                    );
                    &&& objs1 == objs2.update(
                        monster_id,
                        Object { ai: Some(Ai::Basic), ..objs2[monster_id] },
                    )
                    &&& log1 == log2
                },
                Ai::Confused { previous_ai, lasts_for } => {
                    if lasts_for >= 0 {
                        exists|dx: int, dy: int|
                            {
                                &&& -1 <= dx <= 1
                                &&& -1 <= dy <= 1
                                &&& objs1 == #[trigger] spec_confused_step(
                                    objs0,
                                    monster_id,
                                    dx,
                                    dy,
                                    map,
                                    previous_ai,
                                    lasts_for,
                                )
                                &&& log1 == log0
                            }
                    } else {
                        &&& objs1 == objs0.update(
                            monster_id,
                            Object { ai: Some(*previous_ai), ..objs0[monster_id] },
                        )
                        &&& log1 == log0.push(spec_recovery_entry(objs0[monster_id]))
                    }
                },
            }
        },
    }
}

/// Advance one entity's behavior state machine exactly once: dispatch on the
/// current state, let it act on the world, and store the successor state.
/// An entity without a behavior state does nothing.
#[verifier::rlimit(100)]
#[verifier::spinoff_prover]
pub fn ai_take_turn(monster_id: usize, visible: bool, game: &mut Game, objects: &mut Vec<Object>)
    requires
        old(game).wf(),
        1 <= monster_id < old(objects)@.len(),
        forall|i: int| 0 <= i < old(objects)@.len() ==> (#[trigger] old(objects)@[i]).wf(),
        (match (old(objects)@[monster_id as int].fighter, old(objects)@[PLAYER as int].fighter) {
            (Some(a), Some(t)) => a.xp + t.xp <= XP_MAX,
            _ => true,
        }),
    ensures
        final(game).wf(),
        final(game).map == old(game).map,
        final(game).inventory == old(game).inventory,
        final(game).dungeon_level == old(game).dungeon_level,
        final(objects)@.len() == old(objects)@.len(),
        forall|i: int| 0 <= i < final(objects)@.len() ==> (#[trigger] final(objects)@[i]).wf(),
        forall|k: int|
            0 <= k < old(objects)@.len() && k != monster_id && k != PLAYER
                ==> #[trigger] final(objects)@[k] == old(objects)@[k],
        final(objects)@[monster_id as int].ai == ai_next_opt(old(objects)@[monster_id as int].ai),
        old(objects)@[monster_id as int].ai is None ==> final(objects)@ == old(objects)@
            && final(game).messages == old(game).messages,
        final(objects)@[PLAYER as int].x == old(objects)@[PLAYER as int].x,
        final(objects)@[PLAYER as int].y == old(objects)@[PLAYER as int].y,
        (match final(objects)@[PLAYER as int].fighter {
            Some(f) => old(objects)@[PLAYER as int].fighter matches Some(g) && f.xp == g.xp,
            None => true,
        }),
        ({
            let m0 = old(objects)@[monster_id as int];
            let m1 = final(objects)@[monster_id as int];
            &&& m1.name == m0.name
            &&& m1.item == m0.item
            &&& m1.equipment == m0.equipment
            &&& m1.level == m0.level
            &&& m1.blocks == m0.blocks
            &&& m1.alive == m0.alive
            &&& -1 <= m1.x - m0.x <= 1
            &&& -1 <= m1.y - m0.y <= 1
        }),
        spec_ai_tick_effect(
            monster_id as int,
            visible,
            old(objects)@,
            old(game).messages.entries@,
            old(game).inventory@,
            old(game).map,
            final(objects)@,
            final(game).messages.entries@,
        ),
{
    let ghost mid = old(objects)@.update(
        monster_id as int,
        Object { ai: None, ..old(objects)@[monster_id as int] },
    );
    let mut monster = objects.remove(monster_id);
    let ai_opt = monster.ai.take();
    objects.insert(monster_id, monster);
    proof {
        assert(objects@ =~= mid);
    }
    match ai_opt {
        None => {
            proof {
                assert(objects@ =~= old(objects)@);
            }
        },
        Some(ai) => {
            let ghost dispatched = ai;
            let new_ai = match ai {
                Ai::Basic => ai_basic(monster_id, visible, game, objects),
                Ai::Confused { previous_ai, lasts_for } => ai_confused(
                    monster_id,
                    game,
                    objects,
                    previous_ai,
                    lasts_for,
                ),
            };
            let ghost after_act = objects@;
            let ghost new_ai_spec = new_ai;
            let mut monster = objects.remove(monster_id);
            monster.ai = Some(new_ai);
            objects.insert(monster_id, monster);
            proof {
                assert(objects@ =~= after_act.update(
                    monster_id as int,
                    Object { ai: Some(new_ai_spec), ..after_act[monster_id as int] },
                ));
                match dispatched {
                    Ai::Basic => {},
                    Ai::Confused { previous_ai, lasts_for } => {
                        if lasts_for >= 0 {
                            let (dx, dy) = choose|dx: int, dy: int|
                                #![auto]
                                -1 <= dx <= 1 && -1 <= dy <= 1 && after_act == spec_move_by(
                                    mid,
                                    monster_id as int,
                                    dx,
                                    dy,
                                    old(game).map,
                                );
                            assert(objects@ == spec_confused_step(
                                old(objects)@,
                                monster_id as int,
                                dx,
                                dy,
                                old(game).map,
                                previous_ai,
                                lasts_for,
                            ));
                        } else {
                            assert(objects@ =~= old(objects)@.update(
                                monster_id as int,
                                Object {
                                    ai: Some(*previous_ai),
                                    ..old(objects)@[monster_id as int]
                                },
                            ));
                        }
                    },
                }
            }
        },
    }
}


/// The cumulative effect of the sweep's first ticks: entities 1 up to (but
/// excluding) `upto` have each acted exactly once, in collection order, each
/// seeing the world its predecessors left and the visibility verdict on its
/// own tile at that moment.
pub open spec fn spec_sweep_effect(
    objs0: Seq<Object>,
    log0: Seq<LogEntry>,
    fov: FovGrid,
    inv: Seq<Object>,
    map: DungeonMap,
    objs1: Seq<Object>,
    log1: Seq<LogEntry>,
    upto: int,
) -> bool
    decreases upto,
{
    if upto <= 1 {
        objs1 == objs0 && log1 == log0
    } else {
        exists|objs_mid: Seq<Object>, log_mid: Seq<LogEntry>|
            {
                &&& spec_sweep_effect(objs0, log0, fov, inv, map, objs_mid, log_mid, upto - 1)
                &&& #[trigger] spec_ai_tick_effect(
                    upto - 1,
                    fov.spec_visible(objs_mid[upto - 1].x as int, objs_mid[upto - 1].y as int),
                    objs_mid,
                    log_mid,
                    inv,
                    map,
                    objs1,
                    log1,
                )
            }
    }
}

/// Extends a partial sweep by one tick.
proof fn lemma_sweep_step(
    objs0: Seq<Object>,
    log0: Seq<LogEntry>,
    fov: FovGrid,
    inv: Seq<Object>,
    map: DungeonMap,
    objs_mid: Seq<Object>,
    log_mid: Seq<LogEntry>,
    objs1: Seq<Object>,
    log1: Seq<LogEntry>,
    upto: int,
)
    requires
        upto >= 2,
        spec_sweep_effect(objs0, log0, fov, inv, map, objs_mid, log_mid, upto - 1),
        spec_ai_tick_effect(
            upto - 1,
            fov.spec_visible(objs_mid[upto - 1].x as int, objs_mid[upto - 1].y as int),
            objs_mid,
            log_mid,
            inv,
            map,
            objs1,
            log1,
        ),
    ensures
        spec_sweep_effect(objs0, log0, fov, inv, map, objs1, log1, upto),
{
    assert(exists|om: Seq<Object>, lm: Seq<LogEntry>|
        {
            &&& spec_sweep_effect(objs0, log0, fov, inv, map, om, lm, upto - 1)
            &&& #[trigger] spec_ai_tick_effect(
                upto - 1,
                fov.spec_visible(om[upto - 1].x as int, om[upto - 1].y as int),
                om,
                lm,
                inv,
                map,
                objs1,
                log1,
            )
        });
}

/// One full AI sweep after a consumed turn: every non-player entity with a
/// behavior state advances exactly once, in collection order. The player is
/// never moved by the sweep, and an entity's accumulated experience is
/// untouched unless the sweep kills it.
pub fn ai_sweep(game: &mut Game, objects: &mut Vec<Object>, fov: &FovGrid)
    requires
        old(game).wf(),
        fov.wf(),
        old(objects)@.len() >= 1,
        forall|i: int| 0 <= i < old(objects)@.len() ==> (#[trigger] old(objects)@[i]).wf(),
        (forall|i: int|
            0 <= i < old(objects)@.len() ==> (match (
                (#[trigger] old(objects)@[i]).fighter,
                old(objects)@[PLAYER as int].fighter,
            ) {
                (Some(a), Some(t)) => a.xp + t.xp <= XP_MAX,
                _ => true,
            })),
    ensures
        final(game).wf(),
        final(game).map == old(game).map,
        final(game).inventory == old(game).inventory,
        final(game).dungeon_level == old(game).dungeon_level,
        final(objects)@.len() == old(objects)@.len(),
        forall|i: int| 0 <= i < final(objects)@.len() ==> (#[trigger] final(objects)@[i]).wf(),
        final(objects)@[PLAYER as int].x == old(objects)@[PLAYER as int].x,
        final(objects)@[PLAYER as int].y == old(objects)@[PLAYER as int].y,
        forall|k: int|
            1 <= k < final(objects)@.len() ==> (#[trigger] final(objects)@[k]).ai == ai_next_opt(
                old(objects)@[k].ai,
            ),
        forall|k: int|
            1 <= k < final(objects)@.len() && old(objects)@[k].ai is None
                ==> #[trigger] final(objects)@[k] == old(objects)@[k],
        spec_sweep_effect(
            old(objects)@,
            old(game).messages.entries@,
            *fov,
            old(game).inventory@,
            old(game).map,
            final(objects)@,
            final(game).messages.entries@,
            old(objects)@.len() as int,
        ),
{
    let n = objects.len();
    let mut id: usize = 1;
    while id < n
        invariant
            1 <= id <= n,
            n == objects@.len(),
            objects@.len() == old(objects)@.len(),
            game.wf(),
            fov.wf(),
            game.map == old(game).map,
            game.inventory == old(game).inventory,
            game.dungeon_level == old(game).dungeon_level,
            forall|i: int| 0 <= i < objects@.len() ==> (#[trigger] objects@[i]).wf(),
            forall|k: int| id <= k < n ==> #[trigger] objects@[k] == old(objects)@[k],
            objects@[PLAYER as int].x == old(objects)@[PLAYER as int].x,
            objects@[PLAYER as int].y == old(objects)@[PLAYER as int].y,
            (match objects@[PLAYER as int].fighter {
                Some(f) => old(objects)@[PLAYER as int].fighter matches Some(g) && f.xp == g.xp,
                None => true,
            }),
            forall|k: int|
                1 <= k < id ==> (#[trigger] objects@[k]).ai == ai_next_opt(old(objects)@[k].ai),
            forall|k: int|
                1 <= k < id && old(objects)@[k].ai is None ==> #[trigger] objects@[k]
                    == old(objects)@[k],
            (forall|i: int|
                0 <= i < old(objects)@.len() ==> (match (
                    (#[trigger] old(objects)@[i]).fighter,
                    old(objects)@[PLAYER as int].fighter,
                ) {
                    (Some(a), Some(t)) => a.xp + t.xp <= XP_MAX,
                    _ => true,
                })),
            spec_sweep_effect(
                old(objects)@,
                old(game).messages.entries@,
                *fov,
                old(game).inventory@,
                old(game).map,
                objects@,
                game.messages.entries@,
                id as int,
            ),
        decreases n - id,
    {
        let ghost prev_objs = objects@;
        let ghost prev_log = game.messages.entries@;
        let has_ai = objects[id].ai.is_some();
        let visible = fov.is_visible(objects[id].x, objects[id].y);
        if has_ai {
            ai_take_turn(id, visible, game, objects);
        }
        proof {
            if has_ai {
                assert(spec_ai_tick_effect(
                    id as int,
                    visible,
                    prev_objs,
                    prev_log,
                    old(game).inventory@,
                    old(game).map,
                    objects@,
                    game.messages.entries@,
                ));
            } else {
                assert(prev_objs[id as int].ai is None);
                assert(objects@ == prev_objs && game.messages.entries@ == prev_log);
                assert(spec_ai_tick_effect(
                    id as int,
                    visible,
                    prev_objs,
                    prev_log,
                    old(game).inventory@,
                    old(game).map,
                    objects@,
                    game.messages.entries@,
                ));
            }
            lemma_sweep_step(
                old(objects)@,
                old(game).messages.entries@,
                *fov,
                old(game).inventory@,
                old(game).map,
                prev_objs,
                prev_log,
                objects@,
                game.messages.entries@,
                id + 1int,
            );
        }
        id = id + 1;
    }
}

} // verus!


