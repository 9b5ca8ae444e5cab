//! The fighting trial engine and its aggregator: repeated combat exchanges
//! against respawning enemies, bounded by the eight-hour horizon, reduced to
//! mean/median/min/max statistics over a population of trials.
//!
//! A trial's behaviour is stated by `fight_run`, a mathematical function of
//! the configuration and a sequence of draw records; the engine that walks a
//! real random stream is proved to return an outcome that `fight_run` maps
//! some draw sequence to.
use vstd::prelude::*;
use crate::CHANCE_SCALE;
use crate::HORIZON_DS;
use crate::HORIZON_SECS;
use crate::RESPAWN_DS;
use crate::stream::next_draw;
use vstd::arithmetic::div_mod::lemma_fundamental_div_mod;
use vstd::arithmetic::div_mod::lemma_fundamental_div_mod_converse_div;

verus! {

/// The outcome of one fighting trial: the elapsed simulated time in whole
/// seconds and the number of enemies killed.
#[derive(Debug, Clone, Copy, PartialEq, Eq, Structural)]
pub struct FightingSimResult {
    pub time: u16,
    pub enemy_killed: u16,
}

/// An immutable, validated fighting configuration. Intervals are counted in
/// deciseconds, hit chances in parts per million; damage bounds are
/// inclusive. The enemy's attack interval is carried for completeness but
/// the loop cadence follows the player's attack interval alone.
#[derive(Debug, Clone, Copy, PartialEq, Eq, Structural)]
pub struct FightingSimConfig {
    pub player_health: u32,
    pub player_health_regen: u32,
    pub player_regen_interval_ds: u32,
    pub player_damage_min: u32,
    pub player_damage_max: u32,
    pub player_hit_chance_ppm: u32,
    pub player_attack_interval_ds: u32,
    pub enemy_health: u32,
    pub enemy_damage_min: u32,
    pub enemy_damage_max: u32,
    pub enemy_hit_chance_ppm: u32,
    pub enemy_attack_interval_ds: u32,
}

/// One iteration's worth of random material: a hit roll and a damage pick
/// for each side. Rolls are compared against a chance in parts per million;
/// a side hits exactly when its roll is below its chance. Damage picks are
/// raw values folded into the configured inclusive range.
#[derive(Debug, Clone, Copy, PartialEq, Eq, Structural)]
pub struct FightDraw {
    pub attack_roll: u32,
    pub damage: u32,
    pub enemy_roll: u32,
    pub enemy_damage: u32,
}

impl FightingSimConfig {
    /// The caller-guaranteed well-formedness of a configuration: chances on
    /// the scale, damage ranges ordered, intervals positive.
    pub open spec fn valid(self) -> bool {
        &&& self.player_hit_chance_ppm <= CHANCE_SCALE
        &&& self.enemy_hit_chance_ppm <= CHANCE_SCALE
        &&& self.player_damage_min <= self.player_damage_max
        &&& self.enemy_damage_min <= self.enemy_damage_max
        &&& self.player_regen_interval_ds >= 1
        &&& self.player_attack_interval_ds >= 1
        &&& self.enemy_attack_interval_ds >= 1
    }

    /// Builds a validated configuration; validation is the caller's duty.
    pub fn new(
        player_health: u32,
        player_health_regen: u32,
        player_regen_interval_ds: u32,
        player_damage_min: u32,
        player_damage_max: u32,
        player_hit_chance_ppm: u32,
        player_attack_interval_ds: u32,
        enemy_health: u32,
        enemy_damage_min: u32,
        enemy_damage_max: u32,
        enemy_hit_chance_ppm: u32,
        enemy_attack_interval_ds: u32,
    ) -> (c: Self)
        requires
            player_hit_chance_ppm <= CHANCE_SCALE,
            enemy_hit_chance_ppm <= CHANCE_SCALE,
            player_damage_min <= player_damage_max,
            enemy_damage_min <= enemy_damage_max,
            player_regen_interval_ds >= 1,
            player_attack_interval_ds >= 1,
            enemy_attack_interval_ds >= 1,
        ensures
            c == (FightingSimConfig {
                player_health,
                player_health_regen,
                player_regen_interval_ds,
                player_damage_min,
                player_damage_max,
                player_hit_chance_ppm,
                player_attack_interval_ds,
                enemy_health,
                enemy_damage_min,
                enemy_damage_max,
                enemy_hit_chance_ppm,
                enemy_attack_interval_ds,
            }),
            c.valid(),
    {
        FightingSimConfig {
            player_health,
            player_health_regen,
            player_regen_interval_ds,
            player_damage_min,
            player_damage_max,
            player_hit_chance_ppm,
            player_attack_interval_ds,
            enemy_health,
            enemy_damage_min,
            enemy_damage_max,
            enemy_hit_chance_ppm,
            enemy_attack_interval_ds,
        }
    }
}

/// A raw draw value folded into the inclusive range `[lo, hi]`.
pub open spec fn pick_in_range(lo: int, hi: int, raw: int) -> int {
    if lo <= hi {
        lo + raw % (hi - lo + 1)
    } else {
        lo
    }
}

/// The draw record the next iteration consumes: the head of the sequence, or
/// an all-zero record once the sequence is exhausted.
pub open spec fn fight_draw_at(draws: Seq<FightDraw>) -> FightDraw {
    if draws.len() > 0 {
        draws[0]
    } else {
        FightDraw { attack_roll: 0, damage: 0, enemy_roll: 0, enemy_damage: 0 }
    }
}

/// The draw records left for later iterations.
pub open spec fn fight_rest(draws: Seq<FightDraw>) -> Seq<FightDraw> {
    if draws.len() > 0 {
        draws.drop_first()
    } else {
        draws
    }
}

/// How much simulated time is left before the horizon ends a trial.
pub open spec fn fight_fuel(time: int) -> int {
    if time >= HORIZON_DS as int {
        0
    } else {
        HORIZON_DS as int - time
    }
}

/// The player's health regeneration ticks at the end of one iteration: while
/// the accumulated timer covers a regeneration interval and the player
/// stands, one regeneration amount is added, capped at the health maximum.
/// Returns the new health and the remaining timer.
pub open spec fn regen_ticks(hp: int, timer: int, interval: int, amount: int, cap: int) -> (
    int,
    int,
)
    decreases timer,
{
    if interval >= 1 && hp > 0 && timer >= interval {
        let hp2 = if hp + amount > cap {
            cap
        } else {
            hp + amount
        };
        regen_ticks(hp2, timer - interval, interval, amount, cap)
    } else {
        (hp, timer)
    }
}

/// One whole fighting trial from the given state, as a function of the draw
/// records consumed: returns the final elapsed deciseconds, kill count and
/// player health. Each iteration the player attacks first; a kill respawns
/// the enemy, costs the respawn delay and skips the rest of the iteration;
/// otherwise the enemy strikes back, regeneration ticks and the player's
/// attack interval elapses.
pub open spec fn fight_run(
    cfg: FightingSimConfig,
    hp: int,
    ehp: int,
    time: int,
    timer: int,
    kills: int,
    draws: Seq<FightDraw>,
) -> (int, int, int)
    decreases fight_fuel(time),
{
    if !cfg.valid() || time < 0 || hp <= 0 || time >= HORIZON_DS as int {
        (time, kills, hp)
    } else {
        let d = fight_draw_at(draws);
        let rest = fight_rest(draws);
        let hit = (d.attack_roll as int) < cfg.player_hit_chance_ppm as int;
        let dmg = pick_in_range(
            cfg.player_damage_min as int,
            cfg.player_damage_max as int,
            d.damage as int,
        );
        let ehp1 = if hit {
            if dmg >= ehp {
                0
            } else {
                ehp - dmg
            }
        } else {
            ehp
        };
        if hit && ehp1 == 0 {
            fight_run(
                cfg,
                hp,
                cfg.enemy_health as int,
                time + RESPAWN_DS as int,
                timer,
                kills + 1,
                rest,
            )
        } else {
            let ehit = (d.enemy_roll as int) < cfg.enemy_hit_chance_ppm as int;
            let edmg = pick_in_range(
                cfg.enemy_damage_min as int,
                cfg.enemy_damage_max as int,
                d.enemy_damage as int,
            );
            let hp1 = if ehit {
                if edmg >= hp {
                    0
                } else {
                    hp - edmg
                }
            } else {
                hp
            };
            let rt = regen_ticks(
                hp1,
                timer + cfg.player_attack_interval_ds as int,
                cfg.player_regen_interval_ds as int,
                cfg.player_health_regen as int,
                cfg.player_health as int,
            );
            let hp2 = if rt.0 > cfg.player_health as int {
                cfg.player_health as int
            } else {
                rt.0
            };
            fight_run(
                cfg,
                hp2,
                ehp1,
                time + cfg.player_attack_interval_ds as int,
                rt.1,
                kills,
                rest,
            )
        }
    }
}

/// A whole trial from the initial state a configuration prescribes.
pub open spec fn fight_outcome(cfg: FightingSimConfig, draws: Seq<FightDraw>) -> (int, int, int) {
    fight_run(cfg, cfg.player_health as int, cfg.enemy_health as int, 0, 0, 0, draws)
}

/// The elapsed whole seconds an outcome reports: clamped to the horizon.
pub open spec fn fight_elapsed_secs(t: int) -> int {
    (if t > HORIZON_DS as int {
        HORIZON_DS as int
    } else {
        t
    }) / 10
}

/// The outcome record a trial over the given draws must report.
pub open spec fn fight_result_matches(
    cfg: FightingSimConfig,
    draws: Seq<FightDraw>,
    r: FightingSimResult,
) -> bool {
    let o = fight_outcome(cfg, draws);
    r.time == fight_elapsed_secs(o.0) && r.enemy_killed == o.1
}

/// Draw records whose hit rolls all lie on the chance scale, as every
/// record the engine itself draws does.
pub open spec fn fight_draws_wf(draws: Seq<FightDraw>) -> bool {
    forall|i: int|
        0 <= i < draws.len() ==> (#[trigger] draws[i]).attack_roll < CHANCE_SCALE
            && draws[i].enemy_roll < CHANCE_SCALE
}

/// An outcome the engine can genuinely report for this configuration: one
/// that the model maps some well-formed draw sequence to.
pub open spec fn fight_reachable(cfg: FightingSimConfig, r: FightingSimResult) -> bool {
    exists|ds: Seq<FightDraw>| #![auto] fight_draws_wf(ds) && fight_result_matches(cfg, ds, r)
}

/// The bounds one engine iteration preserves.
pub open spec fn fight_state_wf(
    cfg: FightingSimConfig,
    hp: u32,
    ehp: u32,
    time: u64,
    timer: u64,
    kills: u32,
) -> bool {
    &&& hp <= cfg.player_health
    &&& ehp <= cfg.enemy_health
    &&& (hp >= 1 ==> timer < cfg.player_regen_interval_ds)
    &&& RESPAWN_DS * kills <= time
    &&& RESPAWN_DS * kills <= HORIZON_DS + RESPAWN_DS - 1
}

/// One engine iteration on one draw record; its effect is exactly one
/// unfolding of `fight_run`.
fn fight_step(cfg: &FightingSimConfig, hp: u32, ehp: u32, time: u64, timer: u64, kills: u32, d: FightDraw) -> (r: (
    u32,
    u32,
    u64,
    u64,
    u32,
))
    requires
        cfg.valid(),
        hp >= 1,
        time < HORIZON_DS,
        fight_state_wf(*cfg, hp, ehp, time, timer, kills),
    ensures
        fight_state_wf(*cfg, r.0, r.1, r.2, r.3, r.4),
        r.2 > time,
        forall|rest: Seq<FightDraw>|
            fight_run(
                *cfg,
                hp as int,
                ehp as int,
                time as int,
                timer as int,
                kills as int,
                seq![d] + rest,
            ) == #[trigger] fight_run(
                *cfg,
                r.0 as int,
                r.1 as int,
                r.2 as int,
                r.3 as int,
                r.4 as int,
                rest,
            ),
{
    let hit = d.attack_roll < cfg.player_hit_chance_ppm;
    let span: u64 = (cfg.player_damage_max - cfg.player_damage_min) as u64 + 1;
    let dmg: u32 = cfg.player_damage_min + (d.damage as u64 % span) as u32;
    let ehp1: u32 = if hit {
        if dmg >= ehp {
            0
        } else {
            ehp - dmg
        }
    } else {
        ehp
    };
    if hit && ehp1 == 0 {
        let r = (hp, cfg.enemy_health, time + RESPAWN_DS, timer, kills + 1);
        proof {
            assert forall|rest: Seq<FightDraw>|
                fight_run(
                    *cfg,
                    hp as int,
                    ehp as int,
                    time as int,
                    timer as int,
                    kills as int,
                    seq![d] + rest,
                ) == #[trigger] fight_run(
                    *cfg,
                    r.0 as int,
                    r.1 as int,
                    r.2 as int,
                    r.3 as int,
                    r.4 as int,
                    rest,
                ) by {
                let ds = seq![d] + rest;
                assert(fight_draw_at(ds) == d);
                assert(fight_rest(ds) =~= rest);
            }
        }
        r
    } else {
        let ehit = d.enemy_roll < cfg.enemy_hit_chance_ppm;
        let espan: u64 = (cfg.enemy_damage_max - cfg.enemy_damage_min) as u64 + 1;
        let edmg: u32 = cfg.enemy_damage_min + (d.enemy_damage as u64 % espan) as u32;
        let hp1: u32 = if ehit {
            if edmg >= hp {
                0
            } else {
                hp - edmg
            }
        } else {
            hp
        };
        let mut hp2: u32 = hp1;
        let mut t2: u64 = timer + cfg.player_attack_interval_ds as u64;
        let ghost entry_hp = hp2 as int;
        let ghost entry_timer = t2 as int;
        while hp2 > 0 && t2 >= cfg.player_regen_interval_ds as u64
            invariant
                cfg.valid(),
                hp2 <= cfg.player_health,
                regen_ticks(
                    entry_hp,
                    entry_timer,
                    cfg.player_regen_interval_ds as int,
                    cfg.player_health_regen as int,
                    cfg.player_health as int,
                ) == regen_ticks(
                    hp2 as int,
                    t2 as int,
                    cfg.player_regen_interval_ds as int,
                    cfg.player_health_regen as int,
                    cfg.player_health as int,
                ),
            decreases t2,
        {
            let grown: u64 = hp2 as u64 + cfg.player_health_regen as u64;
            hp2 = if grown > cfg.player_health as u64 {
                cfg.player_health
            } else {
                grown as u32
            };
            t2 = t2 - cfg.player_regen_interval_ds as u64;
        }
        proof {
            assert(regen_ticks(
                hp2 as int,
                t2 as int,
                cfg.player_regen_interval_ds as int,
                cfg.player_health_regen as int,
                cfg.player_health as int,
            ) == (hp2 as int, t2 as int));
        }
        let hp3: u32 = if hp2 > cfg.player_health {
            cfg.player_health
        } else {
            hp2
        };
        let r = (hp3, ehp1, time + cfg.player_attack_interval_ds as u64, t2, kills);
        proof {
            assert forall|rest: Seq<FightDraw>|
                fight_run(
                    *cfg,
                    hp as int,
                    ehp as int,
                    time as int,
                    timer as int,
                    kills as int,
                    seq![d] + rest,
                ) == #[trigger] fight_run(
                    *cfg,
                    r.0 as int,
                    r.1 as int,
                    r.2 as int,
                    r.3 as int,
                    r.4 as int,
                    rest,
                ) by {
                let ds = seq![d] + rest;
                assert(fight_draw_at(ds) == d);
                assert(fight_rest(ds) =~= rest);
                assert(pick_in_range(
                    cfg.player_damage_min as int,
                    cfg.player_damage_max as int,
                    d.damage as int,
                ) == dmg as int);
                assert(pick_in_range(
                    cfg.enemy_damage_min as int,
                    cfg.enemy_damage_max as int,
                    d.enemy_damage as int,
                ) == edmg as int);
            }
        }
        r
    }
}

/// Replays one fighting trial over a recorded draw sequence. The outcome is
/// exactly what `fight_run` states, so equal configurations and equal draw
/// sequences always give equal outcomes; once the records run out the
/// remaining iterations consume all-zero records.
pub fn sim_from_draws(config: &FightingSimConfig, draws: &Vec<FightDraw>) -> (r: FightingSimResult)
    requires
        config.valid(),
    ensures
        fight_result_matches(*config, draws@, r),
        r.time <= HORIZON_SECS,
        RESPAWN_DS * r.enemy_killed <= HORIZON_DS + RESPAWN_DS - 1,
{
    let mut hp: u32 = config.player_health;
    let mut ehp: u32 = config.enemy_health;
    let mut time: u64 = 0;
    let mut timer: u64 = 0;
    let mut kills: u32 = 0;
    let mut i: usize = 0;
    proof {
        assert(draws@.skip(0) =~= draws@);
    }
    while hp > 0 && time < HORIZON_DS
        invariant
            config.valid(),
            i <= draws@.len(),
            fight_state_wf(*config, hp, ehp, time, timer, kills),
            fight_outcome(*config, draws@) == fight_run(
                *config,
                hp as int,
                ehp as int,
                time as int,
                timer as int,
                kills as int,
                draws@.skip(i as int),
            ),
        decreases fight_fuel(time as int),
    {
        let d: FightDraw = if i < draws.len() {
            draws[i]
        } else {
            FightDraw { attack_roll: 0, damage: 0, enemy_roll: 0, enemy_damage: 0 }
        };
        proof {
            if i < draws@.len() {
                assert(seq![d] + draws@.skip(i + 1) =~= draws@.skip(i as int));
            } else {
                assert(draws@.skip(i as int) =~= Seq::<FightDraw>::empty());
                assert(seq![d] + Seq::<FightDraw>::empty() =~= seq![d]);
                assert(fight_draw_at(seq![d]) == fight_draw_at(Seq::<FightDraw>::empty()));
                assert(fight_rest(seq![d]) =~= Seq::<FightDraw>::empty());
                assert(fight_rest(Seq::<FightDraw>::empty()) =~= Seq::<FightDraw>::empty());
            }
        }
        let s = fight_step(config, hp, ehp, time, timer, kills, d);
        proof {
            if i < draws@.len() {
                assert(fight_run(
                    *config,
                    hp as int,
                    ehp as int,
                    time as int,
                    timer as int,
                    kills as int,
                    draws@.skip(i as int),
                ) == fight_run(
                    *config,
                    s.0 as int,
                    s.1 as int,
                    s.2 as int,
                    s.3 as int,
                    s.4 as int,
                    draws@.skip(i + 1),
                ));
            } else {
                assert(fight_run(
                    *config,
                    hp as int,
                    ehp as int,
                    time as int,
                    timer as int,
                    kills as int,
                    seq![d] + Seq::<FightDraw>::empty(),
                ) == fight_run(
                    *config,
                    s.0 as int,
                    s.1 as int,
                    s.2 as int,
                    s.3 as int,
                    s.4 as int,
                    Seq::<FightDraw>::empty(),
                ));
                assert(fight_run(
                    *config,
                    hp as int,
                    ehp as int,
                    time as int,
                    timer as int,
                    kills as int,
                    seq![d],
                ) == fight_run(
                    *config,
                    hp as int,
                    ehp as int,
                    time as int,
                    timer as int,
                    kills as int,
                    Seq::<FightDraw>::empty(),
                )) by {
                    assert(fight_rest(seq![d]) =~= Seq::<FightDraw>::empty());
                }
            }
        }
        hp = s.0;
        ehp = s.1;
        time = s.2;
        timer = s.3;
        kills = s.4;
        i = if i < draws.len() {
            i + 1
        } else {
            i
        };
    }
    proof {
        assert(fight_outcome(*config, draws@) == (time as int, kills as int, hp as int));
        assert(RESPAWN_DS * kills <= HORIZON_DS + RESPAWN_DS - 1);
        assert(kills <= 9600) by {
            assert(30 * (kills as int) <= 288029);
        }
    }
    let t_ds: u64 = if time > HORIZON_DS {
        HORIZON_DS
    } else {
        time
    };
    FightingSimResult { time: (t_ds / 10) as u16, enemy_killed: kills as u16 }
}

/// Runs one fighting trial, drawing its random material from the given
/// generator. Whatever is drawn, the outcome is one that `fight_run` maps a
/// well-formed draw sequence to; in particular the elapsed time never
/// exceeds the horizon and the kill count never exceeds one kill per
/// respawn delay of the horizon.
pub fn sim(config: &FightingSimConfig, rng: &mut rand::rngs::StdRng) -> (r: FightingSimResult)
    requires
        config.valid(),
    ensures
        fight_reachable(*config, r),
        r.time <= HORIZON_SECS,
        RESPAWN_DS * r.enemy_killed <= HORIZON_DS + RESPAWN_DS - 1,
{
    let mut hp: u32 = config.player_health;
    let mut ehp: u32 = config.enemy_health;
    let mut time: u64 = 0;
    let mut timer: u64 = 0;
    let mut kills: u32 = 0;
    let ghost mut consumed: Seq<FightDraw> = Seq::empty();
    while hp > 0 && time < HORIZON_DS
        invariant
            config.valid(),
            fight_state_wf(*config, hp, ehp, time, timer, kills),
            fight_draws_wf(consumed),
            forall|rest: Seq<FightDraw>|
                fight_outcome(*config, consumed + rest) == #[trigger] fight_run(
                    *config,
                    hp as int,
                    ehp as int,
                    time as int,
                    timer as int,
                    kills as int,
                    rest,
                ),
        decreases fight_fuel(time as int),
    {
        let d = FightDraw {
            attack_roll: next_draw(rng) % CHANCE_SCALE,
            damage: next_draw(rng),
            enemy_roll: next_draw(rng) % CHANCE_SCALE,
            enemy_damage: next_draw(rng),
        };
        let s = fight_step(config, hp, ehp, time, timer, kills, d);
        proof {
            assert forall|rest: Seq<FightDraw>|
                fight_outcome(*config, consumed.push(d) + rest) == #[trigger] fight_run(
                    *config,
                    s.0 as int,
                    s.1 as int,
                    s.2 as int,
                    s.3 as int,
                    s.4 as int,
                    rest,
                ) by {
                assert(consumed.push(d) + rest =~= consumed + (seq![d] + rest));
                assert(fight_outcome(*config, consumed + (seq![d] + rest)) == fight_run(
                    *config,
                    hp as int,
                    ehp as int,
                    time as int,
                    timer as int,
                    kills as int,
                    seq![d] + rest,
                ));
            }
            consumed = consumed.push(d);
        }
        hp = s.0;
        ehp = s.1;
        time = s.2;
        timer = s.3;
        kills = s.4;
    }
    proof {
        assert(consumed + Seq::<FightDraw>::empty() =~= consumed);
        assert(fight_run(
            *config,
            hp as int,
            ehp as int,
            time as int,
            timer as int,
            kills as int,
            Seq::<FightDraw>::empty(),
        ) == (time as int, kills as int, hp as int));
        assert(fight_outcome(*config, consumed) == (time as int, kills as int, hp as int));
        assert(kills <= 9600) by {
            assert(30 * (kills as int) <= 288029);
        }
    }
    let t_ds: u64 = if time > HORIZON_DS {
        HORIZON_DS
    } else {
        time
    };
    let r = FightingSimResult { time: (t_ds / 10) as u16, enemy_killed: kills as u16 };
    proof {
        assert(fight_draws_wf(consumed) && fight_result_matches(*config, consumed, r));
        assert(fight_reachable(*config, r));
    }
    r
}

proof fn lemma_regen_ticks_nonneg(hp: int, timer: int, interval: int, amount: int, cap: int)
    requires
        hp >= 0,
        amount >= 0,
        cap >= 0,
    ensures
        regen_ticks(hp, timer, interval, amount, cap).0 >= 0,
    decreases timer,
{
    if interval >= 1 && hp > 0 && timer >= interval {
        let hp2 = if hp + amount > cap {
            cap
        } else {
            hp + amount
        };
        lemma_regen_ticks_nonneg(hp2, timer - interval, interval, amount, cap);
    }
}

proof fn lemma_fight_run_bounds_general(
    cfg: FightingSimConfig,
    hp: int,
    ehp: int,
    time: int,
    timer: int,
    kills: int,
    draws: Seq<FightDraw>,
)
    requires
        cfg.valid(),
        0 <= time,
        0 <= hp,
        0 <= kills,
        RESPAWN_DS * kills <= time,
        RESPAWN_DS * kills <= HORIZON_DS + RESPAWN_DS - 1,
    ensures
        ({
            let o = fight_run(cfg, hp, ehp, time, timer, kills, draws);
            &&& time <= o.0
            &&& kills <= o.1
            &&& 0 <= o.2
            &&& RESPAWN_DS * o.1 <= o.0
            &&& RESPAWN_DS * o.1 <= HORIZON_DS + RESPAWN_DS - 1
        }),
    decreases fight_fuel(time),
{
    if hp <= 0 || time >= HORIZON_DS as int {
    } else {
        let d = fight_draw_at(draws);
        let rest = fight_rest(draws);
        let hit = (d.attack_roll as int) < cfg.player_hit_chance_ppm as int;
        let dmg = pick_in_range(
            cfg.player_damage_min as int,
            cfg.player_damage_max as int,
            d.damage as int,
        );
        let ehp1 = if hit {
            if dmg >= ehp {
                0int
            } else {
                ehp - dmg
            }
        } else {
            ehp
        };
        if hit && ehp1 == 0 {
            lemma_fight_run_bounds_general(
                cfg,
                hp,
                cfg.enemy_health as int,
                time + RESPAWN_DS as int,
                timer,
                kills + 1,
                rest,
            );
        } else {
            let ehit = (d.enemy_roll as int) < cfg.enemy_hit_chance_ppm as int;
            let edmg = pick_in_range(
                cfg.enemy_damage_min as int,
                cfg.enemy_damage_max as int,
                d.enemy_damage as int,
            );
            let hp1 = if ehit {
                if edmg >= hp {
                    0int
                } else {
                    hp - edmg
                }
            } else {
                hp
            };
            let rt = regen_ticks(
                hp1,
                timer + cfg.player_attack_interval_ds as int,
                cfg.player_regen_interval_ds as int,
                cfg.player_health_regen as int,
                cfg.player_health as int,
            );
            lemma_regen_ticks_nonneg(
                hp1,
                timer + cfg.player_attack_interval_ds as int,
                cfg.player_regen_interval_ds as int,
                cfg.player_health_regen as int,
                cfg.player_health as int,
            );
            let hp2 = if rt.0 > cfg.player_health as int {
                cfg.player_health as int
            } else {
                rt.0
            };
            lemma_fight_run_bounds_general(
                cfg,
                hp2,
                ehp1,
                time + cfg.player_attack_interval_ds as int,
                rt.1,
                kills,
                rest,
            );
        }
    }
}

/// For every valid configuration and every draw sequence, a fighting trial's
/// elapsed seconds lie within the horizon and its kill count never exceeds
/// one kill per respawn delay of the horizon.
pub proof fn lemma_fight_outcome_bounds(cfg: FightingSimConfig, draws: Seq<FightDraw>)
    requires
        cfg.valid(),
    ensures
        ({
            let o = fight_outcome(cfg, draws);
            &&& 0 <= fight_elapsed_secs(o.0) <= HORIZON_SECS
            &&& 0 <= o.1 <= HORIZON_DS as int / RESPAWN_DS as int
        }),
{
    lemma_fight_run_bounds_general(
        cfg,
        cfg.player_health as int,
        cfg.enemy_health as int,
        0,
        0,
        0,
        draws,
    );
    let o = fight_outcome(cfg, draws);
    assert(30 * o.1 <= 288029);
}

proof fn lemma_fight_run_one_shot(
    cfg: FightingSimConfig,
    hp: int,
    time: int,
    timer: int,
    kills: int,
    draws: Seq<FightDraw>,
)
    requires
        cfg.valid(),
        cfg.player_hit_chance_ppm == CHANCE_SCALE,
        cfg.enemy_hit_chance_ppm == 0,
        cfg.player_damage_min == cfg.enemy_health,
        cfg.player_damage_max == cfg.enemy_health,
        fight_draws_wf(draws),
        hp >= 1,
        0 <= time,
    ensures
        ({
            let o = fight_run(cfg, hp, cfg.enemy_health as int, time, timer, kills, draws);
            &&& o.2 == hp
            &&& (time >= HORIZON_DS as int ==> o.0 == time && o.1 == kills)
            &&& (time < HORIZON_DS as int ==> o.1 == kills + (HORIZON_DS as int - time
                + RESPAWN_DS as int - 1) / RESPAWN_DS as int && o.0 == time + RESPAWN_DS as int * (
            o.1 - kills))
        }),
    decreases fight_fuel(time),
{
    let h = HORIZON_DS as int;
    let rs = RESPAWN_DS as int;
    if time >= h {
    } else {
        let d = fight_draw_at(draws);
        let rest = fight_rest(draws);
        assert(d.attack_roll < CHANCE_SCALE);
        assert((d.damage as int) % 1 == 0);
        assert(pick_in_range(cfg.enemy_health as int, cfg.enemy_health as int, d.damage as int)
            == cfg.enemy_health as int);
        assert(fight_draws_wf(rest));
        lemma_fight_run_one_shot(cfg, hp, time + rs, timer, kills + 1, rest);
        let a = h - time;
        if time + rs >= h {
            lemma_fundamental_div_mod_converse_div(a + rs - 1, rs, 1, a - 1);
        } else {
            let q = (a - rs + rs - 1) / rs;
            lemma_fundamental_div_mod(a - 1, rs);
            assert(a - 1 == rs * q + (a - 1) % rs);
            lemma_fundamental_div_mod_converse_div(a + rs - 1, rs, q + 1, (a - 1) % rs);
        }
    }
}

/// The deterministic boundary case: when the player always hits for exactly
/// the enemy's health and the enemy never hits, every trial over well-formed
/// draws kills one enemy per respawn delay until the horizon, and the
/// player's health ends where it started.
pub proof fn lemma_one_shot_fight(cfg: FightingSimConfig, draws: Seq<FightDraw>)
    requires
        cfg.valid(),
        cfg.player_hit_chance_ppm == CHANCE_SCALE,
        cfg.enemy_hit_chance_ppm == 0,
        cfg.player_damage_min == cfg.enemy_health,
        cfg.player_damage_max == cfg.enemy_health,
        fight_draws_wf(draws),
        cfg.player_health >= 1,
    ensures
        fight_outcome(cfg, draws) == (
            HORIZON_DS as int,
            HORIZON_DS as int / RESPAWN_DS as int,
            cfg.player_health as int,
        ),
{
    lemma_fight_run_one_shot(cfg, cfg.player_health as int, 0, 0, 0, draws);
    assert((288000int + 29) / 30 == 9600);
    assert(288000int / 30 == 9600);
}

/// Runs `trials` independent fighting trials and collects their outcomes:
/// every element is a genuine trial outcome of this configuration.
pub fn run_batch(config: &FightingSimConfig, trials: usize, rng: &mut rand::rngs::StdRng) -> (pop:
    Vec<FightingSimResult>)
    requires
        config.valid(),
    ensures
        pop@.len() == trials,
        forall|j: int| 0 <= j < pop@.len() ==> fight_reachable(*config, #[trigger] pop@[j]),
        forall|j: int|
            0 <= j < pop@.len() ==> (#[trigger] pop@[j]).time <= HORIZON_SECS && RESPAWN_DS * pop@[
                j
            ].enemy_killed <= HORIZON_DS + RESPAWN_DS - 1,
{
    let mut pop: Vec<FightingSimResult> = Vec::new();
    let mut i: usize = 0;
    while i < trials
        invariant
            config.valid(),
            i <= trials,
            pop@.len() == i,
            forall|j: int| 0 <= j < pop@.len() ==> fight_reachable(*config, #[trigger] pop@[j]),
            forall|j: int|
                0 <= j < pop@.len() ==> (#[trigger] pop@[j]).time <= HORIZON_SECS && RESPAWN_DS
                    * pop@[j].enemy_killed <= HORIZON_DS + RESPAWN_DS - 1,
        decreases trials - i,
    {
        let r = sim(config, rng);
        pop.push(r);
        i = i + 1;
    }
    pop
}

/// Determinism: a fighting trial's outcome record is a function of its
/// configuration and its recorded random stream alone, so any two outcome
/// records that match the same configuration and draw sequence are equal.
pub proof fn lemma_fight_trial_deterministic(
    cfg: FightingSimConfig,
    draws: Seq<FightDraw>,
    a: FightingSimResult,
    b: FightingSimResult,
)
    requires
        fight_result_matches(cfg, draws, a),
        fight_result_matches(cfg, draws, b),
    ensures
        a == b,
{
}

/// The smallest and largest of a non-empty series of measurements.
pub fn min_max(values: &Vec<u64>) -> (r: (u64, u64))
    requires
        values@.len() >= 1,
    ensures
        values@.contains(r.0),
        values@.contains(r.1),
        forall|i: int| 0 <= i < values@.len() ==> r.0 <= #[trigger] values@[i] && values@[i] <= r.1,
{
    let mut mn: u64 = values[0];
    let mut mx: u64 = values[0];
    let mut i: usize = 0;
    while i < values.len()
        invariant
            i <= values@.len(),
            values@.len() >= 1,
            values@.contains(mn),
            values@.contains(mx),
            forall|j: int| 0 <= j < i ==> mn <= #[trigger] values@[j] && values@[j] <= mx,
        decreases values@.len() - i,
    {
        let v = values[i];
        if v < mn {
            mn = v;
        }
        if v > mx {
            mx = v;
        }
        i = i + 1;
    }
    (mn, mx)
}

/// The elapsed times of a fighting population, in whole seconds.
pub open spec fn fight_times(pop: Seq<FightingSimResult>) -> Seq<u64> {
    pop.map_values(|r: FightingSimResult| r.time as u64)
}

/// The kill counts of a fighting population.
pub open spec fn fight_kills(pop: Seq<FightingSimResult>) -> Seq<u64> {
    pop.map_values(|r: FightingSimResult| r.enemy_killed as u64)
}

/// The fighting report's text: mean, median, smallest and largest elapsed
/// time as `HH:MM:SS`, then mean, median, smallest and largest kill count,
/// each with two decimal places. A pure function of the population, so
/// aggregating the same population twice gives identical text.
pub open spec fn spec_fighting_report(pop: Seq<FightingSimResult>) -> Seq<char>
    recommends
        pop.len() >= 1,
{
    let n = pop.len() as int;
    let sts = fight_times(pop).sort_by(crate::stats::u64_le());
    let sks = fight_kills(pop).sort_by(crate::stats::u64_le());
    "Mean time: "@ + crate::text::hms(crate::stats::sum64(fight_times(pop)) / n)
        + "\nMedian time: "@ + crate::text::hms(crate::stats::median_floor(sts)) + "\nMin time: "@
        + crate::text::hms(sts[0] as int) + "\nMax time: "@ + crate::text::hms(sts[n - 1] as int)
        + "\n------------------------\nMean killed: "@ + crate::text::two_dec(
        crate::stats::mean_hundredths(crate::stats::sum64(fight_kills(pop)), n),
    ) + "\nMedian killed: "@ + crate::text::two_dec(crate::stats::median_hundredths(sks))
        + "\nMin killed: "@ + crate::text::two_dec(100 * (sks[0] as int)) + "\nMax killed: "@
        + crate::text::two_dec(100 * (sks[n - 1] as int)) + "\n"@
}

/// Reduces a fighting population to its report text; an empty population is
/// a reportable error, never a division by its size.
pub fn format_fighting_results(results: &Vec<FightingSimResult>) -> (r: Result<
    String,
    crate::AggregateError,
>)
    ensures
        results@.len() == 0 <==> r is Err,
        r is Err ==> r == Result::<String, crate::AggregateError>::Err(
            crate::AggregateError::EmptyPopulation,
        ),
        r is Ok ==> r->Ok_0@ == spec_fighting_report(results@),
{
    let n = results.len();
    if n == 0 {
        return Result::Err(crate::AggregateError::EmptyPopulation);
    }
    let mut times: Vec<u64> = Vec::new();
    let mut kills: Vec<u64> = Vec::new();
    let mut i: usize = 0;
    while i < n
        invariant
            n == results@.len(),
            i <= n,
            times@ == fight_times(results@.subrange(0, i as int)),
            kills@ == fight_kills(results@.subrange(0, i as int)),
        decreases n - i,
    {
        proof {
            assert(results@.subrange(0, i + 1) =~= results@.subrange(0, i as int).push(
                results@[i as int],
            ));
            assert(fight_times(results@.subrange(0, i + 1)) =~= fight_times(
                results@.subrange(0, i as int),
            ).push(results@[i as int].time as u64));
            assert(fight_kills(results@.subrange(0, i + 1)) =~= fight_kills(
                results@.subrange(0, i as int),
            ).push(results@[i as int].enemy_killed as u64));
        }
        times.push(results[i].time as u64);
        kills.push(results[i].enemy_killed as u64);
        i = i + 1;
    }
    proof {
        assert(results@.subrange(0, n as int) =~= results@);
        assert(times@ =~= fight_times(results@));
        assert(kills@ =~= fight_kills(results@));
    }
    let sum_t = crate::stats::sum_measurements(&times);
    let sum_k = crate::stats::sum_measurements(&kills);
    proof {
        crate::stats::lemma_sum64_bounds(times@);
        crate::stats::lemma_sum64_bounds(kills@);
    }
    let sorted_t = crate::stats::sort_u64(&times);
    let sorted_k = crate::stats::sort_u64(&kills);
    let mean_t = crate::stats::mean_floor(sum_t, n);
    let med_t: u64 = if n % 2 == 1 {
        sorted_t[n / 2]
    } else {
        proof {
            assert(crate::stats::u64_le()(sorted_t@[n as int / 2 - 1], sorted_t@[n as int / 2]));
        }
        ((sorted_t[n / 2 - 1] as u128 + sorted_t[n / 2] as u128) / 2) as u64
    };
    let (mn_t, mx_t) = min_max(&times);
    let (mn_k, mx_k) = min_max(&kills);
    proof {
        crate::stats::lemma_extremes_of_sorted(times@, mn_t, mx_t);
        crate::stats::lemma_extremes_of_sorted(kills@, mn_k, mx_k);
    }
    let mean_k_h = crate::stats::mean_hundredths_exec(sum_k, n);
    let med_k_h: u128 = if n % 2 == 1 {
        100 * (sorted_k[n / 2] as u128)
    } else {
        (sorted_k[n / 2 - 1] as u128 + sorted_k[n / 2] as u128) * 50
    };
    let mut s = String::new();
    s.append("Mean time: ");
    let piece = crate::text::format_duration_as_hms(mean_t);
    s.append(piece.as_str());
    s.append("\nMedian time: ");
    let piece = crate::text::format_duration_as_hms(med_t);
    s.append(piece.as_str());
    s.append("\nMin time: ");
    let piece = crate::text::format_duration_as_hms(mn_t);
    s.append(piece.as_str());
    s.append("\nMax time: ");
    let piece = crate::text::format_duration_as_hms(mx_t);
    s.append(piece.as_str());
    s.append("\n------------------------\nMean killed: ");
    crate::text::push_two_dec(&mut s, mean_k_h);
    s.append("\nMedian killed: ");
    crate::text::push_two_dec(&mut s, med_k_h);
    s.append("\nMin killed: ");
    crate::text::push_two_dec(&mut s, 100 * (mn_k as u128));
    s.append("\nMax killed: ");
    crate::text::push_two_dec(&mut s, 100 * (mx_k as u128));
    s.append("\n");
    proof {
        assert(s@ =~= spec_fighting_report(results@));
    }
    Result::Ok(s)
}

} // verus!
