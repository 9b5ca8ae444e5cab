//! The thieving trial engine and its aggregator: repeated steal attempts
//! against a regenerating-health target, bounded by the eight-hour horizon,
//! reduced to means and percentile-trimmed means over a population.
//!
//! A trial's behaviour is stated by `thieve_run`, a mathematical function of
//! the configuration and a sequence of draw records; the engine that walks a
//! real random stream is proved to return an outcome that `thieve_run` maps
//! some draw sequence to. Time advances in exact whole deciseconds, so the
//! multiple-of-interval checks never drift.
use vstd::prelude::*;
use crate::CHANCE_SCALE;
use crate::HORIZON_DS;
use crate::HORIZON_SECS;
use crate::STUN_DS;
use crate::STEP_DS;
use crate::fighting::pick_in_range;
use crate::stats::TRIM_COUNT;
use crate::stream::next_draw;

verus! {

/// The outcome of one thieving trial: elapsed whole seconds, gold earned,
/// and how many attempts succeeded and failed.
#[derive(Debug, Clone, Copy, PartialEq, Eq, Structural)]
pub struct ThievingSimResult {
    pub time: u32,
    pub money_earned: u64,
    pub success_thieving_count: u32,
    pub failed_thieving_count: u32,
    pub thieving_count: u32,
}

/// An immutable, validated thieving configuration. Intervals are counted in
/// deciseconds, the success chance in parts per million; damage and gold
/// bounds are inclusive.
#[derive(Debug, Clone, Copy, PartialEq, Eq, Structural)]
pub struct ThievingSimConfig {
    pub health_regeneration_interval_ds: u32,
    pub health_regeneration_amount: u32,
    pub max_health: u32,
    pub steal_interval_ds: u32,
    pub steal_success_chance_ppm: u32,
    pub min_damage: u32,
    pub max_damage: u32,
    pub min_gold: u32,
    pub max_gold: u32,
}

/// One attempt's worth of random material: the success roll, a damage pick
/// used on failure and a gold pick used on success. The attempt succeeds
/// exactly when the roll is below the configured chance.
#[derive(Debug, Clone, Copy, PartialEq, Eq, Structural)]
pub struct ThieveDraw {
    pub roll: u32,
    pub damage: u32,
    pub gold: u32,
}

impl ThievingSimConfig {
    /// The caller-guaranteed well-formedness of a configuration.
    pub open spec fn valid(self) -> bool {
        &&& self.steal_success_chance_ppm <= CHANCE_SCALE
        &&& self.min_damage <= self.max_damage
        &&& self.min_gold <= self.max_gold
        &&& self.health_regeneration_interval_ds >= 1
        &&& self.steal_interval_ds >= 1
        &&& self.max_health >= 1
    }

    /// Builds a validated configuration; validation is the caller's duty.
    pub fn new(
        health_regeneration_interval_ds: u32,
        health_regeneration_amount: u32,
        max_health: u32,
        steal_interval_ds: u32,
        steal_success_chance_ppm: u32,
        min_damage: u32,
        max_damage: u32,
        min_gold: u32,
        max_gold: u32,
    ) -> (c: Self)
        requires
            steal_success_chance_ppm <= CHANCE_SCALE,
            min_damage <= max_damage,
            min_gold <= max_gold,
            health_regeneration_interval_ds >= 1,
            steal_interval_ds >= 1,
            max_health >= 1,
        ensures
            c == (ThievingSimConfig {
                health_regeneration_interval_ds,
                health_regeneration_amount,
                max_health,
                steal_interval_ds,
                steal_success_chance_ppm,
                min_damage,
                max_damage,
                min_gold,
                max_gold,
            }),
            c.valid(),
    {
        ThievingSimConfig {
            health_regeneration_interval_ds,
            health_regeneration_amount,
            max_health,
            steal_interval_ds,
            steal_success_chance_ppm,
            min_damage,
            max_damage,
            min_gold,
            max_gold,
        }
    }
}

/// A thieving trial's working state, as unbounded integers.
pub struct ThieveState {
    pub hp: int,
    pub money: int,
    pub succ: int,
    pub fail: int,
    pub att: int,
    pub time: int,
}

/// The draw record the next iteration consumes: the head of the sequence,
/// or an all-zero record once the sequence is exhausted.
pub open spec fn thieve_draw_at(draws: Seq<ThieveDraw>) -> ThieveDraw {
    if draws.len() > 0 {
        draws[0]
    } else {
        ThieveDraw { roll: 0, damage: 0, gold: 0 }
    }
}

/// The draw records left for later iterations.
pub open spec fn thieve_rest(draws: Seq<ThieveDraw>) -> Seq<ThieveDraw> {
    if draws.len() > 0 {
        draws.drop_first()
    } else {
        draws
    }
}

/// How much simulated time is left before the horizon ends a trial.
pub open spec fn thieve_fuel(time: int) -> int {
    if time >= HORIZON_DS as int {
        0
    } else {
        HORIZON_DS as int - time
    }
}

/// The target's health after a possible regeneration tick: when the time is
/// an exact multiple of the regeneration interval, one regeneration amount
/// is added, capped at the health maximum.
pub open spec fn regen_if_due(cfg: ThievingSimConfig, hp: int, time: int) -> int {
    if cfg.health_regeneration_interval_ds >= 1 && time % (
    cfg.health_regeneration_interval_ds as int) == 0 {
        if hp + cfg.health_regeneration_amount > cfg.max_health {
            cfg.max_health as int
        } else {
            hp + cfg.health_regeneration_amount
        }
    } else {
        hp
    }
}

/// One whole thieving trial from the given state, as a function of the draw
/// records consumed. On each exact multiple of the steal interval one
/// attempt is made: a failure costs damage and, if the target survives, the
/// stun delay; a success earns gold. Then a possible regeneration tick, and
/// time advances by the fixed step. A fatal failure ends the trial at once,
/// with no regeneration and no time step.
pub open spec fn thieve_run(
    cfg: ThievingSimConfig,
    st: ThieveState,
    draws: Seq<ThieveDraw>,
) -> ThieveState
    decreases thieve_fuel(st.time),
{
    if !cfg.valid() || st.time < 0 || st.hp <= 0 || st.time >= HORIZON_DS as int {
        st
    } else {
        let d = thieve_draw_at(draws);
        let rest = thieve_rest(draws);
        if st.time % (cfg.steal_interval_ds as int) == 0 {
            if d.roll as int >= cfg.steal_success_chance_ppm as int {
                let dmg = pick_in_range(cfg.min_damage as int, cfg.max_damage as int, d.damage as int);
                let hp1 = st.hp - dmg;
                if hp1 <= 0 {
                    ThieveState {
                        hp: hp1,
                        money: st.money,
                        succ: st.succ,
                        fail: st.fail + 1,
                        att: st.att + 1,
                        time: st.time,
                    }
                } else {
                    let t1 = st.time + STUN_DS as int;
                    thieve_run(
                        cfg,
                        ThieveState {
                            hp: regen_if_due(cfg, hp1, t1),
                            money: st.money,
                            succ: st.succ,
                            fail: st.fail + 1,
                            att: st.att + 1,
                            time: t1 + STEP_DS as int,
                        },
                        rest,
                    )
                }
            } else {
                let g = pick_in_range(cfg.min_gold as int, cfg.max_gold as int, d.gold as int);
                thieve_run(
                    cfg,
                    ThieveState {
                        hp: regen_if_due(cfg, st.hp, st.time),
                        money: st.money + g,
                        succ: st.succ + 1,
                        fail: st.fail,
                        att: st.att + 1,
                        time: st.time + STEP_DS as int,
                    },
                    rest,
                )
            }
        } else {
            thieve_run(
                cfg,
                ThieveState {
                    hp: regen_if_due(cfg, st.hp, st.time),
                    money: st.money,
                    succ: st.succ,
                    fail: st.fail,
                    att: st.att,
                    time: st.time + STEP_DS as int,
                },
                rest,
            )
        }
    }
}

/// The initial state a configuration prescribes.
pub open spec fn thieve_start(cfg: ThievingSimConfig) -> ThieveState {
    ThieveState { hp: cfg.max_health as int, money: 0, succ: 0, fail: 0, att: 0, time: 0 }
}

/// A whole trial from the initial state.
pub open spec fn thieve_outcome(cfg: ThievingSimConfig, draws: Seq<ThieveDraw>) -> ThieveState {
    thieve_run(cfg, thieve_start(cfg), draws)
}

/// The elapsed whole seconds an outcome reports: clamped to the horizon.
pub open spec fn thieve_elapsed_secs(t: int) -> int {
    (if t > HORIZON_DS as int {
        HORIZON_DS as int
    } else {
        t
    }) / 10
}

/// The outcome record a trial over the given draws must report.
pub open spec fn thieve_result_matches(
    cfg: ThievingSimConfig,
    draws: Seq<ThieveDraw>,
    r: ThievingSimResult,
) -> bool {
    let o = thieve_outcome(cfg, draws);
    &&& r.time == thieve_elapsed_secs(o.time)
    &&& r.money_earned == o.money
    &&& r.success_thieving_count == o.succ
    &&& r.failed_thieving_count == o.fail
    &&& r.thieving_count == o.att
}

/// Draw records whose success rolls all lie on the chance scale, as every
/// record the engine itself draws does.
pub open spec fn thieve_draws_wf(draws: Seq<ThieveDraw>) -> bool {
    forall|i: int| 0 <= i < draws.len() ==> (#[trigger] draws[i]).roll < CHANCE_SCALE
}

/// The exec state as the unbounded state the model speaks of.
pub open spec fn thieve_st_of(
    hp: i64,
    money: u64,
    succ: u32,
    fail: u32,
    att: u32,
    time: u64,
) -> ThieveState {
    ThieveState {
        hp: hp as int,
        money: money as int,
        succ: succ as int,
        fail: fail as int,
        att: att as int,
        time: time as int,
    }
}

/// An outcome the engine can genuinely report for this configuration: one
/// that the model maps some well-formed draw sequence to.
pub open spec fn thieve_reachable(cfg: ThievingSimConfig, r: ThievingSimResult) -> bool {
    exists|ds: Seq<ThieveDraw>| #![auto] thieve_draws_wf(ds) && thieve_result_matches(cfg, ds, r)
}

/// The bounds one engine iteration preserves.
pub open spec fn thieve_state_wf(
    cfg: ThievingSimConfig,
    hp: i64,
    money: u64,
    succ: u32,
    fail: u32,
    att: u32,
    time: u64,
) -> bool {
    &&& hp <= cfg.max_health
    &&& att as int == succ as int + fail as int
    &&& money as int <= att as int * 0xffff_ffffu32 as int
    &&& (hp >= 1 ==> att as int <= time as int + 1)
    &&& att as int <= time as int + 2
}

/// The target's health after a possible regeneration tick.
fn regen_due_exec(cfg: &ThievingSimConfig, hp: i64, time: u64) -> (r: i64)
    requires
        cfg.valid(),
        1 <= hp <= cfg.max_health,
    ensures
        r as int == regen_if_due(*cfg, hp as int, time as int),
        1 <= r <= cfg.max_health,
{
    if time % (cfg.health_regeneration_interval_ds as u64) == 0 {
        let grown: i64 = hp + cfg.health_regeneration_amount as i64;
        if grown > cfg.max_health as i64 {
            cfg.max_health as i64
        } else {
            grown
        }
    } else {
        hp
    }
}

/// One engine iteration on one draw record; its effect is exactly one
/// unfolding of `thieve_run`.
fn thieve_step(
    cfg: &ThievingSimConfig,
    hp: i64,
    money: u64,
    succ: u32,
    fail: u32,
    att: u32,
    time: u64,
    d: ThieveDraw,
) -> (r: (i64, u64, u32, u32, u32, u64))
    requires
        cfg.valid(),
        hp >= 1,
        time < HORIZON_DS,
        thieve_state_wf(*cfg, hp, money, succ, fail, att, time),
    ensures
        thieve_state_wf(*cfg, r.0, r.1, r.2, r.3, r.4, r.5),
        r.5 >= time,
        r.0 >= 1 ==> r.5 > time,
        forall|rest: Seq<ThieveDraw>|
            thieve_run(*cfg, thieve_st_of(hp, money, succ, fail, att, time), seq![d] + rest)
                == #[trigger] thieve_run(*cfg, thieve_st_of(r.0, r.1, r.2, r.3, r.4, r.5), rest),
{
    if time % (cfg.steal_interval_ds as u64) == 0 {
        let att1 = att + 1;
        if d.roll >= cfg.steal_success_chance_ppm {
            let fail1 = fail + 1;
            let span: u64 = (cfg.max_damage - cfg.min_damage) as u64 + 1;
            let dmg: u32 = cfg.min_damage + (d.damage as u64 % span) as u32;
            let hp1: i64 = hp - dmg as i64;
            if hp1 <= 0 {
                let r = (hp1, money, succ, fail1, att1, time);
                proof {
                    assert forall|rest: Seq<ThieveDraw>|
                        thieve_run(
                            *cfg,
                            thieve_st_of(hp, money, succ, fail, att, time),
                            seq![d] + rest,
                        ) == #[trigger] thieve_run(
                            *cfg,
                            thieve_st_of(r.0, r.1, r.2, r.3, r.4, r.5),
                            rest,
                        ) by {
                        let ds = seq![d] + rest;
                        assert(thieve_draw_at(ds) == d);
                        assert(pick_in_range(
                            cfg.min_damage as int,
                            cfg.max_damage as int,
                            d.damage as int,
                        ) == dmg as int);
                        assert(thieve_run(
                            *cfg,
                            thieve_st_of(r.0, r.1, r.2, r.3, r.4, r.5),
                            rest,
                        ) == thieve_st_of(r.0, r.1, r.2, r.3, r.4, r.5));
                    }
                }
                r
            } else {
                let t1: u64 = time + STUN_DS;
                let hp2 = regen_due_exec(cfg, hp1, t1);
                let r = (hp2, money, succ, fail1, att1, t1 + STEP_DS);
                proof {
                    assert forall|rest: Seq<ThieveDraw>|
                        thieve_run(
                            *cfg,
                            thieve_st_of(hp, money, succ, fail, att, time),
                            seq![d] + rest,
                        ) == #[trigger] thieve_run(
                            *cfg,
                            thieve_st_of(r.0, r.1, r.2, r.3, r.4, r.5),
                            rest,
                        ) by {
                        let ds = seq![d] + rest;
                        assert(thieve_draw_at(ds) == d);
                        assert(thieve_rest(ds) =~= rest);
                        assert(pick_in_range(
                            cfg.min_damage as int,
                            cfg.max_damage as int,
                            d.damage as int,
                        ) == dmg as int);
                    }
                }
                r
            }
        } else {
            let gspan: u64 = (cfg.max_gold - cfg.min_gold) as u64 + 1;
            let g: u32 = cfg.min_gold + (d.gold as u64 % gspan) as u32;
            let hp2 = regen_due_exec(cfg, hp, time);
            let r = (hp2, money + g as u64, succ + 1, fail, att1, time + STEP_DS);
            proof {
                assert(money + g as u64 <= (att1 as int) * 0xffff_ffffu32 as int);
                assert forall|rest: Seq<ThieveDraw>|
                    thieve_run(*cfg, thieve_st_of(hp, money, succ, fail, att, time), seq![d] + rest)
                        == #[trigger] thieve_run(
                        *cfg,
                        thieve_st_of(r.0, r.1, r.2, r.3, r.4, r.5),
                        rest,
                    ) by {
                    let ds = seq![d] + rest;
                    assert(thieve_draw_at(ds) == d);
                    assert(thieve_rest(ds) =~= rest);
                    assert(pick_in_range(cfg.min_gold as int, cfg.max_gold as int, d.gold as int)
                        == g as int);
                }
            }
            r
        }
    } else {
        let hp2 = regen_due_exec(cfg, hp, time);
        let r = (hp2, money, succ, fail, att, time + STEP_DS);
        proof {
            assert forall|rest: Seq<ThieveDraw>|
                thieve_run(*cfg, thieve_st_of(hp, money, succ, fail, att, time), seq![d] + rest)
                    == #[trigger] thieve_run(
                    *cfg,
                    thieve_st_of(r.0, r.1, r.2, r.3, r.4, r.5),
                    rest,
                ) by {
                let ds = seq![d] + rest;
                assert(thieve_draw_at(ds) == d);
                assert(thieve_rest(ds) =~= rest);
            }
        }
        r
    }
}

/// Replays one thieving trial over a recorded draw sequence. The outcome is
/// exactly what `thieve_run` states, so equal configurations and equal draw
/// sequences always give equal outcomes; once the records run out the
/// remaining iterations consume all-zero records.
pub fn sim_from_draws(config: &ThievingSimConfig, draws: &Vec<ThieveDraw>) -> (r: ThievingSimResult)
    requires
        config.valid(),
    ensures
        thieve_result_matches(*config, draws@, r),
        r.time <= HORIZON_SECS,
        r.thieving_count as int == r.success_thieving_count as int
            + r.failed_thieving_count as int,
{
    let mut hp: i64 = config.max_health as i64;
    let mut money: u64 = 0;
    let mut succ: u32 = 0;
    let mut fail: u32 = 0;
    let mut att: u32 = 0;
    let mut time: u64 = 0;
    let mut i: usize = 0;
    proof {
        assert(draws@.skip(0) =~= draws@);
    }
    while hp > 0 && time < HORIZON_DS
        invariant
            config.valid(),
            i <= draws@.len(),
            thieve_state_wf(*config, hp, money, succ, fail, att, time),
            thieve_outcome(*config, draws@) == thieve_run(
                *config,
                thieve_st_of(hp, money, succ, fail, att, time),
                draws@.skip(i as int),
            ),
        decreases thieve_fuel(time as int), (if hp > 0 { 1int } else { 0int }),
    {
        let d: ThieveDraw = if i < draws.len() {
            draws[i]
        } else {
            ThieveDraw { roll: 0, damage: 0, gold: 0 }
        };
        proof {
            if i < draws@.len() {
                assert(seq![d] + draws@.skip(i + 1) =~= draws@.skip(i as int));
            } else {
                assert(draws@.skip(i as int) =~= Seq::<ThieveDraw>::empty());
                assert(seq![d] + Seq::<ThieveDraw>::empty() =~= seq![d]);
            }
        }
        let s = thieve_step(config, hp, money, succ, fail, att, time, d);
        proof {
            if i < draws@.len() {
                assert(thieve_run(
                    *config,
                    thieve_st_of(hp, money, succ, fail, att, time),
                    draws@.skip(i as int),
                ) == thieve_run(
                    *config,
                    thieve_st_of(s.0, s.1, s.2, s.3, s.4, s.5),
                    draws@.skip(i + 1),
                ));
            } else {
                assert(thieve_run(
                    *config,
                    thieve_st_of(hp, money, succ, fail, att, time),
                    seq![d] + Seq::<ThieveDraw>::empty(),
                ) == thieve_run(
                    *config,
                    thieve_st_of(s.0, s.1, s.2, s.3, s.4, s.5),
                    Seq::<ThieveDraw>::empty(),
                ));
                assert(thieve_run(
                    *config,
                    thieve_st_of(hp, money, succ, fail, att, time),
                    seq![d],
                ) == thieve_run(
                    *config,
                    thieve_st_of(hp, money, succ, fail, att, time),
                    Seq::<ThieveDraw>::empty(),
                )) by {
                    assert(thieve_rest(seq![d]) =~= Seq::<ThieveDraw>::empty());
                    assert(thieve_draw_at(seq![d]) == thieve_draw_at(Seq::<ThieveDraw>::empty()));
                }
            }
        }
        hp = s.0;
        money = s.1;
        succ = s.2;
        fail = s.3;
        att = s.4;
        time = s.5;
        i = if i < draws.len() {
            i + 1
        } else {
            i
        };
    }
    proof {
        assert(thieve_run(
            *config,
            thieve_st_of(hp, money, succ, fail, att, time),
            draws@.skip(i as int),
        ) == thieve_st_of(hp, money, succ, fail, att, time));
    }
    let t_ds: u64 = if time > HORIZON_DS {
        HORIZON_DS
    } else {
        time
    };
    ThievingSimResult {
        time: (t_ds / 10) as u32,
        money_earned: money,
        success_thieving_count: succ,
        failed_thieving_count: fail,
        thieving_count: att,
    }
}

/// Runs one thieving trial, drawing its random material from the given
/// generator. Whatever is drawn, the outcome is one that `thieve_run` maps
/// a well-formed draw sequence to; the elapsed time never exceeds the
/// horizon and the attempt count is always the sum of the success and
/// failure counts.
pub fn sim(config: &ThievingSimConfig, rng: &mut rand::rngs::StdRng) -> (r: ThievingSimResult)
    requires
        config.valid(),
    ensures
        thieve_reachable(*config, r),
        r.time <= HORIZON_SECS,
        r.thieving_count as int == r.success_thieving_count as int
            + r.failed_thieving_count as int,
{
    let mut hp: i64 = config.max_health as i64;
    let mut money: u64 = 0;
    let mut succ: u32 = 0;
    let mut fail: u32 = 0;
    let mut att: u32 = 0;
    let mut time: u64 = 0;
    let ghost mut consumed: Seq<ThieveDraw> = Seq::empty();
    while hp > 0 && time < HORIZON_DS
        invariant
            config.valid(),
            thieve_state_wf(*config, hp, money, succ, fail, att, time),
            thieve_draws_wf(consumed),
            forall|rest: Seq<ThieveDraw>|
                thieve_outcome(*config, consumed + rest) == #[trigger] thieve_run(
                    *config,
                    thieve_st_of(hp, money, succ, fail, att, time),
                    rest,
                ),
        decreases thieve_fuel(time as int), (if hp > 0 { 1int } else { 0int }),
    {
        let d = ThieveDraw {
            roll: next_draw(rng) % CHANCE_SCALE,
            damage: next_draw(rng),
            gold: next_draw(rng),
        };
        let s = thieve_step(config, hp, money, succ, fail, att, time, d);
        proof {
            assert forall|rest: Seq<ThieveDraw>|
                thieve_outcome(*config, consumed.push(d) + rest) == #[trigger] thieve_run(
                    *config,
                    thieve_st_of(s.0, s.1, s.2, s.3, s.4, s.5),
                    rest,
                ) by {
                assert(consumed.push(d) + rest =~= consumed + (seq![d] + rest));
                assert(thieve_outcome(*config, consumed + (seq![d] + rest)) == thieve_run(
                    *config,
                    thieve_st_of(hp, money, succ, fail, att, time),
                    seq![d] + rest,
                ));
            }
            consumed = consumed.push(d);
        }
        hp = s.0;
        money = s.1;
        succ = s.2;
        fail = s.3;
        att = s.4;
        time = s.5;
    }
    proof {
        assert(consumed + Seq::<ThieveDraw>::empty() =~= consumed);
        assert(thieve_run(
            *config,
            thieve_st_of(hp, money, succ, fail, att, time),
            Seq::<ThieveDraw>::empty(),
        ) == thieve_st_of(hp, money, succ, fail, att, time));
        assert(thieve_outcome(*config, consumed) == thieve_st_of(hp, money, succ, fail, att, time));
    }
    let t_ds: u64 = if time > HORIZON_DS {
        HORIZON_DS
    } else {
        time
    };
    let r = ThievingSimResult {
        time: (t_ds / 10) as u32,
        money_earned: money,
        success_thieving_count: succ,
        failed_thieving_count: fail,
        thieving_count: att,
    };
    proof {
        assert(thieve_draws_wf(consumed) && thieve_result_matches(*config, consumed, r));
        assert(thieve_reachable(*config, r));
    }
    r
}

proof fn lemma_thieve_run_bounds_general(
    cfg: ThievingSimConfig,
    st: ThieveState,
    draws: Seq<ThieveDraw>,
)
    requires
        cfg.valid(),
        0 <= st.time,
        0 <= st.succ,
        0 <= st.fail,
        0 <= st.money,
        st.att == st.succ + st.fail,
    ensures
        ({
            let o = thieve_run(cfg, st, draws);
            &&& o.att == o.succ + o.fail
            &&& o.succ >= st.succ
            &&& o.fail >= st.fail
            &&& o.money >= st.money
            &&& o.time >= st.time
        }),
    decreases thieve_fuel(st.time),
{
    if st.hp <= 0 || st.time >= HORIZON_DS as int {
    } else {
        let d = thieve_draw_at(draws);
        let rest = thieve_rest(draws);
        if st.time % (cfg.steal_interval_ds as int) == 0 {
            if d.roll as int >= cfg.steal_success_chance_ppm as int {
                let dmg = pick_in_range(cfg.min_damage as int, cfg.max_damage as int, d.damage as int);
                let hp1 = st.hp - dmg;
                if hp1 <= 0 {
                } else {
                    let t1 = st.time + STUN_DS as int;
                    lemma_thieve_run_bounds_general(
                        cfg,
                        ThieveState {
                            hp: regen_if_due(cfg, hp1, t1),
                            money: st.money,
                            succ: st.succ,
                            fail: st.fail + 1,
                            att: st.att + 1,
                            time: t1 + STEP_DS as int,
                        },
                        rest,
                    );
                }
            } else {
                let g = pick_in_range(cfg.min_gold as int, cfg.max_gold as int, d.gold as int);
                lemma_thieve_run_bounds_general(
                    cfg,
                    ThieveState {
                        hp: regen_if_due(cfg, st.hp, st.time),
                        money: st.money + g,
                        succ: st.succ + 1,
                        fail: st.fail,
                        att: st.att + 1,
                        time: st.time + STEP_DS as int,
                    },
                    rest,
                );
            }
        } else {
            lemma_thieve_run_bounds_general(
                cfg,
                ThieveState {
                    hp: regen_if_due(cfg, st.hp, st.time),
                    money: st.money,
                    succ: st.succ,
                    fail: st.fail,
                    att: st.att,
                    time: st.time + STEP_DS as int,
                },
                rest,
            );
        }
    }
}

/// For every valid configuration and every draw sequence, a thieving
/// trial's elapsed seconds lie within the horizon, all counts and the gold
/// earned are non-negative, and the attempt count is the sum of the success
/// and failure counts.
pub proof fn lemma_thieve_outcome_bounds(cfg: ThievingSimConfig, draws: Seq<ThieveDraw>)
    requires
        cfg.valid(),
    ensures
        ({
            let o = thieve_outcome(cfg, draws);
            &&& 0 <= thieve_elapsed_secs(o.time) <= HORIZON_SECS
            &&& o.att == o.succ + o.fail
            &&& 0 <= o.succ
            &&& 0 <= o.fail
            &&& 0 <= o.money
        }),
{
    lemma_thieve_run_bounds_general(cfg, thieve_start(cfg), draws);
}

proof fn lemma_thieve_run_all_success(
    cfg: ThievingSimConfig,
    st: ThieveState,
    draws: Seq<ThieveDraw>,
)
    requires
        cfg.valid(),
        cfg.steal_success_chance_ppm == CHANCE_SCALE,
        thieve_draws_wf(draws),
        0 <= st.time,
    ensures
        ({
            let o = thieve_run(cfg, st, draws);
            &&& o.fail == st.fail
            &&& o.att - st.att == o.succ - st.succ
            &&& o.succ >= st.succ
            &&& st.money + (o.succ - st.succ) * cfg.min_gold <= o.money
            &&& o.money <= st.money + (o.succ - st.succ) * cfg.max_gold
        }),
    decreases thieve_fuel(st.time),
{
    if st.hp <= 0 || st.time >= HORIZON_DS as int {
    } else {
        let d = thieve_draw_at(draws);
        let rest = thieve_rest(draws);
        assert(d.roll < CHANCE_SCALE);
        assert(thieve_draws_wf(rest));
        if st.time % (cfg.steal_interval_ds as int) == 0 {
            let g = pick_in_range(cfg.min_gold as int, cfg.max_gold as int, d.gold as int);
            assert(cfg.min_gold <= g <= cfg.max_gold);
            let st1 = ThieveState {
                hp: regen_if_due(cfg, st.hp, st.time),
                money: st.money + g,
                succ: st.succ + 1,
                fail: st.fail,
                att: st.att + 1,
                time: st.time + STEP_DS as int,
            };
            lemma_thieve_run_all_success(cfg, st1, rest);
            let o = thieve_run(cfg, st, draws);
            assert((o.succ - st.succ) * cfg.min_gold == (o.succ - st1.succ) * cfg.min_gold
                + cfg.min_gold) by (nonlinear_arith)
                requires
                    st1.succ == st.succ + 1,
            ;
            assert((o.succ - st.succ) * cfg.max_gold == (o.succ - st1.succ) * cfg.max_gold
                + cfg.max_gold) by (nonlinear_arith)
                requires
                    st1.succ == st.succ + 1,
            ;
        } else {
            lemma_thieve_run_all_success(
                cfg,
                ThieveState {
                    hp: regen_if_due(cfg, st.hp, st.time),
                    money: st.money,
                    succ: st.succ,
                    fail: st.fail,
                    att: st.att,
                    time: st.time + STEP_DS as int,
                },
                rest,
            );
        }
    }
}

/// The certain-success boundary case: when the steal success chance is the
/// whole scale, no attempt over well-formed draws ever fails, and the gold
/// earned is a sum of one value per success, each within the configured
/// gold range.
pub proof fn lemma_all_success_thieving(cfg: ThievingSimConfig, draws: Seq<ThieveDraw>)
    requires
        cfg.valid(),
        cfg.steal_success_chance_ppm == CHANCE_SCALE,
        thieve_draws_wf(draws),
    ensures
        ({
            let o = thieve_outcome(cfg, draws);
            &&& o.fail == 0
            &&& o.att == o.succ
            &&& o.succ * cfg.min_gold <= o.money <= o.succ * cfg.max_gold
        }),
{
    lemma_thieve_run_all_success(cfg, thieve_start(cfg), draws);
}

/// The certain-death boundary case: when no attempt can succeed and one
/// failure's damage covers the whole health bar, every trial ends at time
/// zero with exactly one attempt, one failure and no gold.
pub proof fn lemma_instant_death_thieving(cfg: ThievingSimConfig, draws: Seq<ThieveDraw>)
    requires
        cfg.valid(),
        cfg.steal_success_chance_ppm == 0,
        cfg.min_damage == cfg.max_damage,
        cfg.max_damage >= cfg.max_health,
    ensures
        ({
            let o = thieve_outcome(cfg, draws);
            &&& o.time == 0
            &&& o.att == 1
            &&& o.fail == 1
            &&& o.succ == 0
            &&& o.money == 0
        }),
{
    let st = thieve_start(cfg);
    let d = thieve_draw_at(draws);
    assert(0int % (cfg.steal_interval_ds as int) == 0);
    assert((d.damage as int) % 1 == 0);
    assert(pick_in_range(cfg.min_damage as int, cfg.max_damage as int, d.damage as int)
        == cfg.min_damage as int);
}

/// Runs `trials` independent thieving trials and collects their outcomes:
/// every element is a genuine trial outcome of this configuration.
pub fn run_batch(config: &ThievingSimConfig, trials: usize, rng: &mut rand::rngs::StdRng) -> (pop:
    Vec<ThievingSimResult>)
    requires
        config.valid(),
    ensures
        pop@.len() == trials,
        forall|j: int| 0 <= j < pop@.len() ==> thieve_reachable(*config, #[trigger] pop@[j]),
        forall|j: int|
            0 <= j < pop@.len() ==> (#[trigger] pop@[j]).time <= HORIZON_SECS && pop@[
                j
            ].thieving_count as int == pop@[j].success_thieving_count as int + pop@[
                j
            ].failed_thieving_count as int,
{
    let mut pop: Vec<ThievingSimResult> = Vec::new();
    let mut i: usize = 0;
    while i < trials
        invariant
            config.valid(),
            i <= trials,
            pop@.len() == i,
            forall|j: int| 0 <= j < pop@.len() ==> thieve_reachable(*config, #[trigger] pop@[j]),
            forall|j: int|
                0 <= j < pop@.len() ==> (#[trigger] pop@[j]).time <= HORIZON_SECS && pop@[
                    j
                ].thieving_count as int == pop@[j].success_thieving_count as int + pop@[
                    j
                ].failed_thieving_count as int,
        decreases trials - i,
    {
        let r = sim(config, rng);
        pop.push(r);
        i = i + 1;
    }
    pop
}

/// Determinism: a thieving trial's outcome record is a function of its
/// configuration and its recorded random stream alone, so any two outcome
/// records that match the same configuration and draw sequence are equal.
pub proof fn lemma_thieve_trial_deterministic(
    cfg: ThievingSimConfig,
    draws: Seq<ThieveDraw>,
    a: ThievingSimResult,
    b: ThievingSimResult,
)
    requires
        thieve_result_matches(cfg, draws, a),
        thieve_result_matches(cfg, draws, b),
    ensures
        a == b,
{
}

/// The elapsed times of a thieving population, in whole seconds.
pub open spec fn thieve_times(pop: Seq<ThievingSimResult>) -> Seq<u64> {
    pop.map_values(|r: ThievingSimResult| r.time as u64)
}

/// The gold earned by each trial of a thieving population.
pub open spec fn thieve_money(pop: Seq<ThievingSimResult>) -> Seq<u64> {
    pop.map_values(|r: ThievingSimResult| r.money_earned)
}

/// The success counts of a thieving population.
pub open spec fn thieve_succ(pop: Seq<ThievingSimResult>) -> Seq<u64> {
    pop.map_values(|r: ThievingSimResult| r.success_thieving_count as u64)
}

/// The failure counts of a thieving population.
pub open spec fn thieve_fail(pop: Seq<ThievingSimResult>) -> Seq<u64> {
    pop.map_values(|r: ThievingSimResult| r.failed_thieving_count as u64)
}

/// The attempt counts of a thieving population.
pub open spec fn thieve_att(pop: Seq<ThievingSimResult>) -> Seq<u64> {
    pop.map_values(|r: ThievingSimResult| r.thieving_count as u64)
}

/// How many sorted values a trimmed mean draws on: the trim count, or the
/// whole population when it holds fewer values. The trimmed means divide by
/// this number, so a small population degrades to its own true mean rather
/// than being skewed by a fixed divisor.
pub open spec fn trim_len(n: int) -> int {
    if n < TRIM_COUNT as int {
        n
    } else {
        TRIM_COUNT as int
    }
}

/// The sum of the lowest sorted values a trimmed mean draws on.
pub open spec fn trim_lo_sum(s: Seq<u64>) -> int {
    let t = s.sort_by(crate::stats::u64_le());
    crate::stats::sum64(t.subrange(0, trim_len(t.len() as int)))
}

/// The sum of the highest sorted values a trimmed mean draws on.
pub open spec fn trim_hi_sum(s: Seq<u64>) -> int {
    let t = s.sort_by(crate::stats::u64_le());
    crate::stats::sum64(t.subrange(t.len() - trim_len(t.len() as int), t.len() as int))
}

/// With a population of exactly the trim count, each trimmed mean draws on
/// every value: both trimmed sums equal the whole population's sum, so the
/// max-trimmed and min-trimmed means both equal the population's own mean.
pub proof fn lemma_trims_cover_exact_population(s: Seq<u64>)
    requires
        s.len() == TRIM_COUNT,
    ensures
        trim_lo_sum(s) == crate::stats::sum64(s),
        trim_hi_sum(s) == crate::stats::sum64(s),
{
    broadcast use vstd::seq_lib::group_to_multiset_ensures;

    crate::stats::lemma_u64_le_total();
    s.lemma_sort_by_ensures(crate::stats::u64_le());
    let t = s.sort_by(crate::stats::u64_le());
    assert(t.len() == t.to_multiset().len());
    assert(s.len() == s.to_multiset().len());
    assert(t.subrange(0, trim_len(t.len() as int)) =~= t);
    assert(t.subrange(t.len() - trim_len(t.len() as int), t.len() as int) =~= t);
    crate::stats::lemma_sum64_permutation(t, s);
}

/// The thieving report's text: the mean elapsed time and the two trimmed
/// mean times as `HH:MM:SS`, the mean and two trimmed means of gold earned,
/// and the per-trial average success, failure and attempt counts, all means
/// with two decimal places. A pure function of the population, so
/// aggregating the same population twice gives identical text.
pub open spec fn spec_thieving_report(pop: Seq<ThievingSimResult>) -> Seq<char>
    recommends
        pop.len() >= 1,
{
    let n = pop.len() as int;
    let k = trim_len(n);
    let ts = thieve_times(pop);
    let ms = thieve_money(pop);
    "Mean time: "@ + crate::text::hms(crate::stats::sum64(ts) / n) + "\nMax mean time: "@
        + crate::text::hms(trim_hi_sum(ts) / k) + "\nMin mean time: "@ + crate::text::hms(
        trim_lo_sum(ts) / k,
    ) + "\n--------------------\nMean money earned: "@ + crate::text::two_dec(
        crate::stats::mean_hundredths(crate::stats::sum64(ms), n),
    ) + "\nMax money earned: "@ + crate::text::two_dec(
        crate::stats::mean_hundredths(trim_hi_sum(ms), k),
    ) + "\nMin money earned: "@ + crate::text::two_dec(
        crate::stats::mean_hundredths(trim_lo_sum(ms), k),
    ) + "\n--------------------\nSuccess thieving: "@ + crate::text::two_dec(
        crate::stats::mean_hundredths(crate::stats::sum64(thieve_succ(pop)), n),
    ) + "\nFailed thieving: "@ + crate::text::two_dec(
        crate::stats::mean_hundredths(crate::stats::sum64(thieve_fail(pop)), n),
    ) + "\nThieving count: "@ + crate::text::two_dec(
        crate::stats::mean_hundredths(crate::stats::sum64(thieve_att(pop)), n),
    ) + "\n"@
}

/// Reduces a thieving population to its report text; an empty population is
/// a reportable error, never a division by its size.
pub fn format_thieve_results(results: &Vec<ThievingSimResult>) -> (r: Result<
    String,
    crate::AggregateError,
>)
    ensures
        results@.len() == 0 <==> r is Err,
        r is Err ==> r == Result::<String, crate::AggregateError>::Err(
            crate::AggregateError::EmptyPopulation,
        ),
        r is Ok ==> r->Ok_0@ == spec_thieving_report(results@),
{
    let n = results.len();
    if n == 0 {
        return Result::Err(crate::AggregateError::EmptyPopulation);
    }
    let mut times: Vec<u64> = Vec::new();
    let mut money: Vec<u64> = Vec::new();
    let mut succ: Vec<u64> = Vec::new();
    let mut fails: Vec<u64> = Vec::new();
    let mut atts: Vec<u64> = Vec::new();
    let mut i: usize = 0;
    while i < n
        invariant
            n == results@.len(),
            i <= n,
            times@ == thieve_times(results@.subrange(0, i as int)),
            money@ == thieve_money(results@.subrange(0, i as int)),
            succ@ == thieve_succ(results@.subrange(0, i as int)),
            fails@ == thieve_fail(results@.subrange(0, i as int)),
            atts@ == thieve_att(results@.subrange(0, i as int)),
        decreases n - i,
    {
        proof {
            let pre = results@.subrange(0, i as int);
            let r0 = results@[i as int];
            assert(results@.subrange(0, i + 1) =~= pre.push(r0));
            assert(thieve_times(pre.push(r0)) =~= thieve_times(pre).push(r0.time as u64));
            assert(thieve_money(pre.push(r0)) =~= thieve_money(pre).push(r0.money_earned));
            assert(thieve_succ(pre.push(r0)) =~= thieve_succ(pre).push(
                r0.success_thieving_count as u64,
            ));
            assert(thieve_fail(pre.push(r0)) =~= thieve_fail(pre).push(
                r0.failed_thieving_count as u64,
            ));
            assert(thieve_att(pre.push(r0)) =~= thieve_att(pre).push(r0.thieving_count as u64));
        }
        times.push(results[i].time as u64);
        money.push(results[i].money_earned);
        succ.push(results[i].success_thieving_count as u64);
        fails.push(results[i].failed_thieving_count as u64);
        atts.push(results[i].thieving_count as u64);
        i = i + 1;
    }
    proof {
        assert(results@.subrange(0, n as int) =~= results@);
        assert(times@ =~= thieve_times(results@));
        assert(money@ =~= thieve_money(results@));
        assert(succ@ =~= thieve_succ(results@));
        assert(fails@ =~= thieve_fail(results@));
        assert(atts@ =~= thieve_att(results@));
    }
    let k: usize = if n < TRIM_COUNT {
        n
    } else {
        TRIM_COUNT
    };
    let sum_t = crate::stats::sum_measurements(&times);
    let sum_m = crate::stats::sum_measurements(&money);
    let sum_s = crate::stats::sum_measurements(&succ);
    let sum_f = crate::stats::sum_measurements(&fails);
    let sum_a = crate::stats::sum_measurements(&atts);
    let sorted_t = crate::stats::sort_u64(&times);
    let sorted_m = crate::stats::sort_u64(&money);
    let lo_t = crate::stats::sum_range(&sorted_t, 0, k);
    let hi_t = crate::stats::sum_range(&sorted_t, n - k, n);
    let lo_m = crate::stats::sum_range(&sorted_m, 0, k);
    let hi_m = crate::stats::sum_range(&sorted_m, n - k, n);
    proof {
        crate::stats::lemma_sum64_bounds(times@);
        crate::stats::lemma_sum64_bounds(money@);
        crate::stats::lemma_sum64_bounds(succ@);
        crate::stats::lemma_sum64_bounds(fails@);
        crate::stats::lemma_sum64_bounds(atts@);
        crate::stats::lemma_sum64_bounds(sorted_t@.subrange(0, k as int));
        crate::stats::lemma_sum64_bounds(sorted_t@.subrange(n - k, n as int));
        crate::stats::lemma_sum64_bounds(sorted_m@.subrange(0, k as int));
        crate::stats::lemma_sum64_bounds(sorted_m@.subrange(n - k, n as int));
    }
    let mean_t = crate::stats::mean_floor(sum_t, n);
    let hi_mean_t = crate::stats::mean_floor(hi_t, k);
    let lo_mean_t = crate::stats::mean_floor(lo_t, k);
    let mean_m_h = crate::stats::mean_hundredths_exec(sum_m, n);
    let hi_m_h = crate::stats::mean_hundredths_exec(hi_m, k);
    let lo_m_h = crate::stats::mean_hundredths_exec(lo_m, k);
    let mean_s_h = crate::stats::mean_hundredths_exec(sum_s, n);
    let mean_f_h = crate::stats::mean_hundredths_exec(sum_f, n);
    let mean_a_h = crate::stats::mean_hundredths_exec(sum_a, n);
    let mut s = String::new();
    s.append("Mean time: ");
    let piece = crate::text::format_duration_as_hms(mean_t);
    s.append(piece.as_str());
    s.append("\nMax mean time: ");
    let piece = crate::text::format_duration_as_hms(hi_mean_t);
    s.append(piece.as_str());
    s.append("\nMin mean time: ");
    let piece = crate::text::format_duration_as_hms(lo_mean_t);
    s.append(piece.as_str());
    s.append("\n--------------------\nMean money earned: ");
    crate::text::push_two_dec(&mut s, mean_m_h);
    s.append("\nMax money earned: ");
    crate::text::push_two_dec(&mut s, hi_m_h);
    s.append("\nMin money earned: ");
    crate::text::push_two_dec(&mut s, lo_m_h);
    s.append("\n--------------------\nSuccess thieving: ");
    crate::text::push_two_dec(&mut s, mean_s_h);
    s.append("\nFailed thieving: ");
    crate::text::push_two_dec(&mut s, mean_f_h);
    s.append("\nThieving count: ");
    crate::text::push_two_dec(&mut s, mean_a_h);
    s.append("\n");
    proof {
        assert(s@ =~= spec_thieving_report(results@));
    }
    Result::Ok(s)
}

} // verus!
