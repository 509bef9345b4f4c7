//! The command scheduler: a found route is stamped with absolute ticks and
//! stored as the controlled entity's pending queue, replacing any previous
//! queue (a new click cancels an in-flight path). Each simulation tick the
//! due steps are popped from the front, their entity references translated
//! from local to server ids, and one outgoing command emitted per step.

use vstd::prelude::*;
use crate::components::{ClickEvent, LeftClick, Path, PlayerCommand, Tick};
use crate::mapper::NetworkMapping;
use crate::tile::Tile;

verus! {

/// Ticks between two consecutive scheduled steps. Tunable configuration.
pub const STEP_INTERVAL: u64 = 2;

/// Turn a destination click into a route request for the controlled
/// entity standing at `origin`.
pub fn get_path(event: &ClickEvent, origin: Tile) -> (p: Path)
    ensures
        p.destination == event.destination,
        p.origin == origin,
        p.left_click == event.left_click,
{
    Path { destination: event.destination, origin, left_click: event.left_click }
}

/// The pending queue of one entity: tick-stamped steps, consumed
/// destructively front to back as the mirrored tick advances.
pub struct PathMap {
    pub steps: Vec<(Tick, LeftClick, Tile)>,
}

/// Stamped ticks never decrease along the queue.
pub open spec fn sorted_by_tick(steps: Seq<(Tick, LeftClick, Tile)>) -> bool {
    forall|i: int, j: int|
        0 <= i < j < steps.len() ==> (#[trigger] steps[i]).0.tick <= (#[trigger] steps[j]).0.tick
}

/// How many leading steps are due at tick `now`.
pub open spec fn due_len(steps: Seq<(Tick, LeftClick, Tile)>, now: u64) -> int
    decreases steps.len(),
{
    if steps.len() == 0 || steps[0].0.tick > now {
        0
    } else {
        1 + due_len(steps.drop_first(), now)
    }
}

/// The number of due steps is a well-formed prefix length and cuts the
/// queue into a due part and a not-yet-due part.
pub proof fn lemma_due_len(steps: Seq<(Tick, LeftClick, Tile)>, now: u64)
    requires
        sorted_by_tick(steps),
    ensures
        0 <= due_len(steps, now) <= steps.len(),
        forall|i: int| 0 <= i < due_len(steps, now) ==> (#[trigger] steps[i]).0.tick <= now,
        forall|i: int|
            due_len(steps, now) <= i < steps.len() ==> (#[trigger] steps[i]).0.tick > now,
    decreases steps.len(),
{
    if steps.len() == 0 || steps[0].0.tick > now {
    } else {
        let rest = steps.drop_first();
        assert forall|i: int, j: int|
            0 <= i < j < rest.len() implies (#[trigger] rest[i]).0.tick <= (
        #[trigger] rest[j]).0.tick by {
            assert(steps[i + 1].0.tick <= steps[j + 1].0.tick);
        }
        lemma_due_len(rest, now);
        assert forall|i: int| 0 <= i < due_len(steps, now) implies (#[trigger] steps[i]).0.tick
            <= now by {
            if i > 0 {
                assert(rest[i - 1].0.tick <= now);
            }
        }
        assert forall|i: int|
            due_len(steps, now) <= i < steps.len() implies (#[trigger] steps[i]).0.tick > now by {
            assert(rest[i - 1].0.tick > now);
        }
    }
}

/// One due step against the current id mapping, as a value: the mapping
/// after the step, the command to send (if any) and the local entity to
/// despawn optimistically (if any). An attack, open or pickup target turns
/// from a local id into the server id it maps to; a step whose target no
/// longer resolves is dropped silently. A pickup also takes the picked-up
/// entity's mapping out, both directions, and despawns it locally.
pub open spec fn spec_dispatch_one(
    client: Map<u64, u64>,
    server: Map<u64, u64>,
    action: LeftClick,
    tile: Tile,
) -> (Map<u64, u64>, Map<u64, u64>, Option<PlayerCommand>, Option<u64>) {
    match action {
        LeftClick::Attack(l) => (
            client,
            server,
            if client.contains_key(l) {
                Some(PlayerCommand::LeftClick(LeftClick::Attack(client[l]), tile))
            } else {
                None
            },
            None,
        ),
        LeftClick::Open(l) => (
            client,
            server,
            if client.contains_key(l) {
                Some(PlayerCommand::LeftClick(LeftClick::Open(client[l]), tile))
            } else {
                None
            },
            None,
        ),
        LeftClick::Pickup(target) => match target {
            Some(l) => if client.contains_key(l) {
                (
                    client.remove(l),
                    server.remove(client[l]),
                    Some(PlayerCommand::LeftClick(LeftClick::Pickup(Some(client[l])), tile)),
                    Some(l),
                )
            } else {
                (client, server, None, None)
            },
            None => (client, server, Some(PlayerCommand::LeftClick(action, tile)), None),
        },
        _ => (client, server, Some(PlayerCommand::LeftClick(action, tile)), None),
    }
}

/// Fold `spec_dispatch_one` over a queue of due steps, front to back,
/// collecting the emitted commands and local despawns in order.
pub open spec fn spec_run_steps(
    client: Map<u64, u64>,
    server: Map<u64, u64>,
    steps: Seq<(Tick, LeftClick, Tile)>,
) -> (Map<u64, u64>, Map<u64, u64>, Seq<PlayerCommand>, Seq<u64>)
    decreases steps.len(),
{
    if steps.len() == 0 {
        (client, server, Seq::<PlayerCommand>::empty(), Seq::<u64>::empty())
    } else {
        let (c1, s1, cmd, desp) = spec_dispatch_one(client, server, steps[0].1, steps[0].2);
        let (c2, s2, cmds, desps) = spec_run_steps(c1, s1, steps.drop_first());
        (
            c2,
            s2,
            match cmd {
                Some(c) => seq![c] + cmds,
                None => cmds,
            },
            match desp {
                Some(d) => seq![d] + desps,
                None => desps,
            },
        )
    }
}

/// Translate one step through the mapper, exactly as `spec_dispatch_one`
/// says.
fn dispatch_one(mapping: &mut NetworkMapping, action: LeftClick, tile: Tile) -> (r: (
    Option<PlayerCommand>,
    Option<u64>,
))
    requires
        old(mapping).wf(),
    ensures
        final(mapping).wf(),
        ({
            let (c, s, cmd, desp) = spec_dispatch_one(
                old(mapping).client@,
                old(mapping).server@,
                action,
                tile,
            );
            &&& final(mapping).client@ == c
            &&& final(mapping).server@ == s
            &&& r.0 == cmd
            &&& r.1 == desp
        }),
{
    match action {
        LeftClick::Attack(l) => {
            match mapping.get_server(l) {
                Some(server_entity) => (
                    Some(PlayerCommand::LeftClick(LeftClick::Attack(server_entity), tile)),
                    None,
                ),
                None => (None, None),
            }
        },
        LeftClick::Open(l) => {
            match mapping.get_server(l) {
                Some(server_entity) => (
                    Some(PlayerCommand::LeftClick(LeftClick::Open(server_entity), tile)),
                    None,
                ),
                None => (None, None),
            }
        },
        LeftClick::Pickup(target) => {
            match target {
                Some(l) => {
                    match mapping.remove_by_client(l) {
                        Some(server_entity) => (
                            Some(
                                PlayerCommand::LeftClick(
                                    LeftClick::Pickup(Some(server_entity)),
                                    tile,
                                ),
                            ),
                            Some(l),
                        ),
                        None => (None, None),
                    }
                },
                None => (Some(PlayerCommand::LeftClick(action, tile)), None),
            }
        },
        LeftClick::Walk => (Some(PlayerCommand::LeftClick(action, tile)), None),
        LeftClick::Pull => (Some(PlayerCommand::LeftClick(action, tile)), None),
    }
}

impl PathMap {
    /// An empty queue.
    pub fn new() -> (p: PathMap)
        ensures
            p.steps@ == Seq::<(Tick, LeftClick, Tile)>::empty(),
            sorted_by_tick(p.steps@),
    {
        PathMap { steps: Vec::new() }
    }

    /// Install a found route: step `i` is stamped with the absolute tick
    /// `now + i * interval`, and the resulting queue replaces any previous
    /// queue, whatever it held — new clicks cancel in-flight paths.
    pub fn schedule(
        &mut self,
        route: &Vec<(LeftClick, Tile)>,
        now: Tick,
        interval: u64,
    )
        requires
            now.tick + route@.len() * interval <= u64::MAX,
        ensures
            final(self).steps@.len() == route@.len(),
            forall|i: int|
                0 <= i < route@.len() ==> #[trigger] final(self).steps@[i] == (
                    Tick { tick: (now.tick + i * interval) as u64 },
                    route@[i].0,
                    route@[i].1,
                ),
            sorted_by_tick(final(self).steps@),
    {
        let mut steps: Vec<(Tick, LeftClick, Tile)> = Vec::new();
        let mut i: usize = 0;
        let mut stamp: u64 = now.tick;
        while i < route.len()
            invariant
                i <= route@.len(),
                now.tick + route@.len() * interval <= u64::MAX,
                stamp == now.tick + i * interval,
                stamp + (route@.len() - i) * interval <= u64::MAX,
                steps@.len() == i,
                forall|j: int|
                    0 <= j < i ==> #[trigger] steps@[j] == (
                        Tick { tick: (now.tick + j * interval) as u64 },
                        route@[j].0,
                        route@[j].1,
                    ),
            decreases route@.len() - i,
        {
            let (action, tile) = route[i];
            proof {
                assert((route@.len() - i) * interval == interval + (route@.len() - i - 1)
                    * interval) by (nonlinear_arith);
                assert((i + 1) * interval == i * interval + interval) by (nonlinear_arith);
            }
            steps.push((Tick { tick: stamp }, action, tile));
            stamp = stamp + interval;
            i = i + 1;
        }
        proof {
            assert forall|a: int, b: int|
                0 <= a < b < steps@.len() implies (#[trigger] steps@[a]).0.tick <= (
            #[trigger] steps@[b]).0.tick by {
                assert(steps@[a].0.tick == (now.tick + a * interval) as u64);
                assert(steps@[b].0.tick == (now.tick + b * interval) as u64);
                assert(a * interval <= b * interval && b * interval <= route@.len() * interval)
                    by (nonlinear_arith)
                    requires
                        0 <= a <= b <= route@.len(),
                        interval >= 0,
                ;
                assert(now.tick + b * interval <= u64::MAX);
            }
        }
        self.steps = steps;
    }

    /// Pop every step due at `now` off the front of the queue, translate
    /// each through the id mapper and collect the outgoing commands and
    /// the optimistic local despawns, in step order. The queue keeps
    /// exactly the steps that are not yet due.
    pub fn scheduled_movement(&mut self, game_tick: &Tick, mapping: &mut NetworkMapping) -> (r: (
        Vec<PlayerCommand>,
        Vec<u64>,
    ))
        requires
            old(mapping).wf(),
            sorted_by_tick(old(self).steps@),
        ensures
            final(mapping).wf(),
            sorted_by_tick(final(self).steps@),
            final(self).steps@ == old(self).steps@.subrange(
                due_len(old(self).steps@, game_tick.tick),
                old(self).steps@.len() as int,
            ),
            ({
                let due = old(self).steps@.subrange(0, due_len(old(self).steps@, game_tick.tick));
                let (c, s, cmds, desps) = spec_run_steps(
                    old(mapping).client@,
                    old(mapping).server@,
                    due,
                );
                &&& final(mapping).client@ == c
                &&& final(mapping).server@ == s
                &&& r.0@ == cmds
                &&& r.1@ == desps
            }),
    {
        proof {
            lemma_due_len(old(self).steps@, game_tick.tick);
        }
        let ghost orig = old(self).steps@;
        let ghost due = orig.subrange(0, due_len(orig, game_tick.tick));
        let ghost orig_client = old(mapping).client@;
        let ghost orig_server = old(mapping).server@;
        let mut commands: Vec<PlayerCommand> = Vec::new();
        let mut despawns: Vec<u64> = Vec::new();
        let ghost mut k: int = 0;
        proof {
            assert(due.subrange(0, 0) =~= Seq::<(Tick, LeftClick, Tile)>::empty());
            assert(orig.subrange(0, orig.len() as int) =~= orig);
        }
        while self.steps.len() > 0 && self.steps[0].0.tick <= game_tick.tick
            invariant
                mapping.wf(),
                sorted_by_tick(orig),
                due == orig.subrange(0, due_len(orig, game_tick.tick)),
                0 <= k <= due.len(),
                self.steps@ == orig.subrange(k, orig.len() as int),
                ({
                    let (c, s, cmds, desps) = spec_run_steps(
                        orig_client,
                        orig_server,
                        due.subrange(0, k),
                    );
                    &&& mapping.client@ == c
                    &&& mapping.server@ == s
                    &&& commands@ == cmds
                    &&& despawns@ == desps
                }),
            decreases self.steps@.len(),
        {
            proof {
                lemma_due_len(orig, game_tick.tick);
                assert(self.steps@[0] == orig[k]);
                if k >= due.len() {
                    assert(orig[k].0.tick > game_tick.tick);
                    assert(false);
                }
                assert(due[k] == orig[k]);
            }
            let ghost client_before = mapping.client@;
            let ghost server_before = mapping.server@;
            let ghost commands_before = commands@;
            let ghost despawns_before = despawns@;
            let (_, action, tile) = self.steps.remove(0);
            let (cmd, desp) = dispatch_one(mapping, action, tile);
            match cmd {
                Some(c) => commands.push(c),
                None => {},
            }
            match desp {
                Some(d) => despawns.push(d),
                None => {},
            }
            proof {
                lemma_run_steps_snoc(orig_client, orig_server, due.subrange(0, k), due[k]);
                assert(due.subrange(0, k + 1) =~= due.subrange(0, k).push(due[k]));
                match cmd {
                    Some(c) => {
                        assert(commands@ =~= commands_before + seq![c]);
                    },
                    None => {
                        assert(commands@ =~= commands_before + Seq::<PlayerCommand>::empty());
                    },
                }
                match desp {
                    Some(d) => {
                        assert(despawns@ =~= despawns_before + seq![d]);
                    },
                    None => {
                        assert(despawns@ =~= despawns_before + Seq::<u64>::empty());
                    },
                }
                assert(orig.subrange(k, orig.len() as int).drop_first() =~= orig.subrange(
                    k + 1,
                    orig.len() as int,
                ));
                k = k + 1;
            }
        }
        proof {
            lemma_due_len(orig, game_tick.tick);
            if k < due.len() {
                assert(self.steps@[0] == orig[k]);
                assert(orig[k].0.tick <= game_tick.tick);
                assert(false);
            }
            assert(due.subrange(0, k) =~= due);
        }
        (commands, despawns)
    }
}

/// Folding one more step onto a processed prefix equals processing the
/// extended prefix.
proof fn lemma_run_steps_snoc(
    client: Map<u64, u64>,
    server: Map<u64, u64>,
    steps: Seq<(Tick, LeftClick, Tile)>,
    step: (Tick, LeftClick, Tile),
)
    ensures
        ({
            let (c1, s1, cmds1, desps1) = spec_run_steps(client, server, steps);
            let (c2, s2, cmd, desp) = spec_dispatch_one(c1, s1, step.1, step.2);
            let (c3, s3, cmds3, desps3) = spec_run_steps(client, server, steps.push(step));
            &&& c3 == c2
            &&& s3 == s2
            &&& cmds3 == cmds1 + (match cmd {
                Some(c) => seq![c],
                None => Seq::<PlayerCommand>::empty(),
            })
            &&& desps3 == desps1 + (match desp {
                Some(d) => seq![d],
                None => Seq::<u64>::empty(),
            })
        }),
    decreases steps.len(),
{
    reveal_with_fuel(spec_run_steps, 3);
    if steps.len() == 0 {
        let pushed = steps.push(step);
        assert(pushed[0] == step);
        assert(pushed.len() == 1);
        assert(pushed.drop_first() =~= Seq::<(Tick, LeftClick, Tile)>::empty());
        assert(spec_run_steps(client, server, steps) == (
            client,
            server,
            Seq::<PlayerCommand>::empty(),
            Seq::<u64>::empty(),
        ));
        let (c1, s1, cmd, desp) = spec_dispatch_one(client, server, step.1, step.2);
        match cmd {
            Some(c) => {
                assert(seq![c] + Seq::<PlayerCommand>::empty() =~= Seq::<PlayerCommand>::empty()
                    + seq![c]);
            },
            None => {
                assert(Seq::<PlayerCommand>::empty() + Seq::<PlayerCommand>::empty()
                    =~= Seq::<PlayerCommand>::empty());
            },
        }
        match desp {
            Some(d) => {
                assert(seq![d] + Seq::<u64>::empty() =~= Seq::<u64>::empty() + seq![d]);
            },
            None => {
                assert(Seq::<u64>::empty() + Seq::<u64>::empty() =~= Seq::<u64>::empty());
            },
        }
    } else {
        let pushed = steps.push(step);
        assert(pushed[0] == steps[0]);
        assert(pushed.drop_first() =~= steps.drop_first().push(step));
        let (c1, s1, cmd0, desp0) = spec_dispatch_one(client, server, steps[0].1, steps[0].2);
        lemma_run_steps_snoc(c1, s1, steps.drop_first(), step);
        let (rc, rs, rcmds, rdesps) = spec_run_steps(c1, s1, steps.drop_first());
        let (c2, s2, cmd, desp) = spec_dispatch_one(rc, rs, step.1, step.2);
        match cmd0 {
            Some(c0) => {
                match cmd {
                    Some(c) => {
                        assert((seq![c0] + rcmds) + seq![c] =~= seq![c0] + (rcmds + seq![c]));
                    },
                    None => {
                        assert((seq![c0] + rcmds) + Seq::<PlayerCommand>::empty() =~= seq![c0]
                            + (rcmds + Seq::<PlayerCommand>::empty()));
                    },
                }
            },
            None => {},
        }
        match desp0 {
            Some(d0) => {
                match desp {
                    Some(d) => {
                        assert((seq![d0] + rdesps) + seq![d] =~= seq![d0] + (rdesps + seq![d]));
                    },
                    None => {
                        assert((seq![d0] + rdesps) + Seq::<u64>::empty() =~= seq![d0] + (rdesps
                            + Seq::<u64>::empty()));
                    },
                }
            },
            None => {},
        }
    }
}

} // verus!
