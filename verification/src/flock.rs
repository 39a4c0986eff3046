//! Le troupeau : un pet principal et ses enfants, chacun à sa cadence.

use vstd::prelude::*;
use std::sync::Arc;
use crate::context::{added, extends, lemma_added_chain, Draw, PetRng};
use crate::geometry::World;
use crate::model::{Child, PetDefinition};
use crate::pet::{
    child_spawned, drawn, fresh_state, pet_ok, share, spawned, tick_step, Pet, PetState, SpriteDraw,
    TickOutcome,
};

verus! {

broadcast use crate::context::group_draw_log;

/// Nombre maximal d'enfants vivants en même temps : évite l'emballement
/// quand une animation fréquente déclare des enfants.
pub const MAX_CHILDREN: usize = 6;

/// Un acteur du troupeau et son échéance (ms restantes avant son tick).
struct Slot {
    pet: Pet,
    due_ms: i64,
}

/// Le pet principal et ses enfants, cadencés indépendamment : chaque acteur
/// respecte l'intervalle de sa propre animation.
pub struct Flock {
    definition: Arc<PetDefinition>,
    tile: (i32, i32),
    /// Index 0 : le pet principal. Ensuite : les enfants.
    actors: Vec<Slot>,
}

/// Le troupeau vu par les contrats : les acteurs et leurs échéances, dans
/// l'ordre (le principal en premier).
pub struct FlockState {
    pub definition: PetDefinition,
    pub tile: (i32, i32),
    pub pets: Seq<PetState>,
    pub due: Seq<i64>,
}

impl View for Flock {
    type V = FlockState;

    closed spec fn view(&self) -> FlockState {
        FlockState {
            definition: *self.definition,
            tile: self.tile,
            pets: self.actors@.map_values(|s: Slot| s.pet@),
            due: self.actors@.map_values(|s: Slot| s.due_ms),
        }
    }
}

/// Le troupeau est bien formé : le principal est là, en tête, et n'est pas
/// un enfant, les autres en sont ; au plus `MAX_CHILDREN` enfants ; chaque pet est bien formé et
/// son échéance n'est pas négative.
pub open spec fn flock_ok(s: FlockState) -> bool {
    &&& s.pets.len() == s.due.len()
    &&& 1 <= s.pets.len() <= 1 + MAX_CHILDREN
    &&& !s.pets[0].is_child
    &&& forall|k: int| 1 <= k < s.pets.len() ==> (#[trigger] s.pets[k]).is_child
    &&& forall|k: int|
        #![trigger s.pets[k]]
        #![trigger s.due[k]]
        0 <= k < s.pets.len() ==> pet_ok(s.pets[k]) && s.due[k] >= 0
}

/// Les enfants déclarés pour l'animation `id`, dans l'ordre de la définition.
pub open spec fn children_of(def: PetDefinition, id: i32) -> Seq<Child> {
    def.childs@.filter(child_for(id))
}

/// Le `<child>` est déclaré pour l'animation `id`.
pub open spec fn child_for(id: i32) -> spec_fn(Child) -> bool {
    |c: Child| c.animation_id == id
}

/// `post` est `pre` après l'éclosion des enfants de l'animation `id` : les
/// acteurs existants sont gardés, puis un enfant neuf par `<child>` déclaré,
/// tant que le plafond n'est pas atteint ; chaque enfant a démarré à la
/// position de son `<child>` et son premier tick est dû tout de suite.
/// Les suites de tirages mises bout à bout.
pub open spec fn joined(parts: Seq<Seq<Draw>>) -> Seq<Draw>
    decreases parts.len(),
{
    if parts.len() == 0 {
        Seq::empty()
    } else {
        joined(parts.drop_last()) + parts.last()
    }
}

/// `post` est `pre` après l'éclosion des enfants de l'animation `id`, avec
/// les tirages `ds` : ceux de chaque enfant, dans l'ordre de naissance.
pub open spec fn hatched(pre: FlockState, post: FlockState, id: i32, world: World, ds: Seq<Draw>) -> bool {
    exists|parts: Seq<Seq<Draw>>| #[trigger] joined(parts) == ds && hatched_with(pre, post, id, world, parts)
}

pub open spec fn hatched_with(pre: FlockState, post: FlockState, id: i32, world: World, parts: Seq<Seq<Draw>>) -> bool {
    let kids = children_of(pre.definition, id);
    let n = pre.pets.len();
    let m = if n + kids.len() <= 1 + MAX_CHILDREN {
        n + kids.len()
    } else {
        (1 + MAX_CHILDREN) as nat
    };
    &&& post.definition == pre.definition
    &&& post.tile == pre.tile
    &&& post.pets.len() == m
    &&& post.pets.take(n as int) == pre.pets
    &&& post.due.take(n as int) == pre.due
    &&& parts.len() == m - n
    &&& forall|k: int|
        n <= k < m ==> post.due[k] == 0 && child_spawned(
            fresh_state(pre.definition, pre.tile, world),
            #[trigger] post.pets[k],
            kids[k - n],
            world,
            parts[k - n],
        )
}

/// Parcours des acteurs pendant `advance` : le troupeau, les enfants
/// annoncés, l'index de l'acteur suivant, le journal des tirages.
pub struct Sweep {
    pub flock: FlockState,
    pub births: Seq<i32>,
    pub index: int,
    pub drawn: Seq<Draw>,
}

/// Échéance d'un acteur qui vient d'avancer : l'intervalle de sa frame, au
/// moins 1 ms.
pub open spec fn due_of(p: PetState) -> i64 {
    if p.interval > 1 {
        p.interval as i64
    } else {
        1
    }
}

/// Suite du parcours après le pas `post`, d'issue `r`, de l'acteur courant,
/// avec les tirages `rest` : ses enfants annoncés sont relevés, son échéance
/// est son intervalle ; un enfant fini disparaît ; un principal sans suite
/// réapparaît seul (ses tirages sont ceux de l'apparition) ; sinon on passe
/// à l'acteur suivant.
pub open spec fn after_tick(s: Sweep, t: Sweep, post: PetState, r: TickOutcome, world: World, rest: Seq<Draw>) -> bool {
    let i = s.index;
    let f = s.flock;
    let f1 = FlockState {
        pets: f.pets.update(i, PetState { pending_children: Seq::empty(), ..post }),
        due: f.due.update(i, due_of(post)),
        ..f
    };
    let births = s.births + post.pending_children;
    match r {
        TickOutcome::Close => t == Sweep {
            flock: FlockState { pets: f1.pets.remove(i), due: f1.due.remove(i), ..f1 },
            births,
            index: i,
            drawn: t.drawn,
        } && rest.len() == 0,
        TickOutcome::Respawn => {
            &&& t.births == births
            &&& t.index == i + 1
            &&& t.flock.definition == f.definition
            &&& t.flock.tile == f.tile
            &&& t.flock.pets.len() == 1
            &&& t.flock.due == seq![0i64]
            &&& spawned(f1.pets[0], t.flock.pets[0], world, rest)
        },
        TickOutcome::Continue => t == Sweep { flock: f1, births, index: i + 1, drawn: t.drawn } && rest.len() == 0,
    }
}

/// Un pas du parcours : l'échéance de l'acteur courant recule de `elapsed` ;
/// s'il n'est pas dû, on passe au suivant, sinon il avance d'un pas.
pub open spec fn sweep_step(s: Sweep, t: Sweep, world: World, elapsed: i64) -> bool {
    let i = s.index;
    let d = s.flock.due[i] - elapsed;
    if d > 0 {
        t == Sweep {
            flock: FlockState { due: s.flock.due.update(i, d as i64), ..s.flock },
            births: s.births,
            index: i + 1,
            drawn: s.drawn,
        }
    } else {
        let ds = added(s.drawn, t.drawn);
        extends(s.drawn, t.drawn) && exists|post: PetState, r: TickOutcome, n: int|
            0 <= n <= ds.len() && #[trigger] tick_step(s.flock.pets[i], post, world, r, ds.take(n)) && after_tick(
                s,
                t,
                post,
                r,
                world,
                ds.skip(n),
            )
    }
}

/// `sweep` est le parcours des acteurs de `pre`, jusqu'au dernier, puis
/// `stages` les éclosions des enfants annoncés, dans l'ordre, jusqu'à
/// `post` ; `logs` est le journal des tirages après chaque éclosion, de
/// `before` à `after`.
pub open spec fn advance_trace(
    pre: FlockState,
    post: FlockState,
    world: World,
    elapsed: i64,
    before: Seq<Draw>,
    after: Seq<Draw>,
    sweep: Seq<Sweep>,
    stages: Seq<FlockState>,
    logs: Seq<Seq<Draw>>,
) -> bool {
    &&& sweep.len() >= 1
    &&& sweep[0] == Sweep { flock: pre, births: Seq::empty(), index: 0, drawn: before }
    &&& forall|k: int|
        0 <= k < sweep.len() - 1 ==> (#[trigger] sweep[k]).index < sweep[k].flock.pets.len()
            && sweep_step(sweep[k], sweep[k + 1], world, elapsed)
    &&& sweep.last().index >= sweep.last().flock.pets.len()
    &&& stages.len() == sweep.last().births.len() + 1
    &&& stages[0] == sweep.last().flock
    &&& logs.len() == stages.len()
    &&& logs[0] == sweep.last().drawn
    &&& forall|k: int|
        0 <= k < stages.len() - 1 ==> extends(logs[k], logs[k + 1]) && hatched(
            #[trigger] stages[k],
            stages[k + 1],
            sweep.last().births[k],
            world,
            added(logs[k], logs[k + 1]),
        )
    &&& post == stages.last()
    &&& logs.last() == after
}

/// `post` est `pre` après `elapsed` millisecondes, le journal des tirages
/// passant de `before` à `after`.
pub open spec fn advanced(
    pre: FlockState,
    post: FlockState,
    world: World,
    elapsed: i64,
    before: Seq<Draw>,
    after: Seq<Draw>,
) -> bool {
    exists|sweep: Seq<Sweep>, stages: Seq<FlockState>, logs: Seq<Seq<Draw>>|
        #[trigger] advance_trace(pre, post, world, elapsed, before, after, sweep, stages, logs)
}

/// Aucun acteur n'arrive à échéance pendant `elapsed` millisecondes.
pub open spec fn quiet(s: FlockState, elapsed: i64) -> bool {
    forall|k: int| 0 <= k < s.due.len() ==> #[trigger] s.due[k] - elapsed > 0
}

/// La plus proche échéance, s'il y a des acteurs.
pub open spec fn earliest(due: Seq<i64>) -> Option<i64>
    decreases due.len(),
{
    if due.len() == 0 {
        None
    } else {
        match earliest(due.drop_last()) {
            None => Some(due.last()),
            Some(m) => Some(if due.last() < m { due.last() } else { m }),
        }
    }
}

/// Délai avant la prochaine échéance : la plus proche (100 ms sans acteur),
/// au moins 1 ms.
pub open spec fn next_wait(due: Seq<i64>) -> i64 {
    let m = match earliest(due) {
        Some(m) => m,
        None => 100,
    };
    if m > 1 {
        m
    } else {
        1
    }
}

/// Le préfixe de longueur `i` filtré est un préfixe du filtrage complet.
proof fn lemma_filter_prefix<A>(s: Seq<A>, p: spec_fn(A) -> bool, i: int)
    requires
        0 <= i <= s.len(),
    ensures
        s.take(i).filter(p).len() <= s.filter(p).len(),
        forall|j: int| 0 <= j < s.take(i).filter(p).len() ==> s.take(i).filter(p)[j] == s.filter(p)[j],
    decreases s.len(),
{
    if i < s.len() {
        lemma_filter_prefix(s.drop_last(), p, i);
        assert(s.drop_last().take(i) =~= s.take(i));
        reveal(Seq::filter);
    } else {
        assert(s.take(i) =~= s);
    }
}

/// Les bornes du troupeau : jamais vide, jamais plus de `MAX_CHILDREN`
/// enfants, le principal en tête.
pub proof fn lemma_flock_population(s: FlockState)
    requires
        flock_ok(s),
    ensures
        1 <= s.pets.len() <= 1 + MAX_CHILDREN,
        !s.pets[0].is_child,
{
}

/// Un acteur dû avance d'un pas : c'est un pas du parcours.
proof fn lemma_sweep_due(s: Sweep, t: Sweep, world: World, elapsed: i64, post: PetState, r: TickOutcome, n: int)
    requires
        s.flock.due[s.index] - elapsed <= 0,
        extends(s.drawn, t.drawn),
        0 <= n <= added(s.drawn, t.drawn).len(),
        tick_step(s.flock.pets[s.index], post, world, r, added(s.drawn, t.drawn).take(n)),
        after_tick(s, t, post, r, world, added(s.drawn, t.drawn).skip(n)),
    ensures
        sweep_step(s, t, world, elapsed),
{
}

impl Flock {
    pub fn new(definition: Arc<PetDefinition>, tile: (i32, i32), world: &World) -> (r: Self)
        ensures
            flock_ok(r@),
            r@.definition == *definition,
            r@.tile == tile,
            r@.pets == seq![fresh_state(*definition, tile, *world)],
            r@.due == seq![0i64],
    {
        let pet = Pet::new(share(&definition), tile, world);
        let mut actors: Vec<Slot> = Vec::new();
        actors.push(Slot { pet, due_ms: 0 });
        let r = Flock { definition, tile, actors };
        proof {
            assert(r@.pets =~= seq![fresh_state(*r.definition, tile, *world)]);
            assert(r@.due =~= seq![0i64]);
        }
        r
    }

    /// (Ré)apparition du pet principal ; les enfants sont congédiés.
    pub fn spawn<R: PetRng>(&mut self, world: &World, rng: &mut R)
        requires
            flock_ok(old(self)@),
        ensures
            flock_ok(final(self)@),
            final(self)@.definition == old(self)@.definition,
            final(self)@.tile == old(self)@.tile,
            final(self)@.pets.len() == 1,
            final(self)@.due == seq![0i64],
            extends(old(rng).drawn(), final(rng).drawn()),
            spawned(old(self)@.pets[0], final(self)@.pets[0], *world, added(old(rng).drawn(), final(rng).drawn())),
    {
        let ghost pre = self@;
        self.actors.truncate(1);
        proof {
            assert(self.actors@[0].pet@ == pre.pets[0]);
        }
        let main = &mut self.actors[0];
        main.pet.spawn(world, rng);
        main.due_ms = 0;
        proof {
            assert(self@.due =~= seq![0i64]);
        }
    }

    /// Fait passer `elapsed_ms` millisecondes : les acteurs arrivés à
    /// échéance avancent d'un pas, les enfants finis disparaissent, les
    /// enfants annoncés naissent.
    #[verifier::rlimit(100)]
    #[verifier::spinoff_prover]
    pub fn advance<R: PetRng>(&mut self, world: &World, rng: &mut R, elapsed_ms: i64)
        requires
            flock_ok(old(self)@),
            elapsed_ms >= 0 || forall|k: int|
                0 <= k < old(self)@.due.len() ==> #[trigger] old(self)@.due[k] - elapsed_ms <= i64::MAX,
        ensures
            flock_ok(final(self)@),
            final(self)@.definition == old(self)@.definition,
            final(self)@.tile == old(self)@.tile,
            extends(old(rng).drawn(), final(rng).drawn()),
            advanced(old(self)@, final(self)@, *world, elapsed_ms, old(rng).drawn(), final(rng).drawn()),
            quiet(old(self)@, elapsed_ms) ==> final(self)@ == (FlockState {
                due: old(self)@.due.map_values(|d: i64| (d - elapsed_ms) as i64),
                ..old(self)@
            }),
    {
        let ghost pre = self@;
        let ghost calm = quiet(pre, elapsed_ms);
        proof {
            assert forall|k: int| 0 <= k < pre.due.len() implies #[trigger] pre.due[k] - elapsed_ms <= i64::MAX by {
                if elapsed_ms >= 0 {
                    assert(pre.due[k] >= 0);
                }
            }
        }
        let mut births: Vec<i32> = Vec::new();
        let mut index: usize = 0;
        let ghost l0 = rng.drawn();
        let ghost mut trace: Seq<Sweep> = seq![Sweep { flock: pre, births: Seq::empty(), index: 0, drawn: l0 }];
        proof {
            assert(l0.take(l0.len() as int) =~= l0);
        }
        while index < self.actors.len()
            invariant
                trace.len() >= 1,
                trace[0] == (Sweep { flock: pre, births: Seq::empty(), index: 0, drawn: l0 }),
                l0 == old(rng).drawn(),
                extends(l0, rng.drawn()),
                forall|k: int|
                    0 <= k < trace.len() - 1 ==> (#[trigger] trace[k]).index < trace[k].flock.pets.len()
                        && sweep_step(trace[k], trace[k + 1], *world, elapsed_ms),
                trace.last() == (Sweep { flock: self@, births: births@, index: index as int, drawn: rng.drawn() }),
                self@.definition == pre.definition,
                self@.tile == pre.tile,
                self@.pets.len() == self@.due.len(),
                1 <= self@.pets.len() <= 1 + MAX_CHILDREN,
                !self@.pets[0].is_child,
                forall|k: int| 1 <= k < self@.pets.len() ==> (#[trigger] self@.pets[k]).is_child,
                forall|k: int| 0 <= k < self@.pets.len() ==> pet_ok(#[trigger] self@.pets[k]),
                index <= self@.pets.len(),
                calm == quiet(pre, elapsed_ms),
                forall|k: int| 0 <= k < self@.due.len() ==> #[trigger] self@.due[k] >= 0,
                forall|k: int|
                    index <= k < self@.due.len() ==> #[trigger] self@.due[k] - elapsed_ms <= i64::MAX,
                calm ==> births@.len() == 0 && self@.pets == pre.pets && self@.due.len() == pre.due.len(),
                calm ==> forall|k: int|
                    0 <= k < pre.due.len() ==> #[trigger] self@.due[k] == (if k < index {
                        pre.due[k] - elapsed_ms
                    } else {
                        pre.due[k] as int
                    }),
            decreases self@.pets.len() - index,
        {
            let ghost before = self@;
            let ghost actors_before = self.actors@;
            proof {
                assert(self@.due[index as int] == self.actors@[index as int].due_ms);
                assert(self@.pets[index as int] == self.actors@[index as int].pet@);
                if calm {
                    assert(pre.due[index as int] - elapsed_ms > 0);
                }
            }
            let slot = &mut self.actors[index];
            slot.due_ms = slot.due_ms - elapsed_ms;
            if slot.due_ms > 0 {
                proof {
                    assert(self@.pets =~= before.pets);
                    assert forall|k: int| 0 <= k < self@.due.len() implies #[trigger] self@.due[k] == (
                    if k == index {
                        before.due[k] - elapsed_ms
                    } else {
                        before.due[k] as int
                    }) by {}
                    let next = Sweep { flock: self@, births: births@, index: index + 1, drawn: rng.drawn() };
                    assert(self@.due =~= before.due.update(index as int, (before.due[index as int] - elapsed_ms) as i64));
                    assert(sweep_step(trace.last(), next, *world, elapsed_ms));
                    trace = trace.push(next);
                }
                index = index + 1;
                continue;
            }
            let ghost la = rng.drawn();
            let outcome = slot.pet.tick(world, rng);
            let ghost lb = rng.drawn();
            let ghost nt = added(la, lb).len() as int;
            let ghost ticked_pet = slot.pet@;
            slot.due_ms = slot.pet.interval_ms() as i64;
            let ghost births_before = births@;
            let mut kids = slot.pet.pending_children();
            births.append(&mut kids);
            proof {
                assert(!calm);
                assert(self.actors@.len() == actors_before.len());
                assert forall|k: int|
                    #![trigger self@.pets[k]]
                    #![trigger self@.due[k]]
                    0 <= k < self@.pets.len() implies pet_ok(self@.pets[k])
                    && self@.due[k] >= 0 && (k >= 1 ==> self@.pets[k].is_child) by {
                    assert(self@.pets[k] == self.actors@[k].pet@);
                    assert(self@.due[k] == self.actors@[k].due_ms);
                    if k != index {
                        assert(self.actors@[k] == actors_before[k]);
                        assert(self@.pets[k] == before.pets[k]);
                        assert(self@.due[k] == before.due[k]);
                    }
                }
                assert(self@.pets[0].is_child == before.pets[0].is_child);
                assert(tick_step(before.pets[index as int], ticked_pet, *world, outcome, added(la, lb)));
                lemma_added_chain(l0, la, lb);
                assert(self@.pets =~= before.pets.update(
                    index as int,
                    PetState { pending_children: Seq::empty(), ..ticked_pet },
                ));
                assert(self@.due =~= before.due.update(index as int, due_of(ticked_pet)));
                assert(births@ == births_before + ticked_pet.pending_children);
            }
            let ghost f1 = self@;
            match outcome {
                TickOutcome::Close => {
                    // Un enfant fini disparaît ; le principal n'est pas un enfant.
                    let ghost mid = self@;
                    self.actors.remove(index);
                    proof {
                        assert(index != 0);
                        assert forall|k: int|
                            #![trigger self@.pets[k]]
                            #![trigger self@.due[k]]
                            0 <= k < self@.pets.len() implies self@.pets[k]
                            == mid.pets[if k < index {
                            k
                        } else {
                            k + 1
                        }] && self@.due[k] == mid.due[if k < index {
                            k
                        } else {
                            k + 1
                        }] by {}
                        assert(self@.pets =~= mid.pets.remove(index as int));
                        assert(self@.due =~= mid.due.remove(index as int));
                        let next = Sweep { flock: self@, births: births@, index: index as int, drawn: rng.drawn() };
                        let ds = added(la, rng.drawn());
                        assert(ds.take(nt) =~= ds);
                        assert(ds.skip(nt) =~= Seq::<Draw>::empty());
                        assert(after_tick(trace.last(), next, ticked_pet, outcome, *world, ds.skip(nt)));
                        lemma_sweep_due(trace.last(), next, *world, elapsed_ms, ticked_pet, outcome, nt);
                        trace = trace.push(next);
                    }
                },
                TickOutcome::Respawn => {
                    // Seul le principal réapparaît ; il repart seul.
                    self.spawn(world, rng);
                    index = index + 1;
                    proof {
                        let lc = rng.drawn();
                        lemma_added_chain(la, lb, lc);
                        lemma_added_chain(l0, lb, lc);
                        let next = Sweep { flock: self@, births: births@, index: index as int, drawn: lc };
                        let ds = added(la, lc);
                        assert(ds.take(nt) =~= added(la, lb));
                        assert(ds.skip(nt) =~= added(lb, lc));
                        assert(after_tick(trace.last(), next, ticked_pet, outcome, *world, ds.skip(nt)));
                        lemma_sweep_due(trace.last(), next, *world, elapsed_ms, ticked_pet, outcome, nt);
                        trace = trace.push(next);
                    }
                },
                TickOutcome::Continue => {
                    index = index + 1;
                    proof {
                        let next = Sweep { flock: self@, births: births@, index: index as int, drawn: rng.drawn() };
                        let ds = added(la, rng.drawn());
                        assert(ds.take(nt) =~= ds);
                        assert(ds.skip(nt) =~= Seq::<Draw>::empty());
                        assert(after_tick(trace.last(), next, ticked_pet, outcome, *world, ds.skip(nt)));
                        lemma_sweep_due(trace.last(), next, *world, elapsed_ms, ticked_pet, outcome, nt);
                        trace = trace.push(next);
                    }
                },
            }
        }
        let ghost mid = self@;
        let ghost mut stages: Seq<FlockState> = seq![mid];
        let ghost lm = rng.drawn();
        let ghost mut logs: Seq<Seq<Draw>> = seq![lm];
        proof {
            assert(lm.take(lm.len() as int) =~= lm);
        }
        let mut i: usize = 0;
        while i < births.len()
            invariant
                flock_ok(self@),
                self@.definition == pre.definition,
                self@.tile == pre.tile,
                i <= births@.len(),
                births@.len() == 0 ==> self@ == mid,
                stages.len() == i + 1,
                stages[0] == mid,
                stages.last() == self@,
                logs.len() == stages.len(),
                logs[0] == lm,
                logs.last() == rng.drawn(),
                l0 == old(rng).drawn(),
                extends(l0, lm),
                extends(lm, rng.drawn()),
                forall|k: int|
                    0 <= k < stages.len() - 1 ==> extends(logs[k], logs[k + 1]) && hatched(
                        #[trigger] stages[k],
                        stages[k + 1],
                        births@[k],
                        *world,
                        added(logs[k], logs[k + 1]),
                    ),
            decreases births@.len() - i,
        {
            let ghost lx = rng.drawn();
            self.hatch(births[i], world, rng);
            i = i + 1;
            proof {
                lemma_added_chain(lm, lx, rng.drawn());
                stages = stages.push(self@);
                logs = logs.push(rng.drawn());
            }
        }
        proof {
            lemma_added_chain(l0, lm, rng.drawn());
            assert(advance_trace(pre, self@, *world, elapsed_ms, l0, rng.drawn(), trace, stages, logs));
            if calm {
                assert(self@.due =~= pre.due.map_values(|d: i64| (d - elapsed_ms) as i64));
            }
        }
    }

    /// Crée les enfants déclarés pour cette animation, dans la limite du
    /// plafond.
    fn hatch<R: PetRng>(&mut self, animation_id: i32, world: &World, rng: &mut R)
        requires
            flock_ok(old(self)@),
        ensures
            flock_ok(final(self)@),
            extends(old(rng).drawn(), final(rng).drawn()),
            hatched(old(self)@, final(self)@, animation_id, *world, added(old(rng).drawn(), final(rng).drawn())),
    {
        let ghost pre = self@;
        let ghost l0 = rng.drawn();
        let ghost mut parts: Seq<Seq<Draw>> = Seq::empty();
        let ghost p = child_for(animation_id);
        let ghost n = pre.pets.len() as int;
        let definition = share(&self.definition);
        let childs = &definition.childs;
        let mut i: usize = 0;
        proof {
            assert(childs@.take(0) =~= Seq::<Child>::empty());
            reveal(Seq::filter);
            assert(childs@.take(0).filter(p) =~= Seq::<Child>::empty());
            assert(self@.pets.take(n) =~= pre.pets);
            assert(self@.due.take(n) =~= pre.due);
            assert(l0.take(l0.len() as int) =~= l0);
            assert(added(l0, l0) =~= joined(parts));
        }
        while i < childs.len()
            invariant
                pre == old(self)@,
                *definition == pre.definition,
                childs@ == pre.definition.childs@,
                p == child_for(animation_id),
                n == pre.pets.len(),
                i <= childs@.len(),
                flock_ok(self@),
                self@.definition == pre.definition,
                self@.tile == pre.tile,
                self@.pets.len() == n + childs@.take(i as int).filter(p).len(),
                self@.pets.take(n) == pre.pets,
                self@.due.take(n) == pre.due,
                l0 == old(rng).drawn(),
                extends(l0, rng.drawn()),
                added(l0, rng.drawn()) == joined(parts),
                parts.len() == self@.pets.len() - n,
                forall|k: int|
                    n <= k < self@.pets.len() ==> self@.due[k] == 0 && child_spawned(
                        fresh_state(pre.definition, pre.tile, *world),
                        #[trigger] self@.pets[k],
                        childs@.take(i as int).filter(p)[k - n],
                        *world,
                        parts[k - n],
                    ),
            decreases childs@.len() - i,
        {
            let ghost before = self@;
            let ghost kids_i = childs@.take(i as int).filter(p);
            proof {
                assert(childs@.take(i + 1) =~= childs@.take(i as int).push(childs@[i as int]));
                childs@.take(i as int).lemma_filter_push(childs@[i as int], p);
            }
            if childs[i].animation_id == animation_id {
                if self.actors.len() > MAX_CHILDREN {
                    proof {
                        lemma_filter_prefix(childs@, p, i as int);
                        lemma_filter_prefix(childs@, p, i + 1);
                        assert(childs@.take(childs@.len() as int) =~= childs@);
                        let kids = children_of(pre.definition, animation_id);
                        assert(kids == childs@.filter(p));
                        assert(childs@.take(i + 1).filter(p) == kids_i.push(childs@[i as int]));
                        assert(kids.len() >= kids_i.len() + 1);
                        assert(self@.pets.len() == 1 + MAX_CHILDREN);
                        assert(n + kids.len() > 1 + MAX_CHILDREN);
                        assert forall|k: int| n <= k < self@.pets.len() implies self@.due[k] == 0
                            && child_spawned(
                            fresh_state(pre.definition, pre.tile, *world),
                            #[trigger] self@.pets[k],
                            children_of(pre.definition, animation_id)[k - n],
                            *world,
                            parts[k - n],
                        ) by {
                            assert(kids_i[k - n] == children_of(pre.definition, animation_id)[k - n]);
                        }
                        assert(hatched_with(pre, self@, animation_id, *world, parts));
                    }
                    return;
                }
                let mut pet = Pet::new(share(&definition), self.tile, world);
                let ghost lx = rng.drawn();
                pet.spawn_child(&childs[i], world, rng);
                proof {
                    let part = added(lx, rng.drawn());
                    lemma_added_chain(l0, lx, rng.drawn());
                    assert(parts.push(part).drop_last() =~= parts);
                    parts = parts.push(part);
                }
                self.actors.push(Slot { pet, due_ms: 0 });
                proof {
                    assert(self@.pets =~= before.pets.push(pet@));
                    assert(self@.due =~= before.due.push(0i64));
                    assert(self@.pets[self@.pets.len() - 1] == pet@);
                    assert(self@.pets.take(n) =~= before.pets.take(n));
                    assert(self@.due.take(n) =~= before.due.take(n));
                    assert forall|k: int| 0 <= k < self@.pets.len() implies pet_ok(#[trigger] self@.pets[k])
                        && self@.due[k] >= 0 by {
                        if k < before.pets.len() {
                            assert(self@.pets[k] == before.pets[k]);
                        }
                    }
                }
            }
            i = i + 1;
        }
        proof {
            assert(childs@.take(childs@.len() as int) =~= childs@);
            lemma_filter_prefix(childs@, p, childs@.len() as int);
            assert(hatched_with(pre, self@, animation_id, *world, parts));
        }
    }

    /// Ce que chaque acteur affiche, le principal en premier.
    pub fn draws(&self) -> (r: Vec<SpriteDraw>)
        ensures
            r@ == self@.pets.map_values(|p: PetState| drawn(p)),
    {
        let mut out: Vec<SpriteDraw> = Vec::new();
        let mut i: usize = 0;
        while i < self.actors.len()
            invariant
                i <= self.actors@.len(),
                out@.len() == i,
                forall|j: int| 0 <= j < i ==> #[trigger] out@[j] == drawn(self@.pets[j]),
            decreases self.actors@.len() - i,
        {
            out.push(self.actors[i].pet.draw());
            i = i + 1;
        }
        proof {
            assert(out@ =~= self@.pets.map_values(|p: PetState| drawn(p)));
        }
        out
    }

    /// Identifiants d'animation courants (diagnostic et simulateur).
    pub fn animation_ids(&self) -> (r: Vec<i32>)
        ensures
            r@ == self@.pets.map_values(|p: PetState| p.animation_id),
    {
        let mut out: Vec<i32> = Vec::new();
        let mut i: usize = 0;
        while i < self.actors.len()
            invariant
                i <= self.actors@.len(),
                out@.len() == i,
                forall|j: int| 0 <= j < i ==> #[trigger] out@[j] == self@.pets[j].animation_id,
            decreases self.actors@.len() - i,
        {
            out.push(self.actors[i].pet.animation_id());
            i = i + 1;
        }
        proof {
            assert(out@ =~= self@.pets.map_values(|p: PetState| p.animation_id));
        }
        out
    }

    /// Les sons tirés par le troupeau depuis le dernier appel (index dans
    /// `definition.sounds`), le principal en premier ; ils sont consommés.
    pub fn take_sounds(&mut self) -> (r: Vec<usize>)
        requires
            flock_ok(old(self)@),
        ensures
            flock_ok(final(self)@),
            r@ == old(self)@.pets.filter_map(|p: PetState| p.pending_sound),
            final(self)@ == (FlockState {
                pets: old(self)@.pets.map_values(|p: PetState| PetState { pending_sound: None, ..p }),
                ..old(self)@
            }),
    {
        let ghost pre = self@;
        let ghost f = |p: PetState| p.pending_sound;
        let mut out: Vec<usize> = Vec::new();
        let mut i: usize = 0;
        proof {
            assert(pre.pets.take(0) =~= Seq::<PetState>::empty());
        }
        while i < self.actors.len()
            invariant
                f == (|p: PetState| p.pending_sound),
                self@.definition == pre.definition,
                self@.tile == pre.tile,
                self@.due == pre.due,
                self@.pets.len() == pre.pets.len(),
                i <= self@.pets.len(),
                forall|j: int|
                    0 <= j < self@.pets.len() ==> #[trigger] self@.pets[j] == (if j < i {
                        PetState { pending_sound: None, ..pre.pets[j] }
                    } else {
                        pre.pets[j]
                    }),
                out@ == pre.pets.take(i as int).filter_map(f),
            decreases self@.pets.len() - i,
        {
            let ghost before = self@;
            proof {
                pre.pets.lemma_filter_map_take_succ(f, i as int);
                assert(self@.pets[i as int] == self.actors@[i as int].pet@);
            }
            let slot = &mut self.actors[i];
            if let Some(s) = slot.pet.take_sound() {
                out.push(s);
            }
            proof {
                assert forall|j: int| 0 <= j < self@.pets.len() implies #[trigger] self@.pets[j] == (
                if j <= i {
                    PetState { pending_sound: None, ..pre.pets[j] }
                } else {
                    pre.pets[j]
                }) by {
                    if j != i {
                        assert(self@.pets[j] == before.pets[j]);
                    }
                }
                assert(self@.due =~= before.due);
            }
            i = i + 1;
        }
        proof {
            assert(pre.pets.take(pre.pets.len() as int) =~= pre.pets);
            assert(self@.pets =~= pre.pets.map_values(|p: PetState| PetState { pending_sound: None, ..p }));
        }
        out
    }

    /// Délai avant la prochaine échéance, en millisecondes (au moins 1).
    pub fn next_wait_ms(&self) -> (r: i64)
        ensures
            r == next_wait(self@.due),
            r >= 1,
            forall|k: int| 0 <= k < self@.due.len() && #[trigger] self@.due[k] >= 1 ==> r <= self@.due[k],
    {
        let mut best: Option<i64> = None;
        let mut i: usize = 0;
        proof {
            assert(self@.due.take(0) =~= Seq::<i64>::empty());
        }
        while i < self.actors.len()
            invariant
                i <= self.actors@.len(),
                self@.due.len() == self.actors@.len(),
                best == earliest(self@.due.take(i as int)),
                best is None <==> i == 0,
                forall|k: int| 0 <= k < i ==> best->0 <= #[trigger] self@.due[k],
            decreases self.actors@.len() - i,
        {
            let d = self.actors[i].due_ms;
            proof {
                assert(d == self@.due[i as int]);
                assert(self@.due.take(i + 1).drop_last() =~= self@.due.take(i as int));
            }
            best = match best {
                None => Some(d),
                Some(m) => Some(
                    if d < m {
                        d
                    } else {
                        m
                    },
                ),
            };
            i = i + 1;
        }
        proof {
            assert(self@.due.take(self@.due.len() as int) =~= self@.due);
        }
        let m = match best {
            Some(m) => m,
            None => 100,
        };
        if m > 1 {
            m
        } else {
            1
        }
    }

    /// Le pet principal, pour le glisser-déposer et les tests.
    pub fn main_pet_mut(&mut self) -> (r: &mut Pet)
        requires
            flock_ok(old(self)@),
        ensures
            r@ == old(self)@.pets[0],
            final(self)@ == (FlockState { pets: old(self)@.pets.update(0, final(r)@), ..old(self)@ }),
    {
        proof {
            assert forall|p: Pet| #![trigger p@] self.actors@.update(0, Slot { pet: p, due_ms: self.actors@[0].due_ms }).map_values(
                |s: Slot| s.pet@,
            ) =~= self@.pets.update(0, p@) && self.actors@.update(
                0,
                Slot { pet: p, due_ms: self.actors@[0].due_ms },
            ).map_values(|s: Slot| s.due_ms) =~= self@.due by {}
        }
        &mut self.actors[0].pet
    }

    /// Nombre d'acteurs vivants (principal compris).
    pub fn len(&self) -> (r: usize)
        ensures
            r == self@.pets.len(),
    {
        self.actors.len()
    }

    /// Jamais vide : le principal est toujours là.
    pub fn is_empty(&self) -> (r: bool)
        requires
            flock_ok(self@),
        ensures
            r == (self@.pets.len() == 0),
    {
        false
    }
}

} // verus!
