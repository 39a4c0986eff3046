//! Tirage de l'animation suivante et du point d'apparition.

use vstd::prelude::*;
use crate::context::PetRng;
use crate::model::{only_allows, NextAnimation, OnlyFlags, Spawn};

verus! {

/// Poids de tirage d'une probabilité : les valeurs négatives comptent pour 0.
pub open spec fn weights(ps: Seq<i32>) -> Seq<int> {
    ps.map_values(|p: i32| if p > 0 { p as int } else { 0 })
}

/// Somme d'une suite.
pub open spec fn sum_of(ws: Seq<int>) -> int
    decreases ws.len(),
{
    if ws.len() == 0 {
        0
    } else {
        sum_of(ws.drop_last()) + ws.last()
    }
}

/// Tirage cumulatif : premier index dont le cumul atteint `draw`, le dernier
/// à défaut.
pub open spec fn pick_index(ws: Seq<int>, draw: int) -> int
    decreases ws.len(),
{
    if ws.len() <= 1 {
        0
    } else if ws[0] >= draw {
        0
    } else {
        1 + pick_index(ws.drop_first(), draw - ws[0])
    }
}

/// Borne haute du tirage : la somme des poids, ramenée dans `[0, i32::MAX]`.
pub open spec fn draw_bound(ws: Seq<int>) -> int {
    let t = sum_of(ws);
    if t < 0 {
        0
    } else if t > i32::MAX {
        i32::MAX as int
    } else {
        t
    }
}

/// Candidates jouables dans le contexte.
pub open spec fn eligible(candidates: Seq<NextAnimation>, context: OnlyFlags) -> Seq<NextAnimation> {
    candidates.filter(|c: NextAnimation| only_allows(c.only, context))
}

pub open spec fn probabilities(cs: Seq<NextAnimation>) -> Seq<i32> {
    cs.map_values(|c: NextAnimation| c.probability)
}

/// Animation choisie parmi les candidates pour un tirage donné : aucune si
/// aucune n'est éligible, la première éligible si tous les poids sont nuls,
/// sinon le tirage cumulatif.
pub open spec fn chosen_next(candidates: Seq<NextAnimation>, context: OnlyFlags, draw: int) -> Option<i32> {
    let e = eligible(candidates, context);
    let ws = weights(probabilities(e));
    if e.len() == 0 {
        None
    } else if sum_of(ws) <= 0 {
        Some(e[0].id)
    } else {
        Some(e[pick_index(ws, draw)].id)
    }
}

pub open spec fn spawn_probabilities(spawns: Seq<Spawn>) -> Seq<i32> {
    spawns.map_values(|s: Spawn| s.probability)
}

/// Point d'apparition choisi pour un tirage donné.
pub open spec fn chosen_spawn(spawns: Seq<Spawn>, draw: int) -> Option<usize> {
    let ws = weights(spawn_probabilities(spawns));
    if spawns.len() == 0 {
        None
    } else if sum_of(ws) <= 0 {
        Some(0)
    } else {
        Some(pick_index(ws, draw) as usize)
    }
}

pub proof fn lemma_pick_index_range(ws: Seq<int>, draw: int)
    requires
        ws.len() >= 1,
    ensures
        0 <= pick_index(ws, draw) < ws.len(),
    decreases ws.len(),
{
    if ws.len() > 1 && ws[0] < draw {
        lemma_pick_index_range(ws.drop_first(), draw - ws[0]);
    }
}

/// Somme des poids.
fn sum_weights(ps: &Vec<i32>) -> (r: i128)
    ensures
        r == sum_of(weights(ps@)),
        r >= 0,
{
    let mut total: i128 = 0;
    let mut i: usize = 0;
    while i < ps.len()
        invariant
            i <= ps@.len(),
            total == sum_of(weights(ps@.take(i as int))),
            0 <= total <= i * 0x8000_0000,
        decreases ps@.len() - i,
    {
        proof {
            assert(weights(ps@.take(i + 1)).drop_last() =~= weights(ps@.take(i as int)));
        }
        let p = ps[i];
        if p > 0 {
            total = total + p as i128;
        }
        i = i + 1;
    }
    proof {
        assert(ps@.take(ps@.len() as int) =~= ps@);
    }
    total
}

/// Premier index dont le cumul des poids atteint `draw`, le dernier à défaut.
fn cumulative_pick(ps: &Vec<i32>, draw: i32) -> (r: usize)
    requires
        ps@.len() >= 1,
    ensures
        r == pick_index(weights(ps@), draw as int),
        r < ps@.len(),
{
    let ghost ws = weights(ps@);
    let mut cumulative: i128 = 0;
    let mut i: usize = 0;
    proof {
        assert(ws.skip(0) =~= ws);
    }
    while i < ps.len() - 1
        invariant
            i < ps@.len(),
            ws == weights(ps@),
            0 <= cumulative <= i * 0x8000_0000,
            pick_index(ws, draw as int) == i + pick_index(ws.skip(i as int), draw - cumulative),
        decreases ps@.len() - i,
    {
        let p = ps[i];
        let w: i128 = if p > 0 {
            p as i128
        } else {
            0
        };
        proof {
            assert(ws.skip(i as int)[0] == w);
            assert(ws.skip(i as int).drop_first() =~= ws.skip(i + 1));
        }
        if cumulative + w >= draw as i128 {
            proof {
                lemma_pick_index_range(ws, draw as int);
            }
            return i;
        }
        cumulative = cumulative + w;
        i = i + 1;
    }
    proof {
        lemma_pick_index_range(ws, draw as int);
        assert(ws.skip(i as int).len() == 1);
    }
    i
}

/// Choisit la prochaine animation parmi les candidates éligibles au contexte,
/// pour un tirage donné.
pub fn pick_next_with(candidates: &[NextAnimation], context: OnlyFlags, draw: i32) -> (r: Option<i32>)
    ensures
        r == chosen_next(candidates@, context, draw as int),
{
    let eligible_list = filter_eligible(candidates, context);
    if eligible_list.len() == 0 {
        return None;
    }
    let ps = probabilities_of(&eligible_list);
    let total = sum_weights(&ps);
    if total <= 0 {
        return Some(eligible_list[0].id);
    }
    let index = cumulative_pick(&ps, draw);
    Some(eligible_list[index].id)
}

fn filter_eligible(candidates: &[NextAnimation], context: OnlyFlags) -> (r: Vec<NextAnimation>)
    ensures
        r@ == eligible(candidates@, context),
{
    let mut out: Vec<NextAnimation> = Vec::new();
    let mut i: usize = 0;
    while i < candidates.len()
        invariant
            i <= candidates@.len(),
            out@ == eligible(candidates@.take(i as int), context),
        decreases candidates@.len() - i,
    {
        proof {
            reveal_with_fuel(Seq::filter, 1);
            assert(candidates@.take(i + 1).drop_last() == candidates@.take(i as int));
        }
        if candidates[i].only.allows(context) {
            out.push(candidates[i]);
        }
        i = i + 1;
    }
    proof {
        assert(candidates@.take(candidates@.len() as int) == candidates@);
    }
    out
}

fn probabilities_of(cs: &Vec<NextAnimation>) -> (r: Vec<i32>)
    ensures
        r@ == probabilities(cs@),
{
    let mut out: Vec<i32> = Vec::new();
    let mut i: usize = 0;
    while i < cs.len()
        invariant
            i <= cs@.len(),
            out@ == probabilities(cs@.take(i as int)),
        decreases cs@.len() - i,
    {
        out.push(cs[i].probability);
        i = i + 1;
        proof {
            assert(probabilities(cs@.take(i as int)) =~= probabilities(cs@.take(i - 1)).push(
                cs@[i - 1].probability,
            ));
        }
    }
    proof {
        assert(cs@.take(cs@.len() as int) == cs@);
    }
    out
}

/// Choisit la prochaine animation parmi les candidates éligibles au contexte.
///
/// Filtre d'abord les candidates dont le drapeau `only` ne correspond pas au
/// contexte courant, puis effectue un tirage pondéré cumulatif sur les poids
/// (`probability`) restants : on tire une valeur dans `[0, somme]` et on
/// retient la première candidate dont le cumul atteint ou dépasse ce tirage.
///
/// Retourne `None` si aucune candidate n'est éligible : le pet principal
/// respawne, un enfant se ferme.
pub fn pick_next<R: PetRng>(candidates: &[NextAnimation], context: OnlyFlags, rng: &mut R) -> (r:
    Option<i32>)
    ensures
        exists|draw: i32|
            0 <= draw <= draw_bound(weights(probabilities(eligible(candidates@, context))))
                && r == chosen_next(candidates@, context, draw as int),
        eligible(candidates@, context).len() == 0 || sum_of(weights(probabilities(eligible(candidates@, context))))
            <= 0 ==> *final(rng) == *old(rng),
        eligible(candidates@, context).len() > 0 && sum_of(weights(probabilities(eligible(candidates@, context)))) > 0
            ==> {
            let bound = draw_bound(weights(probabilities(eligible(candidates@, context)))) as i32;
            &&& final(rng).drawn() == old(rng).drawn().push((0, bound, final(rng).drawn().last().2))
            &&& r == chosen_next(candidates@, context, final(rng).drawn().last().2 as int)
        },
{
    let eligible_list = filter_eligible(candidates, context);
    let ps = probabilities_of(&eligible_list);
    let total = sum_weights(&ps);
    if eligible_list.len() == 0 || total <= 0 {
        let r = pick_next_with(candidates, context, 0);
        return r;
    }
    let bound: i32 = if total > i32::MAX as i128 {
        i32::MAX
    } else {
        total as i32
    };
    let draw = rng.gen_range_i32(0, bound);
    pick_next_with(candidates, context, draw)
}

fn spawn_probabilities_of(spawns: &[Spawn]) -> (r: Vec<i32>)
    ensures
        r@ == spawn_probabilities(spawns@),
{
    let mut out: Vec<i32> = Vec::new();
    let mut i: usize = 0;
    while i < spawns.len()
        invariant
            i <= spawns@.len(),
            out@ == spawn_probabilities(spawns@.take(i as int)),
        decreases spawns@.len() - i,
    {
        out.push(spawns[i].probability);
        i = i + 1;
        proof {
            assert(spawn_probabilities(spawns@.take(i as int)) =~= spawn_probabilities(
                spawns@.take(i - 1),
            ).push(spawns@[i - 1].probability));
        }
    }
    proof {
        assert(spawns@.take(spawns@.len() as int) == spawns@);
    }
    out
}

/// Choisit un point d'apparition pour un tirage donné.
pub fn pick_spawn_with(spawns: &[Spawn], draw: i32) -> (r: Option<usize>)
    ensures
        r == chosen_spawn(spawns@, draw as int),
        r matches Some(i) ==> i < spawns@.len(),
{
    if spawns.len() == 0 {
        return None;
    }
    let ps = spawn_probabilities_of(spawns);
    let total = sum_weights(&ps);
    if total <= 0 {
        return Some(0);
    }
    Some(cumulative_pick(&ps, draw))
}

/// Choisit un point d'apparition, pondéré par les probabilités.
///
/// Même algorithme que `pick_next`, sans filtrage contextuel.
pub fn pick_spawn<R: PetRng>(spawns: &[Spawn], rng: &mut R) -> (r: Option<usize>)
    ensures
        exists|draw: i32|
            0 <= draw <= draw_bound(weights(spawn_probabilities(spawns@))) && r == chosen_spawn(
                spawns@,
                draw as int,
            ),
        r matches Some(i) ==> i < spawns@.len(),
        spawns@.len() == 0 || sum_of(weights(spawn_probabilities(spawns@))) <= 0 ==> *final(rng) == *old(rng),
        spawns@.len() > 0 && sum_of(weights(spawn_probabilities(spawns@))) > 0 ==> {
            let bound = draw_bound(weights(spawn_probabilities(spawns@))) as i32;
            &&& final(rng).drawn() == old(rng).drawn().push((0, bound, final(rng).drawn().last().2))
            &&& r == chosen_spawn(spawns@, final(rng).drawn().last().2 as int)
        },
{
    let ps = spawn_probabilities_of(spawns);
    let total = sum_weights(&ps);
    if spawns.len() == 0 || total <= 0 {
        return pick_spawn_with(spawns, 0);
    }
    let bound: i32 = if total > i32::MAX as i128 {
        i32::MAX
    } else {
        total as i32
    };
    let draw = rng.gen_range_i32(0, bound);
    pick_spawn_with(spawns, draw)
}

/// Le tirage ne retient jamais qu'une candidate jouable dans le contexte :
/// l'identifiant rendu est celui d'une transition dont le drapeau `only`
/// l'autorise, et aucune n'est rendue si aucune ne l'est.
pub proof fn lemma_chosen_is_eligible(candidates: Seq<NextAnimation>, context: OnlyFlags, draw: int)
    ensures
        chosen_next(candidates, context, draw) matches Some(id) ==> exists|i: int|
            0 <= i < candidates.len() && candidates[i].id == id && only_allows(
                candidates[i].only,
                context,
            ),
        chosen_next(candidates, context, draw) is None <==> forall|i: int|
            0 <= i < candidates.len() ==> !only_allows(candidates[i].only, context),
{
    let e = eligible(candidates, context);
    let ws = weights(probabilities(e));
    let pred = |c: NextAnimation| only_allows(c.only, context);
    if e.len() > 0 {
        let k = if sum_of(ws) <= 0 {
            0
        } else {
            lemma_pick_index_range(ws, draw);
            pick_index(ws, draw)
        };
        assert(e.contains(e[k]));
        candidates.lemma_filter_contains_rev(pred, e[k]);
    } else {
        assert forall|i: int| 0 <= i < candidates.len() implies !only_allows(
            candidates[i].only,
            context,
        ) by {
            if only_allows(candidates[i].only, context) {
                candidates.lemma_filter_contains(pred, i);
            }
        }
    }
}


/// Une candidate sans drapeau `only` est jouable dans tout contexte : la
/// liste qui en contient une donne toujours une animation.
pub proof fn lemma_unrestricted_candidate_always_chosen(
    candidates: Seq<NextAnimation>,
    context: OnlyFlags,
    draw: int,
    i: int,
)
    requires
        0 <= i < candidates.len(),
        candidates[i].only == OnlyFlags::NONE,
    ensures
        chosen_next(candidates, context, draw) is Some,
{
    lemma_chosen_is_eligible(candidates, context, draw);
    assert(only_allows(candidates[i].only, context));
}

} // verus!
