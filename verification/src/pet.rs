//! Le pet : état, physique et enchaînement des animations.

use vstd::prelude::*;
use std::sync::Arc;
use crate::anim_state::{
    frame_at, interpolate_values, interpolated, move_values, pick_frame, sat_i32, steps_count,
    steps_for, values_of, MoveValues, StepValues,
};
use crate::arith::{trunc_div, Ratio};
use crate::context::{added, draw_bounds, draw_values, evaluated, extends, Draw, EvalContext, PetRng};
use crate::geometry::{Rect, World};
use crate::model::{
    first_with_id, first_with_name, Animation, Child, Movement, NextAnimation, OnlyFlags,
    PetDefinition, Sequence, Sound, Spawn,
};
use crate::text::{chars_of, chars_eq};
use crate::transitions::{
    chosen_next, chosen_spawn, draw_bound, eligible, pick_next, pick_spawn, probabilities,
    spawn_probabilities, sum_of, weights,
};
use crate::value::PetValue;

verus! {

broadcast use crate::context::group_draw_log;

/// `Arc::clone` : une seconde référence vers la même valeur.
#[verifier::external_body]
pub fn share<T>(a: &Arc<T>) -> (r: Arc<T>)
    ensures
        *r == **a,
{
    Arc::clone(a)
}

/// Ce que le moteur demande d'afficher pour ce pet, à cet instant.
#[derive(Debug, Clone, Copy, PartialEq)]
pub struct SpriteDraw {
    /// Index de tuile dans le spritesheet.
    pub frame: i32,
    pub x: i32,
    pub y: i32,
    /// Opacité, fraction exacte.
    pub opacity: Ratio,
    /// Le sprite doit être affiché en miroir horizontal.
    pub flipped: bool,
}

/// Ce qu'il faut faire du pet après un tick.
#[derive(Debug, Clone, Copy, PartialEq, Eq, Structural)]
pub enum TickOutcome {
    /// Le pet continue de vivre.
    Continue,
    /// Aucune animation suivante : le pet principal réapparaît.
    Respawn,
    /// Aucune animation suivante : un enfant disparaît.
    Close,
}

/// État complet d'un pet, vu par les contrats.
pub struct PetState {
    pub definition: PetDefinition,
    pub tile_w: i32,
    pub tile_h: i32,
    pub ctx: EvalContext,
    pub animation_id: i32,
    pub step: i32,
    pub total: i32,
    pub position_x: i32,
    pub position_y: i32,
    pub offset_y: i32,
    pub opacity: Ratio,
    pub interval: i32,
    pub frame: i32,
    pub moving_left: bool,
    pub dragging: bool,
    pub drag_x: i32,
    pub drag_y: i32,
    pub on_window: Option<Rect>,
    pub is_child: bool,
    pub pending_children: Seq<i32>,
    pub pending_sound: Option<usize>,
    pub cache: Option<Current>,
}

/// Animation en cours : son index dans la définition et ses expressions
/// évaluées au démarrage.
#[derive(Debug, Clone, Copy, PartialEq)]
pub struct Current {
    pub index: usize,
    pub repeat: i32,
    pub start: MoveValues,
    /// Vaut `start` quand l'animation n'a pas de `<end>`.
    pub end: MoveValues,
}

/// Un pet vivant.
pub struct Pet {
    definition: Arc<PetDefinition>,
    /// Dimensions d'une tuile, en pixels.
    tile_w: i32,
    tile_h: i32,
    ctx: EvalContext,
    animation_id: i32,
    step: i32,
    total: i32,
    position_x: i32,
    position_y: i32,
    offset_y: i32,
    opacity: Ratio,
    interval: i32,
    frame: i32,
    /// Faux quand le pet se déplace vers la droite ; l'axe X est alors nié.
    moving_left: bool,
    dragging: bool,
    drag_x: i32,
    drag_y: i32,
    /// Fenêtre dont le pet arpente le toit. `None` = au sol ou en l'air ;
    /// les bords suivis sont alors ceux de l'écran.
    on_window: Option<Rect>,
    /// Vrai pour un enfant : il se ferme au lieu de réapparaître.
    is_child: bool,
    /// Animations dont les enfants restent à créer.
    pending_children: Vec<i32>,
    /// Son tiré au démarrage de la dernière animation, pas encore joué.
    pending_sound: Option<usize>,
    /// Animation courante, expressions déjà évaluées.
    cache: Option<Current>,
}

/// Le pet est bien formé : l'animation en cours est une animation de sa
/// définition.
pub open spec fn pet_ok(s: PetState) -> bool {
    s.cache matches Some(c) ==> c.index < s.definition.animations@.len()
}

impl View for Pet {
    type V = PetState;

    closed spec fn view(&self) -> PetState {
        PetState {
            definition: *self.definition,
            tile_w: self.tile_w,
            tile_h: self.tile_h,
            ctx: self.ctx,
            animation_id: self.animation_id,
            step: self.step,
            total: self.total,
            position_x: self.position_x,
            position_y: self.position_y,
            offset_y: self.offset_y,
            opacity: self.opacity,
            interval: self.interval,
            frame: self.frame,
            moving_left: self.moving_left,
            dragging: self.dragging,
            drag_x: self.drag_x,
            drag_y: self.drag_y,
            on_window: self.on_window,
            is_child: self.is_child,
            pending_children: self.pending_children@,
            pending_sound: self.pending_sound,
            cache: self.cache,
        }
    }
}

// ---------------------------------------------------------------------------
// Arithmétique saturée
// ---------------------------------------------------------------------------

/// `a + b` saturé sur `i32`.
pub fn add_sat(a: i32, b: i32) -> (r: i32)
    ensures
        r == sat_i32(a + b),
{
    let s: i64 = a as i64 + b as i64;
    if s < i32::MIN as i64 {
        i32::MIN
    } else if s > i32::MAX as i64 {
        i32::MAX
    } else {
        s as i32
    }
}

/// `a - b` saturé sur `i32`.
pub fn sub_sat(a: i32, b: i32) -> (r: i32)
    ensures
        r == sat_i32(a - b),
{
    let s: i64 = a as i64 - b as i64;
    if s < i32::MIN as i64 {
        i32::MIN
    } else if s > i32::MAX as i64 {
        i32::MAX
    } else {
        s as i32
    }
}

/// Saturation d'un `i64` sur `i32`.
pub fn saturate(v: i64) -> (r: i32)
    ensures
        r == sat_i32(v as int),
{
    if v < i32::MIN as i64 {
        i32::MIN
    } else if v > i32::MAX as i64 {
        i32::MAX
    } else {
        v as i32
    }
}

/// Moitié tronquée vers zéro.
pub open spec fn half(v: i32) -> int {
    trunc_div(v as int, 2)
}

// ---------------------------------------------------------------------------
// Contexte et démarrage d'une animation
// ---------------------------------------------------------------------------

/// Contexte d'évaluation mis à jour avec la géométrie courante.
pub open spec fn refreshed(ctx: EvalContext, tile_w: i32, tile_h: i32, world: World) -> EvalContext {
    EvalContext {
        screen_w: world.bounds.w,
        screen_h: world.bounds.h,
        area_w: world.area.w,
        area_h: sat_i32(world.area.y + world.area.h),
        image_w: tile_w,
        image_h: tile_h,
        ..ctx
    }
}

/// Valeurs d'un mouvement dont `x`, `y` et `interval` sont réévalués avec
/// les valeurs de `random` données.
pub open spec fn movement_evaluated(m: Movement, ctx: EvalContext, rs: Seq<i32>) -> MoveValues {
    MoveValues {
        x: evaluated(m.x.compute@, ctx, rs[0], false),
        y: evaluated(m.y.compute@, ctx, rs[1], false),
        interval: evaluated(m.interval.compute@, ctx, rs[2], false),
        ..move_values(m)
    }
}

/// Animation d'index `i` démarrée : `repeat`, puis `x`, `y`, `interval` du
/// début et de la fin sont réévalués (la fin vaut le début en l'absence de
/// `<end>`).
pub open spec fn current_for(a: Animation, i: int, ctx: EvalContext, rs: Seq<i32>) -> Current {
    let start = movement_evaluated(a.start, ctx, rs.subrange(1, 4));
    Current {
        index: i as usize,
        repeat: evaluated(a.sequence.repeat.compute@, ctx, rs[0], false),
        start,
        end: match a.end {
            Some(e) => movement_evaluated(e, ctx, rs.subrange(4, 7)),
            None => start,
        },
    }
}

/// Un enfant est déclaré pour l'animation `id`.
pub open spec fn declares_child(childs: Seq<Child>, id: i32) -> bool {
    exists|i: int| 0 <= i < childs.len() && childs[i].animation_id == id
}

/// Index du premier son associé à l'animation `id`.
pub open spec fn first_sound(sounds: Seq<Sound>, id: i32) -> Option<int> {
    if exists|i: int| 0 <= i < sounds.len() && sounds[i].animation_id == id {
        Some(
            choose|i: int|
                0 <= i < sounds.len() && sounds[i].animation_id == id && forall|j: int|
                    0 <= j < i ==> sounds[j].animation_id != id,
        )
    } else {
        None
    }
}

/// Son tiré au démarrage de l'animation `id` avec le tirage `draw` dans
/// `[0, 100]` : le premier son de l'animation, si `draw < probability`.
pub open spec fn sound_drawn(sounds: Seq<Sound>, id: i32, draw: i32, previous: Option<usize>) -> Option<usize> {
    match first_sound(sounds, id) {
        Some(i) => if draw < sounds[i].probability {
            Some(i as usize)
        } else {
            previous
        },
        None => previous,
    }
}

/// État après le démarrage de l'animation d'index `i` (identifiant `id`),
/// avec les valeurs aléatoires `rs` (sept réévaluations puis le tirage du son).
pub open spec fn started_with(pre: PetState, ctx: EvalContext, i: int, id: i32, rs: Seq<i32>) -> PetState {
    let a = pre.definition.animations@[i];
    let cur = current_for(a, i, ctx, rs);
    PetState {
        ctx,
        total: sat_i32(
            steps_count(a.sequence.frames@.len() as int, a.sequence.repeat_from as int, cur.repeat as int),
        ),
        animation_id: id,
        step: 0,
        interval: if cur.start.interval > 1 {
            cur.start.interval
        } else {
            1
        },
        frame: frame_at(a.sequence.frames@, a.sequence.repeat_from as int, 0),
        pending_children: if declares_child(pre.definition.childs@, id) {
            pre.pending_children.push(id)
        } else {
            pre.pending_children
        },
        pending_sound: sound_drawn(pre.definition.sounds@, id, rs[7], pre.pending_sound),
        cache: Some(cur),
        ..pre
    }
}

/// Nombre de tirages `[0, 100]` des expressions de l'animation `a` :
/// `repeat` et le début, puis la fin si elle est écrite.
pub open spec fn anim_draw_count(a: Animation) -> int {
    if a.end is Some {
        7
    } else {
        4
    }
}

/// Tirages `[0, 100]`.
pub open spec fn percent_bounds(n: int) -> Seq<(i32, i32)> {
    Seq::new(n as nat, |k: int| (0i32, 100i32))
}

/// `post` est l'état de `pre` après le démarrage de l'animation `id`, avec
/// les tirages `ds`, dans l'ordre : le contexte suit la géométrie ; si
/// l'animation existe, `repeat`, le début puis la fin (si elle est écrite)
/// sont réévalués, un tirage chacun, puis le son de l'animation, s'il y en
/// a un, est tiré ; le pas repart de 0, la frame et la durée sont celles du
/// pas 0, les enfants et le son déclarés sont notés.
pub open spec fn started(pre: PetState, post: PetState, id: i32, world: World, ds: Seq<Draw>) -> bool {
    let ctx = refreshed(pre.ctx, pre.tile_w, pre.tile_h, world);
    match first_with_id(pre.definition.animations@, id) {
        None => post == PetState { ctx, ..pre } && ds.len() == 0,
        Some(i) => {
            let a = pre.definition.animations@[i];
            let n = anim_draw_count(a);
            let sound = first_sound(pre.definition.sounds@, id) is Some;
            let total = if sound {
                n + 1
            } else {
                n
            };
            let vs = draw_values(ds);
            let rs = seq![
                vs[0],
                vs[1],
                vs[2],
                vs[3],
                if n == 7 { vs[4] } else { 0i32 },
                if n == 7 { vs[5] } else { 0i32 },
                if n == 7 { vs[6] } else { 0i32 },
                if sound { vs[n] } else { 0i32 },
            ];
            &&& ds.len() == total
            &&& draw_bounds(ds) == percent_bounds(total)
            &&& post == started_with(pre, ctx, i, id, rs)
        },
    }
}

/// Contexte d'une apparition : `randS` tiré, géométrie à jour.
pub open spec fn spawn_ctx(pre: PetState, world: World, rand_spawn: i32) -> EvalContext {
    refreshed(EvalContext { rand_spawn, ..pre.ctx }, pre.tile_w, pre.tile_h, world)
}

/// Position et animation d'apparition : celles du point choisi, ou le point
/// de secours `(0, 0)` vers la première animation (1 à défaut).
pub open spec fn spawn_target(
    def: PetDefinition,
    choice: Option<usize>,
    ctx: EvalContext,
    rx: i32,
    ry: i32,
) -> (int, int, i32) {
    match choice {
        Some(i) => (
            evaluated(def.spawns@[i as int].x.compute@, ctx, rx, false) as int,
            evaluated(def.spawns@[i as int].y.compute@, ctx, ry, false) as int,
            def.spawns@[i as int].next,
        ),
        None => (0, 0, if def.animations@.len() > 0 {
            def.animations@[0].id
        } else {
            1
        }),
    }
}

/// État placé au point d'apparition, juste avant le démarrage de son
/// animation ; la position est le miroir horizontal du point quand le pet est
/// retourné.
pub open spec fn spawned_at(
    pre: PetState,
    world: World,
    rand_spawn: i32,
    choice: Option<usize>,
    rx: i32,
    ry: i32,
) -> PetState {
    let ctx = spawn_ctx(pre, world, rand_spawn);
    let t = spawn_target(pre.definition, choice, ctx, rx, ry);
    PetState {
        ctx,
        position_x: if pre.moving_left {
            sat_i32(world.bounds.x + t.0)
        } else {
            sat_i32(world.bounds.x - (t.0 - world.bounds.w) - pre.tile_w)
        },
        position_y: sat_i32(world.bounds.y + t.1),
        offset_y: 0,
        opacity: Ratio { num: 1, den: 1 },
        on_window: None,
        ..pre
    }
}

/// État d'un enfant placé à la position déclarée par son `<child>`.
pub open spec fn child_placed(
    pre: PetState,
    child: Child,
    world: World,
    rand_spawn: i32,
    rx: i32,
    ry: i32,
) -> PetState {
    let ctx = spawn_ctx(pre, world, rand_spawn);
    PetState {
        is_child: true,
        ctx,
        position_x: sat_i32(world.bounds.x + evaluated(child.x.compute@, ctx, rx, false)),
        position_y: sat_i32(world.bounds.y + evaluated(child.y.compute@, ctx, ry, false)),
        offset_y: 0,
        opacity: Ratio { num: 1, den: 1 },
        on_window: None,
        ..pre
    }
}

/// Le tirage pondéré du point d'apparition a lieu.
pub open spec fn spawn_needs_draw(spawns: Seq<Spawn>) -> bool {
    spawns.len() > 0 && sum_of(weights(spawn_probabilities(spawns))) > 0
}

/// `post` est `pre` apparu avec les tirages `ds`, dans l'ordre : `randS`
/// dans `[10, 90]`, le point pondéré (s'il y a des poids), `random` des
/// deux coordonnées du point (s'il y en a un), puis le démarrage de son
/// animation.
pub open spec fn spawned(pre: PetState, post: PetState, world: World, ds: Seq<Draw>) -> bool {
    let spawns = pre.definition.spawns@;
    let vs = draw_values(ds);
    let pick = spawn_needs_draw(spawns);
    let k1: int = if pick {
        2
    } else {
        1
    };
    let draw = if pick {
        vs[1]
    } else {
        0i32
    };
    let choice = chosen_spawn(spawns, draw as int);
    let k2: int = if choice is Some {
        k1 + 2
    } else {
        k1
    };
    let rx = if choice is Some {
        vs[k1]
    } else {
        0i32
    };
    let ry = if choice is Some {
        vs[k1 + 1]
    } else {
        0i32
    };
    let bounds = seq![(10i32, 90i32)] + (if pick {
        seq![(0i32, draw_bound(weights(spawn_probabilities(spawns))) as i32)]
    } else {
        Seq::empty()
    }) + (if choice is Some {
        percent_bounds(2)
    } else {
        Seq::empty()
    });
    let ctx = spawn_ctx(pre, world, vs[0]);
    &&& ds.len() >= k2
    &&& draw_bounds(ds.take(k2)) == bounds
    &&& started(
        spawned_at(pre, world, vs[0], choice, rx, ry),
        post,
        spawn_target(pre.definition, choice, ctx, rx, ry).2,
        world,
        ds.skip(k2),
    )
}

/// `post` est `pre` apparu comme enfant à la position de `child`, avec les
/// tirages `ds` : `randS` dans `[10, 90]`, `random` des deux coordonnées,
/// puis le démarrage de l'animation `child.next`.
pub open spec fn child_spawned(pre: PetState, post: PetState, child: Child, world: World, ds: Seq<Draw>) -> bool {
    let vs = draw_values(ds);
    &&& ds.len() >= 3
    &&& draw_bounds(ds.take(3)) == seq![(10i32, 90i32)] + percent_bounds(2)
    &&& started(child_placed(pre, child, world, vs[0], vs[1], vs[2]), post, child.next, world, ds.skip(3))
}

/// Démarrage de l'animation réservée `name` si elle existe.
pub open spec fn started_named(pre: PetState, post: PetState, name: Seq<char>, world: World, ds: Seq<Draw>) -> bool {
    match first_with_name(pre.definition.animations@, name) {
        Some(i) => started(pre, post, pre.definition.animations@[i].id, world, ds),
        None => post == pre && ds.len() == 0,
    }
}

/// Ce que le pet affiche dans l'état `p`.
pub open spec fn drawn(p: PetState) -> SpriteDraw {
    SpriteDraw {
        frame: p.frame,
        x: p.position_x,
        y: sat_i32(p.position_y + p.offset_y),
        opacity: p.opacity,
        flipped: !p.moving_left,
    }
}

/// État d'un pet tout juste créé : aucune animation, contexte initial.
pub open spec fn fresh_state(definition: PetDefinition, tile: (i32, i32), world: World) -> PetState {
    PetState {
        definition: definition,
        tile_w: tile.0,
        tile_h: tile.1,
        ctx: EvalContext {
            screen_w: world.bounds.w,
            screen_h: world.bounds.h,
            area_w: world.area.w,
            area_h: sat_i32(world.area.y + world.area.h),
            image_w: tile.0,
            image_h: tile.1,
            image_x: -1i32,
            image_y: -1i32,
            rand_spawn: 50,
            scale: 1,
        },
        animation_id: -1i32,
        step: -1i32,
        total: 0,
        position_x: 0,
        position_y: 0,
        offset_y: 0,
        opacity: Ratio { num: 1, den: 1 },
        interval: 100,
        frame: 0,
        moving_left: true,
        dragging: false,
        drag_x: 0,
        drag_y: 0,
        on_window: None,
        is_child: false,
        pending_children: Seq::empty(),
        pending_sound: None,
        cache: None,
    }
}

// ---------------------------------------------------------------------------
// Un pas de simulation
// ---------------------------------------------------------------------------

/// Demande de tirage : la liste de transitions et le contexte.
pub struct Request {
    pub list: Seq<NextAnimation>,
    pub context: OnlyFlags,
}

/// La demande donne lieu à un tirage : une transition éligible et des
/// poids non tous nuls.
pub open spec fn pick_needs_draw(req: Request) -> bool {
    let e = eligible(req.list, req.context);
    e.len() > 0 && sum_of(weights(probabilities(e))) > 0
}

/// Borne haute du tirage d'une demande.
pub open spec fn pick_bound(req: Request) -> i32 {
    draw_bound(weights(probabilities(eligible(req.list, req.context)))) as i32
}

/// `p` est le résultat de `pick_next` pour la demande, `ds` ses tirages :
/// un tirage dans `[0, borne]` s'il le faut, aucun sinon.
pub open spec fn picked(p: Option<i32>, req: Request, ds: Seq<Draw>) -> bool {
    if pick_needs_draw(req) {
        &&& ds.len() == 1
        &&& ds[0].0 == 0
        &&& ds[0].1 == pick_bound(req)
        &&& p == chosen_next(req.list, req.context, ds[0].2 as int)
    } else {
        ds.len() == 0 && p == chosen_next(req.list, req.context, 0)
    }
}

/// État intermédiaire d'un pas : état du pet, déplacement, animation
/// suivante, sortie anticipée, et tirage demandé par la dernière étape.
pub struct Phase {
    pub st: PetState,
    pub dx: int,
    pub dy: int,
    pub next: Option<i32>,
    /// Sortie anticipée : le déplacement n'est pas appliqué.
    pub exit: Option<TickOutcome>,
    /// Fin de chaîne : le déplacement est appliqué, puis le pet réapparaît
    /// ou se ferme.
    pub end: Option<TickOutcome>,
    pub req: Option<Request>,
}

/// Le résultat `p` de l'étape est celui de sa demande, `ds` ses tirages ;
/// sans demande, ni résultat ni tirage.
pub open spec fn pick_logged(ph: Phase, p: Option<i32>, ds: Seq<Draw>) -> bool {
    match ph.req {
        Some(r) => picked(p, r, ds),
        None => p is None && ds.len() == 0,
    }
}

/// Nombre de tirages de l'étape.
pub open spec fn pick_count(ph: Phase) -> int {
    match ph.req {
        Some(r) => if pick_needs_draw(r) {
            1
        } else {
            0
        },
        None => 0,
    }
}

/// Issue d'un pet qui franchit un bord sans transition éligible.
pub open spec fn offscreen(s: PetState) -> TickOutcome {
    if s.is_child {
        TickOutcome::Close
    } else {
        TickOutcome::Respawn
    }
}

/// Bord bas de la zone de travail moins la hauteur d'une tuile.
pub open spec fn floor_of(s: PetState, w: World) -> int {
    sat_i32(w.area.y + w.area.h - s.tile_h) as int
}

/// Première fenêtre de la liste qui vérifie le prédicat.
pub open spec fn first_window(ws: Seq<Rect>, pred: spec_fn(Rect) -> bool) -> Option<Rect>
    decreases ws.len(),
{
    if ws.len() == 0 {
        None
    } else if pred(ws[0]) {
        Some(ws[0])
    } else {
        first_window(ws.drop_first(), pred)
    }
}

/// Fenêtre atteinte en descente pendant ce pas : pieds au-dessus du toit avant
/// le pas, dessous après, tolérance latérale d'une demi-tuile, et pas trop haut
/// sur l'écran.
pub open spec fn lands_on(s: PetState, w: World, dy: int, r: Rect) -> bool {
    let feet = s.position_y + s.tile_h;
    &&& feet < r.y
    &&& feet + dy >= r.y
    &&& s.position_x >= r.x - half(s.tile_w)
    &&& s.position_x + s.tile_w <= r.x + r.w + half(s.tile_w)
    &&& s.position_y > w.area.y + 20
}

/// Fenêtre encore présente sous les pieds du pet.
pub open spec fn under_feet(s: PetState, r: Rect) -> bool {
    let feet = s.position_y + s.tile_h;
    &&& -3 <= feet - r.y <= 3
    &&& s.position_x + s.tile_w > r.x - half(s.tile_w)
    &&& s.position_x < r.x + r.w + half(s.tile_w)
}

/// Étape 1 : bords gauche et droit, ceux de la fenêtre arpentée ou ceux de la
/// zone de travail.
#[verifier::opaque]
pub open spec fn phase_horizontal(s: PetState, w: World, a: Animation, dx: int, dy: int, p: Option<i32>) -> Phase {
    let stay = Phase { st: s, dx, dy, next: None, exit: None, end: None, req: None };
    match s.on_window {
        Some(r) => {
            let req = Some(Request { list: a.border@, context: OnlyFlags::WINDOW });
            if dx < 0 && s.position_x + dx < r.x {
                match p {
                    Some(id) => Phase { st: PetState { position_x: r.x, ..s }, dx: 0, next: Some(id), req, ..stay },
                    None => Phase { st: PetState { on_window: None, ..s }, req, ..stay },
                }
            } else if dx > 0 && s.position_x + dx + s.tile_w > r.x + r.w {
                match p {
                    Some(id) => Phase {
                        st: PetState { position_x: sat_i32(r.x + r.w - s.tile_w), ..s },
                        dx: 0,
                        next: Some(id),
                        req,
                        ..stay
                    },
                    None => Phase { st: PetState { on_window: None, ..s }, req, ..stay },
                }
            } else {
                stay
            }
        },
        None => {
            let req = Some(Request { list: a.border@, context: OnlyFlags::VERTICAL });
            if dx < 0 && s.position_x + dx < w.area.x {
                match p {
                    Some(id) => Phase { st: PetState { position_x: w.area.x, ..s }, dx: 0, next: Some(id), req, ..stay },
                    None => Phase { exit: Some(offscreen(s)), req, ..stay },
                }
            } else if dx > 0 && s.position_x + dx + s.tile_w > w.area.x + w.area.w {
                match p {
                    Some(id) => Phase {
                        st: PetState { position_x: sat_i32(w.area.x + w.area.w - s.tile_w), ..s },
                        dx: 0,
                        next: Some(id),
                        req,
                        ..stay
                    },
                    None => Phase { exit: Some(offscreen(s)), req, ..stay },
                }
            } else {
                stay
            }
        },
    }
}

/// Étape 2 : atterrissage sur le toit d'une fenêtre pendant une descente.
#[verifier::opaque]
pub open spec fn phase_landing(ph: Phase, w: World, a: Animation, p: Option<i32>) -> Phase {
    let s = ph.st;
    let base = Phase { req: None, ..ph };
    if ph.exit is Some || ph.next is Some || ph.dy <= 0 {
        base
    } else {
        match first_window(w.windows@, |r: Rect| lands_on(s, w, ph.dy, r)) {
            None => base,
            Some(r) => {
                let req = Some(Request { list: a.border@, context: OnlyFlags::WINDOW });
                match p {
                    Some(id) => Phase {
                        st: PetState {
                            position_y: sat_i32(r.y - s.tile_h),
                            offset_y: 0,
                            on_window: Some(r),
                            ..s
                        },
                        dy: 0,
                        next: Some(id),
                        req,
                        ..ph
                    },
                    None => Phase { req, ..ph },
                }
            },
        }
    }
}

/// Étape 3 : sol (barre des tâches) et bord haut de la zone de travail.
#[verifier::opaque]
pub open spec fn phase_vertical(ph: Phase, w: World, a: Animation, p: Option<i32>) -> Phase {
    let s = ph.st;
    let base = Phase { req: None, ..ph };
    let floor = floor_of(s, w);
    if ph.exit is Some || ph.next is Some {
        base
    } else if ph.dy > 0 && s.position_y + ph.dy > floor {
        let req = Some(Request { list: a.border@, context: OnlyFlags::TASKBAR });
        match p {
            Some(id) => Phase {
                st: PetState { position_y: floor as i32, offset_y: 0, ..s },
                dy: 0,
                next: Some(id),
                req,
                ..ph
            },
            None => Phase { exit: Some(offscreen(s)), req, ..ph },
        }
    } else if ph.dy < 0 && s.position_y + ph.dy < w.area.y {
        let req = Some(Request { list: a.border@, context: OnlyFlags::HORIZONTAL });
        match p {
            Some(id) => Phase { st: PetState { position_y: w.area.y, ..s }, dy: 0, next: Some(id), req, ..ph },
            None => Phase { exit: Some(offscreen(s)), req, ..ph },
        }
    } else {
        base
    }
}

/// Étape 4 : gravité, si l'animation y est soumise.
#[verifier::opaque]
pub open spec fn phase_gravity(ph: Phase, w: World, a: Animation, p: Option<i32>) -> Phase {
    let s = ph.st;
    let base = Phase { req: None, ..ph };
    let floor = floor_of(s, w);
    if ph.exit is Some || ph.next is Some || a.gravity@.len() == 0 {
        base
    } else if s.on_window is Some {
        match first_window(w.windows@, |r: Rect| under_feet(s, r)) {
            Some(r) => Phase { st: PetState { on_window: Some(r), ..s }, ..base },
            None => Phase {
                st: PetState { on_window: None, ..s },
                next: p,
                req: Some(Request { list: a.gravity@, context: OnlyFlags::WINDOW }),
                ..ph
            },
        }
    } else if s.position_y + ph.dy < floor {
        if s.position_y + ph.dy + 3 >= floor {
            Phase { dy: floor - s.position_y, ..base }
        } else {
            Phase { next: p, req: Some(Request { list: a.gravity@, context: OnlyFlags::NONE }), ..ph }
        }
    } else {
        base
    }
}

/// Étape 5 : fin de séquence (retournement, animation suivante ou fin de
/// chaîne).
#[verifier::opaque]
pub open spec fn phase_end(ph: Phase, a: Animation, p: Option<i32>) -> Phase {
    let s = ph.st;
    let base = Phase { req: None, ..ph };
    if ph.exit is Some || ph.next is Some || s.step < s.total {
        base
    } else {
        let flipped = a.sequence.action matches Some(t) && t@ == "flip"@;
        let st = PetState { moving_left: if flipped { !s.moving_left } else { s.moving_left }, ..s };
        let req = Some(Request { list: a.sequence.next@, context: OnlyFlags::NONE });
        match p {
            Some(id) => Phase { st, next: Some(id), req, ..ph },
            None => Phase { st, end: Some(offscreen(s)), req, ..ph },
        }
    }
}

/// État au début de l'étape 1 : frame du pas courant, valeurs interpolées.
#[verifier::opaque]
pub open spec fn phase_start(s: PetState, cur: Current, a: Animation) -> Phase {
    let v = interpolated(cur.start, cur.end, s.step as int, s.total as int);
    Phase {
        st: PetState {
            frame: frame_at(a.sequence.frames@, a.sequence.repeat_from as int, s.step as int),
            interval: if v.interval > 1 { v.interval } else { 1 },
            opacity: v.opacity,
            offset_y: v.offset_y,
            ..s
        },
        dx: if s.moving_left { v.x as int } else { -v.x },
        dy: v.y as int,
        next: None,
        exit: None,
        end: None,
        req: None,
    }
}

/// Les cinq étapes d'un pas hors glisser, avec les résultats de tirage donnés.
pub open spec fn phases(s: PetState, w: World, cur: Current, ps: Seq<Option<i32>>) -> Seq<Phase> {
    let a = s.definition.animations@[cur.index as int];
    let p0 = phase_start(s, cur, a);
    let p1 = phase_horizontal(p0.st, w, a, p0.dx, p0.dy, ps[0]);
    let p2 = phase_landing(p1, w, a, ps[1]);
    let p3 = phase_vertical(p2, w, a, ps[2]);
    let p4 = phase_gravity(p3, w, a, ps[3]);
    let p5 = phase_end(p4, a, ps[4]);
    seq![p1, p2, p3, p4, p5]
}

/// Les résultats `ps` des cinq étapes sont ceux de leurs demandes, avec les
/// tirages `ds`, dans l'ordre des étapes.
pub open spec fn picks_logged(s: PetState, w: World, cur: Current, ps: Seq<Option<i32>>, ds: Seq<Draw>) -> bool {
    let phs = phases(s, w, cur, ps);
    let o1 = pick_count(phs[0]);
    let o2 = o1 + pick_count(phs[1]);
    let o3 = o2 + pick_count(phs[2]);
    let o4 = o3 + pick_count(phs[3]);
    let o5 = o4 + pick_count(phs[4]);
    &&& ps.len() == 5
    &&& ds.len() == o5
    &&& pick_logged(phs[0], ps[0], ds.subrange(0, o1))
    &&& pick_logged(phs[1], ps[1], ds.subrange(o1, o2))
    &&& pick_logged(phs[2], ps[2], ds.subrange(o2, o3))
    &&& pick_logged(phs[3], ps[3], ds.subrange(o3, o4))
    &&& pick_logged(phs[4], ps[4], ds.subrange(o4, o5))
}

/// Fin d'un pas : déplacement appliqué, pas suivant (sauf sortie anticipée).
pub open spec fn moved(ph: Phase) -> PetState {
    if ph.exit is Some {
        ph.st
    } else {
        PetState {
            position_x: sat_i32(ph.st.position_x + ph.dx),
            position_y: sat_i32(ph.st.position_y + ph.dy),
            step: sat_i32(ph.st.step + 1),
            ..ph.st
        }
    }
}

/// Issue d'un pas.
pub open spec fn outcome_of(ph: Phase) -> TickOutcome {
    match ph.exit {
        Some(o) => o,
        None => match ph.end {
            Some(o) => o,
            None => TickOutcome::Continue,
        },
    }
}

/// `post` est l'état après le pas `s` (hors glisser) avec les tirages `ps` :
/// le déplacement est appliqué, puis l'animation suivante démarre avec une
/// attente d'une milliseconde.
pub open spec fn ticked(s: PetState, post: PetState, w: World, cur: Current, ps: Seq<Option<i32>>, ds: Seq<Draw>) -> bool {
    let last = phases(s, w, cur, ps)[4];
    let m = moved(last);
    match last.next {
        None => post == m && ds.len() == 0,
        Some(id) => last.exit is None && exists|mid: PetState| started(m, mid, id, w, ds) && post == PetState { interval: 1, ..mid },
    }
}

/// Curseur déplacé en `(x, y)` : pendant le glisser, le pet le suit aussitôt
/// (centré horizontalement, 2 px au-dessus).
pub open spec fn dragged_to(p: PetState, x: i32, y: i32) -> PetState {
    if p.dragging {
        PetState {
            drag_x: x,
            drag_y: y,
            position_x: sat_i32(x - half(p.tile_w)),
            position_y: sat_i32(y - 2),
            ..p
        }
    } else {
        PetState { drag_x: x, drag_y: y, ..p }
    }
}

/// `post` et l'issue `r` sont un pas possible de `pre` dans le monde `w` :
/// sans animation, rien ne bouge ; pendant le glisser, la frame avance et
/// la position suit le curseur ; sinon les cinq étapes de la physique, avec
/// des tirages possibles, puis le déplacement et l'animation suivante.
pub open spec fn tick_step(pre: PetState, post: PetState, w: World, r: TickOutcome, ds: Seq<Draw>) -> bool {
    match pre.cache {
        None => post == pre && r == TickOutcome::Continue && ds.len() == 0,
        Some(cur) => if pre.dragging {
            let a = pre.definition.animations@[cur.index as int];
            &&& r == TickOutcome::Continue
            &&& ds.len() == 0
            &&& post == (PetState {
                frame: frame_at(a.sequence.frames@, a.sequence.repeat_from as int, pre.step as int),
                position_x: sat_i32(pre.drag_x - half(pre.tile_w)),
                position_y: sat_i32(pre.drag_y - 2),
                step: sat_i32(pre.step + 1),
                ..pre
            })
        } else {
            exists|ps: Seq<Option<i32>>, n: int|
                0 <= n <= ds.len() && picks_logged(pre, w, cur, ps, ds.take(n)) && r == outcome_of(
                    phases(pre, w, cur, ps)[4],
                ) && ticked(pre, post, w, cur, ps, ds.skip(n))
        },
    }
}

/// Ce qu'un pas ne change jamais : la définition, les tuiles, le tirage
/// `randS` (figé pour toute la vie du pet), le rôle d'enfant.
pub open spec fn tick_keeps(pre: PetState, post: PetState) -> bool {
    &&& post.definition == pre.definition
    &&& post.tile_w == pre.tile_w
    &&& post.tile_h == pre.tile_h
    &&& post.ctx.rand_spawn == pre.ctx.rand_spawn
    &&& post.ctx.image_x == pre.ctx.image_x
    &&& post.ctx.image_y == pre.ctx.image_y
    &&& post.is_child == pre.is_child
}

proof fn lemma_phases_keep(s: PetState, w: World, cur: Current, ps: Seq<Option<i32>>)
    requires
        ps.len() == 5,
    ensures
        tick_keeps(s, moved(phases(s, w, cur, ps)[4])),
{
    reveal(phase_start);
    reveal(phase_horizontal);
    reveal(phase_landing);
    reveal(phase_vertical);
    reveal(phase_gravity);
    reveal(phase_end);
}

/// Un pas du pet garde sa définition, ses tuiles, son tirage `randS`, sa
/// position de parent et son rôle d'enfant.
pub proof fn lemma_tick_keeps(pre: PetState, post: PetState, w: World, r: TickOutcome, ds: Seq<Draw>)
    requires
        tick_step(pre, post, w, r, ds),
    ensures
        tick_keeps(pre, post),
{
    match pre.cache {
        None => {},
        Some(cur) => {
            if !pre.dragging {
                let (ps, n) = choose|ps: Seq<Option<i32>>, n: int|
                    0 <= n <= ds.len() && picks_logged(pre, w, cur, ps, ds.take(n)) && r == outcome_of(
                        phases(pre, w, cur, ps)[4],
                    ) && ticked(pre, post, w, cur, ps, ds.skip(n));
                lemma_phases_keep(pre, w, cur, ps);
            }
        },
    }
}

/// La demande d'une étape ne dépend pas du résultat de son tirage.
proof fn lemma_reqs_free(
    s: PetState,
    w: World,
    a: Animation,
    dx: int,
    dy: int,
    ph: Phase,
    p: Option<i32>,
    q: Option<i32>,
)
    ensures
        phase_horizontal(s, w, a, dx, dy, p).req == phase_horizontal(s, w, a, dx, dy, q).req,
        phase_landing(ph, w, a, p).req == phase_landing(ph, w, a, q).req,
        phase_vertical(ph, w, a, p).req == phase_vertical(ph, w, a, q).req,
        phase_gravity(ph, w, a, p).req == phase_gravity(ph, w, a, q).req,
        phase_end(ph, a, p).req == phase_end(ph, a, q).req,
{
    reveal(phase_horizontal);
    reveal(phase_landing);
    reveal(phase_vertical);
    reveal(phase_gravity);
    reveal(phase_end);
}

proof fn lemma_pick_unique(ph1: Phase, ph2: Phase, p1: Option<i32>, p2: Option<i32>, d: Seq<Draw>)
    requires
        ph1.req == ph2.req,
        pick_logged(ph1, p1, d),
        pick_logged(ph2, p2, d),
    ensures
        p1 == p2,
{
}

/// Les résultats des cinq étapes sont déterminés par les tirages.
#[verifier::rlimit(60)]
#[verifier::spinoff_prover]
proof fn lemma_picks_unique(
    pre: PetState,
    w: World,
    cur: Current,
    ps1: Seq<Option<i32>>,
    n1: int,
    ps2: Seq<Option<i32>>,
    n2: int,
    ds: Seq<Draw>,
)
    requires
        0 <= n1 <= ds.len(),
        0 <= n2 <= ds.len(),
        picks_logged(pre, w, cur, ps1, ds.take(n1)),
        picks_logged(pre, w, cur, ps2, ds.take(n2)),
    ensures
        ps1 == ps2,
        n1 == n2,
{
    let a = pre.definition.animations@[cur.index as int];
    let p0 = phase_start(pre, cur, a);
    let ph1 = phases(pre, w, cur, ps1);
    let ph2 = phases(pre, w, cur, ps2);
    let d1 = ds.take(n1);
    let d2 = ds.take(n2);
    let o1 = pick_count(ph1[0]);
    assert(ps1[0] == ps2[0] && ph1[0] == ph2[0]) by {
        lemma_reqs_free(p0.st, w, a, p0.dx, p0.dy, ph1[0], ps1[0], ps2[0]);
        assert(d1.subrange(0, o1) =~= d2.subrange(0, o1));
        lemma_pick_unique(ph1[0], ph2[0], ps1[0], ps2[0], d1.subrange(0, o1));
    }
    let o2 = o1 + pick_count(ph1[1]);
    assert(ps1[1] == ps2[1] && ph1[1] == ph2[1]) by {
        lemma_reqs_free(p0.st, w, a, p0.dx, p0.dy, ph1[0], ps1[1], ps2[1]);
        assert(d1.subrange(o1, o2) =~= d2.subrange(o1, o2));
        lemma_pick_unique(ph1[1], ph2[1], ps1[1], ps2[1], d1.subrange(o1, o2));
    }
    let o3 = o2 + pick_count(ph1[2]);
    assert(ps1[2] == ps2[2] && ph1[2] == ph2[2]) by {
        lemma_reqs_free(p0.st, w, a, p0.dx, p0.dy, ph1[1], ps1[2], ps2[2]);
        assert(d1.subrange(o2, o3) =~= d2.subrange(o2, o3));
        lemma_pick_unique(ph1[2], ph2[2], ps1[2], ps2[2], d1.subrange(o2, o3));
    }
    let o4 = o3 + pick_count(ph1[3]);
    assert(ps1[3] == ps2[3] && ph1[3] == ph2[3]) by {
        lemma_reqs_free(p0.st, w, a, p0.dx, p0.dy, ph1[2], ps1[3], ps2[3]);
        assert(d1.subrange(o3, o4) =~= d2.subrange(o3, o4));
        lemma_pick_unique(ph1[3], ph2[3], ps1[3], ps2[3], d1.subrange(o3, o4));
    }
    let o5 = o4 + pick_count(ph1[4]);
    assert(ps1[4] == ps2[4]) by {
        lemma_reqs_free(p0.st, w, a, p0.dx, p0.dy, ph1[3], ps1[4], ps2[4]);
        assert(d1.subrange(o4, o5) =~= d2.subrange(o4, o5));
        lemma_pick_unique(ph1[4], ph2[4], ps1[4], ps2[4], d1.subrange(o4, o5));
    }
    assert(ps1 =~= ps2);
}

/// Un démarrage est déterminé par ses tirages.
pub proof fn lemma_started_determined(pre: PetState, post1: PetState, post2: PetState, id: i32, w: World, ds: Seq<Draw>)
    requires
        started(pre, post1, id, w, ds),
        started(pre, post2, id, w, ds),
    ensures
        post1 == post2,
{
}

/// Une apparition est déterminée par ses tirages.
pub proof fn lemma_spawned_determined(pre: PetState, post1: PetState, post2: PetState, w: World, ds: Seq<Draw>)
    requires
        spawned(pre, post1, w, ds),
        spawned(pre, post2, w, ds),
    ensures
        post1 == post2,
{
}

/// Un pas est déterminé par l'état, le monde et les valeurs tirées : deux
/// pas du même pet qui reçoivent les mêmes tirages aboutissent au même état
/// et à la même issue.
#[verifier::rlimit(100)]
#[verifier::spinoff_prover]
pub proof fn lemma_tick_determined(
    pre: PetState,
    w: World,
    post1: PetState,
    r1: TickOutcome,
    post2: PetState,
    r2: TickOutcome,
    ds: Seq<Draw>,
)
    requires
        tick_step(pre, post1, w, r1, ds),
        tick_step(pre, post2, w, r2, ds),
    ensures
        post1 == post2,
        r1 == r2,
{
    match pre.cache {
        None => {},
        Some(cur) => {
            if !pre.dragging {
                let (ps1, n1) = choose|ps: Seq<Option<i32>>, n: int|
                    0 <= n <= ds.len() && picks_logged(pre, w, cur, ps, ds.take(n)) && r1 == outcome_of(
                        phases(pre, w, cur, ps)[4],
                    ) && ticked(pre, post1, w, cur, ps, ds.skip(n));
                let (ps2, n2) = choose|ps: Seq<Option<i32>>, n: int|
                    0 <= n <= ds.len() && picks_logged(pre, w, cur, ps, ds.take(n)) && r2 == outcome_of(
                        phases(pre, w, cur, ps)[4],
                    ) && ticked(pre, post2, w, cur, ps, ds.skip(n));
                lemma_picks_unique(pre, w, cur, ps1, n1, ps2, n2, ds);
                let ph1 = phases(pre, w, cur, ps1);
                let last = ph1[4];
                match last.next {
                    None => {},
                    Some(id) => {
                        let mid1 = choose|mid: PetState| started(moved(last), mid, id, w, ds.skip(n1)) && post1
                            == PetState { interval: 1, ..mid };
                        let mid2 = choose|mid: PetState| started(moved(last), mid, id, w, ds.skip(n1)) && post2
                            == PetState { interval: 1, ..mid };
                        lemma_started_determined(moved(last), mid1, mid2, id, w, ds.skip(n1));
                    },
                }
            }
        },
    }
}

/// Les tirages de cinq prolongements successifs, découpés par étape.
proof fn lemma_logs_split(l0: Seq<Draw>, l1: Seq<Draw>, l2: Seq<Draw>, l3: Seq<Draw>, l4: Seq<Draw>, l5: Seq<Draw>)
    requires
        extends(l0, l1),
        extends(l1, l2),
        extends(l2, l3),
        extends(l3, l4),
        extends(l4, l5),
    ensures
        extends(l0, l5),
        ({
            let all = added(l0, l5);
            let o1 = added(l0, l1).len() as int;
            let o2 = o1 + added(l1, l2).len();
            let o3 = o2 + added(l2, l3).len();
            let o4 = o3 + added(l3, l4).len();
            &&& all.len() == o4 + added(l4, l5).len()
            &&& all.subrange(0, o1) == added(l0, l1)
            &&& all.subrange(o1, o2) == added(l1, l2)
            &&& all.subrange(o2, o3) == added(l2, l3)
            &&& all.subrange(o3, o4) == added(l3, l4)
            &&& all.subrange(o4, all.len() as int) == added(l4, l5)
        }),
{
    crate::context::lemma_added_chain(l0, l1, l2);
    crate::context::lemma_added_chain(l0, l2, l3);
    crate::context::lemma_added_chain(l0, l3, l4);
    crate::context::lemma_added_chain(l0, l4, l5);
    let d1 = added(l0, l1);
    let d2 = added(l1, l2);
    let d3 = added(l2, l3);
    let d4 = added(l3, l4);
    let d5 = added(l4, l5);
    let all = added(l0, l5);
    assert(all == d1 + d2 + d3 + d4 + d5);
    let o1 = d1.len() as int;
    let o2 = o1 + d2.len();
    let o3 = o2 + d3.len();
    let o4 = o3 + d4.len();
    assert(all.subrange(0, o1) =~= d1);
    assert(all.subrange(o1, o2) =~= d2);
    assert(all.subrange(o2, o3) =~= d3);
    assert(all.subrange(o3, o4) =~= d4);
    assert(all.subrange(o4, all.len() as int) =~= d5);
}

/// Le pet tient dans la zone de travail.
pub open spec fn in_area(s: PetState, w: World) -> bool {
    &&& w.area.x <= s.position_x
    &&& s.position_x <= w.area.x + w.area.w - s.tile_w
    &&& w.area.y <= s.position_y
    &&& s.position_y <= floor_of(s, w)
}

/// Le pas de `s` rencontre un bord latéral de la zone alors que le pet monte
/// ou descend : la transition de bord arrête le déplacement horizontal
/// seulement, et le déplacement vertical n'est plus contrôlé.
pub open spec fn side_hit_moving_vertically(s: PetState, w: World) -> bool {
    match s.cache {
        Some(cur) => {
            let p0 = phase_start(s, cur, s.definition.animations@[cur.index as int]);
            let hit = (p0.dx < 0 && s.position_x + p0.dx < w.area.x) || (p0.dx > 0 && s.position_x + p0.dx
                + s.tile_w > w.area.x + w.area.w);
            hit && p0.dy != 0
        },
        None => false,
    }
}

/// Sans fenêtres et hors glisser, un pas garde le pet dans la zone de
/// travail, sauf quand il rencontre un bord latéral en montant ou en
/// descendant ; il ne monte sur aucune fenêtre et n'est pas saisi.
#[verifier::rlimit(100)]
#[verifier::spinoff_prover]
pub proof fn lemma_tick_stays_in_area(pre: PetState, post: PetState, w: World, r: TickOutcome, ds: Seq<Draw>)
    requires
        tick_step(pre, post, w, r, ds),
        in_area(pre, w),
        !pre.dragging,
        pre.on_window is None,
        w.windows@.len() == 0,
        !side_hit_moving_vertically(pre, w),
    ensures
        in_area(post, w),
        post.on_window is None,
        !post.dragging,
{
    match pre.cache {
        None => {},
        Some(cur) => {
            let (ps, n) = choose|ps: Seq<Option<i32>>, n: int|
                0 <= n <= ds.len() && picks_logged(pre, w, cur, ps, ds.take(n)) && r == outcome_of(
                    phases(pre, w, cur, ps)[4],
                ) && ticked(pre, post, w, cur, ps, ds.skip(n));
            let a = pre.definition.animations@[cur.index as int];
            let p0 = phase_start(pre, cur, a);
            let phs = phases(pre, w, cur, ps);
            reveal(phase_start);
            reveal(phase_horizontal);
            reveal(phase_landing);
            reveal(phase_vertical);
            reveal(phase_gravity);
            reveal(phase_end);
            assert(first_window(w.windows@, |r: Rect| lands_on(phs[0].st, w, phs[0].dy, r)) is None);
            assert(first_window(w.windows@, |r: Rect| under_feet(phs[2].st, r)) is None);
            let last = phs[4];
            let m = moved(last);
            assert(in_area(m, w) && m.on_window is None && !m.dragging);
            match last.next {
                None => {},
                Some(id) => {
                    let mid = choose|mid: PetState| started(m, mid, id, w, ds.skip(n)) && post == PetState {
                        interval: 1,
                        ..mid
                    };
                }
            }
        },
    }
}

/// Sur une fenêtre, l'étape des bords garde le pet au-dessus de la
/// fenêtre : s'il y reste, sa position après le déplacement horizontal est
/// entre les deux bords de la fenêtre (arrêté au bord par une transition,
/// ou sans bord franchi).
pub proof fn lemma_window_edge_holds(s: PetState, w: World, a: Animation, dx: int, dy: int, p: Option<i32>, r: Rect)
    requires
        s.on_window == Some(r),
        r.x <= s.position_x <= r.x + r.w - s.tile_w,
    ensures
        phase_horizontal(s, w, a, dx, dy, p).st.on_window == Some(r) ==> {
            let ph = phase_horizontal(s, w, a, dx, dy, p);
            r.x <= ph.st.position_x + ph.dx <= r.x + r.w - s.tile_w
        },
{
    reveal(phase_horizontal);
}

/// Un pet debout sur le toit d'une fenêtre et au-dessus d'elle, qui y est
/// encore après un pas, est toujours entre les deux bords de cette fenêtre.
#[verifier::rlimit(100)]
#[verifier::spinoff_prover]
pub proof fn lemma_tick_stays_on_window(pre: PetState, post: PetState, w: World, r: TickOutcome, ds: Seq<Draw>, win: Rect)
    requires
        tick_step(pre, post, w, r, ds),
        !pre.dragging,
        pre.on_window == Some(win),
        pre.position_y + pre.tile_h == win.y,
        win.x <= pre.position_x <= win.x + win.w - pre.tile_w,
        post.on_window == Some(win),
    ensures
        win.x <= post.position_x <= win.x + win.w - post.tile_w,
{
    match pre.cache {
        None => {},
        Some(cur) => {
            let (ps, n) = choose|ps: Seq<Option<i32>>, n: int|
                0 <= n <= ds.len() && picks_logged(pre, w, cur, ps, ds.take(n)) && r == outcome_of(
                    phases(pre, w, cur, ps)[4],
                ) && ticked(pre, post, w, cur, ps, ds.skip(n));
            let a = pre.definition.animations@[cur.index as int];
            let phs = phases(pre, w, cur, ps);
            reveal(phase_start);
            reveal(phase_horizontal);
            reveal(phase_landing);
            reveal(phase_vertical);
            reveal(phase_gravity);
            reveal(phase_end);
            let last = phs[4];
            let m = moved(last);
            assert(win.x <= m.position_x <= win.x + win.w - m.tile_w);
            match last.next {
                None => {},
                Some(id) => {
                    let mid = choose|mid: PetState| started(m, mid, id, w, ds.skip(n)) && post == PetState {
                        interval: 1,
                        ..mid
                    };
                }
            }
        },
    }
}

/// Un pet retourné apparaît en miroir : pour le même point et les mêmes
/// tirages, ses positions retourné et non retourné sont symétriques par
/// rapport au milieu de l'écran (hors saturation), à la même hauteur.
pub proof fn lemma_spawn_mirrored(pre: PetState, post_l: PetState, post_r: PetState, w: World, ds: Seq<Draw>)
    requires
        pre.moving_left,
        spawned(pre, post_l, w, ds),
        spawned(PetState { moving_left: false, ..pre }, post_r, w, ds),
        i32::MIN < post_l.position_x < i32::MAX,
        i32::MIN < post_r.position_x < i32::MAX,
    ensures
        post_l.position_x + post_r.position_x + pre.tile_w == 2 * w.bounds.x + w.bounds.w,
        post_l.position_y == post_r.position_y,
{
}

fn copy_frames(v: &Vec<i32>) -> (r: Vec<i32>)
    ensures
        r@ == v@,
{
    let mut out: Vec<i32> = Vec::new();
    let mut i: usize = 0;
    while i < v.len()
        invariant
            i <= v@.len(),
            out@ == v@.take(i as int),
        decreases v@.len() - i,
    {
        out.push(v[i]);
        i = i + 1;
        proof {
            assert(v@.take(i as int) == v@.take(i - 1).push(v@[i - 1]));
        }
    }
    proof {
        assert(v@.take(v@.len() as int) == v@);
    }
    out
}

/// Tirages `[0, 100]` de valeurs `vs`.
pub open spec fn percent_draws(vs: Seq<i32>) -> Seq<Draw> {
    vs.map_values(|v: i32| (0i32, 100i32, v))
}

fn eval_in<R: PetRng>(v: &PetValue, ctx: &EvalContext, rng: &mut R) -> (r: (i32, Ghost<i32>))
    ensures
        0 <= r.1@ <= 100,
        r.0 == evaluated(v.compute@, *ctx, r.1@, false),
        final(rng).drawn() == old(rng).drawn().push((0, 100, r.1@)),
{
    let value = crate::context::eval(v.compute.as_str(), ctx, rng, false);
    let ghost rv = rng.drawn().last().2;
    (value, Ghost(rv))
}

fn evaluate_movement<R: PetRng>(m: &Movement, ctx: &EvalContext, rng: &mut R) -> (r: (MoveValues, Ghost<Seq<i32>>))
    ensures
        r.1@.len() == 3,
        forall|k: int| 0 <= k < 3 ==> 0 <= #[trigger] r.1@[k] <= 100,
        r.0 == movement_evaluated(*m, *ctx, r.1@),
        final(rng).drawn() == old(rng).drawn() + percent_draws(r.1@),
{
    let (x, ga) = eval_in(&m.x, ctx, rng);
    let (y, gb) = eval_in(&m.y, ctx, rng);
    let (interval, gc) = eval_in(&m.interval, ctx, rng);
    let ghost rs = seq![ga@, gb@, gc@];
    proof {
        assert(rs[0] == ga@ && rs[1] == gb@ && rs[2] == gc@);
        assert(rng.drawn() =~= old(rng).drawn() + percent_draws(rs));
    }
    (MoveValues { x, y, interval, offset_y: m.offset_y, opacity: m.opacity }, Ghost(rs))
}

impl Pet {
    /// Crée un pet à partir de sa définition et de la taille de ses tuiles.
    pub fn new(definition: Arc<PetDefinition>, tile: (i32, i32), world: &World) -> (r: Self)
        ensures
            pet_ok(r@),
            r@ == fresh_state(*definition, tile, *world),
    {
        let (tile_w, tile_h) = tile;
        let ctx = EvalContext {
            screen_w: world.bounds.w,
            screen_h: world.bounds.h,
            area_w: world.area.w,
            // areaH est le bord bas de la zone de travail.
            area_h: add_sat(world.area.y, world.area.h),
            image_w: tile_w,
            image_h: tile_h,
            image_x: -1,
            image_y: -1,
            rand_spawn: 50,
            scale: 1,
        };
        Pet {
            definition,
            tile_w,
            tile_h,
            ctx,
            animation_id: -1,
            step: -1,
            total: 0,
            position_x: 0,
            position_y: 0,
            offset_y: 0,
            opacity: Ratio { num: 1, den: 1 },
            interval: 100,
            frame: 0,
            moving_left: true,
            dragging: false,
            drag_x: 0,
            drag_y: 0,
            on_window: None,
            is_child: false,
            pending_children: Vec::new(),
            pending_sound: None,
            cache: None,
        }
    }

    /// Marque ce pet comme enfant : il se ferme au lieu de réapparaître.
    pub fn set_child(&mut self, is_child: bool)
        ensures
            final(self)@ == (PetState { is_child, ..old(self)@ }),
    {
        self.is_child = is_child;
    }

    /// Identifiant de l'animation en cours.
    pub fn animation_id(&self) -> (r: i32)
        ensures
            r == self@.animation_id,
    {
        self.animation_id
    }

    /// Position courante, coin haut-gauche.
    pub fn position(&self) -> (r: (i32, i32))
        ensures
            r == (self@.position_x, self@.position_y),
    {
        (self.position_x, self.position_y)
    }

    /// Force la position. Réservé aux tests et au placement des enfants.
    pub fn set_position(&mut self, x: i32, y: i32)
        ensures
            final(self)@ == (PetState { position_x: x, position_y: y, ..old(self)@ }),
    {
        self.position_x = x;
        self.position_y = y;
    }

    /// Force l'orientation. Réservé aux tests.
    pub fn set_flipped(&mut self, flipped: bool)
        ensures
            final(self)@ == (PetState { moving_left: !flipped, ..old(self)@ }),
    {
        self.moving_left = !flipped;
    }

    /// Durée à attendre avant le prochain tick, en millisecondes (au moins 1).
    pub fn interval_ms(&self) -> (r: i32)
        ensures
            r == (if self@.interval > 1 {
                self@.interval
            } else {
                1
            }),
    {
        if self.interval > 1 {
            self.interval
        } else {
            1
        }
    }

    /// Ce qu'il faut afficher maintenant.
    pub fn draw(&self) -> (r: SpriteDraw)
        ensures
            r == drawn(self@),
    {
        SpriteDraw {
            frame: self.frame,
            x: self.position_x,
            y: add_sat(self.position_y, self.offset_y),
            opacity: self.opacity,
            flipped: !self.moving_left,
        }
    }

    /// Récupère et vide la liste des enfants à créer.
    pub fn pending_children(&mut self) -> (r: Vec<i32>)
        ensures
            r@ == old(self)@.pending_children,
            final(self)@ == (PetState { pending_children: Seq::empty(), ..old(self)@ }),
    {
        let out = copy_frames(&self.pending_children);
        self.pending_children = Vec::new();
        out
    }

    /// Récupère le son tiré depuis le dernier appel (index dans
    /// `definition.sounds`).
    pub fn take_sound(&mut self) -> (r: Option<usize>)
        ensures
            r == old(self)@.pending_sound,
            final(self)@ == (PetState { pending_sound: None, ..old(self)@ }),
    {
        let r = self.pending_sound;
        self.pending_sound = None;
        r
    }

    /// Met à jour le contexte d'évaluation avec la géométrie courante.
    fn refresh_context(&mut self, world: &World)
        ensures
            final(self)@ == (PetState {
                ctx: refreshed(old(self)@.ctx, old(self)@.tile_w, old(self)@.tile_h, *world),
                ..old(self)@
            }),
    {
        self.ctx.screen_w = world.bounds.w;
        self.ctx.screen_h = world.bounds.h;
        self.ctx.area_w = world.area.w;
        self.ctx.area_h = add_sat(world.area.y, world.area.h);
        self.ctx.image_w = self.tile_w;
        self.ctx.image_h = self.tile_h;
    }

    fn has_child_for(&self, id: i32) -> (r: bool)
        ensures
            r == declares_child(self@.definition.childs@, id),
    {
        let childs = &self.definition.childs;
        let mut i: usize = 0;
        while i < childs.len()
            invariant
                i <= childs@.len(),
                childs@ == self@.definition.childs@,
                forall|j: int| 0 <= j < i ==> childs@[j].animation_id != id,
            decreases childs@.len() - i,
        {
            if childs[i].animation_id == id {
                return true;
            }
            i = i + 1;
        }
        false
    }

    fn first_sound_for(&self, id: i32) -> (r: Option<usize>)
        ensures
            r matches Some(i) ==> first_sound(self@.definition.sounds@, id) == Some(i as int) && i
                < self@.definition.sounds@.len(),
            r is None ==> first_sound(self@.definition.sounds@, id) is None,
    {
        let sounds = &self.definition.sounds;
        let mut i: usize = 0;
        while i < sounds.len()
            invariant
                i <= sounds@.len(),
                sounds@ == self@.definition.sounds@,
                forall|j: int| 0 <= j < i ==> sounds@[j].animation_id != id,
            decreases sounds@.len() - i,
        {
            if sounds[i].animation_id == id {
                proof {
                    let k = choose|k: int|
                        0 <= k < sounds@.len() && sounds@[k].animation_id == id && forall|j: int|
                            0 <= j < k ==> sounds@[j].animation_id != id;
                    if k < i {
                    } else if k > i {
                    }
                    assert(k == i);
                }
                return Some(i);
            }
            i = i + 1;
        }
        None
    }

    /// Expressions de l'animation d'index `index` évaluées dans le contexte
    /// courant.
    fn evaluate_animation<R: PetRng>(&self, index: usize, rng: &mut R) -> (r: (Current, Ghost<Seq<i32>>))
        requires
            index < self@.definition.animations@.len(),
        ensures
            r.1@.len() == 7,
            forall|k: int| 0 <= k < 7 ==> 0 <= #[trigger] r.1@[k] <= 100,
            r.0 == current_for(self@.definition.animations@[index as int], index as int, self@.ctx, r.1@),
            final(rng).drawn() == old(rng).drawn() + percent_draws(
                r.1@.take(anim_draw_count(self@.definition.animations@[index as int])),
            ),
            anim_draw_count(self@.definition.animations@[index as int]) == 4 ==> r.1@.subrange(4, 7) == seq![0i32, 0i32, 0i32],
    {
        let ghost l0 = rng.drawn();
        let animation = &self.definition.animations[index];
        let (repeat, g0) = eval_in(&animation.sequence.repeat, &self.ctx, rng);
        let (start, g1) = evaluate_movement(&animation.start, &self.ctx, rng);
        let ghost l2 = rng.drawn();
        let ghost mut rs_end: Seq<i32> = seq![0i32, 0i32, 0i32];
        let end = match &animation.end {
            Some(e) => {
                let (v, g) = evaluate_movement(e, &self.ctx, rng);
                proof {
                    rs_end = g@;
                }
                v
            },
            None => start,
        };
        let ghost rs = seq![g0@] + g1@ + rs_end;
        proof {
            if animation.end is Some {
                assert(rs.take(7) =~= rs);
                assert(percent_draws(rs) =~= seq![(0i32, 100i32, g0@)] + percent_draws(g1@) + percent_draws(rs_end));
                assert(rng.drawn() =~= l0 + percent_draws(rs.take(7)));
            } else {
                assert(rs.take(4) =~= seq![g0@] + g1@);
                assert(percent_draws(rs.take(4)) =~= seq![(0i32, 100i32, g0@)] + percent_draws(g1@));
                assert(rng.drawn() =~= l0 + percent_draws(rs.take(4)));
                assert(rs.subrange(4, 7) =~= seq![0i32, 0i32, 0i32]);
            }
            assert(rs.subrange(1, 4) =~= g1@);
            assert(rs.subrange(4, 7) =~= rs_end);
            assert(rs[0] == g0@);
            assert forall|k: int| 0 <= k < 7 implies 0 <= #[trigger] rs[k] <= 100 by {
                if 1 <= k < 4 {
                    assert(rs[k] == g1@[k - 1]);
                } else if 4 <= k < 7 {
                    assert(rs[k] == rs_end[k - 4]);
                }
            }
        }
        (Current { index, repeat, start, end }, Ghost(rs))
    }

    /// Tirage du son associé à l'animation `id`.
    fn draw_sound<R: PetRng>(&mut self, id: i32, rng: &mut R) -> (r: Ghost<i32>)
        ensures
            0 <= r@ <= 100,
            first_sound(old(self)@.definition.sounds@, id) is Some ==> final(rng).drawn() == old(rng).drawn().push(
                (0, 100, r@),
            ),
            first_sound(old(self)@.definition.sounds@, id) is None ==> final(rng).drawn() == old(rng).drawn() && r@
                == 0,
            final(self)@ == (PetState {
                pending_sound: sound_drawn(old(self)@.definition.sounds@, id, r@, old(self)@.pending_sound),
                ..old(self)@
            }),
    {
        match self.first_sound_for(id) {
            Some(i) => {
                let sound_draw = self.rng_percent(rng);
                if sound_draw < self.definition.sounds[i].probability {
                    self.pending_sound = Some(i);
                }
                Ghost(sound_draw)
            },
            None => Ghost(0),
        }
    }

    /// Démarre une animation. Le premier tick portera le pas 0.
    #[verifier::rlimit(60)]
    fn set_animation<R: PetRng>(&mut self, id: i32, world: &World, rng: &mut R)
        requires
            pet_ok(old(self)@),
        ensures
            pet_ok(final(self)@),
            extends(old(rng).drawn(), final(rng).drawn()),
            started(old(self)@, final(self)@, id, *world, added(old(rng).drawn(), final(rng).drawn())),
            final(self)@.is_child == old(self)@.is_child,
    {
        let ghost l0 = rng.drawn();
        self.refresh_context(world);
        let ghost pre = old(self)@;
        let ghost ctx = self.ctx;
        let index = match self.definition.animation_index(id) {
            Some(i) => i,
            None => {
                proof {
                    assert(added(l0, rng.drawn()) =~= Seq::<Draw>::empty());
                }
                return;
            },
        };
        // Réévalue les expressions dynamiques au démarrage.
        let (cur, g) = self.evaluate_animation(index, rng);
        let animation = &self.definition.animations[index];
        self.total = steps_for(animation.sequence.frames.len(), animation.sequence.repeat_from, cur.repeat);
        self.animation_id = id;
        self.step = 0;
        self.interval = if cur.start.interval > 1 {
            cur.start.interval
        } else {
            1
        };
        self.frame = pick_frame(&self.definition.animations[index].sequence, 0);

        // Cette animation crée-t-elle des enfants ?
        if self.has_child_for(id) {
            self.pending_children.push(id);
        }
        let g7 = self.draw_sound(id, rng);
        self.cache = Some(cur);
        proof {
            let rs = g@ + seq![g7@];
            let a = pre.definition.animations@[index as int];
            let n = anim_draw_count(a);
            let ds = added(l0, rng.drawn());
            let sound = first_sound(pre.definition.sounds@, id) is Some;
            assert(self@.definition == pre.definition);
            if sound {
                assert(ds =~= percent_draws(g@.take(n)).push((0i32, 100i32, g7@)));
                assert(draw_values(ds) =~= g@.take(n).push(g7@));
                assert(draw_bounds(ds) =~= percent_bounds(n + 1));
            } else {
                assert(ds =~= percent_draws(g@.take(n)));
                assert(draw_values(ds) =~= g@.take(n));
                assert(draw_bounds(ds) =~= percent_bounds(n));
            }
            let vs = draw_values(ds);
            let rs2 = seq![
                vs[0],
                vs[1],
                vs[2],
                vs[3],
                if n == 7 { vs[4] } else { 0i32 },
                if n == 7 { vs[5] } else { 0i32 },
                if n == 7 { vs[6] } else { 0i32 },
                if sound { vs[n] } else { 0i32 },
            ];
            assert(rs2 =~= rs);
            assert(rs.len() == 8);
            assert(rs.subrange(1, 4) =~= g@.subrange(1, 4));
            assert(rs.subrange(4, 7) =~= g@.subrange(4, 7));
            assert(rs[0] == g@[0]);
            assert(rs[7] == g7@);
            assert forall|k: int| 0 <= k < 8 implies 0 <= #[trigger] rs[k] <= 100 by {
                if k < 7 {
                    assert(rs[k] == g@[k]);
                }
            }
            assert(current_for(pre.definition.animations@[index as int], index as int, ctx, rs) == cur);
            assert(first_with_id(pre.definition.animations@, id) == Some(index as int));
            assert(self@ == started_with(pre, ctx, index as int, id, rs));
        }
    }

    /// Fait apparaître le pet à un point d'apparition tiré au sort.
    #[verifier::rlimit(60)]
    pub fn spawn<R: PetRng>(&mut self, world: &World, rng: &mut R)
        requires
            pet_ok(old(self)@),
        ensures
            pet_ok(final(self)@),
            final(self)@.is_child == old(self)@.is_child,
            extends(old(rng).drawn(), final(rng).drawn()),
            spawned(old(self)@, final(self)@, *world, added(old(rng).drawn(), final(rng).drawn())),
    {
        let ghost pre = old(self)@;
        let ghost l0 = rng.drawn();
        // randS est figé pour toute la durée de vie du pet.
        let rand_spawn = rng.gen_range_i32(10, 90);
        self.ctx.rand_spawn = rand_spawn;
        self.refresh_context(world);
        let ghost ctx = self.ctx;
        let ghost l1 = rng.drawn();
        let choice = pick_spawn(&self.definition.spawns, rng);
        let ghost l2 = rng.drawn();
        let ghost draw: i32 = if spawn_needs_draw(pre.definition.spawns@) {
            l2.last().2
        } else {
            0
        };
        proof {
            assert(choice == chosen_spawn(pre.definition.spawns@, draw as int));
        }
        let ghost mut rx: i32 = 0;
        let ghost mut ry: i32 = 0;
        let (x, y, next) = match choice {
            Some(i) => {
                let (x, gx) = eval_in(&self.definition.spawns[i].x, &self.ctx, rng);
                let (y, gy) = eval_in(&self.definition.spawns[i].y, &self.ctx, rng);
                proof {
                    rx = gx@;
                    ry = gy@;
                    assert(rng.drawn() =~= l2 + seq![(0i32, 100i32, gx@), (0i32, 100i32, gy@)]);
                }
                (x, y, self.definition.spawns[i].next)
            },
            None => {
                // Spawn de secours quand le XML n'en définit aucun.
                let first = if self.definition.animations.len() > 0 {
                    self.definition.animations[0].id
                } else {
                    1
                };
                (0, 0, first)
            },
        };
        // Miroir horizontal de la position d'apparition si le pet est retourné.
        let px: i64 = if self.moving_left {
            world.bounds.x as i64 + x as i64
        } else {
            world.bounds.x as i64 - (x as i64 - world.bounds.w as i64) - self.tile_w as i64
        };
        self.position_x = saturate(px);
        self.position_y = add_sat(world.bounds.y, y);
        self.offset_y = 0;
        self.opacity = Ratio { num: 1, den: 1 };
        self.on_window = None;
        let ghost l3 = rng.drawn();
        proof {
            assert(self@ == spawned_at(pre, *world, rand_spawn, choice, rx, ry));
        }
        self.set_animation(next, world, rng);
        proof {
            let l4 = rng.drawn();
            let spawns = pre.definition.spawns@;
            let pick = spawn_needs_draw(spawns);
            crate::context::lemma_added_chain(l0, l1, l2);
            crate::context::lemma_added_chain(l0, l2, l3);
            crate::context::lemma_added_chain(l0, l3, l4);
            let head = added(l0, l3);
            let k2 = head.len() as int;
            let ds = added(l0, l4);
            assert(l4.take(l3.len() as int) =~= l3);
            assert(l3.take(l0.len() as int) =~= l0);
            assert(ds =~= head + added(l3, l4));
            assert(ds.take(k2) =~= head);
            assert(ds.skip(k2) =~= added(l3, l4));
            if pick {
                if choice is Some {
                    assert(head =~= seq![(10i32, 90i32, rand_spawn), l2.last(), (0i32, 100i32, rx), (0i32, 100i32, ry)]);
                } else {
                    assert(head =~= seq![(10i32, 90i32, rand_spawn), l2.last()]);
                }
            } else {
                if choice is Some {
                    assert(head =~= seq![(10i32, 90i32, rand_spawn), (0i32, 100i32, rx), (0i32, 100i32, ry)]);
                } else {
                    assert(head =~= seq![(10i32, 90i32, rand_spawn)]);
                }
            }
            let vs = draw_values(ds);
            assert(vs[0] == rand_spawn);
            let k1: int = if pick { 2 } else { 1 };
            let draw2 = if pick { vs[1] } else { 0i32 };
            assert(draw2 == draw);
            assert(choice == chosen_spawn(spawns, draw2 as int));
            let k2b: int = if choice is Some { k1 + 2 } else { k1 };
            assert(k2b == k2);
            let rx2 = if choice is Some { vs[k1] } else { 0i32 };
            let ry2 = if choice is Some { vs[k1 + 1] } else { 0i32 };
            assert(rx2 == rx);
            assert(ry2 == ry);
            let bounds = seq![(10i32, 90i32)] + (if pick {
                seq![(0i32, draw_bound(weights(spawn_probabilities(spawns))) as i32)]
            } else {
                Seq::empty()
            }) + (if choice is Some {
                percent_bounds(2)
            } else {
                Seq::empty()
            });
            assert(draw_bounds(ds.take(k2)) =~= bounds);
            let ctx = spawn_ctx(pre, *world, vs[0]);
            assert(spawn_target(pre.definition, choice, ctx, rx, ry).2 == next);
            assert(started(spawned_at(pre, *world, vs[0], choice, rx2, ry2), self@, next, *world, ds.skip(k2)));
        }
    }

    /// Fait apparaître ce pet comme enfant : position déclarée par le
    /// `<child>`, fermeture (au lieu du respawn) en fin de chaîne.
    #[verifier::rlimit(60)]
    pub fn spawn_child<R: PetRng>(&mut self, child: &Child, world: &World, rng: &mut R)
        requires
            pet_ok(old(self)@),
        ensures
            pet_ok(final(self)@),
            final(self)@.is_child,
            extends(old(rng).drawn(), final(rng).drawn()),
            child_spawned(old(self)@, final(self)@, *child, *world, added(old(rng).drawn(), final(rng).drawn())),
    {
        let ghost pre = old(self)@;
        let ghost l0 = rng.drawn();
        self.is_child = true;
        let rand_spawn = rng.gen_range_i32(10, 90);
        self.ctx.rand_spawn = rand_spawn;
        self.refresh_context(world);
        let (x, gx) = eval_in(&child.x, &self.ctx, rng);
        let (y, gy) = eval_in(&child.y, &self.ctx, rng);
        self.position_x = add_sat(world.bounds.x, x);
        self.position_y = add_sat(world.bounds.y, y);
        self.offset_y = 0;
        self.opacity = Ratio { num: 1, den: 1 };
        self.on_window = None;
        let ghost l3 = rng.drawn();
        proof {
            assert(l3 =~= l0 + seq![(10i32, 90i32, rand_spawn), (0i32, 100i32, gx@), (0i32, 100i32, gy@)]);
        }
        proof {
            assert(self@ == child_placed(pre, *child, *world, rand_spawn, gx@, gy@));
        }
        self.set_animation(child.next, world, rng);
        proof {
            let l4 = rng.drawn();
            crate::context::lemma_added_chain(l0, l3, l4);
            let head = added(l0, l3);
            let ds = added(l0, l4);
            assert(head =~= seq![(10i32, 90i32, rand_spawn), (0i32, 100i32, gx@), (0i32, 100i32, gy@)]);
            assert(l4.take(l3.len() as int) =~= l3);
            assert(ds =~= head + added(l3, l4));
            assert(ds.take(3) =~= head);
            assert(ds.skip(3) =~= added(l3, l4));
            assert(draw_bounds(ds.take(3)) =~= seq![(10i32, 90i32)] + percent_bounds(2));
        }
    }

    /// Le pet est attrapé à la souris : il joue l'animation `drag` si elle
    /// existe.
    pub fn begin_drag<R: PetRng>(&mut self, world: &World, rng: &mut R)
        requires
            pet_ok(old(self)@),
        ensures
            pet_ok(final(self)@),
            final(self)@.is_child == old(self)@.is_child,
            extends(old(rng).drawn(), final(rng).drawn()),
            started_named(
                PetState { dragging: true, ..old(self)@ },
                final(self)@,
                "drag"@,
                *world,
                added(old(rng).drawn(), final(rng).drawn()),
            ),
    {
        let ghost l0 = rng.drawn();
        self.dragging = true;
        if let Some(id) = self.definition.animation_id_by_name("drag") {
            self.set_animation(id, world, rng);
        } else {
            proof {
                assert(added(l0, rng.drawn()) =~= Seq::<Draw>::empty());
            }
        }
    }

    /// Le curseur a bougé pendant le glisser. La position suit sans attendre
    /// le prochain tick : aucune latence visuelle.
    pub fn drag_to(&mut self, x: i32, y: i32)
        ensures
            final(self)@ == dragged_to(old(self)@, x, y),
    {
        self.drag_x = x;
        self.drag_y = y;
        if self.dragging {
            self.position_x = sub_sat(x, self.tile_w / 2);
            self.position_y = sub_sat(y, 2);
        }
    }

    /// Le pet est relâché : il joue l'animation `fall` si elle existe.
    pub fn end_drag<R: PetRng>(&mut self, world: &World, rng: &mut R)
        requires
            pet_ok(old(self)@),
        ensures
            pet_ok(final(self)@),
            final(self)@.is_child == old(self)@.is_child,
            extends(old(rng).drawn(), final(rng).drawn()),
            started_named(
                PetState { dragging: false, ..old(self)@ },
                final(self)@,
                "fall"@,
                *world,
                added(old(rng).drawn(), final(rng).drawn()),
            ),
    {
        let ghost l0 = rng.drawn();
        self.dragging = false;
        if let Some(id) = self.definition.animation_id_by_name("fall") {
            self.set_animation(id, world, rng);
        } else {
            proof {
                assert(added(l0, rng.drawn()) =~= Seq::<Draw>::empty());
            }
        }
    }


    /// Tirage de l'animation suivante dans la liste, pour le contexte.
    fn choose_next<R: PetRng>(list: &[NextAnimation], context: OnlyFlags, rng: &mut R) -> (r: Option<i32>)
        ensures
            extends(old(rng).drawn(), final(rng).drawn()),
            picked(r, Request { list: list@, context }, added(old(rng).drawn(), final(rng).drawn())),
    {
        let ghost l0 = rng.drawn();
        let r = pick_next(list, context, rng);
        proof {
            let req = Request { list: list@, context };
            if pick_needs_draw(req) {
                assert(added(l0, rng.drawn()) =~= seq![rng.drawn().last()]);
            } else {
                assert(added(l0, rng.drawn()) =~= Seq::<Draw>::empty());
            }
        }
        r
    }

    /// La fenêtre que le pet, en descente, atteindrait pendant ce pas.
    fn landing_window(&self, world: &World, dy: i64) -> (r: Option<Rect>)
        requires
            -0x1_0000_0000 <= dy <= 0x1_0000_0000,
        ensures
            r == first_window(world.windows@, |w: Rect| lands_on(self@, *world, dy as int, w)),
    {
        let ghost pred = |w: Rect| lands_on(self@, *world, dy as int, w);
        let ws = &world.windows;
        let feet: i64 = self.position_y as i64 + self.tile_h as i64;
        let half_w: i64 = (self.tile_w / 2) as i64;
        let mut i: usize = 0;
        proof {
            assert(ws@.skip(0) =~= ws@);
        }
        while i < ws.len()
            invariant
                i <= ws@.len(),
                ws@ == world.windows@,
                feet == self@.position_y + self@.tile_h,
                half_w == half(self@.tile_w),
                -0x1_0000_0000 <= dy <= 0x1_0000_0000,
                pred == (|w: Rect| lands_on(self@, *world, dy as int, w)),
                first_window(ws@, pred) == first_window(ws@.skip(i as int), pred),
            decreases ws@.len() - i,
        {
            let w = ws[i];
            proof {
                assert(ws@.skip(i as int)[0] == w);
                assert(ws@.skip(i as int).drop_first() =~= ws@.skip(i + 1));
            }
            if feet < w.y as i64 && feet + dy >= w.y as i64 && self.position_x as i64 >= w.x as i64
                - half_w && self.position_x as i64 + self.tile_w as i64 <= w.x as i64 + w.w as i64
                + half_w && self.position_y as i64 > world.area.y as i64 + 20 {
                proof {
                    assert(pred(w));
                }
                return Some(w);
            }
            proof {
                assert(!pred(w));
            }
            i = i + 1;
        }
        None
    }

    /// La fenêtre encore présente sous les pieds du pet, s'il y en a une.
    fn window_under_feet(&self, world: &World) -> (r: Option<Rect>)
        ensures
            r == first_window(world.windows@, |w: Rect| under_feet(self@, w)),
    {
        let ghost pred = |w: Rect| under_feet(self@, w);
        let ws = &world.windows;
        let feet: i64 = self.position_y as i64 + self.tile_h as i64;
        let half_w: i64 = (self.tile_w / 2) as i64;
        let mut i: usize = 0;
        proof {
            assert(ws@.skip(0) =~= ws@);
        }
        while i < ws.len()
            invariant
                i <= ws@.len(),
                ws@ == world.windows@,
                feet == self@.position_y + self@.tile_h,
                half_w == half(self@.tile_w),
                pred == (|w: Rect| under_feet(self@, w)),
                first_window(ws@, pred) == first_window(ws@.skip(i as int), pred),
            decreases ws@.len() - i,
        {
            let w = ws[i];
            proof {
                assert(ws@.skip(i as int)[0] == w);
                assert(ws@.skip(i as int).drop_first() =~= ws@.skip(i + 1));
            }
            let gap: i64 = feet - w.y as i64;
            if -3 <= gap && gap <= 3 && self.position_x as i64 + self.tile_w as i64 > w.x as i64
                - half_w && (self.position_x as i64) < w.x as i64 + w.w as i64 + half_w {
                proof {
                    assert(pred(w));
                }
                return Some(w);
            }
            proof {
                assert(!pred(w));
            }
            i = i + 1;
        }
        None
    }

    /// Issue d'un pet qui franchit un bord sans transition éligible.
    fn offscreen_outcome(&self) -> (r: TickOutcome)
        ensures
            r == offscreen(self@),
    {
        if self.is_child {
            TickOutcome::Close
        } else {
            TickOutcome::Respawn
        }
    }

    /// Étape 1 du pas : bords gauche et droit.
    fn step_horizontal<R: PetRng>(&mut self, world: &World, index: usize, dx: i64, dy: i64, rng: &mut R) -> (r: (i64, Option<i32>, Option<TickOutcome>, Ghost<Option<i32>>))
        requires
            index < old(self)@.definition.animations@.len(),
            -0x1_0000_0000 <= dx <= 0x1_0000_0000,
        ensures
            final(self)@.definition == old(self)@.definition,
            final(self)@.cache == old(self)@.cache,
            final(self)@.tile_w == old(self)@.tile_w,
            final(self)@.tile_h == old(self)@.tile_h,
            final(self)@.is_child == old(self)@.is_child,
            extends(old(rng).drawn(), final(rng).drawn()),
            ({
                let ph = phase_horizontal(old(self)@, *world, old(self)@.definition.animations@[index as int], dx as int, dy as int, r.3@);
                &&& final(self)@ == ph.st
                &&& r.0 == ph.dx
                &&& r.1 == ph.next
                &&& r.2 == ph.exit
                &&& ph.dy == dy
                &&& ph.end is None
                &&& pick_logged(ph, r.3@, added(old(rng).drawn(), final(rng).drawn()))
                &&& -0x1_0000_0000 <= r.0 <= 0x1_0000_0000
                &&& (r.2 is Some ==> r.1 is None)
                &&& (r.2 is Some ==> r.2 == Some(offscreen(old(self)@)))
            }),
    {
        reveal(phase_horizontal);
        let border = &self.definition.animations[index].border;
        match self.on_window {
            Some(rect) => {
                // Sur une fenêtre, les bords suivis sont ceux de la fenêtre ;
                // sans transition éligible, le pet quitte simplement le toit.
                if dx < 0 && self.position_x as i64 + dx < rect.x as i64 {
                    let p = Self::choose_next(border, OnlyFlags::WINDOW, rng);
                    match p {
                        Some(id) => {
                            self.position_x = rect.x;
                            (0, Some(id), None, Ghost(p))
                        },
                        None => {
                            self.on_window = None;
                            (dx, None, None, Ghost(p))
                        },
                    }
                } else if dx > 0 && self.position_x as i64 + dx + self.tile_w as i64 > rect.x as i64
                    + rect.w as i64 {
                    let p = Self::choose_next(border, OnlyFlags::WINDOW, rng);
                    match p {
                        Some(id) => {
                            self.position_x = saturate(rect.x as i64 + rect.w as i64 - self.tile_w as i64);
                            (0, Some(id), None, Ghost(p))
                        },
                        None => {
                            self.on_window = None;
                            (dx, None, None, Ghost(p))
                        },
                    }
                } else {
                    (dx, None, None, Ghost(None))
                }
            },
            None => {
                if dx < 0 && self.position_x as i64 + dx < world.area.x as i64 {
                    let p = Self::choose_next(border, OnlyFlags::VERTICAL, rng);
                    match p {
                        Some(id) => {
                            self.position_x = world.area.x;
                            (0, Some(id), None, Ghost(p))
                        },
                        None => (dx, None, Some(self.offscreen_outcome()), Ghost(p)),
                    }
                } else if dx > 0 && self.position_x as i64 + dx + self.tile_w as i64 > world.area.x as i64
                    + world.area.w as i64 {
                    let p = Self::choose_next(border, OnlyFlags::VERTICAL, rng);
                    match p {
                        Some(id) => {
                            self.position_x = saturate(world.area.x as i64 + world.area.w as i64 - self.tile_w as i64);
                            (0, Some(id), None, Ghost(p))
                        },
                        None => (dx, None, Some(self.offscreen_outcome()), Ghost(p)),
                    }
                } else {
                    (dx, None, None, Ghost(None))
                }
            },
        }
    }

    /// Étape 2 du pas : atterrissage sur le toit d'une fenêtre.
    fn step_landing<R: PetRng>(&mut self, world: &World, index: usize, ph: Ghost<Phase>, dy: i64, next: Option<i32>, exit: Option<TickOutcome>, rng: &mut R) -> (r: (i64, Option<i32>, Ghost<Option<i32>>))
        requires
            index < old(self)@.definition.animations@.len(),
            old(self)@ == ph@.st,
            dy == ph@.dy,
            next == ph@.next,
            exit == ph@.exit,
            -0x1_0000_0000 <= dy <= 0x1_0000_0000,
            ph@.end is None,
        ensures
            final(self)@.definition == old(self)@.definition,
            final(self)@.cache == old(self)@.cache,
            final(self)@.tile_w == old(self)@.tile_w,
            final(self)@.tile_h == old(self)@.tile_h,
            final(self)@.is_child == old(self)@.is_child,
            extends(old(rng).drawn(), final(rng).drawn()),
            ({
                let out = phase_landing(ph@, *world, old(self)@.definition.animations@[index as int], r.2@);
                &&& final(self)@ == out.st
                &&& r.0 == out.dy
                &&& r.1 == out.next
                &&& out.exit == exit
                &&& out.dx == ph@.dx
                &&& (exit is Some ==> r.1 == next)
                &&& out.end is None
                &&& pick_logged(out, r.2@, added(old(rng).drawn(), final(rng).drawn()))
                &&& -0x1_0000_0000 <= r.0 <= 0x1_0000_0000
            }),
    {
        reveal(phase_landing);
        if exit.is_some() || next.is_some() || dy <= 0 {
            return (dy, next, Ghost(None));
        }
        match self.landing_window(world, dy) {
            None => (dy, next, Ghost(None)),
            Some(rect) => {
                let p = Self::choose_next(&self.definition.animations[index].border, OnlyFlags::WINDOW, rng);
                match p {
                    Some(id) => {
                        self.position_y = sub_sat(rect.y, self.tile_h);
                        self.offset_y = 0;
                        self.on_window = Some(rect);
                        (0, Some(id), Ghost(p))
                    },
                    None => (dy, next, Ghost(p)),
                }
            },
        }
    }

    /// Bord bas de la zone de travail moins la hauteur d'une tuile.
    fn floor(&self, world: &World) -> (r: i32)
        ensures
            r == floor_of(self@, *world),
    {
        saturate(world.area.y as i64 + world.area.h as i64 - self.tile_h as i64)
    }

    /// Étape 3 du pas : sol et bord haut.
    fn step_vertical<R: PetRng>(&mut self, world: &World, index: usize, ph: Ghost<Phase>, dy: i64, next: Option<i32>, exit: Option<TickOutcome>, rng: &mut R) -> (r: (i64, Option<i32>, Option<TickOutcome>, Ghost<Option<i32>>))
        requires
            index < old(self)@.definition.animations@.len(),
            old(self)@ == ph@.st,
            dy == ph@.dy,
            next == ph@.next,
            exit == ph@.exit,
            -0x1_0000_0000 <= dy <= 0x1_0000_0000,
            ph@.end is None,
            exit is Some ==> next is None,
            exit is Some ==> exit == Some(offscreen(old(self)@)),
        ensures
            final(self)@.definition == old(self)@.definition,
            final(self)@.cache == old(self)@.cache,
            final(self)@.tile_w == old(self)@.tile_w,
            final(self)@.tile_h == old(self)@.tile_h,
            final(self)@.is_child == old(self)@.is_child,
            extends(old(rng).drawn(), final(rng).drawn()),
            ({
                let out = phase_vertical(ph@, *world, old(self)@.definition.animations@[index as int], r.3@);
                &&& final(self)@ == out.st
                &&& r.0 == out.dy
                &&& r.1 == out.next
                &&& r.2 == out.exit
                &&& out.dx == ph@.dx
                &&& (r.2 is Some ==> r.1 is None)
                &&& (r.2 is Some ==> r.2 == Some(offscreen(old(self)@)))
                &&& (exit is Some ==> r.2 == exit && r.1 == next)
                &&& out.end is None
                &&& pick_logged(out, r.3@, added(old(rng).drawn(), final(rng).drawn()))
                &&& -0x1_0000_0000 <= r.0 <= 0x1_0000_0000
            }),
    {
        reveal(phase_vertical);
        if exit.is_some() || next.is_some() {
            return (dy, next, exit, Ghost(None));
        }
        let floor = self.floor(world);
        let border = &self.definition.animations[index].border;
        if dy > 0 && self.position_y as i64 + dy > floor as i64 {
            let p = Self::choose_next(border, OnlyFlags::TASKBAR, rng);
            match p {
                Some(id) => {
                    self.position_y = floor;
                    self.offset_y = 0;
                    (0, Some(id), None, Ghost(p))
                },
                None => (dy, next, Some(self.offscreen_outcome()), Ghost(p)),
            }
        } else if dy < 0 && self.position_y as i64 + dy < world.area.y as i64 {
            let p = Self::choose_next(border, OnlyFlags::HORIZONTAL, rng);
            match p {
                Some(id) => {
                    self.position_y = world.area.y;
                    (0, Some(id), None, Ghost(p))
                },
                None => (dy, next, Some(self.offscreen_outcome()), Ghost(p)),
            }
        } else {
            (dy, next, exit, Ghost(None))
        }
    }

    /// Étape 4 du pas : gravité.
    fn step_gravity<R: PetRng>(&mut self, world: &World, index: usize, ph: Ghost<Phase>, dy: i64, next: Option<i32>, exit: Option<TickOutcome>, rng: &mut R) -> (r: (i64, Option<i32>, Ghost<Option<i32>>))
        requires
            index < old(self)@.definition.animations@.len(),
            old(self)@ == ph@.st,
            dy == ph@.dy,
            next == ph@.next,
            exit == ph@.exit,
            -0x1_0000_0000 <= dy <= 0x1_0000_0000,
            ph@.end is None,
        ensures
            final(self)@.definition == old(self)@.definition,
            final(self)@.cache == old(self)@.cache,
            final(self)@.tile_w == old(self)@.tile_w,
            final(self)@.tile_h == old(self)@.tile_h,
            final(self)@.is_child == old(self)@.is_child,
            extends(old(rng).drawn(), final(rng).drawn()),
            ({
                let out = phase_gravity(ph@, *world, old(self)@.definition.animations@[index as int], r.2@);
                &&& final(self)@ == out.st
                &&& r.0 == out.dy
                &&& r.1 == out.next
                &&& out.exit == exit
                &&& out.dx == ph@.dx
                &&& (exit is Some ==> r.1 == next)
                &&& out.end is None
                &&& pick_logged(out, r.2@, added(old(rng).drawn(), final(rng).drawn()))
                &&& -0x1_0000_0000 <= r.0 <= 0x1_0000_0000
            }),
    {
        reveal(phase_gravity);
        if exit.is_some() || next.is_some() || !self.definition.animations[index].has_gravity() {
            return (dy, next, Ghost(None));
        }
        let floor = self.floor(world);
        if self.on_window.is_some() {
            // La fenêtre est-elle toujours là, toujours sous les pieds ?
            match self.window_under_feet(world) {
                Some(rect) => {
                    self.on_window = Some(rect);
                    (dy, next, Ghost(None))
                },
                None => {
                    self.on_window = None;
                    let p = Self::choose_next(&self.definition.animations[index].gravity, OnlyFlags::WINDOW, rng);
                    (dy, p, Ghost(p))
                },
            }
        } else if (self.position_y as i64 + dy) < floor as i64 {
            // Tolérance de 3 px : on colle au sol plutôt que de déclencher une chute.
            if self.position_y as i64 + dy + 3 >= floor as i64 {
                (floor as i64 - self.position_y as i64, next, Ghost(None))
            } else {
                let p = Self::choose_next(&self.definition.animations[index].gravity, OnlyFlags::NONE, rng);
                (dy, p, Ghost(p))
            }
        } else {
            (dy, next, Ghost(None))
        }
    }

    /// Étape 5 du pas : fin de séquence.
    fn step_end<R: PetRng>(&mut self, index: usize, ph: Ghost<Phase>, next: Option<i32>, exit: Option<TickOutcome>, rng: &mut R) -> (r: (Option<i32>, Option<TickOutcome>, Ghost<Option<i32>>))
        requires
            index < old(self)@.definition.animations@.len(),
            old(self)@ == ph@.st,
            next == ph@.next,
            exit == ph@.exit,
            ph@.end is None,
        ensures
            final(self)@.definition == old(self)@.definition,
            final(self)@.cache == old(self)@.cache,
            final(self)@.tile_w == old(self)@.tile_w,
            final(self)@.tile_h == old(self)@.tile_h,
            final(self)@.is_child == old(self)@.is_child,
            extends(old(rng).drawn(), final(rng).drawn()),
            ({
                let out = phase_end(ph@, old(self)@.definition.animations@[index as int], r.2@);
                &&& final(self)@ == out.st
                &&& r.0 == out.next
                &&& r.1 == out.end
                &&& (r.1 is Some ==> r.1 == Some(offscreen(old(self)@)))
                &&& (exit is Some ==> r.0 == next)
                &&& out.exit == exit
                &&& out.dx == ph@.dx
                &&& out.dy == ph@.dy
                &&& pick_logged(out, r.2@, added(old(rng).drawn(), final(rng).drawn()))
            }),
    {
        reveal(phase_end);
        if exit.is_some() || next.is_some() || self.step < self.total {
            return (next, None, Ghost(None));
        }
        let flip = match &self.definition.animations[index].sequence.action {
            Some(a) => {
                let t = chars_of(a.as_str());
                let f = chars_of("flip");
                chars_eq(&t, &f)
            },
            None => false,
        };
        if flip {
            self.moving_left = !self.moving_left;
        }
        let p = Self::choose_next(&self.definition.animations[index].sequence.next, OnlyFlags::NONE, rng);
        match p {
            Some(id) => (Some(id), None, Ghost(p)),
            None => {
                let o = if self.is_child {
                    TickOutcome::Close
                } else {
                    TickOutcome::Respawn
                };
                (None, Some(o), Ghost(p))
            },
        }
    }

    /// Avance d'un pas : frame du pas, glisser ou physique (bords, fenêtres,
    /// gravité), fin de séquence, déplacement, animation suivante.
    #[verifier::rlimit(60)]
    #[verifier::spinoff_prover]
    pub fn tick<R: PetRng>(&mut self, world: &World, rng: &mut R) -> (r: TickOutcome)
        requires
            pet_ok(old(self)@),
        ensures
            pet_ok(final(self)@),
            final(self)@.is_child == old(self)@.is_child,
            r == TickOutcome::Close ==> old(self)@.is_child,
            r == TickOutcome::Respawn ==> !old(self)@.is_child,
            extends(old(rng).drawn(), final(rng).drawn()),
            tick_step(old(self)@, final(self)@, *world, r, added(old(rng).drawn(), final(rng).drawn())),
            old(self)@.dragging ==> *final(rng) == *old(rng),
    {
        let ghost l0 = rng.drawn();
        proof {
            assert(added(l0, l0) =~= Seq::<Draw>::empty());
        }
        let cur = match self.cache {
            Some(c) => c,
            None => {
                return TickOutcome::Continue;
            },
        };
        let ghost s0 = self@;
        let index = cur.index;
        self.frame = pick_frame(&self.definition.animations[index].sequence, self.step);

        // 1. Pendant le glisser, la position suit le curseur, sans physique.
        if self.dragging {
            self.position_x = sub_sat(self.drag_x, self.tile_w / 2);
            self.position_y = sub_sat(self.drag_y, 2);
            self.step = add_sat(self.step, 1);
            return TickOutcome::Continue;
        }

        // 2. Interpolation des valeurs du pas courant.
        let values = interpolate_values(cur.start, cur.end, self.step, self.total);
        self.interval = if values.interval > 1 {
            values.interval
        } else {
            1
        };
        self.opacity = values.opacity;
        self.offset_y = values.offset_y;

        // 3. L'axe X est nié quand le pet est retourné.
        let dx0: i64 = if self.moving_left {
            values.x as i64
        } else {
            -(values.x as i64)
        };
        let dy0: i64 = values.y as i64;
        let ghost a = s0.definition.animations@[index as int];
        let ghost ph0 = phase_start(s0, cur, a);
        assert(self@ == ph0.st && dx0 == ph0.dx && dy0 == ph0.dy && ph0.end is None) by {
            reveal(phase_start);
        }

        // 4. Détections de bord : côtés, toit d'une fenêtre, sol et haut.
        let (dx1, next1, exit1, g1) = self.step_horizontal(world, index, dx0, dy0, rng);
        let ghost l1 = rng.drawn();
        let ghost ph1 = phase_horizontal(ph0.st, *world, a, ph0.dx, ph0.dy, g1@);
        let (dy2, next2, g2) = self.step_landing(world, index, Ghost(ph1), dy0, next1, exit1, rng);
        let ghost l2 = rng.drawn();
        let ghost ph2 = phase_landing(ph1, *world, a, g2@);
        let (dy3, next3, exit3, g3) = self.step_vertical(world, index, Ghost(ph2), dy2, next2, exit1, rng);
        let ghost l3 = rng.drawn();
        let ghost ph3 = phase_vertical(ph2, *world, a, g3@);

        // 5. Gravité.
        let (dy4, next4, g4) = self.step_gravity(world, index, Ghost(ph3), dy3, next3, exit3, rng);
        let ghost l4 = rng.drawn();
        let ghost ph4 = phase_gravity(ph3, *world, a, g4@);

        // 6. Fin de séquence.
        let (next5, end5, g5) = self.step_end(index, Ghost(ph4), next4, exit3, rng);
        let ghost l5 = rng.drawn();
        let ghost ph5 = phase_end(ph4, a, g5@);
        let ghost ps = seq![g1@, g2@, g3@, g4@, g5@];
        let ghost n = added(l0, l5).len() as int;
        proof {
            assert(phases(s0, *world, cur, ps) =~= seq![ph1, ph2, ph3, ph4, ph5]);
            lemma_logs_split(l0, l1, l2, l3, l4, l5);
            assert(added(l0, l5).take(n) =~= added(l0, l5));
            assert(picks_logged(s0, *world, cur, ps, added(l0, l5).take(n)));
        }
        if let Some(o) = exit3 {
            proof {
                assert(added(l0, rng.drawn()).skip(n) =~= Seq::<Draw>::empty());
            }
            return o;
        }

        // 7. Application du déplacement.
        self.position_x = saturate(self.position_x as i64 + dx1);
        self.position_y = saturate(self.position_y as i64 + dy4);
        self.step = add_sat(self.step, 1);
        let outcome = match end5 {
            Some(o) => o,
            None => TickOutcome::Continue,
        };
        proof {
            assert(self@ == moved(ph5));
        }
        if let Some(id) = next5 {
            self.set_animation(id, world, rng);
            let ghost mid = self@;
            // La première frame de l'animation suivante s'affiche quasi immédiatement.
            self.interval = 1;
            proof {
                assert(self@ == (PetState { interval: 1, ..mid }));
                let l6 = rng.drawn();
                crate::context::lemma_added_chain(l0, l5, l6);
                assert(added(l0, l6).take(n) =~= added(l0, l5));
                assert(added(l0, l6).skip(n) =~= added(l5, l6));
            }
        } else {
            proof {
                assert(added(l0, rng.drawn()).skip(n) =~= Seq::<Draw>::empty());
            }
        }
        outcome
    }

    fn rng_percent<R: PetRng>(&self, rng: &mut R) -> (r: i32)
        ensures
            0 <= r <= 100,
            final(rng).drawn() == old(rng).drawn().push((0, 100, r)),
    {
        rng.gen_range_i32(0, 100)
    }
}

} // verus!
