//! Nombre de pas, choix de frame et interpolation.

use vstd::prelude::*;
use crate::arith::{trunc_div, Ratio};
use crate::model::{Animation, Movement, Sequence};

verus! {

/// Position dans l'animation courante.
#[derive(Debug, Clone, Copy)]
pub struct AnimState {
    pub animation_id: i32,
    /// Pas courant, 0-based. Vaut -1 avant le premier tick.
    pub step: i32,
    pub total_steps: i32,
}

/// Valeurs interpolées pour un pas donné.
#[derive(Debug, Clone, Copy, PartialEq)]
pub struct StepValues {
    /// Vitesse horizontale de ce pas, en pixels.
    pub x: i32,
    /// Vitesse verticale de ce pas, en pixels.
    pub y: i32,
    /// Durée de la frame, en millisecondes.
    pub interval: i32,
    /// Opacité, fraction exacte.
    pub opacity: Ratio,
    pub offset_y: i32,
}

/// Valeurs numériques d'un mouvement, expressions déjà évaluées.
#[derive(Debug, Clone, Copy, PartialEq)]
pub struct MoveValues {
    pub x: i32,
    pub y: i32,
    pub interval: i32,
    pub offset_y: i32,
    pub opacity: Ratio,
}

/// Valeurs courantes d'un mouvement.
pub open spec fn move_values(m: Movement) -> MoveValues {
    MoveValues {
        x: m.x.value,
        y: m.y.value,
        interval: m.interval.value,
        offset_y: m.offset_y,
        opacity: m.opacity,
    }
}

pub open spec fn clamp(v: int, lo: int, hi: int) -> int {
    if v < lo {
        lo
    } else if v > hi {
        hi
    } else {
        v
    }
}

/// Saturation sur `i32`.
pub open spec fn sat_i32(v: int) -> i32 {
    clamp(v, i32::MIN as int, i32::MAX as int) as i32
}

/// Nombre total de pas : `len + (len - from) * repeat`, `from` ramené dans
/// `[0, len]`, `repeat` négatif compté pour 0, une séquence vide ayant 0 pas.
pub open spec fn steps_count(len: int, repeat_from: int, repeat: int) -> int {
    if len == 0 {
        0
    } else {
        let from = clamp(repeat_from, 0, len);
        len + (len - from) * if repeat > 0 {
            repeat
        } else {
            0
        }
    }
}

/// Frame affichée au pas `step` : `frames[step]` pendant la première passe,
/// puis boucle sur la portion `[repeat_from..len)` ; 0 pour une séquence vide.
pub open spec fn frame_at(frames: Seq<i32>, repeat_from: int, step: int) -> i32 {
    let len = frames.len() as int;
    let s = if step > 0 {
        step
    } else {
        0
    };
    if len == 0 {
        0
    } else if s < len {
        frames[s]
    } else {
        let from = clamp(repeat_from, 0, len - 1);
        frames[(s - len) % (len - from) + from]
    }
}

/// Nombre total de pas pour une séquence de `len` frames (saturé sur `i32`).
pub fn steps_for(len: usize, repeat_from: i32, repeat: i32) -> (r: i32)
    ensures
        r == sat_i32(steps_count(len as int, repeat_from as int, repeat as int)),
{
    let len: i128 = len as i128;
    if len == 0 {
        return 0;
    }
    let from: i128 = if (repeat_from as i128) < 0 {
        0
    } else if (repeat_from as i128) > len {
        len
    } else {
        repeat_from as i128
    };
    let repeat: i128 = if repeat > 0 {
        repeat as i128
    } else {
        0
    };
    proof {
        assert(0 <= (len - from) * repeat <= 0x1_0000_0000_0000_0000 * 0x8000_0000) by (nonlinear_arith)
            requires
                0 <= len - from <= 0x1_0000_0000_0000_0000,
                0 <= repeat <= 0x8000_0000,
        ;
    }
    let total: i128 = len + (len - from) * repeat;
    if total > i32::MAX as i128 {
        i32::MAX
    } else {
        total as i32
    }
}

/// Nombre total de pas de la séquence, répétitions comprises (saturé sur
/// `i32`).
pub fn total_steps(seq: &Sequence) -> (r: i32)
    ensures
        r == sat_i32(steps_count(seq.frames@.len() as int, seq.repeat_from as int, seq.repeat.value as int)),
{
    steps_for(seq.frames.len(), seq.repeat_from, seq.repeat.get())
}

/// Frame affichée au pas donné.
///
/// Pendant la première passe (`step < frames.len()`), on lit directement
/// `frames[step]`. Au-delà, on boucle sur la portion `[repeat_from..len)`.
/// Toute séquence vide renvoie 0.
pub fn pick_frame(seq: &Sequence, step: i32) -> (r: i32)
    ensures
        r == frame_at(seq.frames@, seq.repeat_from as int, step as int),
{
    let len: usize = seq.frames.len();
    if len == 0 {
        return 0;
    }
    let step: i32 = if step > 0 {
        step
    } else {
        0
    };
    if (step as usize) < len {
        return seq.frames[step as usize];
    }
    // Au-delà de la première passe, `len <= step` tient sur `i32`.
    let len32: i32 = len as i32;
    let from: i32 = if seq.repeat_from < 0 {
        0
    } else if seq.repeat_from > len32 - 1 {
        len32 - 1
    } else {
        seq.repeat_from
    };
    let span: i32 = len32 - from;
    let idx: i32 = ((step - len32) % span) + from;
    seq.frames[idx as usize]
}

/// `a + (b - a) * step / den`, tronqué vers zéro (`den > 0`).
pub open spec fn lerp_trunc(a: int, b: int, step: int, den: int) -> int {
    trunc_div(a * den + (b - a) * step, den)
}

/// Opacité interpolée `start + (end - start) * step / total` ; si le calcul
/// exact sort de la plage sur 128 bits, l'opacité de départ est conservée.
pub open spec fn lerp_opacity(start: Ratio, end: Ratio, step: int, total: int) -> Ratio {
    let num = start.num * end.den * total + (end.num * start.den - start.num * end.den) * step;
    let den = start.den * end.den * total;
    if i128::MIN <= num <= i128::MAX && i128::MIN <= den <= i128::MAX && i128::MIN <= start.num
        * end.den <= i128::MAX && i128::MIN <= end.num * start.den <= i128::MAX && i128::MIN
        <= start.num * end.den * total <= i128::MAX && i128::MIN <= start.den * end.den
        <= i128::MAX && i128::MIN <= (end.num * start.den - start.num * end.den) * step
        <= i128::MAX && i128::MIN <= end.num * start.den - start.num * end.den <= i128::MAX {
        Ratio { num: num as i128, den: den as i128 }
    } else {
        start
    }
}

/// Valeurs interpolées au pas `step` sur `total` pas : `interval`, `opacity`
/// et `offset_y` avec le dénominateur `total`, `x` et `y` avec `total - 1`
/// (sans interpolation si le dénominateur n'est pas positif) ; les entiers
/// sont tronqués vers zéro puis saturés sur `i32`.
pub open spec fn interpolated(start: MoveValues, end: MoveValues, step: int, total: int) -> StepValues {
    StepValues {
        x: if total > 1 {
            sat_i32(lerp_trunc(start.x as int, end.x as int, step, total - 1))
        } else {
            start.x
        },
        y: if total > 1 {
            sat_i32(lerp_trunc(start.y as int, end.y as int, step, total - 1))
        } else {
            start.y
        },
        interval: if total > 0 {
            sat_i32(lerp_trunc(start.interval as int, end.interval as int, step, total))
        } else {
            start.interval
        },
        opacity: if total > 0 {
            lerp_opacity(start.opacity, end.opacity, step, total)
        } else {
            start.opacity
        },
        offset_y: if total > 0 {
            sat_i32(lerp_trunc(start.offset_y as int, end.offset_y as int, step, total))
        } else {
            start.offset_y
        },
    }
}

fn lerp_exec(a: i32, b: i32, step: i32, den: i32) -> (r: i32)
    requires
        den > 0,
    ensures
        r == sat_i32(lerp_trunc(a as int, b as int, step as int, den as int)),
{
    let a = a as i128;
    let b = b as i128;
    let step = step as i128;
    let den = den as i128;
    proof {
        assert(-0x8000_0000 * 0x8000_0000 <= a * den <= 0x8000_0000 * 0x8000_0000)
            by (nonlinear_arith)
            requires
                -0x8000_0000 <= a <= 0x8000_0000,
                0 < den <= 0x8000_0000,
        ;
        assert(-0x1_0000_0000 * 0x8000_0000 <= (b - a) * step <= 0x1_0000_0000 * 0x8000_0000)
            by (nonlinear_arith)
            requires
                -0x1_0000_0000 <= b - a <= 0x1_0000_0000,
                -0x8000_0000 <= step <= 0x8000_0000,
        ;
    }
    let n: i128 = a * den + (b - a) * step;
    let t: i128 = n / den;
    if t < i32::MIN as i128 {
        i32::MIN
    } else if t > i32::MAX as i128 {
        i32::MAX
    } else {
        t as i32
    }
}

fn lerp_opacity_exec(start: Ratio, end: Ratio, step: i32, total: i32) -> (r: Ratio)
    ensures
        r == lerp_opacity(start, end, step as int, total as int),
{
    let total = total as i128;
    let step = step as i128;
    let sned = match start.num.checked_mul(end.den) {
        Some(v) => v,
        None => {
            return start;
        },
    };
    let ensd = match end.num.checked_mul(start.den) {
        Some(v) => v,
        None => {
            return start;
        },
    };
    let diff = match ensd.checked_sub(sned) {
        Some(v) => v,
        None => {
            return start;
        },
    };
    let a = match sned.checked_mul(total) {
        Some(v) => v,
        None => {
            return start;
        },
    };
    let b = match diff.checked_mul(step) {
        Some(v) => v,
        None => {
            return start;
        },
    };
    let num = match a.checked_add(b) {
        Some(v) => v,
        None => {
            return start;
        },
    };
    let dd = match start.den.checked_mul(end.den) {
        Some(v) => v,
        None => {
            return start;
        },
    };
    let den = match dd.checked_mul(total) {
        Some(v) => v,
        None => {
            return start;
        },
    };
    Ratio { num, den }
}

/// Interpole entre deux mouvements déjà évalués.
pub fn interpolate_values(start: MoveValues, end: MoveValues, step: i32, total: i32) -> (r: StepValues)
    ensures
        r == interpolated(start, end, step as int, total as int),
{
    let (interval, opacity, offset_y) = if total > 0 {
        (
            lerp_exec(start.interval, end.interval, step, total),
            lerp_opacity_exec(start.opacity, end.opacity, step, total),
            lerp_exec(start.offset_y, end.offset_y, step, total),
        )
    } else {
        (start.interval, start.opacity, start.offset_y)
    };
    let (x, y) = if total > 1 {
        (lerp_exec(start.x, end.x, step, total - 1), lerp_exec(start.y, end.y, step, total - 1))
    } else {
        (start.x, start.y)
    };
    StepValues { x, y, interval, opacity, offset_y }
}

/// Valeurs courantes d'un mouvement.
pub fn values_of(m: &Movement) -> (r: MoveValues)
    ensures
        r == move_values(*m),
{
    MoveValues {
        x: m.x.get(),
        y: m.y.get(),
        interval: m.interval.get(),
        offset_y: m.offset_y,
        opacity: m.opacity,
    }
}

/// Interpole les valeurs entre le début et la fin de l'animation.
///
/// Attention : `x` et `y` utilisent le dénominateur `total - 1`, les autres
/// valeurs utilisent `total`, comme dans le format eSheep.
/// Un `<end>` absent équivaut à `start` : aucune interpolation n'a lieu.
pub fn interpolate(anim: &Animation, step: i32, total: i32) -> (r: StepValues)
    ensures
        r == interpolated(
            move_values(anim.start),
            move_values(
                match anim.end {
                    Some(e) => e,
                    None => anim.start,
                },
            ),
            step as int,
            total as int,
        ),
{
    let start = values_of(&anim.start);
    let end = match &anim.end {
        Some(e) => values_of(e),
        None => start,
    };
    interpolate_values(start, end, step, total)
}


proof fn lemma_lerp_ends(a: int, b: int, den: int)
    requires
        den > 0,
    ensures
        lerp_trunc(a, b, 0, den) == a,
        lerp_trunc(a, b, den, den) == b,
        forall|step: int| lerp_trunc(a, a, step, den) == a,
{
    assert((a * den) / den == a && (-(a * den)) / den == -a) by (nonlinear_arith)
        requires
            den > 0,
    ;
    assert(a * den + (b - a) * den == b * den) by (nonlinear_arith);
    assert((b * den) / den == b && (-(b * den)) / den == -b) by (nonlinear_arith)
        requires
            den > 0,
    ;
    assert forall|step: int| lerp_trunc(a, a, step, den) == a by {
        assert(a * den + (a - a) * step == a * den) by (nonlinear_arith);
    }
}

/// Bornes de l'interpolation : au pas 0, les valeurs de départ ; au dernier
/// pas, `x` et `y` atteignent ceux de la fin ; un seul pas n'interpole pas
/// (aucune division par zéro).
pub proof fn lemma_interpolation_endpoints(start: MoveValues, end: MoveValues, total: int)
    requires
        total >= 1,
    ensures
        interpolated(start, end, 0, total).x == start.x,
        interpolated(start, end, 0, total).y == start.y,
        interpolated(start, end, 0, total).interval == start.interval,
        interpolated(start, end, 0, total).offset_y == start.offset_y,
        total > 1 ==> interpolated(start, end, total - 1, total).x == end.x,
        total > 1 ==> interpolated(start, end, total - 1, total).y == end.y,
        total == 1 ==> interpolated(start, end, 0, total).x == start.x,
{
    lemma_lerp_ends(start.interval as int, end.interval as int, total);
    lemma_lerp_ends(start.offset_y as int, end.offset_y as int, total);
    if total > 1 {
        lemma_lerp_ends(start.x as int, end.x as int, total - 1);
        lemma_lerp_ends(start.y as int, end.y as int, total - 1);
    }
}

/// Sans `<end>` (fin égale au départ), les valeurs entières restent celles
/// du départ à chaque pas, et l'opacité garde la même valeur.
pub proof fn lemma_constant_without_end(start: MoveValues, step: int, total: int)
    requires
        total >= 1,
        start.opacity.den > 0,
    ensures
        interpolated(start, start, step, total).x == start.x,
        interpolated(start, start, step, total).y == start.y,
        interpolated(start, start, step, total).interval == start.interval,
        interpolated(start, start, step, total).offset_y == start.offset_y,
        interpolated(start, start, step, total).opacity.num * start.opacity.den == start.opacity.num
            * interpolated(start, start, step, total).opacity.den,
{
    lemma_lerp_ends(start.interval as int, start.interval as int, total);
    lemma_lerp_ends(start.offset_y as int, start.offset_y as int, total);
    if total > 1 {
        lemma_lerp_ends(start.x as int, start.x as int, total - 1);
        lemma_lerp_ends(start.y as int, start.y as int, total - 1);
    }
    let o = start.opacity;
    assert((o.num * o.den - o.num * o.den) * step == 0) by (nonlinear_arith);
    assert(o.num * o.den * total * o.den == o.num * (o.den * o.den * total)) by (nonlinear_arith);
}

/// Après la première passe, la frame boucle sur `[repeat_from..len)` : elle
/// revient identique après une période.
pub proof fn lemma_frames_repeat(frames: Seq<i32>, repeat_from: int, step: int)
    requires
        frames.len() > 0,
        step >= frames.len(),
    ensures
        frame_at(frames, repeat_from, step + (frames.len() - clamp(repeat_from, 0, frames.len() - 1)))
            == frame_at(frames, repeat_from, step),
{
    let len = frames.len() as int;
    let p = len - clamp(repeat_from, 0, len - 1);
    vstd::arithmetic::div_mod::lemma_mod_add_multiples_vanish(step - len, p);
    assert(step + p - len == p + (step - len));
}

} // verus!
