//! Substitution des jetons symboliques et évaluation contextuelle des
//! expressions `x`, `y`, `interval` et `repeat`.

use vstd::prelude::*;
use rand::{Rng, SeedableRng};
use crate::arith::{arith_value, eval_arithmetic, trunc_div, Ratio};
use crate::text::{
    chars_of, contains, contains_seq, i32_to_chars, int_text, replace, replace_all, string_of,
};

verus! {

/// Un tirage : bornes demandées, valeur rendue.
pub type Draw = (i32, i32, i32);

/// Source d'aléa du moteur. Injectée partout pour rendre la simulation
/// déterministe en test.
///
/// Modèle : le journal des tirages déjà faits (bornes demandées et valeur
/// rendue). Les contrats du moteur disent quels tirages un appel ajoute,
/// dans l'ordre, et ce que le résultat fait de leurs valeurs.
pub trait PetRng {
    /// Les tirages faits jusqu'ici, dans l'ordre.
    spec fn drawn(&self) -> Seq<Draw>;

    /// Tire un entier dans `[low, high]`, bornes incluses.
    fn gen_range_i32(&mut self, low: i32, high: i32) -> (r: i32)
        ensures
            low <= high ==> low <= r <= high,
            final(self).drawn() == old(self).drawn().push((low, high, r)),
    ;
}

/// Valeurs d'une suite de tirages.
pub open spec fn draw_values(ds: Seq<Draw>) -> Seq<i32> {
    ds.map_values(|d: Draw| d.2)
}

/// Bornes demandées d'une suite de tirages.
pub open spec fn draw_bounds(ds: Seq<Draw>) -> Seq<(i32, i32)> {
    ds.map_values(|d: Draw| (d.0, d.1))
}

/// `after` prolonge le journal `before`.
pub open spec fn extends(before: Seq<Draw>, after: Seq<Draw>) -> bool {
    before.len() <= after.len() && after.take(before.len() as int) == before
}

/// Les tirages ajoutés à `before` pour obtenir `after`.
pub open spec fn added(before: Seq<Draw>, after: Seq<Draw>) -> Seq<Draw> {
    after.skip(before.len() as int)
}

/// Chaque valeur tirée est dans ses bornes (quand elles sont dans l'ordre).
pub open spec fn draws_ok(ds: Seq<Draw>) -> bool {
    forall|k: int| 0 <= k < ds.len() ==> (#[trigger] ds[k]).0 <= ds[k].1 ==> ds[k].0 <= ds[k].2 <= ds[k].1
}

/// Un journal se prolonge lui-même, sans ajout.
pub broadcast proof fn lemma_extends_same(a: Seq<Draw>)
    ensures
        #[trigger] extends(a, a),
        added(a, a) == Seq::<Draw>::empty(),
{
    assert(a.take(a.len() as int) =~= a);
    assert(added(a, a) =~= Seq::<Draw>::empty());
}

/// Un tirage de plus prolonge le journal.
pub broadcast proof fn lemma_extends_push(a: Seq<Draw>, x: Draw)
    ensures
        extends(a, #[trigger] a.push(x)),
        added(a, a.push(x)) == seq![x],
{
    assert(a.push(x).take(a.len() as int) =~= a);
    assert(added(a, a.push(x)) =~= seq![x]);
}

/// Des tirages mis au bout prolongent le journal.
pub broadcast proof fn lemma_extends_concat(a: Seq<Draw>, b: Seq<Draw>)
    ensures
        extends(a, #[trigger] (a + b)),
        added(a, a + b) == b,
{
    assert((a + b).take(a.len() as int) =~= a);
    assert(added(a, a + b) =~= b);
}

pub broadcast group group_draw_log {
    lemma_extends_same,
    lemma_extends_push,
    lemma_extends_concat,
}

/// Les ajouts de deux prolongements successifs se mettent bout à bout.
pub proof fn lemma_added_chain(a: Seq<Draw>, b: Seq<Draw>, c: Seq<Draw>)
    requires
        extends(a, b),
        extends(b, c),
    ensures
        extends(a, c),
        added(a, c) == added(a, b) + added(b, c),
{
    assert(c.take(a.len() as int) =~= b.take(a.len() as int));
    assert(added(a, c) =~= added(a, b) + added(b, c));
}

#[verifier::external_type_specification]
#[verifier::external_body]
pub struct ExStdRng(rand::rngs::StdRng);

/// `StdRng::seed_from_u64` : générateur déterminé par la graine.
#[verifier::external_body]
fn std_rng_from_seed(seed: u64) -> rand::rngs::StdRng {
    rand::rngs::StdRng::seed_from_u64(seed)
}

/// `Rng::random_range(low..=high)` : un entier de l'intervalle fermé, qui
/// doit être non vide (la fonction panique sur un intervalle vide).
#[verifier::external_body]
fn std_rng_range(rng: &mut rand::rngs::StdRng, low: i32, high: i32) -> (r: i32)
    requires
        low <= high,
    ensures
        low <= r <= high,
{
    rng.random_range(low..=high)
}

/// Générateur seedé, reproductible d'une exécution à l'autre : le générateur
/// de `rand` et le journal de ses tirages (suivi pour la preuve seulement).
pub struct SeededRng {
    rng: rand::rngs::StdRng,
    log: Ghost<Seq<Draw>>,
}

impl SeededRng {
    pub fn new(seed: u64) -> (r: Self)
        ensures
            r.drawn() == Seq::<Draw>::empty(),
    {
        SeededRng { rng: std_rng_from_seed(seed), log: Ghost(Seq::empty()) }
    }
}

impl PetRng for SeededRng {
    closed spec fn drawn(&self) -> Seq<Draw> {
        self.log@
    }

    fn gen_range_i32(&mut self, low: i32, high: i32) -> (r: i32)
        ensures
            low >= high ==> r == low,
    {
        let r = if low >= high {
            low
        } else {
            std_rng_range(&mut self.rng, low, high)
        };
        self.log = Ghost(self.log@.push((low, high, r)));
        r
    }
}

/// Valeurs substituées dans les expressions des animations.
#[derive(Debug, Clone, Copy)]
pub struct EvalContext {
    /// Largeur totale de l'écran.
    pub screen_w: i32,
    /// Hauteur totale de l'écran.
    pub screen_h: i32,
    /// Largeur de la zone de travail.
    pub area_w: i32,
    /// Bord bas de la zone de travail (hauteur + décalage Y).
    pub area_h: i32,
    /// Largeur d'une frame.
    pub image_w: i32,
    /// Hauteur d'une frame.
    pub image_h: i32,
    /// X du parent, -1 si le pet n'est pas un enfant.
    pub image_x: i32,
    /// Y du parent, -1 si le pet n'est pas un enfant.
    pub image_y: i32,
    /// Tirage figé au chargement du XML, dans [10, 90].
    pub rand_spawn: i32,
    /// Facteur d'échelle HiDPI.
    pub scale: i32,
}

/// Miroir horizontal du placement d'un enfant sous un parent retourné.
pub open spec fn mirror_image_w(expr: Seq<char>, parent_flipped: bool) -> Seq<char> {
    if !parent_flipped {
        expr
    } else if contains_seq(expr, "-imageW"@) {
        replace_all(expr, "-imageW"@, "+imageW"@)
    } else {
        replace_all(expr, "imageW"@, "(0-imageW)"@)
    }
}

/// Texte de l'expression après substitution de tous les jetons, `random`
/// valant `random_value` à chacune de ses occurrences.
pub open spec fn substituted(
    expr: Seq<char>,
    ctx: EvalContext,
    random_value: i32,
    parent_flipped: bool,
) -> Seq<char> {
    let s = mirror_image_w(expr, parent_flipped);
    let s = replace_all(s, "random"@, int_text(random_value as int));
    let s = replace_all(s, "randS"@, int_text(ctx.rand_spawn as int));
    let s = replace_all(s, "screenW"@, int_text(ctx.screen_w as int));
    let s = replace_all(s, "screenH"@, int_text(ctx.screen_h as int));
    let s = replace_all(s, "areaW"@, int_text(ctx.area_w as int));
    let s = replace_all(s, "areaH"@, int_text(ctx.area_h as int));
    let s = replace_all(s, "imageW"@, int_text(ctx.image_w as int));
    let s = replace_all(s, "imageH"@, int_text(ctx.image_h as int));
    let s = replace_all(s, "imageX"@, int_text(ctx.image_x as int));
    let s = replace_all(s, "imageY"@, int_text(ctx.image_y as int));
    replace_all(s, "scale"@, int_text(ctx.scale as int))
}

/// Troncature vers zéro, puis saturation sur `i32` (le cast `as i32`).
pub open spec fn ratio_to_i32(v: Ratio) -> i32 {
    let t = trunc_div(v.num as int, v.den as int);
    if t < i32::MIN {
        i32::MIN
    } else if t > i32::MAX {
        i32::MAX
    } else {
        t as i32
    }
}

/// Valeur entière d'une expression : 0 si elle est invalide.
#[verifier::opaque]
pub open spec fn evaluated(
    expr: Seq<char>,
    ctx: EvalContext,
    random_value: i32,
    parent_flipped: bool,
) -> i32 {
    match arith_value(substituted(expr, ctx, random_value, parent_flipped)) {
        Ok(v) => ratio_to_i32(v),
        Err(_) => 0,
    }
}

fn replace_token(s: &Vec<char>, token: &str, value: i32) -> (out: Vec<char>)
    ensures
        out@ == replace_all(s@, token@, int_text(value as int)),
{
    let pat = chars_of(token);
    let rep = i32_to_chars(value);
    replace(s, &pat, &rep)
}

/// Remplace les jetons symboliques par leurs valeurs, `random` recevant la
/// valeur donnée.
pub fn substitute_with(
    expr: &str,
    ctx: &EvalContext,
    random_value: i32,
    parent_flipped: bool,
) -> (out: String)
    ensures
        out@ == substituted(expr@, *ctx, random_value, parent_flipped),
{
    let mut out = chars_of(expr);

    // Miroir horizontal du placement d'un enfant sous parent retourné.
    if parent_flipped {
        let minus = chars_of("-imageW");
        if contains(&out, &minus) {
            let plus = chars_of("+imageW");
            out = replace(&out, &minus, &plus);
        } else {
            let token = chars_of("imageW");
            let mirrored = chars_of("(0-imageW)");
            out = replace(&out, &token, &mirrored);
        }
    }
    out = replace_token(&out, "random", random_value);
    out = replace_token(&out, "randS", ctx.rand_spawn);
    out = replace_token(&out, "screenW", ctx.screen_w);
    out = replace_token(&out, "screenH", ctx.screen_h);
    out = replace_token(&out, "areaW", ctx.area_w);
    out = replace_token(&out, "areaH", ctx.area_h);
    out = replace_token(&out, "imageW", ctx.image_w);
    out = replace_token(&out, "imageH", ctx.image_h);
    out = replace_token(&out, "imageX", ctx.image_x);
    out = replace_token(&out, "imageY", ctx.image_y);
    out = replace_token(&out, "scale", ctx.scale);
    string_of(&out)
}

/// Remplace les jetons symboliques par leurs valeurs.
///
/// L'ordre importe : `random` est substitué avant `randS`, et toutes les
/// occurrences de `random` dans une même expression reçoivent la même valeur,
/// tirée dans `[0, 100]`.
pub fn substitute<R: PetRng>(
    expr: &str,
    ctx: &EvalContext,
    rng: &mut R,
    parent_flipped: bool,
) -> (out: String)
    ensures
        exists|random_value: i32|
            0 <= random_value <= 100 && out@ == substituted(
                expr@,
                *ctx,
                random_value,
                parent_flipped,
            ),
        final(rng).drawn() == old(rng).drawn().push((0, 100, final(rng).drawn().last().2)),
        out@ == substituted(expr@, *ctx, final(rng).drawn().last().2, parent_flipped),
{
    let random_value = rng.gen_range_i32(0, 100);
    substitute_with(expr, ctx, random_value, parent_flipped)
}

/// Valeur entière d'une fraction, tronquée vers zéro et saturée.
pub fn ratio_to_int(v: Ratio) -> (r: i32)
    requires
        v.den > 0,
    ensures
        r == ratio_to_i32(v),
{
    let t: i128 = v.num / v.den;
    if t < i32::MIN as i128 {
        i32::MIN
    } else if t > i32::MAX as i128 {
        i32::MAX
    } else {
        t as i32
    }
}

/// Substitue (avec la valeur donnée pour `random`) puis évalue. Retourne 0
/// si l'expression est invalide.
pub fn eval_with(
    expr: &str,
    ctx: &EvalContext,
    random_value: i32,
    parent_flipped: bool,
) -> (r: i32)
    ensures
        r == evaluated(expr@, *ctx, random_value, parent_flipped),
{
    reveal(evaluated);
    let substituted = substitute_with(expr, ctx, random_value, parent_flipped);
    match eval_arithmetic(substituted.as_str()) {
        Ok(v) => ratio_to_int(v),
        Err(_) => 0,
    }
}

/// Substitue puis évalue. Retourne 0 si l'expression est invalide ; la
/// valeur de `random` est tirée dans `[0, 100]`.
pub fn eval<R: PetRng>(expr: &str, ctx: &EvalContext, rng: &mut R, parent_flipped: bool) -> (r: i32)
    ensures
        exists|random_value: i32|
            0 <= random_value <= 100 && r == evaluated(expr@, *ctx, random_value, parent_flipped),
        final(rng).drawn() == old(rng).drawn().push((0, 100, final(rng).drawn().last().2)),
        0 <= final(rng).drawn().last().2 <= 100,
        r == evaluated(expr@, *ctx, final(rng).drawn().last().2, parent_flipped),
{
    let random_value = rng.gen_range_i32(0, 100);
    eval_with(expr, ctx, random_value, parent_flipped)
}


// ---------------------------------------------------------------------------
// Chaque jeton prend la valeur de son propre champ
// ---------------------------------------------------------------------------

/// Aucune fenêtre de `s` n'est `pat` : le remplacement ne change rien.
proof fn lemma_replace_absent(s: Seq<char>, pat: Seq<char>, rep: Seq<char>)
    requires
        pat.len() > 0,
        forall|i: int| 0 <= i && i + pat.len() <= s.len() ==> #[trigger] s.subrange(i, i + pat.len()) != pat,
    ensures
        replace_all(s, pat, rep) == s,
    decreases s.len(),
{
    if s.len() >= pat.len() {
        assert(s.subrange(0int, 0int + pat.len()) != pat);
        assert(s.take(pat.len() as int) =~= s.subrange(0int, 0int + pat.len()));
        let t = s.skip(1);
        assert forall|i: int| 0 <= i && i + pat.len() <= t.len() implies #[trigger] t.subrange(i, i + pat.len()) != pat by {
            assert(t.subrange(i, i + pat.len()) =~= s.subrange(i + 1, i + 1 + pat.len()));
        }
        lemma_replace_absent(t, pat, rep);
        assert(seq![s[0]] + t =~= s);
    }
}

/// Un jeton remplacé par lui-même seul donne le texte de remplacement.
proof fn lemma_replace_whole(pat: Seq<char>, rep: Seq<char>)
    requires
        pat.len() > 0,
    ensures
        replace_all(pat, pat, rep) == rep,
{
    assert(pat.take(pat.len() as int) =~= pat);
    let e = pat.skip(pat.len() as int);
    assert(e.len() == 0);
    assert(replace_all(e, pat, rep) == e);
    assert(replace_all(pat, pat, rep) == rep + replace_all(e, pat, rep));
    assert(rep + e =~= rep);
}

/// Chiffres et signe moins seulement.
pub open spec fn numeric_text(s: Seq<char>) -> bool {
    forall|i: int| 0 <= i < s.len() ==> ('0' <= #[trigger] s[i] && s[i] <= '9') || s[i] == '-'
}

proof fn lemma_nat_text_numeric(n: nat)
    ensures
        numeric_text(crate::text::nat_text(n)),
    decreases n,
{
    if n >= 10 {
        lemma_nat_text_numeric(n / 10);
        let t = crate::text::nat_text(n / 10);
        let u = crate::text::nat_text(n);
        assert forall|i: int| 0 <= i < u.len() implies ('0' <= #[trigger] u[i] && u[i] <= '9') || u[i] == '-' by {
            if i < t.len() {
                assert(u[i] == t[i]);
            }
        }
    }
}

proof fn lemma_int_text_numeric(n: int)
    ensures
        numeric_text(int_text(n)),
{
    if n < 0 {
        lemma_nat_text_numeric((-n) as nat);
        let t = crate::text::nat_text((-n) as nat);
        let u = int_text(n);
        assert forall|i: int| 0 <= i < u.len() implies ('0' <= #[trigger] u[i] && u[i] <= '9') || u[i] == '-' by {
            if i > 0 {
                assert(u[i] == t[i - 1]);
            }
        }
    } else {
        lemma_nat_text_numeric(n as nat);
    }
}

/// Un nombre écrit ne contient aucun jeton (qui commence par une lettre).
proof fn lemma_replace_in_number(s: Seq<char>, pat: Seq<char>, rep: Seq<char>)
    requires
        numeric_text(s),
        pat.len() > 0,
        'a' <= pat[0] <= 'z',
    ensures
        replace_all(s, pat, rep) == s,
{
    assert forall|i: int| 0 <= i && i + pat.len() <= s.len() implies #[trigger] s.subrange(i, i + pat.len()) != pat by {
        assert(s.subrange(i, i + pat.len())[0] == s[i]);
    }
    lemma_replace_absent(s, pat, rep);
}

/// Une expression dont la substitution donne l'écriture de `n` vaut `n`.
proof fn lemma_evaluates_to(
    expr: Seq<char>,
    ctx: EvalContext,
    random_value: i32,
    parent_flipped: bool,
    n: i32,
)
    requires
        substituted(expr, ctx, random_value, parent_flipped) == int_text(n as int),
    ensures
        evaluated(expr, ctx, random_value, parent_flipped) == n,
{
    reveal(evaluated);
    crate::arith::lemma_number_text_value(n);
    assert(trunc_div(n as int, 1) == n as int);
}

/// Le jeton « random » seul devient l'écriture de sa valeur, et l'expression vaut cette valeur.
pub proof fn lemma_token_random(ctx: EvalContext, random_value: i32)
    ensures
        substituted("random"@, ctx, random_value, false) == int_text((random_value) as int),
        evaluated("random"@, ctx, random_value, false) == random_value,
{
    reveal_strlit("random");
    reveal_strlit("random");
    reveal_strlit("randS");
    reveal_strlit("screenW");
    reveal_strlit("screenH");
    reveal_strlit("areaW");
    reveal_strlit("areaH");
    reveal_strlit("imageW");
    reveal_strlit("imageH");
    reveal_strlit("imageX");
    reveal_strlit("imageY");
    reveal_strlit("scale");
    let t = "random"@;
    let v = int_text((random_value) as int);
    lemma_int_text_numeric((random_value) as int);
    lemma_replace_whole(t, v);
    lemma_replace_in_number(v, "randS"@, int_text((ctx.rand_spawn) as int));
    lemma_replace_in_number(v, "screenW"@, int_text((ctx.screen_w) as int));
    lemma_replace_in_number(v, "screenH"@, int_text((ctx.screen_h) as int));
    lemma_replace_in_number(v, "areaW"@, int_text((ctx.area_w) as int));
    lemma_replace_in_number(v, "areaH"@, int_text((ctx.area_h) as int));
    lemma_replace_in_number(v, "imageW"@, int_text((ctx.image_w) as int));
    lemma_replace_in_number(v, "imageH"@, int_text((ctx.image_h) as int));
    lemma_replace_in_number(v, "imageX"@, int_text((ctx.image_x) as int));
    lemma_replace_in_number(v, "imageY"@, int_text((ctx.image_y) as int));
    lemma_replace_in_number(v, "scale"@, int_text((ctx.scale) as int));
    lemma_evaluates_to("random"@, ctx, random_value, false, random_value);
}

/// Le jeton « randS » seul devient l'écriture de sa valeur, et l'expression vaut cette valeur.
pub proof fn lemma_token_randS(ctx: EvalContext, random_value: i32)
    ensures
        substituted("randS"@, ctx, random_value, false) == int_text((ctx.rand_spawn) as int),
        evaluated("randS"@, ctx, random_value, false) == ctx.rand_spawn,
{
    reveal_strlit("randS");
    reveal_strlit("random");
    reveal_strlit("randS");
    reveal_strlit("screenW");
    reveal_strlit("screenH");
    reveal_strlit("areaW");
    reveal_strlit("areaH");
    reveal_strlit("imageW");
    reveal_strlit("imageH");
    reveal_strlit("imageX");
    reveal_strlit("imageY");
    reveal_strlit("scale");
    let t = "randS"@;
    let v = int_text((ctx.rand_spawn) as int);
    lemma_int_text_numeric((ctx.rand_spawn) as int);
    // « random » n'apparaît pas dans « randS ».
    lemma_replace_absent(t, "random"@, int_text((random_value) as int));
    lemma_replace_whole(t, v);
    lemma_replace_in_number(v, "screenW"@, int_text((ctx.screen_w) as int));
    lemma_replace_in_number(v, "screenH"@, int_text((ctx.screen_h) as int));
    lemma_replace_in_number(v, "areaW"@, int_text((ctx.area_w) as int));
    lemma_replace_in_number(v, "areaH"@, int_text((ctx.area_h) as int));
    lemma_replace_in_number(v, "imageW"@, int_text((ctx.image_w) as int));
    lemma_replace_in_number(v, "imageH"@, int_text((ctx.image_h) as int));
    lemma_replace_in_number(v, "imageX"@, int_text((ctx.image_x) as int));
    lemma_replace_in_number(v, "imageY"@, int_text((ctx.image_y) as int));
    lemma_replace_in_number(v, "scale"@, int_text((ctx.scale) as int));
    lemma_evaluates_to("randS"@, ctx, random_value, false, ctx.rand_spawn);
}

/// Le jeton « screenW » seul devient l'écriture de sa valeur, et l'expression vaut cette valeur.
pub proof fn lemma_token_screenW(ctx: EvalContext, random_value: i32)
    ensures
        substituted("screenW"@, ctx, random_value, false) == int_text((ctx.screen_w) as int),
        evaluated("screenW"@, ctx, random_value, false) == ctx.screen_w,
{
    reveal_strlit("screenW");
    reveal_strlit("random");
    reveal_strlit("randS");
    reveal_strlit("screenW");
    reveal_strlit("screenH");
    reveal_strlit("areaW");
    reveal_strlit("areaH");
    reveal_strlit("imageW");
    reveal_strlit("imageH");
    reveal_strlit("imageX");
    reveal_strlit("imageY");
    reveal_strlit("scale");
    let t = "screenW"@;
    let v = int_text((ctx.screen_w) as int);
    lemma_int_text_numeric((ctx.screen_w) as int);
    // « random » n'apparaît pas dans « screenW ».
    assert forall|i: int| 0 <= i && i + 6 <= t.len() implies #[trigger] t.subrange(i, i + 6) != "random"@ by {
        if i == 0 {
            assert(t.subrange(i, i + 6)[0] != "random"@[0]);
        } else if i == 1 {
            assert(t.subrange(i, i + 6)[0] != "random"@[0]);
        }
    }
    lemma_replace_absent(t, "random"@, int_text((random_value) as int));
    // « randS » n'apparaît pas dans « screenW ».
    assert forall|i: int| 0 <= i && i + 5 <= t.len() implies #[trigger] t.subrange(i, i + 5) != "randS"@ by {
        if i == 0 {
            assert(t.subrange(i, i + 5)[0] != "randS"@[0]);
        } else if i == 1 {
            assert(t.subrange(i, i + 5)[0] != "randS"@[0]);
        } else if i == 2 {
            assert(t.subrange(i, i + 5)[1] != "randS"@[1]);
        }
    }
    lemma_replace_absent(t, "randS"@, int_text((ctx.rand_spawn) as int));
    lemma_replace_whole(t, v);
    lemma_replace_in_number(v, "screenH"@, int_text((ctx.screen_h) as int));
    lemma_replace_in_number(v, "areaW"@, int_text((ctx.area_w) as int));
    lemma_replace_in_number(v, "areaH"@, int_text((ctx.area_h) as int));
    lemma_replace_in_number(v, "imageW"@, int_text((ctx.image_w) as int));
    lemma_replace_in_number(v, "imageH"@, int_text((ctx.image_h) as int));
    lemma_replace_in_number(v, "imageX"@, int_text((ctx.image_x) as int));
    lemma_replace_in_number(v, "imageY"@, int_text((ctx.image_y) as int));
    lemma_replace_in_number(v, "scale"@, int_text((ctx.scale) as int));
    lemma_evaluates_to("screenW"@, ctx, random_value, false, ctx.screen_w);
}

/// Le jeton « screenH » seul devient l'écriture de sa valeur, et l'expression vaut cette valeur.
pub proof fn lemma_token_screenH(ctx: EvalContext, random_value: i32)
    ensures
        substituted("screenH"@, ctx, random_value, false) == int_text((ctx.screen_h) as int),
        evaluated("screenH"@, ctx, random_value, false) == ctx.screen_h,
{
    reveal_strlit("screenH");
    reveal_strlit("random");
    reveal_strlit("randS");
    reveal_strlit("screenW");
    reveal_strlit("screenH");
    reveal_strlit("areaW");
    reveal_strlit("areaH");
    reveal_strlit("imageW");
    reveal_strlit("imageH");
    reveal_strlit("imageX");
    reveal_strlit("imageY");
    reveal_strlit("scale");
    let t = "screenH"@;
    let v = int_text((ctx.screen_h) as int);
    lemma_int_text_numeric((ctx.screen_h) as int);
    // « random » n'apparaît pas dans « screenH ».
    assert forall|i: int| 0 <= i && i + 6 <= t.len() implies #[trigger] t.subrange(i, i + 6) != "random"@ by {
        if i == 0 {
            assert(t.subrange(i, i + 6)[0] != "random"@[0]);
        } else if i == 1 {
            assert(t.subrange(i, i + 6)[0] != "random"@[0]);
        }
    }
    lemma_replace_absent(t, "random"@, int_text((random_value) as int));
    // « randS » n'apparaît pas dans « screenH ».
    assert forall|i: int| 0 <= i && i + 5 <= t.len() implies #[trigger] t.subrange(i, i + 5) != "randS"@ by {
        if i == 0 {
            assert(t.subrange(i, i + 5)[0] != "randS"@[0]);
        } else if i == 1 {
            assert(t.subrange(i, i + 5)[0] != "randS"@[0]);
        } else if i == 2 {
            assert(t.subrange(i, i + 5)[1] != "randS"@[1]);
        }
    }
    lemma_replace_absent(t, "randS"@, int_text((ctx.rand_spawn) as int));
    // « screenW » n'apparaît pas dans « screenH ».
    assert forall|i: int| 0 <= i && i + 7 <= t.len() implies #[trigger] t.subrange(i, i + 7) != "screenW"@ by {
        if i == 0 {
            assert(t.subrange(i, i + 7)[6] != "screenW"@[6]);
        }
    }
    lemma_replace_absent(t, "screenW"@, int_text((ctx.screen_w) as int));
    lemma_replace_whole(t, v);
    lemma_replace_in_number(v, "areaW"@, int_text((ctx.area_w) as int));
    lemma_replace_in_number(v, "areaH"@, int_text((ctx.area_h) as int));
    lemma_replace_in_number(v, "imageW"@, int_text((ctx.image_w) as int));
    lemma_replace_in_number(v, "imageH"@, int_text((ctx.image_h) as int));
    lemma_replace_in_number(v, "imageX"@, int_text((ctx.image_x) as int));
    lemma_replace_in_number(v, "imageY"@, int_text((ctx.image_y) as int));
    lemma_replace_in_number(v, "scale"@, int_text((ctx.scale) as int));
    lemma_evaluates_to("screenH"@, ctx, random_value, false, ctx.screen_h);
}

/// Le jeton « areaW » seul devient l'écriture de sa valeur, et l'expression vaut cette valeur.
pub proof fn lemma_token_areaW(ctx: EvalContext, random_value: i32)
    ensures
        substituted("areaW"@, ctx, random_value, false) == int_text((ctx.area_w) as int),
        evaluated("areaW"@, ctx, random_value, false) == ctx.area_w,
{
    reveal_strlit("areaW");
    reveal_strlit("random");
    reveal_strlit("randS");
    reveal_strlit("screenW");
    reveal_strlit("screenH");
    reveal_strlit("areaW");
    reveal_strlit("areaH");
    reveal_strlit("imageW");
    reveal_strlit("imageH");
    reveal_strlit("imageX");
    reveal_strlit("imageY");
    reveal_strlit("scale");
    let t = "areaW"@;
    let v = int_text((ctx.area_w) as int);
    lemma_int_text_numeric((ctx.area_w) as int);
    // « random » n'apparaît pas dans « areaW ».
    lemma_replace_absent(t, "random"@, int_text((random_value) as int));
    // « randS » n'apparaît pas dans « areaW ».
    assert forall|i: int| 0 <= i && i + 5 <= t.len() implies #[trigger] t.subrange(i, i + 5) != "randS"@ by {
        if i == 0 {
            assert(t.subrange(i, i + 5)[0] != "randS"@[0]);
        }
    }
    lemma_replace_absent(t, "randS"@, int_text((ctx.rand_spawn) as int));
    // « screenW » n'apparaît pas dans « areaW ».
    lemma_replace_absent(t, "screenW"@, int_text((ctx.screen_w) as int));
    // « screenH » n'apparaît pas dans « areaW ».
    lemma_replace_absent(t, "screenH"@, int_text((ctx.screen_h) as int));
    lemma_replace_whole(t, v);
    lemma_replace_in_number(v, "areaH"@, int_text((ctx.area_h) as int));
    lemma_replace_in_number(v, "imageW"@, int_text((ctx.image_w) as int));
    lemma_replace_in_number(v, "imageH"@, int_text((ctx.image_h) as int));
    lemma_replace_in_number(v, "imageX"@, int_text((ctx.image_x) as int));
    lemma_replace_in_number(v, "imageY"@, int_text((ctx.image_y) as int));
    lemma_replace_in_number(v, "scale"@, int_text((ctx.scale) as int));
    lemma_evaluates_to("areaW"@, ctx, random_value, false, ctx.area_w);
}

/// Le jeton « areaH » seul devient l'écriture de sa valeur, et l'expression vaut cette valeur.
pub proof fn lemma_token_areaH(ctx: EvalContext, random_value: i32)
    ensures
        substituted("areaH"@, ctx, random_value, false) == int_text((ctx.area_h) as int),
        evaluated("areaH"@, ctx, random_value, false) == ctx.area_h,
{
    reveal_strlit("areaH");
    reveal_strlit("random");
    reveal_strlit("randS");
    reveal_strlit("screenW");
    reveal_strlit("screenH");
    reveal_strlit("areaW");
    reveal_strlit("areaH");
    reveal_strlit("imageW");
    reveal_strlit("imageH");
    reveal_strlit("imageX");
    reveal_strlit("imageY");
    reveal_strlit("scale");
    let t = "areaH"@;
    let v = int_text((ctx.area_h) as int);
    lemma_int_text_numeric((ctx.area_h) as int);
    // « random » n'apparaît pas dans « areaH ».
    lemma_replace_absent(t, "random"@, int_text((random_value) as int));
    // « randS » n'apparaît pas dans « areaH ».
    assert forall|i: int| 0 <= i && i + 5 <= t.len() implies #[trigger] t.subrange(i, i + 5) != "randS"@ by {
        if i == 0 {
            assert(t.subrange(i, i + 5)[0] != "randS"@[0]);
        }
    }
    lemma_replace_absent(t, "randS"@, int_text((ctx.rand_spawn) as int));
    // « screenW » n'apparaît pas dans « areaH ».
    lemma_replace_absent(t, "screenW"@, int_text((ctx.screen_w) as int));
    // « screenH » n'apparaît pas dans « areaH ».
    lemma_replace_absent(t, "screenH"@, int_text((ctx.screen_h) as int));
    // « areaW » n'apparaît pas dans « areaH ».
    assert forall|i: int| 0 <= i && i + 5 <= t.len() implies #[trigger] t.subrange(i, i + 5) != "areaW"@ by {
        if i == 0 {
            assert(t.subrange(i, i + 5)[4] != "areaW"@[4]);
        }
    }
    lemma_replace_absent(t, "areaW"@, int_text((ctx.area_w) as int));
    lemma_replace_whole(t, v);
    lemma_replace_in_number(v, "imageW"@, int_text((ctx.image_w) as int));
    lemma_replace_in_number(v, "imageH"@, int_text((ctx.image_h) as int));
    lemma_replace_in_number(v, "imageX"@, int_text((ctx.image_x) as int));
    lemma_replace_in_number(v, "imageY"@, int_text((ctx.image_y) as int));
    lemma_replace_in_number(v, "scale"@, int_text((ctx.scale) as int));
    lemma_evaluates_to("areaH"@, ctx, random_value, false, ctx.area_h);
}

/// Le jeton « imageW » seul devient l'écriture de sa valeur, et l'expression vaut cette valeur.
pub proof fn lemma_token_imageW(ctx: EvalContext, random_value: i32)
    ensures
        substituted("imageW"@, ctx, random_value, false) == int_text((ctx.image_w) as int),
        evaluated("imageW"@, ctx, random_value, false) == ctx.image_w,
{
    reveal_strlit("imageW");
    reveal_strlit("random");
    reveal_strlit("randS");
    reveal_strlit("screenW");
    reveal_strlit("screenH");
    reveal_strlit("areaW");
    reveal_strlit("areaH");
    reveal_strlit("imageW");
    reveal_strlit("imageH");
    reveal_strlit("imageX");
    reveal_strlit("imageY");
    reveal_strlit("scale");
    let t = "imageW"@;
    let v = int_text((ctx.image_w) as int);
    lemma_int_text_numeric((ctx.image_w) as int);
    // « random » n'apparaît pas dans « imageW ».
    assert forall|i: int| 0 <= i && i + 6 <= t.len() implies #[trigger] t.subrange(i, i + 6) != "random"@ by {
        if i == 0 {
            assert(t.subrange(i, i + 6)[0] != "random"@[0]);
        }
    }
    lemma_replace_absent(t, "random"@, int_text((random_value) as int));
    // « randS » n'apparaît pas dans « imageW ».
    assert forall|i: int| 0 <= i && i + 5 <= t.len() implies #[trigger] t.subrange(i, i + 5) != "randS"@ by {
        if i == 0 {
            assert(t.subrange(i, i + 5)[0] != "randS"@[0]);
        } else if i == 1 {
            assert(t.subrange(i, i + 5)[0] != "randS"@[0]);
        }
    }
    lemma_replace_absent(t, "randS"@, int_text((ctx.rand_spawn) as int));
    // « screenW » n'apparaît pas dans « imageW ».
    lemma_replace_absent(t, "screenW"@, int_text((ctx.screen_w) as int));
    // « screenH » n'apparaît pas dans « imageW ».
    lemma_replace_absent(t, "screenH"@, int_text((ctx.screen_h) as int));
    // « areaW » n'apparaît pas dans « imageW ».
    assert forall|i: int| 0 <= i && i + 5 <= t.len() implies #[trigger] t.subrange(i, i + 5) != "areaW"@ by {
        if i == 0 {
            assert(t.subrange(i, i + 5)[0] != "areaW"@[0]);
        } else if i == 1 {
            assert(t.subrange(i, i + 5)[0] != "areaW"@[0]);
        }
    }
    lemma_replace_absent(t, "areaW"@, int_text((ctx.area_w) as int));
    // « areaH » n'apparaît pas dans « imageW ».
    assert forall|i: int| 0 <= i && i + 5 <= t.len() implies #[trigger] t.subrange(i, i + 5) != "areaH"@ by {
        if i == 0 {
            assert(t.subrange(i, i + 5)[0] != "areaH"@[0]);
        } else if i == 1 {
            assert(t.subrange(i, i + 5)[0] != "areaH"@[0]);
        }
    }
    lemma_replace_absent(t, "areaH"@, int_text((ctx.area_h) as int));
    lemma_replace_whole(t, v);
    lemma_replace_in_number(v, "imageH"@, int_text((ctx.image_h) as int));
    lemma_replace_in_number(v, "imageX"@, int_text((ctx.image_x) as int));
    lemma_replace_in_number(v, "imageY"@, int_text((ctx.image_y) as int));
    lemma_replace_in_number(v, "scale"@, int_text((ctx.scale) as int));
    lemma_evaluates_to("imageW"@, ctx, random_value, false, ctx.image_w);
}

/// Le jeton « imageH » seul devient l'écriture de sa valeur, et l'expression vaut cette valeur.
pub proof fn lemma_token_imageH(ctx: EvalContext, random_value: i32)
    ensures
        substituted("imageH"@, ctx, random_value, false) == int_text((ctx.image_h) as int),
        evaluated("imageH"@, ctx, random_value, false) == ctx.image_h,
{
    reveal_strlit("imageH");
    reveal_strlit("random");
    reveal_strlit("randS");
    reveal_strlit("screenW");
    reveal_strlit("screenH");
    reveal_strlit("areaW");
    reveal_strlit("areaH");
    reveal_strlit("imageW");
    reveal_strlit("imageH");
    reveal_strlit("imageX");
    reveal_strlit("imageY");
    reveal_strlit("scale");
    let t = "imageH"@;
    let v = int_text((ctx.image_h) as int);
    lemma_int_text_numeric((ctx.image_h) as int);
    // « random » n'apparaît pas dans « imageH ».
    assert forall|i: int| 0 <= i && i + 6 <= t.len() implies #[trigger] t.subrange(i, i + 6) != "random"@ by {
        if i == 0 {
            assert(t.subrange(i, i + 6)[0] != "random"@[0]);
        }
    }
    lemma_replace_absent(t, "random"@, int_text((random_value) as int));
    // « randS » n'apparaît pas dans « imageH ».
    assert forall|i: int| 0 <= i && i + 5 <= t.len() implies #[trigger] t.subrange(i, i + 5) != "randS"@ by {
        if i == 0 {
            assert(t.subrange(i, i + 5)[0] != "randS"@[0]);
        } else if i == 1 {
            assert(t.subrange(i, i + 5)[0] != "randS"@[0]);
        }
    }
    lemma_replace_absent(t, "randS"@, int_text((ctx.rand_spawn) as int));
    // « screenW » n'apparaît pas dans « imageH ».
    lemma_replace_absent(t, "screenW"@, int_text((ctx.screen_w) as int));
    // « screenH » n'apparaît pas dans « imageH ».
    lemma_replace_absent(t, "screenH"@, int_text((ctx.screen_h) as int));
    // « areaW » n'apparaît pas dans « imageH ».
    assert forall|i: int| 0 <= i && i + 5 <= t.len() implies #[trigger] t.subrange(i, i + 5) != "areaW"@ by {
        if i == 0 {
            assert(t.subrange(i, i + 5)[0] != "areaW"@[0]);
        } else if i == 1 {
            assert(t.subrange(i, i + 5)[0] != "areaW"@[0]);
        }
    }
    lemma_replace_absent(t, "areaW"@, int_text((ctx.area_w) as int));
    // « areaH » n'apparaît pas dans « imageH ».
    assert forall|i: int| 0 <= i && i + 5 <= t.len() implies #[trigger] t.subrange(i, i + 5) != "areaH"@ by {
        if i == 0 {
            assert(t.subrange(i, i + 5)[0] != "areaH"@[0]);
        } else if i == 1 {
            assert(t.subrange(i, i + 5)[0] != "areaH"@[0]);
        }
    }
    lemma_replace_absent(t, "areaH"@, int_text((ctx.area_h) as int));
    // « imageW » n'apparaît pas dans « imageH ».
    assert forall|i: int| 0 <= i && i + 6 <= t.len() implies #[trigger] t.subrange(i, i + 6) != "imageW"@ by {
        if i == 0 {
            assert(t.subrange(i, i + 6)[5] != "imageW"@[5]);
        }
    }
    lemma_replace_absent(t, "imageW"@, int_text((ctx.image_w) as int));
    lemma_replace_whole(t, v);
    lemma_replace_in_number(v, "imageX"@, int_text((ctx.image_x) as int));
    lemma_replace_in_number(v, "imageY"@, int_text((ctx.image_y) as int));
    lemma_replace_in_number(v, "scale"@, int_text((ctx.scale) as int));
    lemma_evaluates_to("imageH"@, ctx, random_value, false, ctx.image_h);
}

/// Le jeton « imageX » seul devient l'écriture de sa valeur, et l'expression vaut cette valeur.
pub proof fn lemma_token_imageX(ctx: EvalContext, random_value: i32)
    ensures
        substituted("imageX"@, ctx, random_value, false) == int_text((ctx.image_x) as int),
        evaluated("imageX"@, ctx, random_value, false) == ctx.image_x,
{
    reveal_strlit("imageX");
    reveal_strlit("random");
    reveal_strlit("randS");
    reveal_strlit("screenW");
    reveal_strlit("screenH");
    reveal_strlit("areaW");
    reveal_strlit("areaH");
    reveal_strlit("imageW");
    reveal_strlit("imageH");
    reveal_strlit("imageX");
    reveal_strlit("imageY");
    reveal_strlit("scale");
    let t = "imageX"@;
    let v = int_text((ctx.image_x) as int);
    lemma_int_text_numeric((ctx.image_x) as int);
    // « random » n'apparaît pas dans « imageX ».
    assert forall|i: int| 0 <= i && i + 6 <= t.len() implies #[trigger] t.subrange(i, i + 6) != "random"@ by {
        if i == 0 {
            assert(t.subrange(i, i + 6)[0] != "random"@[0]);
        }
    }
    lemma_replace_absent(t, "random"@, int_text((random_value) as int));
    // « randS » n'apparaît pas dans « imageX ».
    assert forall|i: int| 0 <= i && i + 5 <= t.len() implies #[trigger] t.subrange(i, i + 5) != "randS"@ by {
        if i == 0 {
            assert(t.subrange(i, i + 5)[0] != "randS"@[0]);
        } else if i == 1 {
            assert(t.subrange(i, i + 5)[0] != "randS"@[0]);
        }
    }
    lemma_replace_absent(t, "randS"@, int_text((ctx.rand_spawn) as int));
    // « screenW » n'apparaît pas dans « imageX ».
    lemma_replace_absent(t, "screenW"@, int_text((ctx.screen_w) as int));
    // « screenH » n'apparaît pas dans « imageX ».
    lemma_replace_absent(t, "screenH"@, int_text((ctx.screen_h) as int));
    // « areaW » n'apparaît pas dans « imageX ».
    assert forall|i: int| 0 <= i && i + 5 <= t.len() implies #[trigger] t.subrange(i, i + 5) != "areaW"@ by {
        if i == 0 {
            assert(t.subrange(i, i + 5)[0] != "areaW"@[0]);
        } else if i == 1 {
            assert(t.subrange(i, i + 5)[0] != "areaW"@[0]);
        }
    }
    lemma_replace_absent(t, "areaW"@, int_text((ctx.area_w) as int));
    // « areaH » n'apparaît pas dans « imageX ».
    assert forall|i: int| 0 <= i && i + 5 <= t.len() implies #[trigger] t.subrange(i, i + 5) != "areaH"@ by {
        if i == 0 {
            assert(t.subrange(i, i + 5)[0] != "areaH"@[0]);
        } else if i == 1 {
            assert(t.subrange(i, i + 5)[0] != "areaH"@[0]);
        }
    }
    lemma_replace_absent(t, "areaH"@, int_text((ctx.area_h) as int));
    // « imageW » n'apparaît pas dans « imageX ».
    assert forall|i: int| 0 <= i && i + 6 <= t.len() implies #[trigger] t.subrange(i, i + 6) != "imageW"@ by {
        if i == 0 {
            assert(t.subrange(i, i + 6)[5] != "imageW"@[5]);
        }
    }
    lemma_replace_absent(t, "imageW"@, int_text((ctx.image_w) as int));
    // « imageH » n'apparaît pas dans « imageX ».
    assert forall|i: int| 0 <= i && i + 6 <= t.len() implies #[trigger] t.subrange(i, i + 6) != "imageH"@ by {
        if i == 0 {
            assert(t.subrange(i, i + 6)[5] != "imageH"@[5]);
        }
    }
    lemma_replace_absent(t, "imageH"@, int_text((ctx.image_h) as int));
    lemma_replace_whole(t, v);
    lemma_replace_in_number(v, "imageY"@, int_text((ctx.image_y) as int));
    lemma_replace_in_number(v, "scale"@, int_text((ctx.scale) as int));
    lemma_evaluates_to("imageX"@, ctx, random_value, false, ctx.image_x);
}

/// Le jeton « imageY » seul devient l'écriture de sa valeur, et l'expression vaut cette valeur.
pub proof fn lemma_token_imageY(ctx: EvalContext, random_value: i32)
    ensures
        substituted("imageY"@, ctx, random_value, false) == int_text((ctx.image_y) as int),
        evaluated("imageY"@, ctx, random_value, false) == ctx.image_y,
{
    reveal_strlit("imageY");
    reveal_strlit("random");
    reveal_strlit("randS");
    reveal_strlit("screenW");
    reveal_strlit("screenH");
    reveal_strlit("areaW");
    reveal_strlit("areaH");
    reveal_strlit("imageW");
    reveal_strlit("imageH");
    reveal_strlit("imageX");
    reveal_strlit("imageY");
    reveal_strlit("scale");
    let t = "imageY"@;
    let v = int_text((ctx.image_y) as int);
    lemma_int_text_numeric((ctx.image_y) as int);
    // « random » n'apparaît pas dans « imageY ».
    assert forall|i: int| 0 <= i && i + 6 <= t.len() implies #[trigger] t.subrange(i, i + 6) != "random"@ by {
        if i == 0 {
            assert(t.subrange(i, i + 6)[0] != "random"@[0]);
        }
    }
    lemma_replace_absent(t, "random"@, int_text((random_value) as int));
    // « randS » n'apparaît pas dans « imageY ».
    assert forall|i: int| 0 <= i && i + 5 <= t.len() implies #[trigger] t.subrange(i, i + 5) != "randS"@ by {
        if i == 0 {
            assert(t.subrange(i, i + 5)[0] != "randS"@[0]);
        } else if i == 1 {
            assert(t.subrange(i, i + 5)[0] != "randS"@[0]);
        }
    }
    lemma_replace_absent(t, "randS"@, int_text((ctx.rand_spawn) as int));
    // « screenW » n'apparaît pas dans « imageY ».
    lemma_replace_absent(t, "screenW"@, int_text((ctx.screen_w) as int));
    // « screenH » n'apparaît pas dans « imageY ».
    lemma_replace_absent(t, "screenH"@, int_text((ctx.screen_h) as int));
    // « areaW » n'apparaît pas dans « imageY ».
    assert forall|i: int| 0 <= i && i + 5 <= t.len() implies #[trigger] t.subrange(i, i + 5) != "areaW"@ by {
        if i == 0 {
            assert(t.subrange(i, i + 5)[0] != "areaW"@[0]);
        } else if i == 1 {
            assert(t.subrange(i, i + 5)[0] != "areaW"@[0]);
        }
    }
    lemma_replace_absent(t, "areaW"@, int_text((ctx.area_w) as int));
    // « areaH » n'apparaît pas dans « imageY ».
    assert forall|i: int| 0 <= i && i + 5 <= t.len() implies #[trigger] t.subrange(i, i + 5) != "areaH"@ by {
        if i == 0 {
            assert(t.subrange(i, i + 5)[0] != "areaH"@[0]);
        } else if i == 1 {
            assert(t.subrange(i, i + 5)[0] != "areaH"@[0]);
        }
    }
    lemma_replace_absent(t, "areaH"@, int_text((ctx.area_h) as int));
    // « imageW » n'apparaît pas dans « imageY ».
    assert forall|i: int| 0 <= i && i + 6 <= t.len() implies #[trigger] t.subrange(i, i + 6) != "imageW"@ by {
        if i == 0 {
            assert(t.subrange(i, i + 6)[5] != "imageW"@[5]);
        }
    }
    lemma_replace_absent(t, "imageW"@, int_text((ctx.image_w) as int));
    // « imageH » n'apparaît pas dans « imageY ».
    assert forall|i: int| 0 <= i && i + 6 <= t.len() implies #[trigger] t.subrange(i, i + 6) != "imageH"@ by {
        if i == 0 {
            assert(t.subrange(i, i + 6)[5] != "imageH"@[5]);
        }
    }
    lemma_replace_absent(t, "imageH"@, int_text((ctx.image_h) as int));
    // « imageX » n'apparaît pas dans « imageY ».
    assert forall|i: int| 0 <= i && i + 6 <= t.len() implies #[trigger] t.subrange(i, i + 6) != "imageX"@ by {
        if i == 0 {
            assert(t.subrange(i, i + 6)[5] != "imageX"@[5]);
        }
    }
    lemma_replace_absent(t, "imageX"@, int_text((ctx.image_x) as int));
    lemma_replace_whole(t, v);
    lemma_replace_in_number(v, "scale"@, int_text((ctx.scale) as int));
    lemma_evaluates_to("imageY"@, ctx, random_value, false, ctx.image_y);
}

/// Le jeton « scale » seul devient l'écriture de sa valeur, et l'expression vaut cette valeur.
pub proof fn lemma_token_scale(ctx: EvalContext, random_value: i32)
    ensures
        substituted("scale"@, ctx, random_value, false) == int_text((ctx.scale) as int),
        evaluated("scale"@, ctx, random_value, false) == ctx.scale,
{
    reveal_strlit("scale");
    reveal_strlit("random");
    reveal_strlit("randS");
    reveal_strlit("screenW");
    reveal_strlit("screenH");
    reveal_strlit("areaW");
    reveal_strlit("areaH");
    reveal_strlit("imageW");
    reveal_strlit("imageH");
    reveal_strlit("imageX");
    reveal_strlit("imageY");
    reveal_strlit("scale");
    let t = "scale"@;
    let v = int_text((ctx.scale) as int);
    lemma_int_text_numeric((ctx.scale) as int);
    // « random » n'apparaît pas dans « scale ».
    lemma_replace_absent(t, "random"@, int_text((random_value) as int));
    // « randS » n'apparaît pas dans « scale ».
    assert forall|i: int| 0 <= i && i + 5 <= t.len() implies #[trigger] t.subrange(i, i + 5) != "randS"@ by {
        if i == 0 {
            assert(t.subrange(i, i + 5)[0] != "randS"@[0]);
        }
    }
    lemma_replace_absent(t, "randS"@, int_text((ctx.rand_spawn) as int));
    // « screenW » n'apparaît pas dans « scale ».
    lemma_replace_absent(t, "screenW"@, int_text((ctx.screen_w) as int));
    // « screenH » n'apparaît pas dans « scale ».
    lemma_replace_absent(t, "screenH"@, int_text((ctx.screen_h) as int));
    // « areaW » n'apparaît pas dans « scale ».
    assert forall|i: int| 0 <= i && i + 5 <= t.len() implies #[trigger] t.subrange(i, i + 5) != "areaW"@ by {
        if i == 0 {
            assert(t.subrange(i, i + 5)[0] != "areaW"@[0]);
        }
    }
    lemma_replace_absent(t, "areaW"@, int_text((ctx.area_w) as int));
    // « areaH » n'apparaît pas dans « scale ».
    assert forall|i: int| 0 <= i && i + 5 <= t.len() implies #[trigger] t.subrange(i, i + 5) != "areaH"@ by {
        if i == 0 {
            assert(t.subrange(i, i + 5)[0] != "areaH"@[0]);
        }
    }
    lemma_replace_absent(t, "areaH"@, int_text((ctx.area_h) as int));
    // « imageW » n'apparaît pas dans « scale ».
    lemma_replace_absent(t, "imageW"@, int_text((ctx.image_w) as int));
    // « imageH » n'apparaît pas dans « scale ».
    lemma_replace_absent(t, "imageH"@, int_text((ctx.image_h) as int));
    // « imageX » n'apparaît pas dans « scale ».
    lemma_replace_absent(t, "imageX"@, int_text((ctx.image_x) as int));
    // « imageY » n'apparaît pas dans « scale ».
    lemma_replace_absent(t, "imageY"@, int_text((ctx.image_y) as int));
    lemma_replace_whole(t, v);
    lemma_evaluates_to("scale"@, ctx, random_value, false, ctx.scale);
}

} // verus!
