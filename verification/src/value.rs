//! Valeur d'animation : expression, classification statique, valeur calculée.

use vstd::prelude::*;
use crate::context::{eval, evaluated, EvalContext, PetRng};
use crate::text::{chars_of, contains, contains_seq};

verus! {

/// Une valeur issue du XML : l'expression source, sa classification, et la
/// dernière valeur calculée.
#[derive(Debug)]
pub struct PetValue {
    /// Expression telle qu'écrite dans le XML.
    pub compute: String,
    /// Doit être réévaluée à chaque démarrage d'animation.
    pub is_dynamic: bool,
    /// Dépend des dimensions de l'écran : à recalculer au changement de moniteur.
    pub is_screen: bool,
    /// Dernière valeur calculée.
    pub value: i32,
}

/// L'expression dépend de l'aléa ou de la position du parent.
pub open spec fn dynamic_expr(compute: Seq<char>) -> bool {
    contains_seq(compute, "random"@) || contains_seq(compute, "randS"@) || contains_seq(
        compute,
        "imageX"@,
    ) || contains_seq(compute, "imageY"@)
}

/// L'expression dépend des dimensions de l'écran.
pub open spec fn screen_expr(compute: Seq<char>) -> bool {
    contains_seq(compute, "screen"@) || contains_seq(compute, "area"@)
}

fn mentions(s: &Vec<char>, token: &str) -> (r: bool)
    ensures
        r == contains_seq(s@, token@),
{
    let pat = chars_of(token);
    contains(s, &pat)
}

impl PetValue {
    /// Construit la valeur et la classe, sans l'évaluer.
    pub fn new(compute: String) -> (r: Self)
        ensures
            r.compute == compute,
            r.is_dynamic == dynamic_expr(compute@),
            r.is_screen == screen_expr(compute@),
            r.value == 0,
    {
        let chars = chars_of(compute.as_str());
        let is_dynamic = mentions(&chars, "random") || mentions(&chars, "randS") || mentions(
            &chars,
            "imageX",
        ) || mentions(&chars, "imageY");
        let is_screen = mentions(&chars, "screen") || mentions(&chars, "area");
        PetValue { compute, is_dynamic, is_screen, value: 0 }
    }

    /// Recalcule la valeur à partir du contexte courant ; `random` prend une
    /// valeur tirée dans `[0, 100]`.
    pub fn update<R: PetRng>(&mut self, ctx: &EvalContext, rng: &mut R, parent_flipped: bool)
        ensures
            final(self).compute == old(self).compute,
            final(self).is_dynamic == old(self).is_dynamic,
            final(self).is_screen == old(self).is_screen,
            exists|random_value: i32|
                0 <= random_value <= 100 && final(self).value == evaluated(
                    old(self).compute@,
                    *ctx,
                    random_value,
                    parent_flipped,
                ),
            final(rng).drawn() == old(rng).drawn().push((0, 100, final(rng).drawn().last().2)),
            final(self).value == evaluated(old(self).compute@, *ctx, final(rng).drawn().last().2, parent_flipped),
    {
        self.value = eval(self.compute.as_str(), ctx, rng, parent_flipped);
    }

    /// Dernière valeur calculée.
    pub fn get(&self) -> (r: i32)
        ensures
            r == self.value,
    {
        self.value
    }

    /// Copie exacte de la valeur.
    pub fn duplicate(&self) -> (r: Self)
        ensures
            r == *self,
    {
        PetValue {
            compute: self.compute.clone(),
            is_dynamic: self.is_dynamic,
            is_screen: self.is_screen,
            value: self.value,
        }
    }
}

} // verus!
