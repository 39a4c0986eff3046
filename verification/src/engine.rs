//! Pilote du moteur, indépendant de D-Bus et du disque : un pet chargé, son
//! troupeau, et chaque pas converti en images affichables (`PetFrame`).

use vstd::prelude::*;
use std::sync::Arc;
use crate::arith::Ratio;
use crate::context::{added, extends, Draw, PetRng, SeededRng};
use crate::flock::{advanced, flock_ok, Flock, FlockState};
use crate::geometry::{Rect, World};
use crate::model::{FormatError, ImageDef, PetDefinition};
use crate::parse::{parse_pet, pet_outcome};
use crate::xml::{tree_of, xml_items};
use crate::pet::{dragged_to, drawn, fresh_state, share, spawned, started_named, PetState, SpriteDraw};
use crate::sprites::{decode_sheet, sheet_result, SpriteSheet};

verus! {

broadcast use crate::context::group_draw_log;

#[verifier::external_type_specification]
#[verifier::external_body]
pub struct ExIoError(std::io::Error);

/// Image à afficher pour un pas donné. Opacité sur 0–255 (échelle Clutter).
#[derive(Debug, Clone, Copy, PartialEq, Eq, Structural)]
pub struct PetFrame {
    pub x: i32,
    pub y: i32,
    pub tile: u32,
    pub flipped: bool,
    pub opacity: u32,
}

/// Ce que l'extension doit savoir pour afficher : le PNG et sa grille.
#[derive(Debug, Clone)]
pub struct SpriteInfo {
    pub sheet_path: String,
    pub tile_w: u32,
    pub tile_h: u32,
    pub columns: u32,
}

/// Erreur de chargement d'un pet.
#[derive(Debug)]
pub enum EngineError {
    /// Entrée/sortie.
    Io(std::io::Error),
    /// Format du pet.
    Format(FormatError),
}

/// Opacité sur 0–255 : bornée à `[0, 1]`, multipliée par 255 et arrondie
/// au plus proche (moitié vers le haut).
pub open spec fn opacity_255(o: Ratio) -> u32 {
    if o.num <= 0 {
        0
    } else if o.num >= o.den {
        255
    } else {
        (((510 * o.num) / (o.den as int) + 1) / 2) as u32
    }
}

/// L'image d'un dessin : tuile négative ramenée à 0.
pub open spec fn frame_of(d: SpriteDraw) -> PetFrame {
    PetFrame {
        x: d.x,
        y: d.y,
        tile: if d.frame > 0 {
            d.frame as u32
        } else {
            0
        },
        flipped: d.flipped,
        opacity: opacity_255(d.opacity),
    }
}

pub open spec fn frame_fn() -> spec_fn(PetState) -> PetFrame {
    |p: PetState| frame_of(drawn(p))
}

/// `floor(510 * num / den)` par divisions successives, sans dépassement.
fn scaled_quotient(num: i128, den: i128) -> (r: u32)
    requires
        0 < num < den,
    ensures
        r == (510 * num) / (den as int),
{
    let a: u128 = num as u128;
    let b: u128 = den as u128;
    let mut q: u32 = 0;
    let mut rem: u128 = 0;
    let mut k: u32 = 0;
    while k < 510
        invariant
            0 < a < b,
            b == den,
            a == num,
            k <= 510,
            q <= k,
            rem < b,
            k * a == q * b + rem,
        decreases 510 - k,
    {
        let ghost (q0, r0, k0) = (q, rem, k);
        rem = rem + a;
        if rem >= b {
            rem = rem - b;
            q = q + 1;
        }
        k = k + 1;
        proof {
            assert(k * a == k0 * a + a) by (nonlinear_arith)
                requires
                    k == k0 + 1,
            ;
            if q == q0 + 1 {
                assert(q * b == q0 * b + b) by (nonlinear_arith)
                    requires
                        q == q0 + 1,
                ;
            }
        }
    }
    proof {
        assert(510 * num == q * den + rem);
        assert((510 * num) / (den as int) == q) by (nonlinear_arith)
            requires
                510 * num == q * den + rem,
                0 <= rem < den,
        ;
    }
    q
}

/// Opacité sur 0–255.
pub fn opacity_to_255(o: Ratio) -> (r: u32)
    ensures
        r == opacity_255(o),
{
    if o.num <= 0 {
        0
    } else if o.num >= o.den {
        255
    } else {
        let t = scaled_quotient(o.num, o.den);
        proof {
            assert((510 * o.num) / (o.den as int) <= 510) by (nonlinear_arith)
                requires
                    0 < o.num < o.den,
            ;
        }
        (t + 1) / 2
    }
}

/// L'image à afficher pour un dessin.
pub fn frame_from_draw(d: SpriteDraw) -> (r: PetFrame)
    ensures
        r == frame_of(d),
{
    PetFrame {
        x: d.x,
        y: d.y,
        tile: if d.frame > 0 {
            d.frame as u32
        } else {
            0
        },
        flipped: d.flipped,
        opacity: opacity_to_255(d.opacity),
    }
}

/// `s` est le spritesheet décodé de l'image `image`.
pub open spec fn decoded_from(image: ImageDef, s: SpriteSheet) -> bool {
    sheet_result(image, Ok(s))
}

/// Lit un pet : définition et spritesheet décodé. Une erreur de lecture ou
/// de décodage est rendue telle quelle.
pub fn load_definition(xml: &str) -> (r: Result<(PetDefinition, SpriteSheet), EngineError>)
    ensures
        match xml_items(xml@) {
            None => r matches Err(EngineError::Format(FormatError::Xml(_))),
            Some(items) => {
                let ns = tree_of(items).nodes;
                let top = tree_of(items).stack.last();
                match r {
                    Ok((d, s)) => pet_outcome(Ok(d), ns, top) && decoded_from(d.image, s),
                    Err(EngineError::Format(e)) => pet_outcome(Err(e), ns, top) || exists|d: PetDefinition|
                        pet_outcome(Ok(d), ns, top) && sheet_result(d.image, Err(e)),
                    Err(_) => false,
                }
            },
        },
{
    let definition = match parse_pet(xml) {
        Ok(d) => d,
        Err(e) => {
            return Err(EngineError::Format(e));
        },
    };
    match decode_sheet(&definition.image) {
        Ok(sheet) => Ok((definition, sheet)),
        Err(e) => Err(EngineError::Format(e)),
    }
}

/// Pilote complet d'un troupeau vivant (pet principal + enfants).
pub struct Engine {
    definition: Arc<PetDefinition>,
    tile: (i32, i32),
    columns: u32,
    sheet_path: String,
    rng: SeededRng,
    world: World,
    flock: Option<Flock>,
    /// Chemins des sons écrits en cache, alignés sur `definition.sounds`.
    sound_paths: Vec<String>,
}

impl Engine {
    /// Le troupeau, s'il a été configuré.
    pub closed spec fn flock_state(&self) -> Option<FlockState> {
        match self.flock {
            Some(f) => Some(f@),
            None => None,
        }
    }

    /// Le monde courant.
    pub closed spec fn world_state(&self) -> World {
        self.world
    }

    /// Définition, tuile et chemins des sons.
    pub closed spec fn definition_state(&self) -> PetDefinition {
        *self.definition
    }

    pub closed spec fn tile_state(&self) -> (i32, i32) {
        self.tile
    }

    pub closed spec fn sound_paths_state(&self) -> Seq<String> {
        self.sound_paths@
    }

    /// Chemin du PNG et nombre de colonnes de la grille.
    pub closed spec fn sheet_state(&self) -> (Seq<char>, u32) {
        (self.sheet_path@, self.columns)
    }

    /// Le troupeau configuré est bien formé.
    /// Journal des tirages du générateur.
    pub closed spec fn drawn_state(&self) -> Seq<Draw> {
        self.rng.drawn()
    }

    pub open spec fn ok(&self) -> bool {
        self.flock_state() matches Some(f) ==> flock_ok(f)
    }

    /// Assemble le pilote d'un pet lu, dont le spritesheet est écrit en
    /// `sheet_path`. Le pet n'apparaît qu'au premier `configure`.
    pub fn assemble(
        definition: PetDefinition,
        sheet: &SpriteSheet,
        sheet_path: String,
        seed: u64,
        sound_paths: Vec<String>,
    ) -> (r: Engine)
        ensures
            r.ok(),
            r.flock_state() is None,
            r.definition_state() == definition,
            r.tile_state() == (sheet.tile_w as i32, sheet.tile_h as i32),
            r.sound_paths_state() == sound_paths@,
            r.sheet_state() == (sheet_path@, sheet.tiles_x),
            r.world_state().bounds == (Rect { x: 0, y: 0, w: 1, h: 1 }),
            r.drawn_state() == Seq::<Draw>::empty(),
    {
        Engine {
            definition: Arc::new(definition),
            tile: (sheet.tile_w as i32, sheet.tile_h as i32),
            columns: sheet.tiles_x,
            sheet_path,
            rng: SeededRng::new(seed),
            // Monde provisoire, remplacé au premier configure.
            world: World::simple(1, 1),
            flock: None,
            sound_paths,
        }
    }

    /// Informations d'affichage du spritesheet.
    pub fn sprite_info(&self) -> (r: SpriteInfo)
        ensures
            r.sheet_path@ == self.sheet_state().0,
            r.tile_w == self.tile_state().0 as u32,
            r.tile_h == self.tile_state().1 as u32,
            r.columns == self.sheet_state().1,
    {
        SpriteInfo {
            sheet_path: self.sheet_path.clone(),
            tile_w: self.tile.0 as u32,
            tile_h: self.tile.1 as u32,
            columns: self.columns,
        }
    }

    /// (Ré)initialise le monde à partir de la géométrie de l'écran, et fait
    /// (ré)apparaître le troupeau.
    pub fn configure(&mut self, bounds: Rect, area: Rect)
        ensures
            final(self).ok(),
            final(self).world_state().bounds == bounds,
            final(self).world_state().area == area,
            final(self).world_state().windows@.len() == 0,
            final(self).definition_state() == old(self).definition_state(),
            final(self).tile_state() == old(self).tile_state(),
            final(self).flock_state() matches Some(f) && f.pets.len() == 1 && f.due == seq![0i64]
                && f.definition == old(self).definition_state() && f.tile == old(self).tile_state()
                && spawned(
                fresh_state(old(self).definition_state(), old(self).tile_state(), final(self).world_state()),
                f.pets[0],
                final(self).world_state(),
                added(old(self).drawn_state(), final(self).drawn_state()),
            ),
            extends(old(self).drawn_state(), final(self).drawn_state()),
    {
        self.world = World { bounds, area, windows: Vec::new() };
        let mut flock = Flock::new(share(&self.definition), self.tile, &self.world);
        flock.spawn(&self.world, &mut self.rng);
        self.flock = Some(flock);
    }

    /// Met à jour les fenêtres sur lesquelles le pet peut marcher.
    pub fn set_windows(&mut self, windows: Vec<Rect>)
        ensures
            final(self).world_state() == (World { windows, ..old(self).world_state() }),
            final(self).flock_state() == old(self).flock_state(),
            final(self).ok() == old(self).ok(),
            final(self).drawn_state() == old(self).drawn_state(),
    {
        self.world.windows = windows;
    }

    /// Fait passer `elapsed_ms` millisecondes et retourne les images à
    /// afficher, le pet principal en tête.
    pub fn advance(&mut self, elapsed_ms: i64) -> (r: Vec<PetFrame>)
        requires
            old(self).ok(),
            old(self).flock_state() matches Some(f) ==> elapsed_ms >= 0 || forall|k: int|
                0 <= k < f.due.len() ==> #[trigger] f.due[k] - elapsed_ms <= i64::MAX,
        ensures
            final(self).ok(),
            final(self).world_state() == old(self).world_state(),
            match old(self).flock_state() {
                Some(f) => final(self).flock_state() matches Some(g) && advanced(
                    f,
                    g,
                    old(self).world_state(),
                    elapsed_ms,
                    old(self).drawn_state(),
                    final(self).drawn_state(),
                ) && r@ == g.pets.map_values(frame_fn()) && r@.len() >= 1,
                None => final(self).flock_state() is None && r@.len() == 0 && final(self).drawn_state()
                    == old(self).drawn_state(),
            },
            extends(old(self).drawn_state(), final(self).drawn_state()),
    {
        match self.flock.as_mut() {
            None => Vec::new(),
            Some(flock) => {
                flock.advance(&self.world, &mut self.rng, elapsed_ms);
                let draws = flock.draws();
                let mut frames: Vec<PetFrame> = Vec::new();
                let mut i: usize = 0;
                while i < draws.len()
                    invariant
                        i <= draws@.len(),
                        frames@.len() == i,
                        forall|k: int| 0 <= k < i ==> #[trigger] frames@[k] == frame_of(draws@[k]),
                    decreases draws@.len() - i,
                {
                    frames.push(frame_from_draw(draws[i]));
                    i = i + 1;
                }
                proof {
                    assert(frames@ =~= flock@.pets.map_values(frame_fn()));
                }
                frames
            },
        }
    }

    /// Chemins des sons tirés par le troupeau depuis le dernier appel (un
    /// index sans chemin est ignoré).
    pub fn take_sound_paths(&mut self) -> (r: Vec<String>)
        requires
            old(self).ok(),
        ensures
            final(self).ok(),
            match old(self).flock_state() {
                None => r@.len() == 0 && final(self).flock_state() is None,
                Some(f) => final(self).flock_state() matches Some(g) && g.due == f.due && g.pets.len()
                    == f.pets.len() && r@.map_values(|s: String| s@) == f.pets.filter_map(
                    |p: PetState| p.pending_sound,
                ).filter_map(|i: usize| if i < old(self).sound_paths_state().len() {
                    Some(old(self).sound_paths_state()[i as int]@)
                } else {
                    None
                }),
            },
    {
        let ghost paths = self.sound_paths@;
        match self.flock.as_mut() {
            None => Vec::new(),
            Some(flock) => {
                let indices = flock.take_sounds();
                let ghost g = |i: usize| if i < paths.len() {
                    Some(paths[i as int]@)
                } else {
                    None
                };
                let mut out: Vec<String> = Vec::new();
                let mut k: usize = 0;
                proof {
                    assert(indices@.take(0).filter_map(g) =~= Seq::<Seq<char>>::empty());
                    assert(out@.map_values(|s: String| s@) =~= Seq::<Seq<char>>::empty());
                }
                while k < indices.len()
                    invariant
                        k <= indices@.len(),
                        self.sound_paths@ == paths,
                        g == (|i: usize| if i < paths.len() {
                            Some(paths[i as int]@)
                        } else {
                            None
                        }),
                        out@.map_values(|s: String| s@) == indices@.take(k as int).filter_map(g),
                    decreases indices@.len() - k,
                {
                    proof {
                        indices@.lemma_filter_map_take_succ(g, k as int);
                    }
                    let index = indices[k];
                    if index < self.sound_paths.len() {
                        let p = self.sound_paths[index].clone();
                        let ghost before = out@;
                        out.push(p);
                        proof {
                            assert(out@.map_values(|s: String| s@) =~= before.map_values(|s: String| s@).push(
                                paths[index as int]@,
                            ));
                        }
                    }
                    k = k + 1;
                }
                proof {
                    assert(indices@.take(indices@.len() as int) =~= indices@);
                }
                out
            },
        }
    }

    /// Le pet principal est attrapé à la souris : physique suspendue.
    pub fn begin_drag(&mut self)
        requires
            old(self).ok(),
        ensures
            final(self).ok(),
            final(self).world_state() == old(self).world_state(),
            match old(self).flock_state() {
                Some(f) => final(self).flock_state() matches Some(g) && g.due == f.due && g.pets.len()
                    == f.pets.len() && g.pets.skip(1) == f.pets.skip(1) && started_named(
                    PetState { dragging: true, ..f.pets[0] },
                    g.pets[0],
                    "drag"@,
                    old(self).world_state(),
                    added(old(self).drawn_state(), final(self).drawn_state()),
                ),
                None => final(self).flock_state() is None && final(self).drawn_state() == old(
                    self,
                ).drawn_state(),
            },
            extends(old(self).drawn_state(), final(self).drawn_state()),
    {
        if let Some(flock) = self.flock.as_mut() {
            flock.main_pet_mut().begin_drag(&self.world, &mut self.rng);
        }
    }

    /// Le curseur a bougé pendant le glisser.
    pub fn drag_to(&mut self, x: i32, y: i32)
        requires
            old(self).ok(),
        ensures
            final(self).ok(),
            final(self).world_state() == old(self).world_state(),
            match old(self).flock_state() {
                Some(f) => final(self).flock_state() == Some(
                    FlockState { pets: f.pets.update(0, dragged_to(f.pets[0], x, y)), ..f },
                ),
                None => final(self).flock_state() is None,
            },
    {
        if let Some(flock) = self.flock.as_mut() {
            flock.main_pet_mut().drag_to(x, y);
        }
    }

    /// Le pet principal est relâché : il retombe.
    pub fn end_drag(&mut self)
        requires
            old(self).ok(),
        ensures
            final(self).ok(),
            final(self).world_state() == old(self).world_state(),
            match old(self).flock_state() {
                Some(f) => final(self).flock_state() matches Some(g) && g.due == f.due && g.pets.len()
                    == f.pets.len() && g.pets.skip(1) == f.pets.skip(1) && started_named(
                    PetState { dragging: false, ..f.pets[0] },
                    g.pets[0],
                    "fall"@,
                    old(self).world_state(),
                    added(old(self).drawn_state(), final(self).drawn_state()),
                ),
                None => final(self).flock_state() is None && final(self).drawn_state() == old(
                    self,
                ).drawn_state(),
            },
            extends(old(self).drawn_state(), final(self).drawn_state()),
    {
        if let Some(flock) = self.flock.as_mut() {
            flock.main_pet_mut().end_drag(&self.world, &mut self.rng);
        }
    }

    /// Délai avant la prochaine échéance du troupeau, en millisecondes
    /// (100 avant le premier `configure`).
    pub fn interval_ms(&self) -> (r: u64)
        ensures
            match self.flock_state() {
                Some(f) => r == crate::flock::next_wait(f.due),
                None => r == 100,
            },
            r >= 1,
    {
        match &self.flock {
            Some(f) => {
                let w = f.next_wait_ms();
                if w > 1 {
                    w as u64
                } else {
                    1
                }
            },
            None => 100,
        }
    }
}


/// L'opacité affichée reste dans l'échelle 0–255 ; une fraction nulle ou
/// négative est invisible, une fraction d'au moins 1 est opaque.
pub proof fn lemma_opacity_in_scale(o: Ratio)
    ensures
        opacity_255(o) <= 255,
        o.num <= 0 ==> opacity_255(o) == 0,
        o.num > 0 && o.num >= o.den ==> opacity_255(o) == 255,
{
    if 0 < o.num < o.den {
        assert((510 * o.num) / (o.den as int) < 510) by (nonlinear_arith)
            requires
                0 < o.num < o.den,
        ;
        assert(0 <= (510 * o.num) / (o.den as int)) by (nonlinear_arith)
            requires
                0 < o.num < o.den,
        ;
    }
}

} // verus!
