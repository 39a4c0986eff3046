//! Structures issues du fichier `animations.xml`.

use vstd::prelude::*;
use crate::arith::Ratio;
use crate::text::{chars_eq, chars_of};
use crate::value::PetValue;

verus! {

/// Filtre contextuel d'une transition : l'un des cinq masques du format.
#[allow(non_camel_case_types)]
#[derive(Debug, Clone, Copy, PartialEq, Eq, Structural)]
pub enum OnlyFlags {
    /// Masque « tous les contextes » (0x7F).
    NONE,
    /// Barre des tâches (0x01).
    TASKBAR,
    /// Fenêtre (0x02).
    WINDOW,
    /// Bord haut ou bas (0x04).
    HORIZONTAL,
    /// Bord gauche ou droit (0x08).
    VERTICAL,
}

/// Champ de bits d'un masque.
pub open spec fn flag_bits(f: OnlyFlags) -> u8 {
    match f {
        OnlyFlags::NONE => 0x7F,
        OnlyFlags::TASKBAR => 0x01,
        OnlyFlags::WINDOW => 0x02,
        OnlyFlags::HORIZONTAL => 0x04,
        OnlyFlags::VERTICAL => 0x08,
    }
}

/// Lecture d'un attribut `only` ; toute valeur inconnue vaut « tous ».
pub open spec fn only_of(s: Seq<char>) -> OnlyFlags {
    if s == "taskbar"@ {
        OnlyFlags::TASKBAR
    } else if s == "window"@ {
        OnlyFlags::WINDOW
    } else if s == "horizontal"@ || s == "horizontal+"@ {
        OnlyFlags::HORIZONTAL
    } else if s == "vertical"@ {
        OnlyFlags::VERTICAL
    } else {
        OnlyFlags::NONE
    }
}

/// Une transition de masque `only` est jouable dans le contexte donné.
pub open spec fn only_allows(only: OnlyFlags, context: OnlyFlags) -> bool {
    only == OnlyFlags::NONE || (flag_bits(only) & flag_bits(context)) != 0
}

/// Masques des cinq contextes : deux masques distincts ne partagent un bit
/// que si l'un est « tous ».
proof fn lemma_flag_bits_meet(a: OnlyFlags, b: OnlyFlags)
    ensures
        ((flag_bits(a) & flag_bits(b)) != 0) <==> (a == b || a == OnlyFlags::NONE || b == OnlyFlags::NONE),
{
    assert((0x7Fu8 & 0x7Fu8) == (0x7Fu8 & 0x7Fu8) && ((0x7Fu8 & 0x7Fu8) != 0u8) == true) by (bit_vector);
    assert((0x7Fu8 & 0x01u8) == (0x01u8 & 0x7Fu8) && ((0x7Fu8 & 0x01u8) != 0u8) == true) by (bit_vector);
    assert((0x7Fu8 & 0x02u8) == (0x02u8 & 0x7Fu8) && ((0x7Fu8 & 0x02u8) != 0u8) == true) by (bit_vector);
    assert((0x7Fu8 & 0x04u8) == (0x04u8 & 0x7Fu8) && ((0x7Fu8 & 0x04u8) != 0u8) == true) by (bit_vector);
    assert((0x7Fu8 & 0x08u8) == (0x08u8 & 0x7Fu8) && ((0x7Fu8 & 0x08u8) != 0u8) == true) by (bit_vector);
    assert((0x01u8 & 0x01u8) == (0x01u8 & 0x01u8) && ((0x01u8 & 0x01u8) != 0u8) == true) by (bit_vector);
    assert((0x01u8 & 0x02u8) == (0x02u8 & 0x01u8) && ((0x01u8 & 0x02u8) != 0u8) == false) by (bit_vector);
    assert((0x01u8 & 0x04u8) == (0x04u8 & 0x01u8) && ((0x01u8 & 0x04u8) != 0u8) == false) by (bit_vector);
    assert((0x01u8 & 0x08u8) == (0x08u8 & 0x01u8) && ((0x01u8 & 0x08u8) != 0u8) == false) by (bit_vector);
    assert((0x02u8 & 0x02u8) == (0x02u8 & 0x02u8) && ((0x02u8 & 0x02u8) != 0u8) == true) by (bit_vector);
    assert((0x02u8 & 0x04u8) == (0x04u8 & 0x02u8) && ((0x02u8 & 0x04u8) != 0u8) == false) by (bit_vector);
    assert((0x02u8 & 0x08u8) == (0x08u8 & 0x02u8) && ((0x02u8 & 0x08u8) != 0u8) == false) by (bit_vector);
    assert((0x04u8 & 0x04u8) == (0x04u8 & 0x04u8) && ((0x04u8 & 0x04u8) != 0u8) == true) by (bit_vector);
    assert((0x04u8 & 0x08u8) == (0x08u8 & 0x04u8) && ((0x04u8 & 0x08u8) != 0u8) == false) by (bit_vector);
    assert((0x08u8 & 0x08u8) == (0x08u8 & 0x08u8) && ((0x08u8 & 0x08u8) != 0u8) == true) by (bit_vector);
}

/// Chaque mot-clé `only` lit son propre masque : il n'autorise que son
/// contexte (et le contexte « tous ») ; `horizontal+` vaut `horizontal` ;
/// un texte inconnu autorise tout contexte.
pub proof fn lemma_only_keywords(c: OnlyFlags)
    ensures
        only_allows(only_of("taskbar"@), c) <==> (c == OnlyFlags::TASKBAR || c == OnlyFlags::NONE),
        only_allows(only_of("window"@), c) <==> (c == OnlyFlags::WINDOW || c == OnlyFlags::NONE),
        only_allows(only_of("horizontal"@), c) <==> (c == OnlyFlags::HORIZONTAL || c == OnlyFlags::NONE),
        only_of("horizontal+"@) == only_of("horizontal"@),
        only_allows(only_of("vertical"@), c) <==> (c == OnlyFlags::VERTICAL || c == OnlyFlags::NONE),
        only_allows(only_of("none"@), c),
        only_allows(only_of(""@), c),
{
    reveal_strlit("taskbar");
    reveal_strlit("window");
    reveal_strlit("horizontal");
    reveal_strlit("horizontal+");
    reveal_strlit("vertical");
    reveal_strlit("none");
    reveal_strlit("");
    assert("window"@.len() == 6 && "taskbar"@.len() == 7);
    assert("horizontal+"@.len() == 11 && "horizontal"@.len() == 10);
    assert("window"@ != "taskbar"@);
    assert("horizontal+"@ != "taskbar"@ && "horizontal+"@ != "window"@);
    assert("horizontal"@ != "taskbar"@ && "horizontal"@ != "window"@);
    assert(only_of("window"@) == OnlyFlags::WINDOW);
    assert(only_of("horizontal"@) == OnlyFlags::HORIZONTAL);
    assert(only_of("horizontal+"@) == OnlyFlags::HORIZONTAL);
    assert("none"@.len() == 4 && ""@.len() == 0 && "vertical"@.len() == 8);
    assert(only_of("none"@) == OnlyFlags::NONE);
    assert(only_of(""@) == OnlyFlags::NONE);
    lemma_flag_bits_meet(OnlyFlags::TASKBAR, c);
    lemma_flag_bits_meet(OnlyFlags::WINDOW, c);
    lemma_flag_bits_meet(OnlyFlags::HORIZONTAL, c);
    lemma_flag_bits_meet(OnlyFlags::VERTICAL, c);
}

fn same_text(s: &Vec<char>, lit: &str) -> (r: bool)
    ensures
        r == (s@ == lit@),
{
    let l = chars_of(lit);
    chars_eq(s, &l)
}

impl OnlyFlags {
    /// Champ de bits du masque.
    pub fn bits(&self) -> (r: u8)
        ensures
            r == flag_bits(*self),
    {
        match self {
            OnlyFlags::NONE => 0x7F,
            OnlyFlags::TASKBAR => 0x01,
            OnlyFlags::WINDOW => 0x02,
            OnlyFlags::HORIZONTAL => 0x04,
            OnlyFlags::VERTICAL => 0x08,
        }
    }

    /// Lit un attribut `only`. Toute valeur inconnue vaut `NONE`.
    pub fn parse(s: &str) -> (r: OnlyFlags)
        ensures
            r == only_of(s@),
    {
        let v = chars_of(s);
        if same_text(&v, "taskbar") {
            OnlyFlags::TASKBAR
        } else if same_text(&v, "window") {
            OnlyFlags::WINDOW
        } else if same_text(&v, "horizontal") || same_text(&v, "horizontal+") {
            // `horizontal+` est une variante d'horizontal.
            OnlyFlags::HORIZONTAL
        } else if same_text(&v, "vertical") {
            OnlyFlags::VERTICAL
        } else {
            OnlyFlags::NONE
        }
    }

    /// Vrai si cette transition est jouable dans le contexte donné.
    pub fn allows(&self, context: OnlyFlags) -> (r: bool)
        ensures
            r == only_allows(*self, context),
    {
        *self == OnlyFlags::NONE || (self.bits() & context.bits()) != 0
    }
}

/// Erreur de lecture d'un pet.
#[derive(Debug)]
pub enum FormatError {
    /// XML invalide.
    Xml(String),
    /// Élément racine `<animations>` absent.
    MissingRoot,
    /// Élément obligatoire absent.
    MissingElement(&'static str),
    /// Base64 invalide.
    Base64(String),
    /// Image invalide.
    Image(String),
}

/// En-tête descriptif du pet.
#[derive(Debug, Clone)]
pub struct Header {
    pub author: String,
    pub title: String,
    pub petname: String,
    pub version: String,
    pub info: String,
    /// Version du format ; vaut 1.
    pub application: i32,
    /// Icône ICO en base64.
    pub icon: String,
}

/// Spritesheet et son découpage.
#[derive(Debug, Clone)]
pub struct ImageDef {
    pub tiles_x: u32,
    pub tiles_y: u32,
    pub png_base64: String,
    /// Couleur clé de transparence, « Magenta » par défaut.
    pub transparency: String,
}

/// Un bout de mouvement : début ou fin d'animation.
#[derive(Debug)]
pub struct Movement {
    /// Vitesse horizontale par frame (expression).
    pub x: PetValue,
    /// Vitesse verticale par frame (expression).
    pub y: PetValue,
    /// Durée d'une frame en millisecondes (expression).
    pub interval: PetValue,
    pub offset_y: i32,
    /// Opacité, fraction exacte (1 = opaque).
    pub opacity: Ratio,
}

impl Movement {
    /// Copie exacte.
    pub fn duplicate(&self) -> (r: Self)
        ensures
            r == *self,
    {
        Movement {
            x: self.x.duplicate(),
            y: self.y.duplicate(),
            interval: self.interval.duplicate(),
            offset_y: self.offset_y,
            opacity: self.opacity,
        }
    }
}

/// Transition vers une autre animation.
#[derive(Debug, Clone, Copy, PartialEq, Eq)]
pub struct NextAnimation {
    pub id: i32,
    /// Poids relatif de tirage, pas un pourcentage.
    pub probability: i32,
    pub only: OnlyFlags,
}

/// Suite de frames d'une animation.
#[derive(Debug)]
pub struct Sequence {
    /// Nombre de répétitions supplémentaires (expression).
    pub repeat: PetValue,
    /// Index 0-based de la frame à partir de laquelle on répète.
    pub repeat_from: i32,
    pub frames: Vec<i32>,
    /// Seule valeur reconnue : « flip ».
    pub action: Option<String>,
    pub next: Vec<NextAnimation>,
}

/// Une animation complète.
#[derive(Debug)]
pub struct Animation {
    pub id: i32,
    pub name: String,
    pub start: Movement,
    /// Absent, il vaut `start`.
    pub end: Option<Movement>,
    pub sequence: Sequence,
    pub border: Vec<NextAnimation>,
    pub gravity: Vec<NextAnimation>,
}

impl Animation {
    /// Vrai si l'animation réagit aux bords.
    pub fn has_border(&self) -> (r: bool)
        ensures
            r == (self.border@.len() > 0),
    {
        self.border.len() != 0
    }

    /// Vrai si l'animation est soumise à la gravité.
    pub fn has_gravity(&self) -> (r: bool)
        ensures
            r == (self.gravity@.len() > 0),
    {
        self.gravity.len() != 0
    }
}

/// Point d'apparition. `x` et `y` sont des positions absolues, pas des vitesses.
#[derive(Debug)]
pub struct Spawn {
    pub id: i32,
    pub probability: i32,
    pub x: PetValue,
    pub y: PetValue,
    pub next: i32,
}

/// Pet enfant créé par une animation. `x` et `y` sont absolus.
#[derive(Debug)]
pub struct Child {
    /// Animation parente qui déclenche la création.
    pub animation_id: i32,
    pub x: PetValue,
    pub y: PetValue,
    pub next: i32,
}

/// Son associé à une animation.
#[derive(Debug, Clone)]
pub struct Sound {
    pub animation_id: i32,
    pub probability: i32,
    pub loop_count: i32,
    /// WAV encodé en base64.
    pub base64: String,
}

/// Un pet complet, tel que décrit par son XML.
#[derive(Debug)]
pub struct PetDefinition {
    pub header: Header,
    pub image: ImageDef,
    pub spawns: Vec<Spawn>,
    pub animations: Vec<Animation>,
    pub childs: Vec<Child>,
    pub sounds: Vec<Sound>,
}

/// Index de la première animation d'identifiant `id`.
pub open spec fn first_with_id(anims: Seq<Animation>, id: i32) -> Option<int> {
    if exists|i: int| 0 <= i < anims.len() && anims[i].id == id {
        Some(
            choose|i: int|
                0 <= i < anims.len() && anims[i].id == id && forall|j: int|
                    0 <= j < i ==> anims[j].id != id,
        )
    } else {
        None
    }
}

/// Index de la première animation de nom `name`.
pub open spec fn first_with_name(anims: Seq<Animation>, name: Seq<char>) -> Option<int> {
    if exists|i: int| 0 <= i < anims.len() && anims[i].name@ == name {
        Some(
            choose|i: int|
                0 <= i < anims.len() && anims[i].name@ == name && forall|j: int|
                    0 <= j < i ==> anims[j].name@ != name,
        )
    } else {
        None
    }
}

impl PetDefinition {
    /// Index de l'animation d'identifiant donné (la première s'il y en a
    /// plusieurs).
    pub fn animation_index(&self, id: i32) -> (r: Option<usize>)
        ensures
            r matches Some(i) ==> first_with_id(self.animations@, id) == Some(i as int) && i
                < self.animations@.len() && self.animations@[i as int].id == id,
            r is None ==> first_with_id(self.animations@, id) is None,
    {
        let mut i: usize = 0;
        while i < self.animations.len()
            invariant
                i <= self.animations@.len(),
                forall|j: int| 0 <= j < i ==> self.animations@[j].id != id,
            decreases self.animations@.len() - i,
        {
            if self.animations[i].id == id {
                proof {
                    let k = choose|k: int|
                        0 <= k < self.animations@.len() && self.animations@[k].id == id && forall|
                            j: int,
                        | 0 <= j < k ==> self.animations@[j].id != id;
                    if k < i {
                    } else if k > i {
                    }
                    assert(k == i);
                }
                return Some(i);
            }
            i = i + 1;
        }
        None
    }

    /// Cherche une animation par identifiant.
    pub fn animation(&self, id: i32) -> (r: Option<&Animation>)
        ensures
            r matches Some(a) ==> first_with_id(self.animations@, id) matches Some(i)
                && *a == self.animations@[i],
            r is None ==> first_with_id(self.animations@, id) is None,
    {
        match self.animation_index(id) {
            Some(i) => Some(&self.animations[i]),
            None => None,
        }
    }

    /// Cherche l'identifiant d'une animation par son nom réservé.
    pub fn animation_id_by_name(&self, name: &str) -> (r: Option<i32>)
        ensures
            r matches Some(id) ==> first_with_name(self.animations@, name@) matches Some(i)
                && self.animations@[i].id == id,
            r is None ==> first_with_name(self.animations@, name@) is None,
    {
        let wanted = chars_of(name);
        let mut i: usize = 0;
        while i < self.animations.len()
            invariant
                i <= self.animations@.len(),
                wanted@ == name@,
                forall|j: int| 0 <= j < i ==> self.animations@[j].name@ != name@,
            decreases self.animations@.len() - i,
        {
            let candidate = chars_of(self.animations[i].name.as_str());
            if chars_eq(&candidate, &wanted) {
                proof {
                    let k = choose|k: int|
                        0 <= k < self.animations@.len() && self.animations@[k].name@ == name@
                            && forall|j: int| 0 <= j < k ==> self.animations@[j].name@ != name@;
                    if k < i {
                    } else if k > i {
                    }
                    assert(k == i);
                }
                return Some(self.animations[i].id);
            }
            i = i + 1;
        }
        None
    }
}

} // verus!
