//! Rectangles et description du bureau.

use vstd::prelude::*;
use crate::text::{append_chars, chars_of, parse_i32, parse_i32_seq, string_of, trim, trim_seq};

verus! {

/// Rectangle en pixels, origine en haut-gauche.
#[derive(Debug, Clone, Copy, PartialEq, Eq, Structural)]
pub struct Rect {
    pub x: i32,
    pub y: i32,
    pub w: i32,
    pub h: i32,
}

/// Les bords droit et bas du rectangle tiennent sur `i32`.
pub open spec fn rect_ok(r: Rect) -> bool {
    i32::MIN <= r.x + r.w <= i32::MAX && i32::MIN <= r.y + r.h <= i32::MAX
}

impl Rect {
    pub fn new(x: i32, y: i32, w: i32, h: i32) -> (r: Self)
        ensures
            r == (Rect { x, y, w, h }),
    {
        Rect { x, y, w, h }
    }

    /// Bord droit, exclu.
    pub fn right(&self) -> (r: i32)
        requires
            rect_ok(*self),
        ensures
            r == self.x + self.w,
    {
        self.x + self.w
    }

    /// Bord bas, exclu.
    pub fn bottom(&self) -> (r: i32)
        requires
            rect_ok(*self),
        ensures
            r == self.y + self.h,
    {
        self.y + self.h
    }
}

/// Le bureau tel que le voit le moteur.
#[derive(Debug, Clone)]
pub struct World {
    /// Écran complet.
    pub bounds: Rect,
    /// Zone de travail, barres exclues.
    pub area: Rect,
    /// Fenêtres sur lesquelles le pet peut marcher. Vide en mode dégradé.
    pub windows: Vec<Rect>,
}

impl World {
    /// Un bureau simple sans fenêtre, pour les tests et le mode dégradé.
    pub fn simple(width: i32, height: i32) -> (r: Self)
        ensures
            r.bounds == (Rect { x: 0, y: 0, w: width, h: height }),
            r.area == r.bounds,
            r.windows@.len() == 0,
    {
        let bounds = Rect::new(0, 0, width, height);
        World { bounds, area: bounds, windows: Vec::new() }
    }
}


/// Les morceaux du texte entre virgules (un de plus que de virgules).
pub open spec fn split_commas(s: Seq<char>) -> Seq<Seq<char>>
    decreases s.len(),
{
    if s.len() == 0 {
        seq![Seq::empty()]
    } else {
        let prev = split_commas(s.drop_last());
        if s.last() == ',' {
            prev.push(Seq::empty())
        } else {
            prev.update(prev.len() - 1, prev.last().push(s.last()))
        }
    }
}

/// Chaque morceau, sans espaces autour, lu comme un entier.
pub open spec fn rect_numbers(s: Seq<char>) -> Seq<Option<i32>> {
    split_commas(s).map_values(|p: Seq<char>| parse_i32_seq(trim_seq(p)))
}

/// Message d'un rectangle qui n'a pas quatre morceaux.
pub open spec fn rect_count_message(s: Seq<char>) -> Seq<char> {
    "attendu « x,y,largeur,hauteur », reçu « "@ + s + " »"@
}

/// Cause de l'échec de `<i32 as FromStr>::from_str` sur les chiffres
/// `body` (signe retiré), lus de gauche à droite à partir de `acc` : chiffre
/// invalide (1), trop grand (2), trop petit (3) ; `None` s'ils se lisent.
pub open spec fn int_error_kind(body: Seq<char>, acc: int, neg: bool) -> Option<u8>
    decreases body.len(),
{
    if body.len() == 0 {
        None
    } else if !('0' <= body[0] && body[0] <= '9') {
        Some(1u8)
    } else {
        let v = 10 * acc + (body[0] as int - '0' as int);
        if !neg && v > 0x7FFF_FFFF {
            Some(2u8)
        } else if neg && v > 0x8000_0000 {
            Some(3u8)
        } else {
            int_error_kind(body.drop_first(), v, neg)
        }
    }
}

/// Message (`Display`) de l'erreur de `<i32 as FromStr>::from_str` sur `s`
/// (vide si `s` se lit) : texte vide, signe seul ou chiffre invalide, valeur
/// hors de `i32`.
pub open spec fn int_parse_message(s: Seq<char>) -> Seq<char> {
    if s.len() == 0 {
        "cannot parse integer from empty string"@
    } else if (s[0] == '+' || s[0] == '-') && s.len() == 1 {
        "invalid digit found in string"@
    } else {
        let neg = s[0] == '-';
        let body = if s[0] == '+' || s[0] == '-' {
            s.drop_first()
        } else {
            s
        };
        match int_error_kind(body, 0, neg) {
            Some(1u8) => "invalid digit found in string"@,
            Some(2u8) => "number too large to fit in target type"@,
            Some(_) => "number too small to fit in target type"@,
            None => Seq::empty(),
        }
    }
}

/// Premier morceau qui ne se lit pas comme un entier.
pub open spec fn first_none(n: Seq<Option<i32>>) -> int
    decreases n.len(),
{
    if n.len() == 0 || n[0] is None {
        0
    } else {
        1 + first_none(n.drop_first())
    }
}

proof fn lemma_first_none(n: Seq<Option<i32>>, k: int)
    requires
        0 <= k < n.len(),
        n[k] is None,
        forall|j: int| 0 <= j < k ==> #[trigger] n[j] is Some,
    ensures
        first_none(n) == k,
    decreases k,
{
    if k > 0 {
        assert(n[0] is Some);
        assert forall|j: int| 0 <= j < k - 1 implies #[trigger] n.drop_first()[j] is Some by {
            assert(n.drop_first()[j] == n[j + 1]);
        }
        lemma_first_none(n.drop_first(), k - 1);
    }
}

/// Message de l'erreur de `<i32 as FromStr>::from_str` pour un texte
/// refusé (vide si le texte se lit).
fn int_error_text(s: &[char]) -> (r: String)
    ensures
        r@ == int_parse_message(s@),
{
    proof {
        reveal_strlit("cannot parse integer from empty string");
        reveal_strlit("invalid digit found in string");
        reveal_strlit("number too large to fit in target type");
        reveal_strlit("number too small to fit in target type");
    }
    if s.len() == 0 {
        return string_of(&chars_of("cannot parse integer from empty string"));
    }
    let signed = s[0] == '+' || s[0] == '-';
    if signed && s.len() == 1 {
        return string_of(&chars_of("invalid digit found in string"));
    }
    let neg = s[0] == '-';
    let start: usize = if signed {
        1
    } else {
        0
    };
    let ghost body = if signed {
        s@.drop_first()
    } else {
        s@
    };
    proof {
        assert(body =~= s@.skip(start as int));
    }
    let mut acc: i64 = 0;
    let mut i: usize = start;
    let mut kind: u8 = 0;
    while i < s.len()
        invariant_except_break
            kind == 0,
        invariant
            start <= i <= s@.len(),
            body == s@.skip(start as int),
            0 <= acc <= 0x8000_0000,
            int_error_kind(body, 0, neg) == int_error_kind(s@.skip(i as int), acc as int, neg),
        ensures
            kind <= 3,
            kind == 0 ==> int_error_kind(body, 0, neg) is None,
            kind == 1 ==> int_error_kind(body, 0, neg) == Some(1u8),
            kind == 2 ==> int_error_kind(body, 0, neg) == Some(2u8),
            kind == 3 ==> int_error_kind(body, 0, neg) == Some(3u8),
        decreases s@.len() - i,
    {
        proof {
            assert(s@.skip(i as int).drop_first() =~= s@.skip(i + 1));
        }
        let c = s[i];
        if !('0' <= c && c <= '9') {
            kind = 1;
            break;
        }
        let v = 10 * acc + (c as u32 - '0' as u32) as i64;
        if !neg && v > 0x7FFF_FFFF {
            kind = 2;
            break;
        }
        if neg && v > 0x8000_0000 {
            kind = 3;
            break;
        }
        acc = v;
        i = i + 1;
    }
    if kind == 1 {
        string_of(&chars_of("invalid digit found in string"))
    } else if kind == 2 {
        string_of(&chars_of("number too large to fit in target type"))
    } else if kind == 3 {
        string_of(&chars_of("number too small to fit in target type"))
    } else {
        String::new()
    }
}

/// Lit un rectangle « x,y,l,h » depuis la ligne de commande : quatre
/// entiers séparés par des virgules, espaces tolérés autour de chacun.
pub fn parse_rect(s: &str) -> (r: Result<Rect, String>)
    ensures
        (exists|k: int| 0 <= k < rect_numbers(s@).len() && #[trigger] rect_numbers(s@)[k] is None)
            ==> (r matches Err(m) && m@ == int_parse_message(
            trim_seq(split_commas(s@)[first_none(rect_numbers(s@))]),
        )),
        (forall|k: int| 0 <= k < rect_numbers(s@).len() ==> #[trigger] rect_numbers(s@)[k] is Some) ==> {
            let n = rect_numbers(s@);
            if n.len() == 4 {
                r == Ok::<Rect, String>(Rect { x: n[0]->0, y: n[1]->0, w: n[2]->0, h: n[3]->0 })
            } else {
                r matches Err(m) && m@ == rect_count_message(s@)
            }
        },
{
    let chars = chars_of(s);
    let mut parts: Vec<Vec<char>> = Vec::new();
    parts.push(Vec::new());
    let mut i: usize = 0;
    proof {
        assert(chars@.take(0) =~= Seq::<char>::empty());
        assert(parts@.map_values(|p: Vec<char>| p@) =~= split_commas(Seq::<char>::empty()));
    }
    while i < chars.len()
        invariant
            i <= chars@.len(),
            parts@.len() >= 1,
            parts@.map_values(|p: Vec<char>| p@) == split_commas(chars@.take(i as int)),
        decreases chars@.len() - i,
    {
        let ghost before = parts@.map_values(|p: Vec<char>| p@);
        proof {
            assert(chars@.take(i + 1).drop_last() =~= chars@.take(i as int));
        }
        let c = chars[i];
        if c == ',' {
            parts.push(Vec::new());
            proof {
                assert(parts@.map_values(|p: Vec<char>| p@) =~= before.push(Seq::empty()));
            }
        } else {
            let last = parts.len() - 1;
            parts[last].push(c);
            proof {
                assert(parts@.map_values(|p: Vec<char>| p@) =~= before.update(
                    before.len() - 1,
                    before.last().push(c),
                ));
            }
        }
        i = i + 1;
    }
    proof {
        assert(chars@.take(chars@.len() as int) =~= chars@);
    }
    let ghost pieces = parts@.map_values(|p: Vec<char>| p@);
    let mut numbers: Vec<i32> = Vec::new();
    let mut k: usize = 0;
    while k < parts.len()
        invariant
            k <= parts@.len(),
            pieces == parts@.map_values(|p: Vec<char>| p@),
            pieces == split_commas(s@),
            numbers@.len() == k,
            forall|j: int| 0 <= j < k ==> rect_numbers(s@)[j] == Some(#[trigger] numbers@[j]),
        decreases parts@.len() - k,
    {
        let t = trim(parts[k].as_slice());
        proof {
            assert(rect_numbers(s@)[k as int] == parse_i32_seq(t@));
        }
        match parse_i32(t.as_slice()) {
            Some(v) => numbers.push(v),
            None => {
                proof {
                    assert forall|j: int| 0 <= j < k implies #[trigger] rect_numbers(s@)[j] is Some by {
                        assert(rect_numbers(s@)[j] == Some(numbers@[j]));
                    }
                    lemma_first_none(rect_numbers(s@), k as int);
                }
                return Err(int_error_text(t.as_slice()));
            },
        }
        k = k + 1;
    }
    proof {
        assert forall|j: int| 0 <= j < rect_numbers(s@).len() implies !(#[trigger] rect_numbers(s@)[j] is None) by {
            assert(rect_numbers(s@)[j] == Some(numbers@[j]));
        }
    }
    if numbers.len() == 4 {
        Ok(Rect::new(numbers[0], numbers[1], numbers[2], numbers[3]))
    } else {
        let mut m = chars_of("attendu « x,y,largeur,hauteur », reçu « ");
        append_chars(&mut m, chars.as_slice());
        let tail = chars_of(" »");
        append_chars(&mut m, tail.as_slice());
        Err(string_of(m.as_slice()))
    }
}

} // verus!
