//! Spritesheet : base64 → PNG → RGBA, couleur clé rendue transparente,
//! découpage en tuiles.

use vstd::prelude::*;
use base64::Engine;
use crate::model::{FormatError, ImageDef, Sound};
use crate::text::{
    byte_len, byte_len_mod4, chars_eq, chars_of, lower_seq, remove_white, string_of, strip_white,
    to_ascii_lowercase, trim, trim_seq, is_white,
};

verus! {

/// Spritesheet décodé, en RGBA prêt à l'affichage.
#[derive(Debug, Clone)]
pub struct SpriteSheet {
    pub width: u32,
    pub height: u32,
    /// Pixels RGBA, 4 octets par pixel, ligne par ligne.
    pub rgba: Vec<u8>,
    pub tile_w: u32,
    pub tile_h: u32,
    pub tiles_x: u32,
    pub tiles_y: u32,
}

impl SpriteSheet {
    /// Rectangle `(x, y, largeur, hauteur)` de la tuile d'index donné.
    ///
    /// Le parcours est en ligne d'abord : `index = row * tiles_x + col`.
    pub fn tile_rect(&self, index: u32) -> (r: (u32, u32, u32, u32))
        requires
            self.tiles_x > 0,
            self.tiles_y > 0,
            self.tiles_x * self.tile_w <= u32::MAX,
            self.tiles_y * self.tile_h <= u32::MAX,
        ensures
            r.0 == (index % self.tiles_x) * self.tile_w,
            r.1 == ((index / self.tiles_x) % self.tiles_y) * self.tile_h,
            r.2 == self.tile_w,
            r.3 == self.tile_h,
            (r.0 as int, r.1 as int) == tile_origin(
                self.tiles_x as int,
                self.tiles_y as int,
                self.tile_w as int,
                self.tile_h as int,
                index as int,
            ),
    {
        let col = index % self.tiles_x;
        let row = (index / self.tiles_x) % self.tiles_y;
        proof {
            let (tx, tw, ty, th) = (self.tiles_x as int, self.tile_w as int, self.tiles_y as int, self.tile_h as int);
            assert(col * tw <= tx * tw) by (nonlinear_arith)
                requires
                    0 <= col < tx,
                    0 <= tw,
            ;
            assert(row * th <= ty * th) by (nonlinear_arith)
                requires
                    0 <= row < ty,
                    0 <= th,
            ;
        }
        (col * self.tile_w, row * self.tile_h, self.tile_w, self.tile_h)
    }

    /// Nombre total de tuiles.
    pub fn tile_count(&self) -> (r: u32)
        requires
            self.tiles_x * self.tiles_y <= u32::MAX,
        ensures
            r == self.tiles_x * self.tiles_y,
    {
        self.tiles_x * self.tiles_y
    }
}

/// Origine `(x, y)` de la tuile d'index `i` dans une grille de `tx × ty`
/// tuiles de `tw × th`, en ligne d'abord.
pub open spec fn tile_origin(tx: int, ty: int, tw: int, th: int, i: int) -> (int, int) {
    ((i % tx) * tw, ((i / tx) % ty) * th)
}

/// Les tuiles se répètent avec pour période leur nombre `tx × ty`, et
/// chacune tient dans la grille.
pub proof fn lemma_tile_periodic(tx: int, ty: int, tw: int, th: int, i: int)
    requires
        tx > 0,
        ty > 0,
        tw >= 0,
        th >= 0,
        i >= 0,
    ensures
        tile_origin(tx, ty, tw, th, i) == tile_origin(tx, ty, tw, th, i % (tx * ty)),
        0 <= tile_origin(tx, ty, tw, th, i).0,
        tile_origin(tx, ty, tw, th, i).0 + tw <= tx * tw,
        0 <= tile_origin(tx, ty, tw, th, i).1,
        tile_origin(tx, ty, tw, th, i).1 + th <= ty * th,
{
    let j = i % (tx * ty);
    vstd::arithmetic::div_mod::lemma_mod_mod(i, tx, ty);
    vstd::arithmetic::div_mod::lemma_mod_breakdown(i, tx, ty);
    vstd::arithmetic::div_mod::lemma_mod_pos_bound(i, tx);
    let q = (i / tx) % ty;
    vstd::arithmetic::div_mod::lemma_mod_pos_bound(i / tx, ty);
    assert(j == q * tx + i % tx) by (nonlinear_arith)
        requires
            j == tx * q + i % tx,
    ;
    vstd::arithmetic::div_mod::lemma_fundamental_div_mod_converse(j, tx, q, i % tx);
    vstd::arithmetic::div_mod::lemma_mod_pos_bound(q, ty);
    vstd::arithmetic::div_mod::lemma_fundamental_div_mod_converse(q, ty, 0, q);
    let c = i % tx;
    assert(c * tw + tw <= tx * tw) by (nonlinear_arith)
        requires
            0 <= c < tx,
            tw >= 0,
    ;
    assert(q * th + th <= ty * th) by (nonlinear_arith)
        requires
            0 <= q < ty,
            th >= 0,
    ;
    assert(0 <= c * tw) by (nonlinear_arith)
        requires
            0 <= c,
            tw >= 0,
    ;
    assert(0 <= q * th) by (nonlinear_arith)
        requires
            0 <= q,
            th >= 0,
    ;
}

/// Le texte complété par des `=` jusqu'à une longueur en octets multiple
/// de 4.
pub open spec fn padded(s: Seq<char>) -> Seq<char> {
    let rem = byte_len(s) % 4;
    if rem == 0 {
        s
    } else {
        s + Seq::new((4 - rem) as nat, |i: int| '=')
    }
}

/// Ajoute le padding `=` manquant : beaucoup de pets ont un base64 non padé.
pub fn pad_base64(input: &str) -> (r: String)
    ensures
        r@ == padded(input@),
{
    let mut s = chars_of(input);
    let remainder = byte_len_mod4(s.as_slice());
    if remainder != 0 {
        let ghost base = s@;
        let mut k: usize = 0;
        while k < 4 - remainder
            invariant
                0 < remainder < 4,
                k <= 4 - remainder,
                s@ == base + Seq::new(k as nat, |i: int| '='),
            decreases 4 - remainder - k,
        {
            s.push('=');
            k = k + 1;
            proof {
                assert(s@ =~= base + Seq::new(k as nat, |i: int| '='));
            }
        }
    }
    string_of(s.as_slice())
}

// ---------------------------------------------------------------------------
// Couleur de transparence
// ---------------------------------------------------------------------------

/// Valeur d'un chiffre hexadécimal.
pub open spec fn hex_digit(c: char) -> Option<u8> {
    if '0' <= c && c <= '9' {
        Some((c as u32 - '0' as u32) as u8)
    } else if 'a' <= c && c <= 'f' {
        Some((c as u32 - 'a' as u32 + 10) as u8)
    } else if 'A' <= c && c <= 'F' {
        Some((c as u32 - 'A' as u32 + 10) as u8)
    } else {
        None
    }
}

/// Deux caractères lus comme `u8::from_str_radix(_, 16)` : deux chiffres,
/// ou `+` suivi d'un chiffre.
pub open spec fn hex_pair(a: char, b: char) -> Option<u8> {
    match (hex_digit(a), hex_digit(b)) {
        (Some(x), Some(y)) => Some((16 * x + y) as u8),
        (None, Some(y)) => if a == '+' {
            Some(y)
        } else {
            None
        },
        _ => None,
    }
}

/// Couleur `#rrggbb` (six caractères ASCII).
pub open spec fn hex_color(t: Seq<char>) -> Option<Seq<u8>> {
    if t.len() == 7 && t[0] == '#' && (forall|i: int| 1 <= i < 7 ==> (#[trigger] t[i] as u32) < 0x80) {
        match (hex_pair(t[1], t[2]), hex_pair(t[3], t[4]), hex_pair(t[5], t[6])) {
            (Some(r), Some(g), Some(b)) => Some(seq![r, g, b]),
            _ => None,
        }
    } else {
        None
    }
}

/// Couleur nommée (insensible à la casse) ; magenta pour toute autre.
pub open spec fn named_color(low: Seq<char>) -> Seq<u8> {
    if low == "black"@ {
        seq![0u8, 0u8, 0u8]
    } else if low == "white"@ {
        seq![255u8, 255u8, 255u8]
    } else if low == "red"@ {
        seq![255u8, 0u8, 0u8]
    } else if low == "lime"@ {
        seq![0u8, 255u8, 0u8]
    } else if low == "green"@ {
        seq![0u8, 128u8, 0u8]
    } else if low == "blue"@ {
        seq![0u8, 0u8, 255u8]
    } else if low == "cyan"@ || low == "aqua"@ {
        seq![0u8, 255u8, 255u8]
    } else if low == "yellow"@ {
        seq![255u8, 255u8, 0u8]
    } else {
        seq![255u8, 0u8, 255u8]
    }
}

/// Couleur de transparence lue : `#rrggbb`, ou un nom, ou magenta.
pub open spec fn color_of(name: Seq<char>) -> Seq<u8> {
    let t = trim_seq(name);
    match hex_color(t) {
        Some(c) => c,
        None => named_color(lower_seq(t)),
    }
}

/// Le texte n'a pas d'espace en tête ni en queue.
proof fn lemma_trim_plain(s: Seq<char>)
    requires
        s.len() > 0,
        !is_white(s[0]),
        !is_white(s.last()),
    ensures
        trim_seq(s) == s,
{
}

proof fn lemma_named_is_hex(name: Seq<char>, hex: Seq<char>)
    requires
        3 <= name.len() <= 7,
        forall|i: int| 0 <= i < name.len() ==> 'a' <= #[trigger] name[i] <= 'z',
        hex.len() == 7,
        hex[0] == '#',
        forall|i: int| 1 <= i < 7 ==> ('0' <= #[trigger] hex[i] <= '9') || ('A' <= hex[i] <= 'F'),
        hex_color(hex) == Some(named_color(name)),
    ensures
        color_of(name) == color_of(hex),
{
    lemma_trim_plain(name);
    lemma_trim_plain(hex);
    assert(lower_seq(name) =~= name);
    assert(hex_color(name) is None);
}

/// Chaque couleur nommée vaut la couleur de son écriture `#rrggbb` (la
/// casse du nom est ignorée par la lecture).
pub proof fn lemma_named_colors_are_their_hex()
    ensures
        color_of("black"@) == color_of("#000000"@),
        color_of("white"@) == color_of("#FFFFFF"@),
        color_of("red"@) == color_of("#FF0000"@),
        color_of("lime"@) == color_of("#00FF00"@),
        color_of("green"@) == color_of("#008000"@),
        color_of("blue"@) == color_of("#0000FF"@),
        color_of("cyan"@) == color_of("#00FFFF"@),
        color_of("aqua"@) == color_of("#00FFFF"@),
        color_of("yellow"@) == color_of("#FFFF00"@),
        color_of("magenta"@) == color_of("#FF00FF"@),
        color_of("fuchsia"@) == color_of("#FF00FF"@),
{
    reveal_strlit("black");
    reveal_strlit("#000000");
    reveal_strlit("white");
    reveal_strlit("#FFFFFF");
    reveal_strlit("red");
    reveal_strlit("#FF0000");
    reveal_strlit("lime");
    reveal_strlit("#00FF00");
    reveal_strlit("green");
    reveal_strlit("#008000");
    reveal_strlit("blue");
    reveal_strlit("#0000FF");
    reveal_strlit("cyan");
    reveal_strlit("#00FFFF");
    reveal_strlit("aqua");
    reveal_strlit("yellow");
    reveal_strlit("#FFFF00");
    reveal_strlit("magenta");
    reveal_strlit("#FF00FF");
    reveal_strlit("fuchsia");
    lemma_named_is_hex("black"@, "#000000"@);
    lemma_named_is_hex("white"@, "#FFFFFF"@);
    lemma_named_is_hex("red"@, "#FF0000"@);
    lemma_named_is_hex("lime"@, "#00FF00"@);
    lemma_named_is_hex("green"@, "#008000"@);
    lemma_named_is_hex("blue"@, "#0000FF"@);
    lemma_named_is_hex("cyan"@, "#00FFFF"@);
    lemma_named_is_hex("aqua"@, "#00FFFF"@);
    lemma_named_is_hex("yellow"@, "#FFFF00"@);
    lemma_named_is_hex("magenta"@, "#FF00FF"@);
    lemma_named_is_hex("fuchsia"@, "#FF00FF"@);
}

/// Chiffre hexadécimal majuscule de `d < 16`.
pub open spec fn hex_char(d: int) -> char {
    if d < 10 {
        (d + '0' as int) as char
    } else {
        (d - 10 + 'A' as int) as char
    }
}

/// Écriture `#RRGGBB` d'une couleur.
pub open spec fn hex_text(r: u8, g: u8, b: u8) -> Seq<char> {
    seq!['#', hex_char(r as int / 16), hex_char(r as int % 16), hex_char(g as int / 16), hex_char(g as int % 16), hex_char(b as int / 16), hex_char(b as int % 16)]
}

proof fn lemma_hex_char_digit(d: int)
    requires
        0 <= d < 16,
    ensures
        hex_digit(hex_char(d)) == Some(d as u8),
        ('0' <= hex_char(d) <= '9') || ('A' <= hex_char(d) <= 'F'),
{
}

proof fn lemma_hex_pair_byte(v: u8)
    ensures
        hex_pair(hex_char(v as int / 16), hex_char(v as int % 16)) == Some(v),
{
    lemma_hex_char_digit(v as int / 16);
    lemma_hex_char_digit(v as int % 16);
    assert(16 * (v as int / 16) + v as int % 16 == v);
}

/// Toute couleur écrite `#RRGGBB` se lit comme ses trois octets.
pub proof fn lemma_hex_color_reads_bytes(r: u8, g: u8, b: u8)
    ensures
        color_of(hex_text(r, g, b)) == seq![r, g, b],
{
    let t = hex_text(r, g, b);
    lemma_hex_pair_byte(r);
    lemma_hex_pair_byte(g);
    lemma_hex_pair_byte(b);
    lemma_hex_char_digit(r as int / 16);
    lemma_hex_char_digit(r as int % 16);
    lemma_hex_char_digit(g as int / 16);
    lemma_hex_char_digit(g as int % 16);
    lemma_hex_char_digit(b as int / 16);
    lemma_hex_char_digit(b as int % 16);
    lemma_trim_plain(t);
    assert(hex_color(t) == Some(seq![r, g, b]));
}

/// Chaque couleur nommée se lit comme ses trois octets rouge, vert, bleu
/// habituels.
pub proof fn lemma_named_colors_rgb()
    ensures
        color_of("black"@) == seq![0u8, 0u8, 0u8],
        color_of("white"@) == seq![255u8, 255u8, 255u8],
        color_of("red"@) == seq![255u8, 0u8, 0u8],
        color_of("lime"@) == seq![0u8, 255u8, 0u8],
        color_of("green"@) == seq![0u8, 128u8, 0u8],
        color_of("blue"@) == seq![0u8, 0u8, 255u8],
        color_of("cyan"@) == seq![0u8, 255u8, 255u8],
        color_of("aqua"@) == seq![0u8, 255u8, 255u8],
        color_of("yellow"@) == seq![255u8, 255u8, 0u8],
        color_of("magenta"@) == seq![255u8, 0u8, 255u8],
        color_of("fuchsia"@) == seq![255u8, 0u8, 255u8],
{
    lemma_named_colors_are_their_hex();
    reveal_strlit("#000000");
    lemma_hex_color_reads_bytes(0u8, 0u8, 0u8);
    assert(hex_text(0u8, 0u8, 0u8) =~= "#000000"@);
    reveal_strlit("#FFFFFF");
    lemma_hex_color_reads_bytes(255u8, 255u8, 255u8);
    assert(hex_text(255u8, 255u8, 255u8) =~= "#FFFFFF"@);
    reveal_strlit("#FF0000");
    lemma_hex_color_reads_bytes(255u8, 0u8, 0u8);
    assert(hex_text(255u8, 0u8, 0u8) =~= "#FF0000"@);
    reveal_strlit("#00FF00");
    lemma_hex_color_reads_bytes(0u8, 255u8, 0u8);
    assert(hex_text(0u8, 255u8, 0u8) =~= "#00FF00"@);
    reveal_strlit("#008000");
    lemma_hex_color_reads_bytes(0u8, 128u8, 0u8);
    assert(hex_text(0u8, 128u8, 0u8) =~= "#008000"@);
    reveal_strlit("#0000FF");
    lemma_hex_color_reads_bytes(0u8, 0u8, 255u8);
    assert(hex_text(0u8, 0u8, 255u8) =~= "#0000FF"@);
    reveal_strlit("#00FFFF");
    lemma_hex_color_reads_bytes(0u8, 255u8, 255u8);
    assert(hex_text(0u8, 255u8, 255u8) =~= "#00FFFF"@);
    reveal_strlit("#FFFF00");
    lemma_hex_color_reads_bytes(255u8, 255u8, 0u8);
    assert(hex_text(255u8, 255u8, 0u8) =~= "#FFFF00"@);
    reveal_strlit("#FF00FF");
    lemma_hex_color_reads_bytes(255u8, 0u8, 255u8);
    assert(hex_text(255u8, 0u8, 255u8) =~= "#FF00FF"@);
}

/// La casse d'un nom de couleur est ignorée : un nom en lettres ASCII se lit
/// comme son écriture en minuscules.
pub proof fn lemma_color_name_case(name: Seq<char>)
    requires
        name.len() > 0,
        forall|i: int| 0 <= i < name.len() ==> ('a' <= #[trigger] name[i] <= 'z') || ('A' <= name[i] <= 'Z'),
    ensures
        color_of(name) == color_of(lower_seq(name)),
{
    let low = lower_seq(name);
    assert forall|i: int| 0 <= i < low.len() implies 'a' <= #[trigger] low[i] <= 'z' by {
        assert(low[i] == crate::text::ascii_lower(name[i]));
    }
    assert(!is_white(name[0]));
    assert(!is_white(name.last()));
    assert(!is_white(low[0]));
    assert(!is_white(low.last()));
    lemma_trim_plain(name);
    lemma_trim_plain(low);
    assert(hex_color(name) is None);
    assert(hex_color(low) is None);
    assert(lower_seq(low) =~= low);
}

fn hex_digit_exec(c: char) -> (r: Option<u8>)
    ensures
        r == hex_digit(c),
{
    if '0' <= c && c <= '9' {
        Some((c as u32 - '0' as u32) as u8)
    } else if 'a' <= c && c <= 'f' {
        Some((c as u32 - 'a' as u32 + 10) as u8)
    } else if 'A' <= c && c <= 'F' {
        Some((c as u32 - 'A' as u32 + 10) as u8)
    } else {
        None
    }
}

fn hex_pair_exec(a: char, b: char) -> (r: Option<u8>)
    ensures
        r == hex_pair(a, b),
{
    match (hex_digit_exec(a), hex_digit_exec(b)) {
        (Some(x), Some(y)) => Some(16 * x + y),
        (None, Some(y)) => if a == '+' {
            Some(y)
        } else {
            None
        },
        _ => None,
    }
}

fn same_text(s: &Vec<char>, lit: &str) -> (r: bool)
    ensures
        r == (s@ == lit@),
{
    let l = chars_of(lit);
    chars_eq(s, &l)
}

/// Lit une couleur de transparence, par nom ou en hexadécimal.
/// Toute valeur inconnue vaut magenta, le défaut du format.
pub fn parse_color(name: &str) -> (r: [u8; 3])
    ensures
        r@ == color_of(name@),
{
    let chars = chars_of(name);
    let t = trim(chars.as_slice());
    if t.len() == 7 && t[0] == '#' && (t[1] as u32) < 0x80 && (t[2] as u32) < 0x80 && (t[3] as u32) < 0x80
        && (t[4] as u32) < 0x80 && (t[5] as u32) < 0x80 && (t[6] as u32) < 0x80 {
        let r = hex_pair_exec(t[1], t[2]);
        let g = hex_pair_exec(t[3], t[4]);
        let b = hex_pair_exec(t[5], t[6]);
        if let (Some(r), Some(g), Some(b)) = (r, g, b) {
            let out = [r, g, b];
            proof {
                assert(out@ =~= seq![r, g, b]);
            }
            return out;
        }
    }
    proof {
        if t@.len() == 7 && t@[0] == '#' {
            if !(forall|i: int| 1 <= i < 7 ==> (#[trigger] t@[i] as u32) < 0x80) {
                let i = choose|i: int| 1 <= i < 7 && !((t@[i] as u32) < 0x80);
                assert(i == 1 || i == 2 || i == 3 || i == 4 || i == 5 || i == 6);
            }
        }
        assert(hex_color(t@) is None);
    }
    let low = to_ascii_lowercase(t.as_slice());
    let out: [u8; 3] = if same_text(&low, "black") {
        [0, 0, 0]
    } else if same_text(&low, "white") {
        [255, 255, 255]
    } else if same_text(&low, "red") {
        [255, 0, 0]
    } else if same_text(&low, "lime") {
        [0, 255, 0]
    } else if same_text(&low, "green") {
        [0, 128, 0]
    } else if same_text(&low, "blue") {
        [0, 0, 255]
    } else if same_text(&low, "cyan") || same_text(&low, "aqua") {
        [0, 255, 255]
    } else if same_text(&low, "yellow") {
        [255, 255, 0]
    } else {
        [255, 0, 255]
    };
    proof {
        assert(out@ =~= named_color(low@));
    }
    out
}


// ---------------------------------------------------------------------------
// Décodage
// ---------------------------------------------------------------------------

/// Décodage base64 (alphabet standard, padding exigé) : résultat nommé.
pub uninterp spec fn base64_standard(input: Seq<char>) -> Option<Seq<u8>>;

/// `STANDARD.decode` du moteur `base64::engine::general_purpose` : les octets
/// décodés, ou l'erreur en texte.
#[verifier::external_body]
fn base64_decode(input: &str) -> (r: Result<Vec<u8>, String>)
    ensures
        match base64_standard(input@) {
            Some(b) => r matches Ok(v) && v@ == b,
            None => r is Err,
        },
{
    base64::engine::general_purpose::STANDARD.decode(input).map_err(|e| e.to_string())
}

/// Image décodée (format deviné sur les octets) puis convertie en RGBA
/// 8 bits : largeur, hauteur, pixels ligne par ligne ; résultat nommé.
pub uninterp spec fn rgba_image(bytes: Seq<u8>) -> Option<(u32, u32, Seq<u8>)>;

/// `image::load_from_memory` puis `to_rgba8` : dimensions et tampon RGBA
/// (au moins quatre octets par pixel), ou l'erreur en texte.
#[verifier::external_body]
fn decode_rgba(bytes: &[u8]) -> (r: Result<(u32, u32, Vec<u8>), String>)
    ensures
        match rgba_image(bytes@) {
            Some(img) => r matches Ok(x) && x.0 == img.0 && x.1 == img.1 && x.2@ == img.2
                && img.2.len() >= 4 * img.0 * img.1,
            None => r is Err,
        },
{
    match image::load_from_memory(bytes) {
        Ok(img) => {
            let rgba = img.to_rgba8();
            let (w, h) = rgba.dimensions();
            Ok((w, h, rgba.into_raw()))
        },
        Err(e) => Err(e.to_string()),
    }
}

/// Alpha du pixel `p`.
pub open spec fn alpha_at(px: Seq<u8>, p: int) -> u8 {
    px[4 * p + 3]
}

/// L'un des `n` premiers pixels n'est pas opaque.
pub open spec fn has_alpha(px: Seq<u8>, n: int) -> bool {
    exists|p: int| 0 <= p < n && #[trigger] alpha_at(px, p) < 255
}

/// Les `n` premiers pixels de la couleur `key` deviennent transparents.
pub open spec fn keyed(px: Seq<u8>, n: int, key: Seq<u8>) -> Seq<u8> {
    Seq::new(
        px.len(),
        |i: int|
            if i < 4 * n && i % 4 == 3 && px[i - 3] == key[0] && px[i - 2] == key[1] && px[i - 1] == key[2] {
                0u8
            } else {
                px[i]
            },
    )
}

/// Issue de la préparation d'un spritesheet de `w × h` pixels RGBA `px` :
/// dimensions non nulles, découpage non nul ; si aucun pixel n'est déjà
/// transparent, la couleur clé le devient.
pub open spec fn sheet_outcome(r: Result<SpriteSheet, FormatError>, image: ImageDef, w: u32, h: u32, px: Seq<u8>) -> bool {
    if w == 0 || h == 0 {
        r matches Err(FormatError::Image(m)) && m@ == "image de dimension nulle"@
    } else if image.tiles_x == 0 || image.tiles_y == 0 {
        r matches Err(FormatError::Image(m)) && m@ == "découpage en tuiles nul"@
    } else {
        r matches Ok(s) && s.width == w && s.height == h && s.tile_w == w / image.tiles_x && s.tile_h == h
            / image.tiles_y && s.tiles_x == image.tiles_x && s.tiles_y == image.tiles_y && s.rgba@ == (
        if has_alpha(px, w * h) {
            px
        } else {
            keyed(px, w * h, color_of(image.transparency@))
        })
    }
}

/// Prépare le spritesheet à partir de l'image décodée.
pub fn sheet_from_rgba(image: &ImageDef, width: u32, height: u32, rgba: Vec<u8>) -> (r: Result<SpriteSheet, FormatError>)
    requires
        rgba@.len() >= 4 * width * height,
    ensures
        sheet_outcome(r, *image, width, height, rgba@),
{
    if width == 0 || height == 0 {
        return Err(FormatError::Image(string_of(chars_of("image de dimension nulle").as_slice())));
    }
    // `ImageDef` est public : un découpage nul est refusé plutôt que de
    // diviser par zéro.
    if image.tiles_x == 0 || image.tiles_y == 0 {
        return Err(FormatError::Image(string_of(chars_of("découpage en tuiles nul").as_slice())));
    }
    let ghost px = rgba@;
    let len = rgba.len();
    proof {
        assert((width as int) * (height as int) <= 0xFFFF_FFFF * 0xFFFF_FFFF) by (nonlinear_arith)
            requires
                width <= 0xFFFF_FFFF,
                height <= 0xFFFF_FFFF,
        ;
        assert(4 * width * height == 4 * (width * height)) by (nonlinear_arith);
    }
    let n: u64 = width as u64 * height as u64;
    // Un PNG qui porte déjà de l'alpha est respecté ; sinon la couleur clé
    // devient transparente.
    let mut any_alpha = false;
    let mut p: u64 = 0;
    while p < n
        invariant
            p <= n,
            n == width * height,
            rgba@ == px,
            len == px.len(),
            px.len() >= 4 * n,
            any_alpha == exists|q: int| 0 <= q < p && #[trigger] alpha_at(px, q) < 255,
        decreases n - p,
    {
        let a = rgba[(4 * p + 3) as usize];
        proof {
            assert(a == alpha_at(px, p as int));
        }
        if a < 255 {
            any_alpha = true;
        }
        p = p + 1;
    }
    let mut rgba = rgba;
    if !any_alpha {
        let key = parse_color(image.transparency.as_str());
        let mut p: u64 = 0;
        while p < n
            invariant
                p <= n,
                n == width * height,
                len == px.len(),
                px.len() >= 4 * n,
                key@ == color_of(image.transparency@),
                rgba@.len() == px.len(),
                forall|i: int|
                    0 <= i < px.len() ==> #[trigger] rgba@[i] == (if i < 4 * p {
                        keyed(px, n as int, key@)[i]
                    } else {
                        px[i]
                    }),
            decreases n - p,
        {
            let base = (4 * p) as usize;
            if rgba[base] == key[0] && rgba[base + 1] == key[1] && rgba[base + 2] == key[2] {
                rgba[base + 3] = 0;
            }
            p = p + 1;
        }
        proof {
            assert(rgba@ =~= keyed(px, n as int, key@));
        }
    }
    Ok(SpriteSheet {
        width,
        height,
        tile_w: width / image.tiles_x,
        tile_h: height / image.tiles_y,
        tiles_x: image.tiles_x,
        tiles_y: image.tiles_y,
        rgba,
    })
}

/// Issue du décodage de l'image : base64 complété, PNG, RGBA, couleur clé.
pub open spec fn sheet_result(image: ImageDef, r: Result<SpriteSheet, FormatError>) -> bool {
    match base64_standard(padded(image.png_base64@)) {
        None => r matches Err(FormatError::Base64(_)),
        Some(bytes) => match rgba_image(bytes) {
            None => r matches Err(FormatError::Image(_)),
            Some(img) => sheet_outcome(r, image, img.0, img.1, img.2),
        },
    }
}

/// Décode le spritesheet d'un pet : base64 complété, PNG, RGBA, couleur clé.
pub fn decode_sheet(image: &ImageDef) -> (r: Result<SpriteSheet, FormatError>)
    ensures
        sheet_result(*image, r),
{
    let padded_text = pad_base64(image.png_base64.as_str());
    let bytes = match base64_decode(padded_text.as_str()) {
        Ok(b) => b,
        Err(e) => {
            return Err(FormatError::Base64(e));
        },
    };
    let (width, height, rgba) = match decode_rgba(bytes.as_slice()) {
        Ok(x) => x,
        Err(e) => {
            return Err(FormatError::Image(e));
        },
    };
    sheet_from_rgba(image, width, height, rgba)
}


/// Décode le WAV base64 d'un son (espaces retirés, padding complété).
pub fn decode_sound(sound: &Sound) -> (r: Result<Vec<u8>, FormatError>)
    ensures
        match base64_standard(padded(strip_white(sound.base64@))) {
            Some(b) => r matches Ok(v) && v@ == b,
            None => r matches Err(FormatError::Base64(_)),
        },
{
    let compact = string_of(remove_white(chars_of(sound.base64.as_str()).as_slice()).as_slice());
    let padded_text = pad_base64(compact.as_str());
    match base64_decode(padded_text.as_str()) {
        Ok(b) => Ok(b),
        Err(e) => Err(FormatError::Base64(e)),
    }
}


proof fn lemma_byte_len_concat(s: Seq<char>, t: Seq<char>)
    ensures
        byte_len(s + t) == byte_len(s) + byte_len(t),
    decreases t.len(),
{
    if t.len() > 0 {
        lemma_byte_len_concat(s, t.drop_last());
        assert((s + t).drop_last() =~= s + t.drop_last());
    } else {
        assert(s + t =~= s);
    }
}

proof fn lemma_byte_len_pad(n: nat)
    ensures
        byte_len(Seq::new(n, |i: int| '=')) == n,
    decreases n,
{
    if n > 0 {
        lemma_byte_len_pad((n - 1) as nat);
        assert(Seq::new(n, |i: int| '=').drop_last() =~= Seq::new((n - 1) as nat, |i: int| '='));
    }
}

/// Le texte complété garde le texte en tête, n'ajoute que des `=` (au plus
/// trois) et a une longueur en octets multiple de 4.
pub proof fn lemma_padded_is_aligned(s: Seq<char>)
    ensures
        byte_len(padded(s)) % 4 == 0,
        padded(s).take(s.len() as int) == s,
        padded(s).len() - s.len() <= 3,
        forall|i: int| s.len() <= i < padded(s).len() ==> #[trigger] padded(s)[i] == '=',
{
    let rem = byte_len(s) % 4;
    if rem != 0 {
        let pad = Seq::new((4 - rem) as nat, |i: int| '=');
        lemma_byte_len_concat(s, pad);
        lemma_byte_len_pad((4 - rem) as nat);
        assert((s + pad).take(s.len() as int) =~= s);
    } else {
        assert(s.take(s.len() as int) =~= s);
    }
}

/// Le découpage est en ligne d'abord : la tuile `row * tiles_x + col` est en
/// colonne `col` et en ligne `row`.
pub proof fn lemma_tiles_row_major(tiles_x: u32, tiles_y: u32, row: int, col: int)
    requires
        0 <= col < tiles_x,
        0 <= row < tiles_y,
    ensures
        (row * tiles_x + col) % (tiles_x as int) == col,
        ((row * tiles_x + col) / (tiles_x as int)) % (tiles_y as int) == row,
{
    vstd::arithmetic::div_mod::lemma_fundamental_div_mod_converse(
        row * tiles_x + col,
        tiles_x as int,
        row,
        col,
    );
    vstd::arithmetic::div_mod::lemma_fundamental_div_mod_converse(row, tiles_y as int, 0, row);
}

} // verus!
