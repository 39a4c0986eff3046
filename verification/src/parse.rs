//! Lecture tolérante d'un `animations.xml` : champs lus par nom dans
//! l'arbre générique, valeurs par défaut du format pour ce qui manque.

use vstd::prelude::*;
use crate::arith::{
    checked_mul, decimal_ratio, decimal_to_ratio, is_num_char, lex_number, lex_number_exec, pow10, pow10_exec, wf_decimal,
    Decimal, Ratio,
};
use crate::model::{
    only_of, Animation, Child, FormatError, Header, ImageDef, Movement, NextAnimation, OnlyFlags,
    PetDefinition, Sequence, Sound, Spawn,
};
use crate::text::{
    chars_eq, chars_of, is_digit, parse_i32, parse_i32_seq, remove_white, string_of, strip_white, trim,
    trim_seq,
};
use crate::value::{dynamic_expr, screen_expr, PetValue};
use crate::xml::{build_tree, tree_of, xml_items, NodeModel, XmlTree};

verus! {

// ---------------------------------------------------------------------------
// Lecture de l'arbre, au niveau des spécifications
// ---------------------------------------------------------------------------

pub open spec fn opt_index(o: Option<usize>) -> Option<int> {
    match o {
        Some(i) => Some(i as int),
        None => None,
    }
}

/// Premier des nœuds `kids` portant ce nom.
pub open spec fn first_named(ns: Seq<NodeModel>, kids: Seq<int>, name: Seq<char>) -> Option<int>
    decreases kids.len(),
{
    if kids.len() == 0 {
        None
    } else if ns[kids[0]].name == name {
        Some(kids[0])
    } else {
        first_named(ns, kids.drop_first(), name)
    }
}

/// Premier enfant de `n` portant ce nom (aucun pour un nœud absent).
pub open spec fn child_of(ns: Seq<NodeModel>, n: Option<int>, name: Seq<char>) -> Option<int> {
    match n {
        Some(n) => first_named(ns, ns[n].children, name),
        None => None,
    }
}

pub open spec fn has_name(ns: Seq<NodeModel>, name: Seq<char>) -> spec_fn(int) -> bool {
    |c: int| ns[c].name == name
}

/// Tous les enfants de `n` portant ce nom, dans l'ordre.
pub open spec fn named(ns: Seq<NodeModel>, n: Option<int>, name: Seq<char>) -> Seq<int> {
    match n {
        Some(n) => ns[n].children.filter(has_name(ns, name)),
        None => Seq::empty(),
    }
}

/// Texte (sans espaces autour) d'un enfant, ou la valeur par défaut si
/// l'enfant manque ou que son texte est vide.
pub open spec fn text_of(ns: Seq<NodeModel>, n: Option<int>, name: Seq<char>, default: Seq<char>) -> Seq<char> {
    match child_of(ns, n, name) {
        Some(c) => if trim_seq(ns[c].text).len() > 0 {
            trim_seq(ns[c].text)
        } else {
            default
        },
        None => default,
    }
}

/// Entier d'un enfant, ou la valeur par défaut.
pub open spec fn int_of(ns: Seq<NodeModel>, n: Option<int>, name: Seq<char>, default: i32) -> i32 {
    match parse_i32_seq(text_of(ns, n, name, Seq::empty())) {
        Some(v) => v,
        None => default,
    }
}

/// Valeur du dernier attribut de ce nom (le dernier écrit l'emporte).
pub open spec fn attr_lookup(attrs: Seq<(Seq<char>, Seq<char>)>, name: Seq<char>) -> Option<Seq<char>>
    decreases attrs.len(),
{
    if attrs.len() == 0 {
        None
    } else if attrs.last().0 == name {
        Some(attrs.last().1)
    } else {
        attr_lookup(attrs.drop_last(), name)
    }
}

/// Attribut de `n`, s'il existe.
pub open spec fn attr_of(ns: Seq<NodeModel>, n: Option<int>, name: Seq<char>) -> Option<Seq<char>> {
    match n {
        Some(n) => attr_lookup(ns[n].attrs, name),
        None => None,
    }
}

/// Attribut entier, ou la valeur par défaut (texte lu tel quel).
pub open spec fn attr_int(ns: Seq<NodeModel>, n: Option<int>, name: Seq<char>, default: i32) -> i32 {
    match attr_of(ns, n, name) {
        Some(v) => match parse_i32_seq(v) {
            Some(x) => x,
            None => default,
        },
        None => default,
    }
}

/// Le texte sans son signe éventuel.
pub open spec fn unsigned_part(s: Seq<char>) -> Seq<char> {
    if s.len() > 0 && (s[0] == '-' || s[0] == '+') {
        s.drop_first()
    } else {
        s
    }
}

/// Rien que des chiffres et des points.
pub open spec fn all_num(t: Seq<char>) -> bool {
    forall|i: int| 0 <= i < t.len() ==> is_num_char(#[trigger] t[i])
}

/// Position du premier `e` ou `E` (la longueur s'il n'y en a pas).
pub open spec fn first_exp(t: Seq<char>) -> int
    decreases t.len(),
{
    if t.len() == 0 || t[0] == 'e' || t[0] == 'E' {
        0
    } else {
        1 + first_exp(t.drop_first())
    }
}

/// Valeur d'une suite de chiffres décimaux.
pub open spec fn digits_int(ds: Seq<char>) -> int
    decreases ds.len(),
{
    if ds.len() == 0 {
        0
    } else {
        10 * digits_int(ds.drop_last()) + (ds.last() as int - '0' as int)
    }
}

/// Exposant écrit : signe éventuel puis au moins un chiffre.
pub open spec fn exp_of(t: Seq<char>) -> Option<int> {
    let ds = unsigned_part(t);
    if ds.len() > 0 && forall|i: int| 0 <= i < ds.len() ==> is_digit(#[trigger] ds[i]) {
        Some(
            if t[0] == '-' {
                -digits_int(ds)
            } else {
                digits_int(ds)
            },
        )
    } else {
        None
    }
}

/// Le nombre `d × 10^x` en fraction, s'il tient sur 128 bits avec au plus
/// 38 décimales.
pub open spec fn scaled_decimal(d: Decimal, x: int) -> Option<Ratio> {
    if d.digits == 0 {
        Some(Ratio { num: 0, den: 1 })
    } else if x >= d.scale {
        let sh = x - d.scale;
        if sh <= 38 && d.digits * pow10(sh as nat) <= i128::MAX {
            Some(Ratio { num: (d.digits * pow10(sh as nat)) as i128, den: 1 })
        } else {
            None
        }
    } else {
        let sh = d.scale - x;
        if sh <= 38 {
            Some(Ratio { num: d.digits, den: pow10(sh as nat) as i128 })
        } else {
            None
        }
    }
}

/// Valeur absolue écrite : décimal (`0.5`, `.25`, `3`), éventuellement
/// suivi d'un exposant (`5e-1`, `2.5E2`).
pub open spec fn unsigned_opacity(body: Seq<char>) -> Option<Ratio> {
    let p = first_exp(body);
    let mant = body.take(p);
    if mant.len() > 0 && all_num(mant) {
        match lex_number(mant) {
            Ok(d) => if p == body.len() {
                Some(decimal_ratio(d))
            } else {
                match exp_of(body.skip(p + 1)) {
                    Some(x) => scaled_decimal(d, x),
                    None => None,
                }
            },
            Err(_) => None,
        }
    } else {
        None
    }
}

/// Opacité écrite en décimal, avec exposant éventuel (`0.5`, `-1`, `.25`,
/// `5e-1`) ; toute autre écriture, ou une valeur qui ne tient pas en
/// fraction de 128 bits à 38 décimales, vaut 1.
pub open spec fn opacity_of(s: Seq<char>) -> Ratio {
    let neg = s.len() > 0 && s[0] == '-';
    match unsigned_opacity(unsigned_part(s)) {
        Some(q) => if neg {
            Ratio { num: (-q.num) as i128, den: q.den }
        } else {
            q
        },
        None => Ratio { num: 1, den: 1 },
    }
}

/// `v` est la valeur construite sur l'expression `s`.
pub open spec fn value_read(v: PetValue, s: Seq<char>) -> bool {
    &&& v.compute@ == s
    &&& v.is_dynamic == dynamic_expr(s)
    &&& v.is_screen == screen_expr(s)
    &&& v.value == 0
}

/// Une transition `<next>` : contenu = identifiant (-1 s'il est illisible),
/// attributs `probability` (100) et `only`.
pub open spec fn next_of(ns: Seq<NodeModel>, c: int) -> NextAnimation {
    NextAnimation {
        id: match parse_i32_seq(trim_seq(ns[c].text)) {
            Some(v) => v,
            None => -1i32,
        },
        probability: attr_int(ns, Some(c), "probability"@, 100),
        only: only_of(
            match attr_of(ns, Some(c), "only"@) {
                Some(v) => v,
                None => Seq::empty(),
            },
        ),
    }
}

pub open spec fn next_fn(ns: Seq<NodeModel>) -> spec_fn(int) -> NextAnimation {
    |c: int| next_of(ns, c)
}

/// Les `<next>` d'un conteneur `<border>` ou `<gravity>`.
pub open spec fn next_list(ns: Seq<NodeModel>, n: Option<int>) -> Seq<NextAnimation> {
    named(ns, n, "next"@).map_values(next_fn(ns))
}

/// Un mouvement `<start>` ou `<end>` lu dans `n` (absent : tout par défaut).
pub open spec fn movement_read(m: Movement, ns: Seq<NodeModel>, n: Option<int>) -> bool {
    &&& value_read(m.x, text_of(ns, n, "x"@, "0"@))
    &&& value_read(m.y, text_of(ns, n, "y"@, "0"@))
    &&& value_read(m.interval, text_of(ns, n, "interval"@, "100"@))
    &&& m.offset_y == int_of(ns, n, "offsety"@, 0)
    &&& m.opacity == opacity_of(text_of(ns, n, "opacity"@, "1.0"@))
}

/// Frame d'un enfant `<frame>` dont le texte est un entier.
pub open spec fn frame_fn(ns: Seq<NodeModel>) -> spec_fn(int) -> Option<i32> {
    |c: int| if ns[c].name == "frame"@ {
        parse_i32_seq(trim_seq(ns[c].text))
    } else {
        None
    }
}

/// Texte du dernier `<action>` non vide.
pub open spec fn last_action(ns: Seq<NodeModel>, kids: Seq<int>) -> Option<Seq<char>>
    decreases kids.len(),
{
    if kids.len() == 0 {
        None
    } else if ns[kids.last()].name == "action"@ && trim_seq(ns[kids.last()].text).len() > 0 {
        Some(trim_seq(ns[kids.last()].text))
    } else {
        last_action(ns, kids.drop_last())
    }
}

pub open spec fn kids_of(ns: Seq<NodeModel>, n: Option<int>) -> Seq<int> {
    match n {
        Some(n) => ns[n].children,
        None => Seq::empty(),
    }
}

/// Une `<sequence>` : frames, action et transitions mêlées librement.
pub open spec fn sequence_read(s: Sequence, ns: Seq<NodeModel>, n: Option<int>) -> bool {
    &&& value_read(
        s.repeat,
        match attr_of(ns, n, "repeat"@) {
            Some(v) => v,
            None => "0"@,
        },
    )
    &&& s.repeat_from == attr_int(ns, n, "repeatfrom"@, 0)
    &&& s.frames@ == kids_of(ns, n).filter_map(frame_fn(ns))
    &&& match (s.action, last_action(ns, kids_of(ns, n))) {
        (Some(a), Some(t)) => a@ == t,
        (None, None) => true,
        _ => false,
    }
    &&& s.next@ == next_list(ns, n)
}

/// Une `<animation>`.
pub open spec fn animation_read(a: Animation, ns: Seq<NodeModel>, n: int) -> bool {
    let node = Some(n);
    &&& a.id == attr_int(ns, node, "id"@, 0)
    &&& a.name@ == text_of(ns, node, "name"@, Seq::empty())
    &&& movement_read(a.start, ns, child_of(ns, node, "start"@))
    &&& match child_of(ns, node, "end"@) {
        Some(e) => a.end matches Some(m) && movement_read(m, ns, Some(e)),
        None => a.end is None,
    }
    &&& sequence_read(a.sequence, ns, child_of(ns, node, "sequence"@))
    &&& a.border@ == next_list(ns, child_of(ns, node, "border"@))
    &&& a.gravity@ == next_list(ns, child_of(ns, node, "gravity"@))
}

/// Un `<spawn>`.
pub open spec fn spawn_read(s: Spawn, ns: Seq<NodeModel>, n: int) -> bool {
    let node = Some(n);
    &&& s.id == attr_int(ns, node, "id"@, 0)
    &&& s.probability == attr_int(ns, node, "probability"@, 100)
    &&& value_read(s.x, text_of(ns, node, "x"@, "0"@))
    &&& value_read(s.y, text_of(ns, node, "y"@, "0"@))
    &&& s.next == int_of(ns, node, "next"@, 1)
}

/// Un `<child>`.
pub open spec fn child_read(c: Child, ns: Seq<NodeModel>, n: int) -> bool {
    let node = Some(n);
    &&& c.animation_id == attr_int(ns, node, "animationid"@, 0)
    &&& value_read(c.x, text_of(ns, node, "x"@, "0"@))
    &&& value_read(c.y, text_of(ns, node, "y"@, "0"@))
    &&& c.next == int_of(ns, node, "next"@, 1)
}

/// Un `<sound>`.
pub open spec fn sound_read(s: Sound, ns: Seq<NodeModel>, n: int) -> bool {
    let node = Some(n);
    &&& s.animation_id == attr_int(ns, node, "animationid"@, 0)
    &&& s.probability == int_of(ns, node, "probability"@, 100)
    &&& s.loop_count == int_of(ns, node, "loop"@, 0)
    &&& s.base64@ == text_of(ns, node, "base64"@, Seq::empty())
}

/// L'en-tête.
pub open spec fn header_read(h: Header, ns: Seq<NodeModel>, n: int) -> bool {
    let node = Some(n);
    &&& h.author@ == text_of(ns, node, "author"@, Seq::empty())
    &&& h.title@ == text_of(ns, node, "title"@, Seq::empty())
    &&& h.petname@ == text_of(ns, node, "petname"@, "Pet"@)
    &&& h.version@ == text_of(ns, node, "version"@, "0"@)
    &&& h.info@ == text_of(ns, node, "info"@, Seq::empty())
    &&& h.application == int_of(ns, node, "application"@, 1)
    &&& h.icon@ == text_of(ns, node, "icon"@, Seq::empty())
}

/// Nombre de tuiles lu : au moins 1.
pub open spec fn tiles_of(v: i32) -> u32 {
    if v > 1 {
        v as u32
    } else {
        1
    }
}

/// L'image : découpage (au moins une tuile par axe), PNG en base64 sans
/// aucun espace, couleur clé.
pub open spec fn image_read(i: ImageDef, ns: Seq<NodeModel>, n: int) -> bool {
    let node = Some(n);
    &&& i.tiles_x == tiles_of(int_of(ns, node, "tilesx"@, 1))
    &&& i.tiles_y == tiles_of(int_of(ns, node, "tilesy"@, 1))
    &&& i.png_base64@ == strip_white(text_of(ns, node, "png"@, Seq::empty()))
    &&& i.transparency@ == text_of(ns, node, "transparency"@, "Magenta"@)
}

/// Les éléments `item` du conteneur `container` de `root`.
pub open spec fn listed(ns: Seq<NodeModel>, root: int, container: Seq<char>, item: Seq<char>) -> Seq<int> {
    named(ns, child_of(ns, Some(root), container), item)
}

/// Définition lue sous l'élément `<animations>` d'index `root`.
pub open spec fn pet_read(d: PetDefinition, ns: Seq<NodeModel>, root: int) -> bool {
    let r = Some(root);
    &&& child_of(ns, r, "header"@) matches Some(h) && header_read(d.header, ns, h)
    &&& child_of(ns, r, "image"@) matches Some(i) && image_read(d.image, ns, i)
    &&& d.spawns@.len() == listed(ns, root, "spawns"@, "spawn"@).len()
    &&& forall|k: int|
        0 <= k < d.spawns@.len() ==> spawn_read(#[trigger] d.spawns@[k], ns, listed(ns, root, "spawns"@, "spawn"@)[k])
    &&& d.animations@.len() == listed(ns, root, "animations"@, "animation"@).len()
    &&& forall|k: int|
        0 <= k < d.animations@.len() ==> animation_read(
            #[trigger] d.animations@[k],
            ns,
            listed(ns, root, "animations"@, "animation"@)[k],
        )
    &&& d.childs@.len() == listed(ns, root, "childs"@, "child"@).len()
    &&& forall|k: int|
        0 <= k < d.childs@.len() ==> child_read(#[trigger] d.childs@[k], ns, listed(ns, root, "childs"@, "child"@)[k])
    &&& d.sounds@.len() == listed(ns, root, "sounds"@, "sound"@).len()
    &&& forall|k: int|
        0 <= k < d.sounds@.len() ==> sound_read(#[trigger] d.sounds@[k], ns, listed(ns, root, "sounds"@, "sound"@)[k])
}

/// Issue de la lecture de l'arbre de racine `top` : racine `<animations>`,
/// `<header>` et `<image>` obligatoires, au moins une `<animation>`.
pub open spec fn pet_outcome(r: Result<PetDefinition, FormatError>, ns: Seq<NodeModel>, top: int) -> bool {
    match child_of(ns, Some(top), "animations"@) {
        None => r matches Err(FormatError::MissingRoot),
        Some(root) => if child_of(ns, Some(root), "header"@) is None {
            r matches Err(FormatError::MissingElement(e)) && e@ == "header"@
        } else if child_of(ns, Some(root), "image"@) is None {
            r matches Err(FormatError::MissingElement(e)) && e@ == "image"@
        } else if listed(ns, root, "animations"@, "animation"@).len() == 0 {
            r matches Err(FormatError::MissingElement(e)) && e@ == "animations"@
        } else {
            r matches Ok(d) && pet_read(d, ns, root)
        },
    }
}

/// L'ordre des sous-éléments est libre : échanger deux enfants voisins de
/// noms différents ne change le premier enfant d'aucun nom, donc aucune
/// valeur lue par nom.
pub proof fn lemma_sibling_order_free(ns: Seq<NodeModel>, kids: Seq<int>, i: int, name: Seq<char>)
    requires
        0 <= i < kids.len() - 1,
        ns[kids[i]].name != ns[kids[i + 1]].name,
    ensures
        first_named(ns, kids.update(i, kids[i + 1]).update(i + 1, kids[i]), name) == first_named(
            ns,
            kids,
            name,
        ),
    decreases i,
{
    let swapped = kids.update(i, kids[i + 1]).update(i + 1, kids[i]);
    if i > 0 {
        lemma_sibling_order_free(ns, kids.drop_first(), i - 1, name);
        assert(swapped.drop_first() =~= kids.drop_first().update(i - 1, kids[i + 1]).update(i, kids[i]));
    } else {
        reveal_with_fuel(first_named, 3);
        assert(swapped.drop_first().drop_first() =~= kids.drop_first().drop_first());
    }
}

// ---------------------------------------------------------------------------
// Lecture exécutable
// ---------------------------------------------------------------------------

impl XmlTree {
    /// Premier enfant portant ce nom.
    pub fn child(&self, node: usize, name: &str) -> (r: Option<usize>)
        requires
            self.ok(),
            node < self.nodes@.len(),
        ensures
            opt_index(r) == child_of(self.model(), Some(node as int), name@),
            r matches Some(c) ==> c < self.nodes@.len(),
    {
        let wanted = chars_of(name);
        let ghost ns = self.model();
        let kids = &self.nodes[node].children;
        proof {
            assert(ns[node as int].children == crate::xml::indices(kids@));
            assert(kids@.skip(0) =~= kids@);
        }
        let mut i: usize = 0;
        while i < kids.len()
            invariant
                i <= kids@.len(),
                ns == self.model(),
                self.ok(),
                node < self.nodes@.len(),
                *kids == self.nodes@[node as int].children,
                wanted@ == name@,
                first_named(ns, ns[node as int].children, name@) == first_named(
                    ns,
                    crate::xml::indices(kids@.skip(i as int)),
                    name@,
                ),
            decreases kids@.len() - i,
        {
            let c = kids[i];
            proof {
                assert(ns[node as int].children[i as int] == c as int);
                assert(0 <= c < ns.len());
                assert(crate::xml::indices(kids@.skip(i as int)) =~= seq![c as int] + crate::xml::indices(
                    kids@.skip(i + 1),
                ));
                assert(crate::xml::indices(kids@.skip(i as int)).drop_first() =~= crate::xml::indices(
                    kids@.skip(i + 1),
                ));
                assert(ns[c as int].name == self.nodes@[c as int].name@);
            }
            if chars_eq(&self.nodes[c].name, &wanted) {
                return Some(c);
            }
            i = i + 1;
        }
        None
    }
}


fn same_name(name: &Vec<char>, lit: &str) -> (r: bool)
    ensures
        r == (name@ == lit@),
{
    let l = chars_of(lit);
    chars_eq(name, &l)
}

proof fn lemma_first_exp(t: Seq<char>, m: int)
    requires
        0 <= m <= t.len(),
        forall|j: int| 0 <= j < m ==> #[trigger] t[j] != 'e' && t[j] != 'E',
        m == t.len() || t[m] == 'e' || t[m] == 'E',
    ensures
        first_exp(t) == m,
    decreases m,
{
    if m > 0 {
        assert(t[0] != 'e' && t[0] != 'E');
        assert forall|j: int| 0 <= j < m - 1 implies #[trigger] t.drop_first()[j] != 'e' && t.drop_first()[j] != 'E' by {
            assert(t.drop_first()[j] == t[j + 1]);
        }
        lemma_first_exp(t.drop_first(), m - 1);
    }
}

/// Exposant lu dans `s[i..]` : signe éventuel puis chiffres ; la valeur
/// absolue est plafonnée à 1000, au-delà de toute échelle représentable.
fn read_exponent(s: &[char], i: usize) -> (r: Option<i64>)
    requires
        i <= s@.len(),
    ensures
        match exp_of(s@.skip(i as int)) {
            None => r is None,
            Some(x) => r matches Some(v) && (if x >= 1000 {
                v == 1000
            } else if x <= -1000 {
                v == -1000
            } else {
                v == x
            }),
        },
{
    let ghost t = s@.skip(i as int);
    let ghost ds = unsigned_part(t);
    let signed = i < s.len() && (s[i] == '-' || s[i] == '+');
    let neg = i < s.len() && s[i] == '-';
    let start: usize = if signed {
        i + 1
    } else {
        i
    };
    proof {
        assert(ds =~= s@.subrange(start as int, s@.len() as int));
    }
    if start >= s.len() {
        return None;
    }
    let mut acc: i64 = 0;
    let mut k: usize = start;
    proof {
        assert(ds.take(0) =~= Seq::<char>::empty());
    }
    while k < s.len()
        invariant
            start <= k <= s@.len(),
            start < s@.len(),
            t == s@.skip(i as int),
            ds == unsigned_part(t),
            ds == s@.subrange(start as int, s@.len() as int),
            forall|j: int| 0 <= j < k - start ==> is_digit(#[trigger] ds[j]),
            acc == (if digits_int(ds.take(k - start)) >= 1000 {
                1000
            } else {
                digits_int(ds.take(k - start))
            }),
            digits_int(ds.take(k - start)) >= 0,
        decreases s@.len() - k,
    {
        let c = s[k];
        if !('0' <= c && c <= '9') {
            proof {
                assert(ds[k - start] == c);
                assert(!is_digit(ds[k - start]));
            }
            return None;
        }
        proof {
            assert(ds.take(k - start + 1).drop_last() =~= ds.take(k - start));
            assert(ds.take(k - start + 1).last() == c);
        }
        let d = (c as u32 - '0' as u32) as i64;
        if acc < 1000 {
            acc = 10 * acc + d;
            if acc > 1000 {
                acc = 1000;
            }
        }
        k = k + 1;
    }
    proof {
        assert(ds.take(ds.len() as int) =~= ds);
        assert(t[0] == s@[i as int]);
    }
    if neg {
        Some(-acc)
    } else {
        Some(acc)
    }
}

/// `d × 10^x`, exposant plafonné comme par `read_exponent`.
fn scale_decimal(d: Decimal, x: i64) -> (r: Option<Ratio>)
    requires
        wf_decimal(d),
        -1000 <= x <= 1000,
    ensures
        r matches Some(q) ==> q.num >= 0,
        d.digits == 0 ==> r == Some(Ratio { num: 0, den: 1 }),
        d.digits != 0 ==> forall|y: int|
            (if y >= 1000 {
                x == 1000
            } else if y <= -1000 {
                x == -1000
            } else {
                x == y
            }) ==> r == scaled_decimal(d, y),
{
    if d.digits == 0 {
        return Some(Ratio { num: 0, den: 1 });
    }
    let scale = d.scale as i64;
    if x >= scale {
        let sh = x - scale;
        if sh > 38 {
            return None;
        }
        let m = pow10_exec(sh as u32);
        match checked_mul(d.digits, m) {
            Some(n) => Some(Ratio { num: n, den: 1 }),
            None => None,
        }
    } else {
        let sh = scale - x;
        if sh > 38 {
            return None;
        }
        Some(Ratio { num: d.digits, den: pow10_exec(sh as u32) })
    }
}

/// Lecture d'une opacité écrite en décimal, exposant éventuel ; 1 sinon.
pub fn read_opacity(s: &[char]) -> (r: Ratio)
    ensures
        r == opacity_of(s@),
{
    let signed = s.len() > 0 && (s[0] == '-' || s[0] == '+');
    let neg = s.len() > 0 && s[0] == '-';
    let start: usize = if signed {
        1
    } else {
        0
    };
    let ghost body = unsigned_part(s@);
    proof {
        assert(body =~= s@.subrange(start as int, s@.len() as int));
    }
    // Fin de la mantisse : premier `e` ou `E`.
    let mut p: usize = start;
    while p < s.len() && s[p] != 'e' && s[p] != 'E'
        invariant
            start <= p <= s@.len(),
            body == s@.subrange(start as int, s@.len() as int),
            forall|j: int| 0 <= j < p - start ==> #[trigger] body[j] != 'e' && body[j] != 'E',
        decreases s@.len() - p,
    {
        proof {
            assert(body[p - start] == s@[p as int]);
        }
        p = p + 1;
    }
    proof {
        if p < s@.len() {
            assert(body[p - start] == s@[p as int]);
        }
        lemma_first_exp(body, p - start);
    }
    let ghost mant = body.take(p - start);
    let value: Option<Ratio> = if p <= start {
        None
    } else {
        let mut i: usize = start;
        let mut ok = true;
        while i < p
            invariant
                start <= i <= p <= s@.len(),
                body == s@.subrange(start as int, s@.len() as int),
                mant == body.take(p - start),
                ok ==> forall|j: int| 0 <= j < i - start ==> is_num_char(#[trigger] mant[j]),
                !ok ==> !all_num(mant),
            decreases p - i,
        {
            let c = s[i];
            proof {
                assert(mant[i - start] == c);
            }
            if ok && !(('0' <= c && c <= '9') || c == '.') {
                ok = false;
            }
            i = i + 1;
        }
        if !ok {
            None
        } else {
            proof {
                assert(mant =~= s@.subrange(start as int, p as int));
            }
            match lex_number_exec(s, start, p) {
                Ok(d) => {
                    if p == s.len() {
                        Some(decimal_to_ratio(d))
                    } else {
                        proof {
                            assert(body.skip(p - start + 1) =~= s@.skip(p + 1));
                        }
                        match read_exponent(s, p + 1) {
                            Some(x) => scale_decimal(d, x),
                            None => None,
                        }
                    }
                },
                Err(_) => None,
            }
        }
    };
    proof {
        assert(value == unsigned_opacity(body));
        assert(value matches Some(q) ==> q.num >= 0);
    }
    match value {
        Some(q) => if neg {
            Ratio { num: -q.num, den: q.den }
        } else {
            q
        },
        None => Ratio { num: 1, den: 1 },
    }
}

proof fn lemma_indices_push(s: Seq<usize>, c: usize)
    ensures
        crate::xml::indices(s.push(c)) == crate::xml::indices(s).push(c as int),
{
    assert(crate::xml::indices(s.push(c)) =~= crate::xml::indices(s).push(c as int));
}

impl XmlTree {
    /// Tous les enfants portant ce nom, dans l'ordre.
    pub fn children_named(&self, node: usize, name: &str) -> (r: Vec<usize>)
        requires
            self.ok(),
            node < self.nodes@.len(),
        ensures
            crate::xml::indices(r@) == named(self.model(), Some(node as int), name@),
            forall|k: int| 0 <= k < r@.len() ==> #[trigger] r@[k] < self.nodes@.len(),
    {
        let wanted = chars_of(name);
        let ghost ns = self.model();
        let ghost p = has_name(ns, name@);
        let kids = &self.nodes[node].children;
        let ghost ks = ns[node as int].children;
        let mut out: Vec<usize> = Vec::new();
        proof {
            assert(ks == crate::xml::indices(kids@));
            reveal(Seq::filter);
            assert(ks.take(0).filter(p) =~= Seq::<int>::empty());
            assert(crate::xml::indices(out@) =~= Seq::<int>::empty());
        }
        let mut i: usize = 0;
        while i < kids.len()
            invariant
                i <= kids@.len(),
                ns == self.model(),
                self.ok(),
                node < self.nodes@.len(),
                *kids == self.nodes@[node as int].children,
                ks == ns[node as int].children,
                ks == crate::xml::indices(kids@),
                p == has_name(ns, name@),
                wanted@ == name@,
                crate::xml::indices(out@) == ks.take(i as int).filter(p),
                forall|k: int| 0 <= k < out@.len() ==> #[trigger] out@[k] < self.nodes@.len(),
            decreases kids@.len() - i,
        {
            let c = kids[i];
            proof {
                assert(ks[i as int] == c as int);
                assert(ks.take(i + 1) =~= ks.take(i as int).push(c as int));
                ks.take(i as int).lemma_filter_push(c as int, p);
                assert(ns[c as int].name == self.nodes@[c as int].name@);
                lemma_indices_push(out@, c);
            }
            if chars_eq(&self.nodes[c].name, &wanted) {
                out.push(c);
            }
            i = i + 1;
        }
        proof {
            assert(ks.take(kids@.len() as int) =~= ks);
        }
        out
    }

    /// Texte d'un enfant sans espaces autour, ou la valeur par défaut.
    pub fn text_of(&self, node: Option<usize>, name: &str, default: &str) -> (r: Vec<char>)
        requires
            self.ok(),
            node matches Some(n) ==> n < self.nodes@.len(),
        ensures
            r@ == text_of(self.model(), opt_index(node), name@, default@),
    {
        let c = match node {
            Some(n) => self.child(n, name),
            None => None,
        };
        match c {
            Some(c) => {
                let t = trim(self.nodes[c].text.as_slice());
                if t.len() > 0 {
                    t
                } else {
                    chars_of(default)
                }
            },
            None => chars_of(default),
        }
    }

    /// Entier d'un enfant, ou la valeur par défaut.
    pub fn int_of(&self, node: Option<usize>, name: &str, default: i32) -> (r: i32)
        requires
            self.ok(),
            node matches Some(n) ==> n < self.nodes@.len(),
        ensures
            r == int_of(self.model(), opt_index(node), name@, default),
    {
        proof {
            reveal_strlit("");
        }
        let t = self.text_of(node, name, "");
        match parse_i32(t.as_slice()) {
            Some(v) => v,
            None => default,
        }
    }

    /// Valeur d'un attribut (le dernier de ce nom).
    pub fn attr(&self, node: usize, name: &str) -> (r: Option<Vec<char>>)
        requires
            self.ok(),
            node < self.nodes@.len(),
        ensures
            match attr_lookup(self.model()[node as int].attrs, name@) {
                Some(v) => r matches Some(x) && x@ == v,
                None => r is None,
            },
    {
        let wanted = chars_of(name);
        let ghost ns = self.model();
        let attrs = &self.nodes[node].attrs;
        let ghost am = ns[node as int].attrs;
        let mut i: usize = attrs.len();
        proof {
            assert(am == crate::xml::chars_pairs(attrs@));
            assert(am.take(i as int) =~= am);
        }
        while i > 0
            invariant
                i <= attrs@.len(),
                ns == self.model(),
                node < self.nodes@.len(),
                *attrs == self.nodes@[node as int].attrs,
                am == ns[node as int].attrs,
                am == crate::xml::chars_pairs(attrs@),
                wanted@ == name@,
                attr_lookup(am, name@) == attr_lookup(am.take(i as int), name@),
            decreases i,
        {
            proof {
                assert(am.take(i as int).drop_last() =~= am.take(i - 1));
                assert(am.take(i as int).last() == (attrs@[i - 1].0@, attrs@[i - 1].1@));
            }
            if chars_eq(&attrs[i - 1].0, &wanted) {
                return Some(crate::text::copy_chars(attrs[i - 1].1.as_slice()));
            }
            i = i - 1;
        }
        None
    }

    /// Attribut entier, ou la valeur par défaut.
    pub fn attr_int(&self, node: Option<usize>, name: &str, default: i32) -> (r: i32)
        requires
            self.ok(),
            node matches Some(n) ==> n < self.nodes@.len(),
        ensures
            r == attr_int(self.model(), opt_index(node), name@, default),
    {
        let v = match node {
            Some(n) => self.attr(n, name),
            None => None,
        };
        match v {
            Some(v) => match parse_i32(v.as_slice()) {
                Some(x) => x,
                None => default,
            },
            None => default,
        }
    }

    /// Lit un `<next>`.
    pub fn parse_next(&self, node: usize) -> (r: NextAnimation)
        requires
            self.ok(),
            node < self.nodes@.len(),
        ensures
            r == next_of(self.model(), node as int),
    {
        proof {
            reveal_strlit("");
            assert(""@ =~= Seq::<char>::empty());
        }
        let t = trim(self.nodes[node].text.as_slice());
        let id = match parse_i32(t.as_slice()) {
            Some(v) => v,
            None => -1,
        };
        let probability = self.attr_int(Some(node), "probability", 100);
        let only = match self.attr(node, "only") {
            Some(v) => OnlyFlags::parse(string_of(v.as_slice()).as_str()),
            None => OnlyFlags::parse(""),
        };
        proof {
            assert(self.model()[node as int].text == self.nodes@[node as int].text@);
        }
        NextAnimation { id, probability, only }
    }

    /// Lit un mouvement ; un nœud absent donne les valeurs par défaut.
    pub fn parse_movement(&self, node: Option<usize>) -> (r: Movement)
        requires
            self.ok(),
            node matches Some(n) ==> n < self.nodes@.len(),
        ensures
            movement_read(r, self.model(), opt_index(node)),
    {
        let x = self.text_of(node, "x", "0");
        let y = self.text_of(node, "y", "0");
        let interval = self.text_of(node, "interval", "100");
        let opacity = self.text_of(node, "opacity", "1.0");
        Movement {
            x: PetValue::new(string_of(x.as_slice())),
            y: PetValue::new(string_of(y.as_slice())),
            interval: PetValue::new(string_of(interval.as_slice())),
            offset_y: self.int_of(node, "offsety", 0),
            opacity: read_opacity(opacity.as_slice()),
        }
    }

    /// Lit tous les `<next>` d'un conteneur `<border>` ou `<gravity>`.
    pub fn parse_next_list(&self, node: Option<usize>) -> (r: Vec<NextAnimation>)
        requires
            self.ok(),
            node matches Some(n) ==> n < self.nodes@.len(),
        ensures
            r@ == next_list(self.model(), opt_index(node)),
    {
        let ghost ns = self.model();
        let list = match node {
            Some(n) => self.children_named(n, "next"),
            None => Vec::new(),
        };
        let ghost ids = named(ns, opt_index(node), "next"@);
        proof {
            assert(crate::xml::indices(list@) =~= ids);
        }
        let mut out: Vec<NextAnimation> = Vec::new();
        let mut i: usize = 0;
        while i < list.len()
            invariant
                i <= list@.len(),
                ns == self.model(),
                self.ok(),
                crate::xml::indices(list@) == ids,
                forall|k: int| 0 <= k < list@.len() ==> #[trigger] list@[k] < self.nodes@.len(),
                out@.len() == i,
                forall|k: int| 0 <= k < i ==> #[trigger] out@[k] == next_of(ns, ids[k]),
            decreases list@.len() - i,
        {
            proof {
                assert(ids[i as int] == list@[i as int] as int);
            }
            out.push(self.parse_next(list[i]));
            i = i + 1;
        }
        proof {
            assert(out@ =~= ids.map_values(next_fn(ns)));
        }
        out
    }
}

impl XmlTree {
    /// Lit une `<sequence>` : `frame`, `action` et `next` sont mêlés
    /// librement ; un nœud absent donne une séquence vide.
    #[verifier::spinoff_prover]
    pub fn parse_sequence(&self, node: Option<usize>) -> (r: Sequence)
        requires
            self.ok(),
            node matches Some(n) ==> n < self.nodes@.len(),
        ensures
            sequence_read(r, self.model(), opt_index(node)),
    {
        let ghost ns = self.model();
        let ghost ks = kids_of(ns, opt_index(node));
        let ghost ff = frame_fn(ns);
        let ghost pn = has_name(ns, "next"@);
        let empty: Vec<usize> = Vec::new();
        let kids = match node {
            Some(n) => &self.nodes[n].children,
            None => &empty,
        };
        proof {
            reveal_strlit("frame");
            reveal_strlit("action");
            reveal_strlit("next");
            assert(ks =~= crate::xml::indices(kids@));
            reveal(Seq::filter);
            assert(ks.take(0) =~= Seq::<int>::empty());
            assert(ks.take(0).filter(pn) =~= Seq::<int>::empty());
            assert(ks.take(0).filter_map(ff) =~= Seq::<i32>::empty());
            assert forall|k: int| 0 <= k < kids@.len() implies #[trigger] kids@[k] < self.nodes@.len() by {
                assert(ks[k] == kids@[k] as int);
            }
        }
        let mut frames: Vec<i32> = Vec::new();
        let mut action: Option<Vec<char>> = None;
        let mut next: Vec<NextAnimation> = Vec::new();
        let mut i: usize = 0;
        while i < kids.len()
            invariant
                i <= kids@.len(),
                ns == self.model(),
                self.ok(),
                ks == crate::xml::indices(kids@),
                forall|k: int| 0 <= k < kids@.len() ==> #[trigger] kids@[k] < self.nodes@.len(),
                ff == frame_fn(ns),
                pn == has_name(ns, "next"@),
                frames@ == ks.take(i as int).filter_map(ff),
                match (action, last_action(ns, ks.take(i as int))) {
                    (Some(a), Some(t)) => a@ == t,
                    (None, None) => true,
                    _ => false,
                },
                next@ == ks.take(i as int).filter(pn).map_values(next_fn(ns)),
            decreases kids@.len() - i,
        {
            let c = kids[i];
            proof {
                reveal_strlit("frame");
                reveal_strlit("action");
                reveal_strlit("next");
                assert(ks[i as int] == c as int);
                assert(ks.take(i + 1) =~= ks.take(i as int).push(c as int));
                assert(ks.take(i + 1).drop_last() =~= ks.take(i as int));
                ks.lemma_filter_map_take_succ(ff, i as int);
                ks.take(i as int).lemma_filter_push(c as int, pn);
                assert(ns[c as int].name == self.nodes@[c as int].name@);
                assert(ns[c as int].text == self.nodes@[c as int].text@);
                if pn(c as int) {
                    assert(ks.take(i + 1).filter(pn) == ks.take(i as int).filter(pn).push(c as int));
                } else {
                    assert(ks.take(i + 1).filter(pn) == ks.take(i as int).filter(pn));
                }
            }
            let name = &self.nodes[c].name;
            if same_name(name, "frame") {
                let t = trim(self.nodes[c].text.as_slice());
                if let Some(v) = parse_i32(t.as_slice()) {
                    frames.push(v);
                }
            } else if same_name(name, "action") {
                let t = trim(self.nodes[c].text.as_slice());
                if t.len() > 0 {
                    action = Some(t);
                }
            } else if same_name(name, "next") {
                let x = self.parse_next(c);
                next.push(x);
                proof {
                    assert(ks.take(i as int).filter(pn).push(c as int).map_values(next_fn(ns))
                        =~= ks.take(i as int).filter(pn).map_values(next_fn(ns)).push(x));
                }
            }
            i = i + 1;
        }
        proof {
            assert(ks.take(kids@.len() as int) =~= ks);
        }
        let repeat = match node {
            Some(n) => match self.attr(n, "repeat") {
                Some(v) => string_of(v.as_slice()),
                None => string_of(chars_of("0").as_slice()),
            },
            None => string_of(chars_of("0").as_slice()),
        };
        let action = match action {
            Some(a) => Some(string_of(a.as_slice())),
            None => None,
        };
        Sequence {
            repeat: PetValue::new(repeat),
            repeat_from: self.attr_int(node, "repeatfrom", 0),
            frames,
            action,
            next,
        }
    }

    /// Lit une `<animation>`.
    pub fn parse_animation(&self, node: usize) -> (r: Animation)
        requires
            self.ok(),
            node < self.nodes@.len(),
        ensures
            animation_read(r, self.model(), node as int),
    {
        proof {
            reveal_strlit("");
            assert(""@ =~= Seq::<char>::empty());
        }
        let end = match self.child(node, "end") {
            Some(e) => Some(self.parse_movement(Some(e))),
            None => None,
        };
        Animation {
            id: self.attr_int(Some(node), "id", 0),
            name: string_of(self.text_of(Some(node), "name", "").as_slice()),
            start: self.parse_movement(self.child(node, "start")),
            end,
            sequence: self.parse_sequence(self.child(node, "sequence")),
            border: self.parse_next_list(self.child(node, "border")),
            gravity: self.parse_next_list(self.child(node, "gravity")),
        }
    }

    fn parse_spawn(&self, node: usize) -> (r: Spawn)
        requires
            self.ok(),
            node < self.nodes@.len(),
        ensures
            spawn_read(r, self.model(), node as int),
    {
        Spawn {
            id: self.attr_int(Some(node), "id", 0),
            probability: self.attr_int(Some(node), "probability", 100),
            x: PetValue::new(string_of(self.text_of(Some(node), "x", "0").as_slice())),
            y: PetValue::new(string_of(self.text_of(Some(node), "y", "0").as_slice())),
            next: self.int_of(Some(node), "next", 1),
        }
    }

    fn parse_child(&self, node: usize) -> (r: Child)
        requires
            self.ok(),
            node < self.nodes@.len(),
        ensures
            child_read(r, self.model(), node as int),
    {
        Child {
            animation_id: self.attr_int(Some(node), "animationid", 0),
            x: PetValue::new(string_of(self.text_of(Some(node), "x", "0").as_slice())),
            y: PetValue::new(string_of(self.text_of(Some(node), "y", "0").as_slice())),
            next: self.int_of(Some(node), "next", 1),
        }
    }

    fn parse_sound(&self, node: usize) -> (r: Sound)
        requires
            self.ok(),
            node < self.nodes@.len(),
        ensures
            sound_read(r, self.model(), node as int),
    {
        proof {
            reveal_strlit("");
            assert(""@ =~= Seq::<char>::empty());
        }
        Sound {
            animation_id: self.attr_int(Some(node), "animationid", 0),
            probability: self.int_of(Some(node), "probability", 100),
            loop_count: self.int_of(Some(node), "loop", 0),
            base64: string_of(self.text_of(Some(node), "base64", "").as_slice()),
        }
    }

    fn parse_header(&self, node: usize) -> (r: Header)
        requires
            self.ok(),
            node < self.nodes@.len(),
        ensures
            header_read(r, self.model(), node as int),
    {
        proof {
            reveal_strlit("");
            assert(""@ =~= Seq::<char>::empty());
        }
        let n = Some(node);
        Header {
            author: string_of(self.text_of(n, "author", "").as_slice()),
            title: string_of(self.text_of(n, "title", "").as_slice()),
            petname: string_of(self.text_of(n, "petname", "Pet").as_slice()),
            version: string_of(self.text_of(n, "version", "0").as_slice()),
            info: string_of(self.text_of(n, "info", "").as_slice()),
            application: self.int_of(n, "application", 1),
            icon: string_of(self.text_of(n, "icon", "").as_slice()),
        }
    }

    fn parse_image(&self, node: usize) -> (r: ImageDef)
        requires
            self.ok(),
            node < self.nodes@.len(),
        ensures
            image_read(r, self.model(), node as int),
    {
        proof {
            reveal_strlit("");
            assert(""@ =~= Seq::<char>::empty());
        }
        let n = Some(node);
        let tx = self.int_of(n, "tilesx", 1);
        let ty = self.int_of(n, "tilesy", 1);
        let png = self.text_of(n, "png", "");
        ImageDef {
            tiles_x: if tx > 1 {
                tx as u32
            } else {
                1
            },
            tiles_y: if ty > 1 {
                ty as u32
            } else {
                1
            },
            png_base64: string_of(remove_white(png.as_slice()).as_slice()),
            transparency: string_of(self.text_of(n, "transparency", "Magenta").as_slice()),
        }
    }

    /// Les éléments `item` du conteneur `container` de `root`.
    fn listed_nodes(&self, root: usize, container: &str, item: &str) -> (r: Vec<usize>)
        requires
            self.ok(),
            root < self.nodes@.len(),
        ensures
            crate::xml::indices(r@) == listed(self.model(), root as int, container@, item@),
            forall|k: int| 0 <= k < r@.len() ==> #[trigger] r@[k] < self.nodes@.len(),
    {
        match self.child(root, container) {
            Some(c) => self.children_named(c, item),
            None => {
                let v: Vec<usize> = Vec::new();
                proof {
                    assert(crate::xml::indices(v@) =~= Seq::<int>::empty());
                }
                v
            },
        }
    }
}

/// Lit la définition d'un pet dans l'arbre : racine `<animations>`,
/// `<header>` et `<image>` obligatoires, au moins une `<animation>`.
pub fn pet_from_tree(tree: &XmlTree) -> (r: Result<PetDefinition, FormatError>)
    requires
        tree.ok(),
    ensures
        pet_outcome(r, tree.model(), tree.root as int),
{
    let ghost ns = tree.model();
    let root = match tree.child(tree.root, "animations") {
        Some(r) => r,
        None => {
            return Err(FormatError::MissingRoot);
        },
    };
    let header = match tree.child(root, "header") {
        Some(h) => tree.parse_header(h),
        None => {
            return Err(FormatError::MissingElement("header"));
        },
    };
    let image = match tree.child(root, "image") {
        Some(i) => tree.parse_image(i),
        None => {
            return Err(FormatError::MissingElement("image"));
        },
    };

    let list = tree.listed_nodes(root, "spawns", "spawn");
    let mut spawns: Vec<Spawn> = Vec::new();
    let mut i: usize = 0;
    while i < list.len()
        invariant
            i <= list@.len(),
            ns == tree.model(),
            tree.ok(),
            forall|k: int| 0 <= k < list@.len() ==> #[trigger] list@[k] < tree.nodes@.len(),
            spawns@.len() == i,
            forall|k: int| 0 <= k < i ==> spawn_read(#[trigger] spawns@[k], ns, list@[k] as int),
        decreases list@.len() - i,
    {
        spawns.push(tree.parse_spawn(list[i]));
        i = i + 1;
    }
    let ghost spawn_ids = list@;

    // Le conteneur d'animations porte le même nom que la racine.
    let list = tree.listed_nodes(root, "animations", "animation");
    let mut animations: Vec<Animation> = Vec::new();
    let mut i: usize = 0;
    while i < list.len()
        invariant
            i <= list@.len(),
            ns == tree.model(),
            tree.ok(),
            forall|k: int| 0 <= k < list@.len() ==> #[trigger] list@[k] < tree.nodes@.len(),
            animations@.len() == i,
            forall|k: int| 0 <= k < i ==> animation_read(#[trigger] animations@[k], ns, list@[k] as int),
        decreases list@.len() - i,
    {
        animations.push(tree.parse_animation(list[i]));
        i = i + 1;
    }
    let ghost animation_ids = list@;

    let list = tree.listed_nodes(root, "childs", "child");
    let mut childs: Vec<Child> = Vec::new();
    let mut i: usize = 0;
    while i < list.len()
        invariant
            i <= list@.len(),
            ns == tree.model(),
            tree.ok(),
            forall|k: int| 0 <= k < list@.len() ==> #[trigger] list@[k] < tree.nodes@.len(),
            childs@.len() == i,
            forall|k: int| 0 <= k < i ==> child_read(#[trigger] childs@[k], ns, list@[k] as int),
        decreases list@.len() - i,
    {
        childs.push(tree.parse_child(list[i]));
        i = i + 1;
    }
    let ghost child_ids = list@;

    let list = tree.listed_nodes(root, "sounds", "sound");
    let mut sounds: Vec<Sound> = Vec::new();
    let mut i: usize = 0;
    while i < list.len()
        invariant
            i <= list@.len(),
            ns == tree.model(),
            tree.ok(),
            forall|k: int| 0 <= k < list@.len() ==> #[trigger] list@[k] < tree.nodes@.len(),
            sounds@.len() == i,
            forall|k: int| 0 <= k < i ==> sound_read(#[trigger] sounds@[k], ns, list@[k] as int),
        decreases list@.len() - i,
    {
        sounds.push(tree.parse_sound(list[i]));
        i = i + 1;
    }

    if animations.len() == 0 {
        return Err(FormatError::MissingElement("animations"));
    }
    let d = PetDefinition { header, image, spawns, animations, childs, sounds };
    proof {
        let rt = root as int;
        assert forall|k: int| 0 <= k < d.spawns@.len() implies spawn_read(
            #[trigger] d.spawns@[k],
            ns,
            listed(ns, rt, "spawns"@, "spawn"@)[k],
        ) by {
            assert(listed(ns, rt, "spawns"@, "spawn"@)[k] == spawn_ids[k] as int);
        }
        assert forall|k: int| 0 <= k < d.animations@.len() implies animation_read(
            #[trigger] d.animations@[k],
            ns,
            listed(ns, rt, "animations"@, "animation"@)[k],
        ) by {
            assert(listed(ns, rt, "animations"@, "animation"@)[k] == animation_ids[k] as int);
        }
        assert forall|k: int| 0 <= k < d.childs@.len() implies child_read(
            #[trigger] d.childs@[k],
            ns,
            listed(ns, rt, "childs"@, "child"@)[k],
        ) by {
            assert(listed(ns, rt, "childs"@, "child"@)[k] == child_ids[k] as int);
        }
    }
    Ok(d)
}

/// Lit un `animations.xml` complet.
pub fn parse_pet(xml: &str) -> (r: Result<PetDefinition, FormatError>)
    ensures
        match xml_items(xml@) {
            None => r matches Err(FormatError::Xml(_)),
            Some(items) => pet_outcome(r, tree_of(items).nodes, tree_of(items).stack.last()),
        },
{
    let tree = build_tree(xml)?;
    pet_from_tree(&tree)
}

} // verus!
