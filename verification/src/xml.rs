//! Arbre XML générique : les événements de `quick_xml` sont repliés en un
//! arbre de nœuds (nom, texte, attributs, enfants), lu ensuite par nom.
//!
//! Le schéma des pets utilise `xsd:all` : l'ordre des sous-éléments est libre.
//! L'arbre est rangé dans un tableau ; un nœud désigne ses enfants par leur
//! index.

use vstd::prelude::*;
use quick_xml::events::attributes::Attribute;
use quick_xml::events::Event;
use quick_xml::Reader;
use std::borrow::Cow;
use crate::model::FormatError;
use crate::text::{append_chars, chars_of, string_of};
use self::RawEvent::{End, Eof, Other, Tag};

verus! {

#[verifier::external_type_specification]
#[verifier::external_body]
#[verifier::reject_recursive_types(R)]
pub struct ExReader<R>(Reader<R>);

#[verifier::external_type_specification]
#[verifier::external_body]
pub struct ExXmlError(quick_xml::Error);

/// Un événement lu par `quick_xml`, en valeurs simples.
pub enum RawEvent {
    /// Balise ouvrante (`true`) ou auto-fermante (`false`) : nom qualifié
    /// brut, puis les attributs dans l'ordre (clé brute, valeur brute encore
    /// échappée), `None` pour un attribut mal formé.
    Tag(bool, Vec<u8>, Vec<Option<(Vec<u8>, Vec<u8>)>>),
    /// Balise fermante.
    End,
    /// Texte désechappé, ou l'erreur de décodage.
    Text(Result<String, quick_xml::Error>),
    /// Contenu brut d'une section CDATA.
    CData(Vec<u8>),
    /// Fin du flux.
    Eof,
    /// Commentaire, déclaration, instruction, DOCTYPE : ignorés.
    Other,
}

/// Modèle d'un événement lu.
pub enum RawModel {
    Tag(bool, Seq<u8>, Seq<Option<(Seq<u8>, Seq<u8>)>>),
    End,
    Text(Option<Seq<char>>),
    CData(Seq<u8>),
    Eof,
    Other,
}

pub open spec fn raw_attrs_model(a: Seq<Option<(Vec<u8>, Vec<u8>)>>) -> Seq<Option<(Seq<u8>, Seq<u8>)>> {
    a.map_values(
        |x: Option<(Vec<u8>, Vec<u8>)>|
            match x {
                Some(p) => Some((p.0@, p.1@)),
                None => None,
            },
    )
}

pub open spec fn raw_model(e: RawEvent) -> RawModel {
    match e {
        RawEvent::Tag(open, name, attrs) => RawModel::Tag(open, name@, raw_attrs_model(attrs@)),
        RawEvent::End => RawModel::End,
        RawEvent::Text(t) => RawModel::Text(
            match t {
                Ok(s) => Some(s@),
                Err(_) => None,
            },
        ),
        RawEvent::CData(b) => RawModel::CData(b@),
        RawEvent::Eof => RawModel::Eof,
        RawEvent::Other => RawModel::Other,
    }
}

/// Le `k`-ième résultat (à partir de 0) de `Reader::read_event` sur un
/// lecteur ouvert par `Reader::from_str(src)` avec `trim_text(false)` et lu
/// d'affilée : l'événement, ou `None` pour une erreur de syntaxe.
pub uninterp spec fn xml_event(src: Seq<char>, k: nat) -> Option<RawModel>;

/// `Attribute::unescape_value` sur une valeur brute : décodage UTF-8 puis
/// remplacement des entités prédéfinies, `None` si l'un échoue.
pub uninterp spec fn xml_unescape(raw: Seq<u8>) -> Option<Seq<char>>;

/// Un flux d'événements sur un texte XML : le lecteur, le texte qu'il lit
/// et le nombre d'événements déjà lus. Seul `open` en crée un, et seul
/// `build_tree` le fait avancer, en comptant chaque lecture.
pub struct XmlStream<'a> {
    reader: Reader<&'a [u8]>,
    src: &'a str,
    reads: u128,
}

/// `Reader::from_str` : lecteur sur le texte, sans copie.
#[verifier::external_body]
fn xml_reader<'a>(xml: &'a str) -> Reader<&'a [u8]> {
    Reader::from_str(xml)
}

/// `Config::trim_text(false)` : les textes sont gardés tels quels.
#[verifier::external_body]
fn keep_text_whitespace(reader: &mut Reader<&[u8]>) {
    reader.config_mut().trim_text(false);
}

impl<'a> XmlStream<'a> {
    /// Un flux neuf sur `xml`, textes gardés tels quels.
    fn open(xml: &'a str) -> (r: Self)
        ensures
            r.src@ == xml@,
            r.reads == 0,
    {
        let mut reader = xml_reader(xml);
        keep_text_whitespace(&mut reader);
        XmlStream { reader, src: xml, reads: 0 }
    }
}

/// `Reader::read_event` : l'événement suivant du flux, converti en valeurs
/// simples (nom et attributs bruts d'une balise, texte désechappé par
/// `BytesText::unescape`, octets d'une section CDATA), ou l'erreur de
/// syntaxe. Le flux ayant été ouvert par `XmlStream::open` et lu `reads`
/// fois, le résultat est le `reads`-ième de la suite nommée `xml_event`.
/// Le compteur n'est pas touché : l'appelant l'avance.
#[verifier::external_body]
fn read_raw<'a>(s: &mut XmlStream<'a>) -> (r: Result<RawEvent, quick_xml::Error>)
    ensures
        final(s).src == old(s).src,
        final(s).reads == old(s).reads,
        match r {
            Ok(e) => xml_event(old(s).src@, old(s).reads as nat) == Some(raw_model(e)),
            Err(_) => xml_event(old(s).src@, old(s).reads as nat) is None,
        },
{
    let (open, e) = match s.reader.read_event()? {
        Event::Start(e) => (true, e),
        Event::Empty(e) => (false, e),
        Event::End(_) => return Ok(End),
        Event::Text(e) => return Ok(RawEvent::Text(e.unescape().map(Cow::into_owned))),
        Event::CData(e) => return Ok(RawEvent::CData(e.to_vec())),
        Event::Eof => return Ok(Eof),
        _ => return Ok(Other),
    };
    let attrs = e.attributes().map(|a| a.ok().map(|a| (a.key.0.to_vec(), a.value.to_vec()))).collect();
    Ok(Tag(open, e.name().0.to_vec(), attrs))
}

/// `Attribute::unescape_value` : la valeur brute décodée en UTF-8, entités
/// prédéfinies remplacées ; `None` si l'une des deux étapes échoue. Le
/// résultat ne dépend que des octets de la valeur.
#[verifier::external_body]
fn attr_value(key: &[u8], value: &[u8]) -> (r: Option<String>)
    ensures
        match r {
            Some(t) => xml_unescape(value@) == Some(t@),
            None => xml_unescape(value@) is None,
        },
{
    Attribute::from((key, value)).unescape_value().ok().map(Cow::into_owned)
}

/// Message d'une erreur de `quick_xml` (`Display`).
#[verifier::external_body]
fn xml_error_text(e: &quick_xml::Error) -> String {
    e.to_string()
}

/// Décodage UTF-8 avec remplacement des séquences invalides.
pub uninterp spec fn utf8_lossy(bytes: Seq<u8>) -> Seq<char>;

/// Octets tous ASCII : chaque octet est le caractère de même code.
pub open spec fn ascii_text(bytes: Seq<u8>) -> Seq<char> {
    bytes.map_values(|b: u8| b as char)
}

/// `String::from_utf8_lossy` : le résultat est nommé ; un texte valide est
/// rendu tel quel, donc un texte ASCII caractère pour octet.
#[verifier::external_body]
fn lossy_text(bytes: &[u8]) -> (r: String)
    ensures
        r@ == utf8_lossy(bytes@),
        (forall|i: int| 0 <= i < bytes@.len() ==> #[trigger] bytes@[i] < 0x80) ==> r@ == ascii_text(bytes@),
{
    String::from_utf8_lossy(bytes).into_owned()
}

// ---------------------------------------------------------------------------
// Modèle de l'arbre
// ---------------------------------------------------------------------------

/// Un événement XML en valeurs simples.
pub enum XmlItem {
    /// Balise ouvrante : nom local, attributs (nom local, valeur) dans l'ordre.
    Open { name: String, attrs: Vec<(String, String)> },
    /// Balise auto-fermante.
    Leaf { name: String, attrs: Vec<(String, String)> },
    /// Balise fermante.
    Close,
    /// Texte ou CDATA.
    Text(String),
}

/// Un nœud du modèle : nom, texte, attributs dans l'ordre, index des enfants.
pub struct NodeModel {
    pub name: Seq<char>,
    pub text: Seq<char>,
    pub attrs: Seq<(Seq<char>, Seq<char>)>,
    pub children: Seq<int>,
}

/// Arbre en construction : les nœuds et la pile des éléments ouverts
/// (la racine `#root` au fond).
pub struct TreeModel {
    pub nodes: Seq<NodeModel>,
    pub stack: Seq<int>,
}

pub open spec fn pairs_model(attrs: Seq<(String, String)>) -> Seq<(Seq<char>, Seq<char>)> {
    attrs.map_values(|p: (String, String)| (p.0@, p.1@))
}

pub open spec fn fresh_node(name: Seq<char>, attrs: Seq<(Seq<char>, Seq<char>)>) -> NodeModel {
    NodeModel { name, text: Seq::empty(), attrs, children: Seq::empty() }
}

/// Arbre vide : la racine `#root` seule, ouverte.
pub open spec fn initial_tree() -> TreeModel {
    TreeModel { nodes: seq![fresh_node("#root"@, Seq::empty())], stack: seq![0int] }
}

/// Le nœud `c` devient le dernier enfant de `parent`.
pub open spec fn adopt(nodes: Seq<NodeModel>, parent: int, c: int) -> Seq<NodeModel> {
    nodes.update(parent, NodeModel { children: nodes[parent].children.push(c), ..nodes[parent] })
}

/// Modèle d'un événement de l'arbre : noms et textes en caractères.
pub enum ItemModel {
    Open(Seq<char>, Seq<(Seq<char>, Seq<char>)>),
    Leaf(Seq<char>, Seq<(Seq<char>, Seq<char>)>),
    Close,
    Text(Seq<char>),
}

pub open spec fn item_model(i: XmlItem) -> ItemModel {
    match i {
        XmlItem::Open { name, attrs } => ItemModel::Open(name@, pairs_model(attrs@)),
        XmlItem::Leaf { name, attrs } => ItemModel::Leaf(name@, pairs_model(attrs@)),
        XmlItem::Close => ItemModel::Close,
        XmlItem::Text(t) => ItemModel::Text(t@),
    }
}

/// Les modèles d'une suite d'événements.
pub open spec fn items_model(items: Seq<XmlItem>) -> Seq<ItemModel> {
    items.map_values(|i: XmlItem| item_model(i))
}

/// Effet d'un événement : une ouverture empile un nouveau nœud ; une balise
/// auto-fermante devient enfant du nœud ouvert ; une fermeture rattache le
/// nœud ouvert à son parent (jamais la racine) ; un texte s'ajoute à celui du
/// nœud ouvert.
pub open spec fn tree_step(m: TreeModel, item: ItemModel) -> TreeModel {
    let top = m.stack.last();
    let idx = m.nodes.len() as int;
    match item {
        ItemModel::Open(name, attrs) => TreeModel {
            nodes: m.nodes.push(fresh_node(name, attrs)),
            stack: m.stack.push(idx),
        },
        ItemModel::Leaf(name, attrs) => TreeModel {
            nodes: adopt(m.nodes.push(fresh_node(name, attrs)), top, idx),
            stack: m.stack,
        },
        ItemModel::Close => if m.stack.len() > 1 {
            let rest = m.stack.drop_last();
            TreeModel { nodes: adopt(m.nodes, rest.last(), top), stack: rest }
        } else {
            m
        },
        ItemModel::Text(t) => TreeModel {
            nodes: m.nodes.update(top, NodeModel { text: m.nodes[top].text + t, ..m.nodes[top] }),
            stack: m.stack,
        },
    }
}

/// L'arbre obtenu en repliant les événements dans l'ordre.
pub open spec fn tree_of(items: Seq<ItemModel>) -> TreeModel
    decreases items.len(),
{
    if items.len() == 0 {
        initial_tree()
    } else {
        tree_step(tree_of(items.drop_last()), items.last())
    }
}

/// Index valides : enfants et pile désignent des nœuds existants, la pile
/// n'est jamais vide.
pub open spec fn tree_ok(m: TreeModel) -> bool {
    &&& m.stack.len() >= 1
    &&& forall|k: int| 0 <= k < m.stack.len() ==> 0 <= #[trigger] m.stack[k] < m.nodes.len()
    &&& forall|i: int, k: int|
        0 <= i < m.nodes.len() && 0 <= k < m.nodes[i].children.len() ==> 0 <= #[trigger] m.nodes[i].children[k]
            < m.nodes.len()
}

/// Quel que soit le flux d'événements, l'arbre est cohérent : la pile n'est
/// jamais vide et tout index désigne un nœud existant (la lecture ne peut
/// pas paniquer sur une pile vide).
pub proof fn lemma_tree_indices_valid(items: Seq<ItemModel>)
    ensures
        tree_ok(tree_of(items)),
    decreases items.len(),
{
    if items.len() > 0 {
        lemma_tree_indices_valid(items.drop_last());
        let m = tree_of(items.drop_last());
        let n = tree_of(items);
        assert forall|i: int, k: int|
            0 <= i < n.nodes.len() && 0 <= k < n.nodes[i].children.len() implies 0
                <= #[trigger] n.nodes[i].children[k] < n.nodes.len() by {
            if i < m.nodes.len() && k < m.nodes[i].children.len() {
                assert(m.nodes[i].children[k] == n.nodes[i].children[k]);
            }
        }
    }
}

// ---------------------------------------------------------------------------
// L'arbre exécutable
// ---------------------------------------------------------------------------

/// Un nœud de l'arbre.
pub struct XmlNode {
    pub name: Vec<char>,
    pub text: Vec<char>,
    pub attrs: Vec<(Vec<char>, Vec<char>)>,
    pub children: Vec<usize>,
}

/// Arbre XML rangé dans un tableau ; `root` est le nœud rendu par la
/// lecture.
pub struct XmlTree {
    pub nodes: Vec<XmlNode>,
    pub root: usize,
}

pub open spec fn chars_pairs(s: Seq<(Vec<char>, Vec<char>)>) -> Seq<(Seq<char>, Seq<char>)> {
    s.map_values(|p: (Vec<char>, Vec<char>)| (p.0@, p.1@))
}

pub open spec fn indices(s: Seq<usize>) -> Seq<int> {
    s.map_values(|c: usize| c as int)
}

pub open spec fn node_model(n: XmlNode) -> NodeModel {
    NodeModel { name: n.name@, text: n.text@, attrs: chars_pairs(n.attrs@), children: indices(n.children@) }
}

pub open spec fn nodes_model(nodes: Seq<XmlNode>) -> Seq<NodeModel> {
    nodes.map_values(|n: XmlNode| node_model(n))
}

impl XmlTree {
    /// Les nœuds du modèle.
    pub open spec fn model(&self) -> Seq<NodeModel> {
        nodes_model(self.nodes@)
    }

    /// Index valides.
    pub open spec fn ok(&self) -> bool {
        &&& self.root < self.nodes@.len()
        &&& forall|i: int, k: int|
            0 <= i < self.model().len() && 0 <= k < self.model()[i].children.len() ==> 0
                <= #[trigger] self.model()[i].children[k] < self.model().len()
    }
}

fn pairs_chars(attrs: &Vec<(String, String)>) -> (r: Vec<(Vec<char>, Vec<char>)>)
    ensures
        chars_pairs(r@) == pairs_model(attrs@),
{
    let mut out: Vec<(Vec<char>, Vec<char>)> = Vec::new();
    let mut i: usize = 0;
    while i < attrs.len()
        invariant
            i <= attrs@.len(),
            out@.len() == i,
            forall|j: int| 0 <= j < i ==> (#[trigger] out@[j]).0@ == attrs@[j].0@ && out@[j].1@ == attrs@[j].1@,
        decreases attrs@.len() - i,
    {
        let k = chars_of(attrs[i].0.as_str());
        let v = chars_of(attrs[i].1.as_str());
        out.push((k, v));
        i = i + 1;
    }
    proof {
        assert(chars_pairs(out@) =~= pairs_model(attrs@));
    }
    out
}

/// Construction incrémentale de l'arbre.
pub struct TreeBuilder {
    nodes: Vec<XmlNode>,
    stack: Vec<usize>,
}

impl TreeBuilder {
    pub closed spec fn model(&self) -> TreeModel {
        TreeModel { nodes: nodes_model(self.nodes@), stack: indices(self.stack@) }
    }

    pub closed spec fn ok(&self) -> bool {
        tree_ok(self.model())
    }

    /// Un arbre réduit à la racine `#root`.
    pub fn new() -> (r: Self)
        ensures
            r.ok(),
            r.model() == initial_tree(),
    {
        let root = XmlNode { name: chars_of("#root"), text: Vec::new(), attrs: Vec::new(), children: Vec::new() };
        let mut nodes: Vec<XmlNode> = Vec::new();
        nodes.push(root);
        let mut stack: Vec<usize> = Vec::new();
        stack.push(0);
        let r = TreeBuilder { nodes, stack };
        proof {
            reveal_strlit("#root");
            assert(chars_pairs(r.nodes@[0].attrs@) =~= Seq::empty());
            assert(indices(r.nodes@[0].children@) =~= Seq::empty());
            assert(node_model(r.nodes@[0]) == fresh_node("#root"@, Seq::empty()));
            assert(r.model().nodes =~= initial_tree().nodes);
            assert(r.model().stack =~= initial_tree().stack);
        }
        r
    }

    fn push_child(&mut self, parent: usize, c: usize)
        requires
            parent < old(self).nodes@.len(),
        ensures
            final(self).nodes@.len() == old(self).nodes@.len(),
            final(self).stack@ == old(self).stack@,
            final(self).model().nodes == adopt(old(self).model().nodes, parent as int, c as int),
    {
        let ghost pre = self.model();
        let node = &mut self.nodes[parent];
        node.children.push(c);
        proof {
            let post = self.model();
            assert forall|i: int| 0 <= i < post.nodes.len() implies #[trigger] post.nodes[i] == adopt(
                pre.nodes,
                parent as int,
                c as int,
            )[i] by {
                if i == parent {
                    assert(post.nodes[i].children =~= pre.nodes[i].children.push(c as int));
                    assert(post.nodes[i].attrs =~= pre.nodes[i].attrs);
                }
            }
            assert(post.nodes =~= adopt(pre.nodes, parent as int, c as int));
        }
    }

    /// Ajoute un événement.
    pub fn feed(&mut self, item: XmlItem)
        requires
            old(self).ok(),
        ensures
            final(self).ok(),
            final(self).model() == tree_step(old(self).model(), item_model(item)),
            final(self).model().nodes.len() <= old(self).model().nodes.len() + 1,
    {
        let ghost pre = self.model();
        let ghost it = item;
        let top = self.stack[self.stack.len() - 1];
        proof {
            assert(pre.stack.last() == top as int);
        }
        match item {
            XmlItem::Open { name, attrs } => {
                let idx = self.nodes.len();
                let node = XmlNode { name: chars_of(name.as_str()), text: Vec::new(), attrs: pairs_chars(&attrs), children: Vec::new() };
                self.nodes.push(node);
                self.stack.push(idx);
                proof {
                    assert(node_model(self.nodes@[idx as int]) == fresh_node(name@, pairs_model(attrs@))) by {
                        assert(indices(self.nodes@[idx as int].children@) =~= Seq::empty());
                    }
                    let post = self.model();
                    let expect = tree_step(pre, item_model(it));
                    assert(post.nodes =~= expect.nodes);
                    assert(post.stack =~= expect.stack);
                }
            },
            XmlItem::Leaf { name, attrs } => {
                let idx = self.nodes.len();
                let node = XmlNode { name: chars_of(name.as_str()), text: Vec::new(), attrs: pairs_chars(&attrs), children: Vec::new() };
                self.nodes.push(node);
                proof {
                    assert(node_model(self.nodes@[idx as int]) == fresh_node(name@, pairs_model(attrs@))) by {
                        assert(indices(self.nodes@[idx as int].children@) =~= Seq::empty());
                    }
                    assert(self.model().nodes =~= pre.nodes.push(fresh_node(name@, pairs_model(attrs@))));
                    assert(self.model().stack =~= pre.stack);
                }
                self.push_child(top, idx);
            },
            XmlItem::Close => {
                if self.stack.len() > 1 {
                    let c = self.stack.pop().unwrap();
                    let parent = self.stack[self.stack.len() - 1];
                    proof {
                        assert(self.model().stack =~= pre.stack.drop_last());
                    }
                    self.push_child(parent, c);
                }
            },
            XmlItem::Text(t) => {
                let chars = chars_of(t.as_str());
                let node = &mut self.nodes[top];
                append_chars(&mut node.text, &chars);
                proof {
                    let post = self.model();
                    let expect = tree_step(pre, item_model(it));
                    assert forall|i: int| 0 <= i < post.nodes.len() implies #[trigger] post.nodes[i]
                        == expect.nodes[i] by {
                        if i == top {
                            assert(post.nodes[i].attrs =~= pre.nodes[i].attrs);
                            assert(post.nodes[i].children =~= pre.nodes[i].children);
                        }
                    }
                    assert(post.nodes =~= expect.nodes);
                    assert(post.stack =~= expect.stack);
                }
            },
        }
        proof {
            let post = self.model();
            assert forall|i: int, k: int|
                0 <= i < post.nodes.len() && 0 <= k < post.nodes[i].children.len() implies 0
                    <= #[trigger] post.nodes[i].children[k] < post.nodes.len() by {
                if i < pre.nodes.len() && k < pre.nodes[i].children.len() {
                    assert(pre.nodes[i].children[k] == post.nodes[i].children[k]);
                }
            }
        }
    }

    /// L'arbre final : sa racine est le nœud au sommet de la pile.
    pub fn finish(self) -> (r: XmlTree)
        requires
            self.ok(),
        ensures
            r.ok(),
            r.model() == self.model().nodes,
            r.root == self.model().stack.last(),
    {
        let root = self.stack[self.stack.len() - 1];
        proof {
            assert(self.model().stack.last() == root as int);
        }
        XmlTree { nodes: self.nodes, root }
    }
}

/// L'arbre des événements donnés, dans l'ordre.
pub fn tree_from_events(items: Vec<XmlItem>) -> (r: XmlTree)
    ensures
        r.ok(),
        r.model() == tree_of(items_model(items@)).nodes,
        r.root == tree_of(items_model(items@)).stack.last(),
{
    let ghost all = items@;
    let ghost n = all.len() as int;
    let mut pending = items;
    let mut reversed: Vec<XmlItem> = Vec::new();
    // Les événements sont retournés, puis consommés par la fin : dans l'ordre.
    while pending.len() > 0
        invariant
            n == all.len(),
            pending@ == all.take(pending@.len() as int),
            pending@.len() <= n,
            reversed@.len() == n - pending@.len(),
            forall|j: int| 0 <= j < reversed@.len() ==> #[trigger] reversed@[j] == all[n - 1 - j],
        decreases pending@.len(),
    {
        let x = pending.pop().unwrap();
        reversed.push(x);
        proof {
            assert(pending@ =~= all.take(pending@.len() as int));
        }
    }
    let mut builder = TreeBuilder::new();
    proof {
        assert(items_model(all.take(0)) =~= Seq::<ItemModel>::empty());
    }
    while reversed.len() > 0
        invariant
            n == all.len(),
            reversed@.len() <= n,
            forall|j: int| 0 <= j < reversed@.len() ==> #[trigger] reversed@[j] == all[n - 1 - j],
            builder.ok(),
            builder.model() == tree_of(items_model(all.take(n - reversed@.len()))),
            builder.model().nodes.len() <= 1 + n - reversed@.len(),
        decreases reversed@.len(),
    {
        let ghost m = n - reversed@.len();
        let x = reversed.pop().unwrap();
        proof {
            assert(x == all[m]);
            assert(items_model(all.take(m + 1)).drop_last() =~= items_model(all.take(m)));
            assert(items_model(all.take(m + 1)).last() == item_model(x));
        }
        builder.feed(x);
    }
    proof {
        assert(all.take(n) =~= all);
    }
    builder.finish()
}

/// Ce qui suit le dernier `:` (le nom sans préfixe de namespace), ou le tout.
pub open spec fn local_part(s: Seq<char>) -> Seq<char>
    decreases s.len(),
{
    if s.len() == 0 {
        s
    } else if s.last() == ':' {
        Seq::empty()
    } else {
        local_part(s.drop_last()).push(s.last())
    }
}

/// Retire le préfixe de namespace d'un nom qualifié.
pub fn local_name(raw: &[u8]) -> (r: String)
    ensures
        r@ == local_part(utf8_lossy(raw@)),
{
    let text = lossy_text(raw);
    let chars = chars_of(text.as_str());
    let mut out: Vec<char> = Vec::new();
    let mut i: usize = 0;
    proof {
        assert(chars@.take(0) =~= Seq::<char>::empty());
    }
    while i < chars.len()
        invariant
            i <= chars@.len(),
            out@ == local_part(chars@.take(i as int)),
        decreases chars@.len() - i,
    {
        proof {
            assert(chars@.take(i + 1).drop_last() =~= chars@.take(i as int));
        }
        if chars[i] == ':' {
            out = Vec::new();
        } else {
            out.push(chars[i]);
        }
        i = i + 1;
    }
    proof {
        assert(chars@.take(chars@.len() as int) =~= chars@);
    }
    string_of(&out)
}

/// Un nom local ne contient jamais de `:`.
pub proof fn lemma_local_part_no_colon(s: Seq<char>)
    ensures
        !local_part(s).contains(':'),
    decreases s.len(),
{
    if s.len() == 0 {
    } else if s.last() == ':' {
    } else {
        lemma_local_part_no_colon(s.drop_last());
        let p = local_part(s.drop_last());
        let q = p.push(s.last());
        assert forall|j: int| 0 <= j < q.len() implies q[j] != ':' by {
            if j < p.len() {
                assert(q[j] == p[j]);
            }
        }
    }
}

// ---------------------------------------------------------------------------
// Du flux d'événements à l'arbre
// ---------------------------------------------------------------------------

/// Valeur d'attribut lue : désechappée, ou vide si elle ne se lit pas.
pub open spec fn attr_text(raw: Seq<u8>) -> Seq<char> {
    match xml_unescape(raw) {
        Some(t) => t,
        None => Seq::empty(),
    }
}

/// Attributs retenus, dans l'ordre : ceux qui se lisent, clé sans préfixe
/// de namespace.
pub open spec fn attr_pairs(a: Seq<Option<(Seq<u8>, Seq<u8>)>>) -> Seq<(Seq<char>, Seq<char>)>
    decreases a.len(),
{
    if a.len() == 0 {
        Seq::empty()
    } else {
        let rest = attr_pairs(a.drop_last());
        match a.last() {
            Some(p) => rest.push((local_part(utf8_lossy(p.0)), attr_text(p.1))),
            None => rest,
        }
    }
}

/// Ce qu'un événement lu apporte à l'arbre : noms sans préfixe, texte
/// illisible vide, CDATA décodée ; rien pour la fin et les événements
/// ignorés.
pub open spec fn item_of(e: RawModel) -> Option<ItemModel> {
    match e {
        RawModel::Tag(open, name, attrs) => if open {
            Some(ItemModel::Open(local_part(utf8_lossy(name)), attr_pairs(attrs)))
        } else {
            Some(ItemModel::Leaf(local_part(utf8_lossy(name)), attr_pairs(attrs)))
        },
        RawModel::End => Some(ItemModel::Close),
        RawModel::Text(t) => Some(
            ItemModel::Text(
                match t {
                    Some(s) => s,
                    None => Seq::empty(),
                },
            ),
        ),
        RawModel::CData(b) => Some(ItemModel::Text(utf8_lossy(b))),
        RawModel::Eof => None,
        RawModel::Other => None,
    }
}

/// Les événements de l'arbre, dans l'ordre des événements lus.
pub open spec fn items_of(evs: Seq<RawModel>) -> Seq<ItemModel>
    decreases evs.len(),
{
    if evs.len() == 0 {
        Seq::empty()
    } else {
        let rest = items_of(evs.drop_last());
        match item_of(evs.last()) {
            Some(i) => rest.push(i),
            None => rest,
        }
    }
}

/// Les événements lus à partir du `k`-ième, jusqu'à la fin exclue, en au
/// plus `left` lectures : `None` sur une erreur de syntaxe, ou si la fin
/// n'arrive pas dans ce nombre de lectures.
pub open spec fn raw_from(src: Seq<char>, k: nat, left: nat) -> Option<Seq<RawModel>>
    decreases left,
{
    if left == 0 {
        None
    } else {
        match xml_event(src, k) {
            None => None,
            Some(RawModel::Eof) => Some(Seq::empty()),
            Some(e) => match raw_from(src, k + 1, (left - 1) as nat) {
                Some(rest) => Some(seq![e] + rest),
                None => None,
            },
        }
    }
}

/// Les événements du texte `src` avant la fin, lus en au plus une lecture
/// par caractère plus une : `None` si la lecture échoue.
pub open spec fn xml_raw_events(src: Seq<char>) -> Option<Seq<RawModel>> {
    raw_from(src, 0, src.len() + 1)
}

/// Les événements d'arbre du texte `src`, ou `None` si la lecture échoue.
pub open spec fn xml_items(src: Seq<char>) -> Option<Seq<ItemModel>> {
    match xml_raw_events(src) {
        Some(evs) => Some(items_of(evs)),
        None => None,
    }
}

pub open spec fn prefixed(done: Seq<RawModel>, rest: Option<Seq<RawModel>>) -> Option<Seq<RawModel>> {
    match rest {
        Some(r) => Some(done + r),
        None => None,
    }
}

/// Aucun nom d'élément ni clé d'attribut ne contient `:`.
pub open spec fn names_local(ns: Seq<NodeModel>) -> bool {
    forall|i: int| 0 <= i < ns.len() ==> {
        &&& !(#[trigger] ns[i]).name.contains(':')
        &&& forall|k: int| 0 <= k < ns[i].attrs.len() ==> !(#[trigger] ns[i].attrs[k]).0.contains(':')
    }
}

/// Les événements ne portent que des noms sans `:`.
pub open spec fn items_local(items: Seq<ItemModel>) -> bool {
    forall|j: int| 0 <= j < items.len() ==> match #[trigger] items[j] {
        ItemModel::Open(n, a) => !n.contains(':') && forall|k: int| 0 <= k < a.len() ==> !(#[trigger] a[k]).0.contains(':'),
        ItemModel::Leaf(n, a) => !n.contains(':') && forall|k: int| 0 <= k < a.len() ==> !(#[trigger] a[k]).0.contains(':'),
        _ => true,
    }
}

proof fn lemma_attr_pairs_local(a: Seq<Option<(Seq<u8>, Seq<u8>)>>)
    ensures
        forall|k: int| 0 <= k < attr_pairs(a).len() ==> !(#[trigger] attr_pairs(a)[k]).0.contains(':'),
    decreases a.len(),
{
    if a.len() > 0 {
        lemma_attr_pairs_local(a.drop_last());
        let rest = attr_pairs(a.drop_last());
        match a.last() {
            Some(p) => {
                lemma_local_part_no_colon(utf8_lossy(p.0));
                let all = attr_pairs(a);
                assert forall|k: int| 0 <= k < all.len() implies !(#[trigger] all[k]).0.contains(':') by {
                    if k < rest.len() {
                        assert(all[k] == rest[k]);
                    }
                }
            },
            None => {},
        }
    }
}

proof fn lemma_items_of_local(evs: Seq<RawModel>)
    ensures
        items_local(items_of(evs)),
    decreases evs.len(),
{
    if evs.len() > 0 {
        lemma_items_of_local(evs.drop_last());
        let rest = items_of(evs.drop_last());
        match evs.last() {
            RawModel::Tag(open, name, attrs) => {
                lemma_local_part_no_colon(utf8_lossy(name));
                lemma_attr_pairs_local(attrs);
            },
            _ => {},
        }
        let all = items_of(evs);
        assert forall|j: int| 0 <= j < all.len() implies match #[trigger] all[j] {
            ItemModel::Open(n, a) => !n.contains(':') && forall|k: int| 0 <= k < a.len() ==> !(#[trigger] a[k]).0.contains(':'),
            ItemModel::Leaf(n, a) => !n.contains(':') && forall|k: int| 0 <= k < a.len() ==> !(#[trigger] a[k]).0.contains(':'),
            _ => true,
        } by {
            if j < rest.len() {
                assert(all[j] == rest[j]);
            }
        }
    }
}

/// Des événements sans `:` donnent un arbre sans `:` dans ses noms.
proof fn lemma_tree_names_local(items: Seq<ItemModel>)
    requires
        items_local(items),
    ensures
        names_local(tree_of(items).nodes),
    decreases items.len(),
{
    if items.len() == 0 {
        reveal_strlit("#root");
        let ns = tree_of(items).nodes;
        assert(ns[0].attrs.len() == 0);
        assert(!ns[0].name.contains(':')) by {
            assert forall|j: int| 0 <= j < ns[0].name.len() implies ns[0].name[j] != ':' by {}
        }
    } else {
        let pre = items.drop_last();
        assert forall|j: int| 0 <= j < pre.len() implies #[trigger] pre[j] == items[j] by {}
        lemma_tree_names_local(pre);
        lemma_tree_indices_valid(pre);
        let m = tree_of(pre);
        let n = tree_of(items);
        let it = items.last();
        assert(items[items.len() - 1] == it);
        assert forall|i: int| 0 <= i < n.nodes.len() implies {
            &&& !(#[trigger] n.nodes[i]).name.contains(':')
            &&& forall|k: int| 0 <= k < n.nodes[i].attrs.len() ==> !(#[trigger] n.nodes[i].attrs[k]).0.contains(':')
        } by {
            if i < m.nodes.len() {
                assert(n.nodes[i].name == m.nodes[i].name);
                assert(n.nodes[i].attrs == m.nodes[i].attrs);
            }
        }
    }
}

/// Les attributs lus, dans l'ordre : un attribut mal formé est ignoré,
/// une valeur mal échappée vaut la chaîne vide.
fn attr_list(attrs: &Vec<Option<(Vec<u8>, Vec<u8>)>>) -> (r: Vec<(String, String)>)
    ensures
        pairs_model(r@) == attr_pairs(raw_attrs_model(attrs@)),
{
    let ghost all = raw_attrs_model(attrs@);
    let mut out: Vec<(String, String)> = Vec::new();
    let mut i: usize = 0;
    proof {
        assert(all.take(0) =~= Seq::<Option<(Seq<u8>, Seq<u8>)>>::empty());
        assert(pairs_model(out@) =~= Seq::<(Seq<char>, Seq<char>)>::empty());
    }
    while i < attrs.len()
        invariant
            i <= attrs@.len(),
            all == raw_attrs_model(attrs@),
            pairs_model(out@) == attr_pairs(all.take(i as int)),
        decreases attrs@.len() - i,
    {
        proof {
            assert(all.take(i + 1).drop_last() =~= all.take(i as int));
            assert(all.take(i + 1).last() == all[i as int]);
        }
        match &attrs[i] {
            Some(p) => {
                let key = local_name(p.0.as_slice());
                let value = match attr_value(p.0.as_slice(), p.1.as_slice()) {
                    Some(v) => v,
                    None => String::new(),
                };
                let ghost before = out@;
                out.push((key, value));
                proof {
                    assert(pairs_model(out@) =~= pairs_model(before).push((key@, value@)));
                }
            },
            None => {},
        }
        i = i + 1;
    }
    proof {
        assert(all.take(attrs@.len() as int) =~= all);
    }
    out
}

/// L'événement d'arbre d'un événement lu, s'il en porte un.
fn item_from(e: RawEvent) -> (r: Option<XmlItem>)
    ensures
        match r {
            Some(i) => item_of(raw_model(e)) == Some(item_model(i)),
            None => item_of(raw_model(e)) is None,
        },
{
    match e {
        RawEvent::Tag(open, name, attrs) => {
            let n = local_name(name.as_slice());
            let a = attr_list(&attrs);
            if open {
                Some(XmlItem::Open { name: n, attrs: a })
            } else {
                Some(XmlItem::Leaf { name: n, attrs: a })
            }
        },
        RawEvent::End => Some(XmlItem::Close),
        RawEvent::Text(t) => Some(
            XmlItem::Text(
                match t {
                    Ok(s) => s,
                    Err(_) => String::new(),
                },
            ),
        ),
        RawEvent::CData(b) => Some(XmlItem::Text(lossy_text(b.as_slice()))),
        RawEvent::Eof => None,
        RawEvent::Other => None,
    }
}

/// Construit l'arbre générique à partir du XML. Les préfixes de namespace
/// sont retirés ; un texte ou une valeur mal échappés comptent pour vides ;
/// une erreur de syntaxe est rapportée. Un flux tronqué rend le dernier
/// élément resté ouvert.
pub fn build_tree(xml: &str) -> (r: Result<XmlTree, FormatError>)
    ensures
        match xml_items(xml@) {
            Some(items) => r matches Ok(t) && t.ok() && t.model() == tree_of(items).nodes && t.root
                == tree_of(items).stack.last() && names_local(t.model()),
            None => r matches Err(FormatError::Xml(_)),
        },
{
    let ghost src = xml@;
    let limit: u128 = chars_of(xml).len() as u128;
    let mut stream = XmlStream::open(xml);
    let mut builder = TreeBuilder::new();
    let ghost mut done: Seq<RawModel> = Seq::empty();
    proof {
        assert(prefixed(done, raw_from(src, 0, (limit + 1) as nat)) == xml_raw_events(src)) by {
            match raw_from(src, 0, (limit + 1) as nat) {
                Some(r) => {
                    assert(done + r =~= r);
                },
                None => {},
            }
        }
        lemma_items_of_local(done);
    }
    loop
        invariant
            stream.src@ == src,
            src == xml@,
            limit == src.len(),
            limit <= usize::MAX,
            stream.reads <= limit + 1,
            builder.ok(),
            builder.model() == tree_of(items_of(done)),
            xml_raw_events(src) == prefixed(done, raw_from(src, stream.reads as nat, (limit + 1 - stream.reads) as nat)),
        decreases limit + 1 - stream.reads,
    {
        let ghost k = stream.reads as nat;
        let ghost left = (limit + 1 - stream.reads) as nat;
        if stream.reads > limit {
            // Aucune lecture ne reste : `raw_from` vaut `None`.
            return Err(FormatError::Xml(string_of(&chars_of("flux XML sans fin"))));
        }
        let got = read_raw(&mut stream);
        stream.reads = stream.reads + 1;
        let ev = match got {
            Ok(e) => e,
            Err(e) => {
                return Err(FormatError::Xml(xml_error_text(&e)));
            },
        };
        let ghost m = raw_model(ev);
        if let RawEvent::Eof = ev {
            proof {
                assert(done + Seq::<RawModel>::empty() =~= done);
                lemma_items_of_local(done);
                lemma_tree_names_local(items_of(done));
            }
            return Ok(builder.finish());
        }
        proof {
            assert(m != RawModel::Eof);
            match raw_from(src, k + 1, (left - 1) as nat) {
                Some(rest) => {
                    assert(done + (seq![m] + rest) =~= done.push(m) + rest);
                },
                None => {},
            }
            assert(done.push(m).drop_last() =~= done);
            assert(done.push(m).last() == m);
        }
        let item = item_from(ev);
        let ghost before = items_of(done);
        match item {
            Some(x) => {
                builder.feed(x);
                proof {
                    assert(items_of(done.push(m)) == before.push(item_model(x)));
                    assert(before.push(item_model(x)).drop_last() =~= before);
                }
            },
            None => {
                proof {
                    assert(items_of(done.push(m)) == before);
                }
            },
        }
        proof {
            done = done.push(m);
        }
    }
}

} // verus!
