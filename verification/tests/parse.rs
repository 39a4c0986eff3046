use rustypet::arith::Ratio;
use rustypet::model::{FormatError, OnlyFlags};
use rustypet::parse::{parse_pet, pet_from_tree, read_opacity};
use rustypet::xml::{build_tree, local_name, tree_from_events, XmlItem};

const MINIMAL: &str = r#"
    <animations>
      <header><author>a</author><title>t</title><petname>p</petname>
        <version>1</version><info>i</info><application>1</application><icon>x</icon></header>
      <image><tilesx>4</tilesx><tilesy>2</tilesy><png>AAAA</png></image>
      <spawns><spawn id="1" probability="100"><x>0</x><y>0</y><next>1</next></spawn></spawns>
      <animations>
        <animation id="1">
          <name>walk</name>
          <start><x>2</x><y>0</y><interval>100</interval></start>
          <sequence repeat="3" repeatfrom="1"><frame>0</frame><frame>1</frame>
            <action>flip</action><next probability="50" only="taskbar">2</next></sequence>
          <border><next probability="100">3</next></border>
        </animation>
      </animations>
      <childs/>
    </animations>"#;

fn as_f64(r: Ratio) -> f64 {
    r.num as f64 / r.den as f64
}

#[test]
fn applique_les_valeurs_par_defaut() {
    let pet = parse_pet(MINIMAL).unwrap();
    let anim = &pet.animations[0];
    assert_eq!(anim.start.offset_y, 0);
    assert_eq!(as_f64(anim.start.opacity), 1.0);
    assert_eq!(pet.image.transparency, "Magenta");
}

#[test]
fn end_absent_reste_absent() {
    let pet = parse_pet(MINIMAL).unwrap();
    assert!(pet.animations[0].end.is_none());
}

#[test]
fn lit_les_frames_dans_l_ordre() {
    let pet = parse_pet(MINIMAL).unwrap();
    assert_eq!(pet.animations[0].sequence.frames, vec![0, 1]);
}

#[test]
fn lit_l_action_flip() {
    let pet = parse_pet(MINIMAL).unwrap();
    assert_eq!(pet.animations[0].sequence.action.as_deref(), Some("flip"));
}

#[test]
fn lit_repeat_comme_expression() {
    let pet = parse_pet(MINIMAL).unwrap();
    assert_eq!(pet.animations[0].sequence.repeat.compute, "3");
    assert_eq!(pet.animations[0].sequence.repeat_from, 1);
}

#[test]
fn lit_les_drapeaux_only() {
    let pet = parse_pet(MINIMAL).unwrap();
    let next = &pet.animations[0].sequence.next[0];
    assert_eq!(next.id, 2);
    assert_eq!(next.probability, 50);
    assert_eq!(next.only, OnlyFlags::TASKBAR);
}

#[test]
fn separe_border_de_sequence_next() {
    let pet = parse_pet(MINIMAL).unwrap();
    assert_eq!(pet.animations[0].border.len(), 1);
    assert_eq!(pet.animations[0].border[0].id, 3);
    assert!(pet.animations[0].gravity.is_empty());
}

#[test]
fn accepte_l_ordre_libre_des_sous_elements() {
    let inverse = MINIMAL.replace(
        "<start><x>2</x><y>0</y><interval>100</interval></start>",
        "<start><interval>100</interval><y>0</y><x>2</x></start>",
    );
    let pet = parse_pet(&inverse).unwrap();
    assert_eq!(pet.animations[0].start.x.compute, "2");
    assert_eq!(pet.animations[0].start.interval.compute, "100");
}

#[test]
fn horizontal_plus_vaut_horizontal() {
    assert_eq!(OnlyFlags::parse("horizontal+"), OnlyFlags::HORIZONTAL);
    assert_eq!(OnlyFlags::parse("none"), OnlyFlags::NONE);
    assert_eq!(OnlyFlags::parse(""), OnlyFlags::NONE);
}

#[test]
fn les_drapeaux_only_se_recoupent_par_bits() {
    assert!(OnlyFlags::NONE.allows(OnlyFlags::WINDOW));
    assert!(OnlyFlags::TASKBAR.allows(OnlyFlags::TASKBAR));
    assert!(!OnlyFlags::TASKBAR.allows(OnlyFlags::WINDOW));
    assert!(OnlyFlags::WINDOW.allows(OnlyFlags::NONE));
    assert_eq!(OnlyFlags::VERTICAL.bits(), 0x08);
}

#[test]
fn lit_l_en_tete_l_image_et_les_listes() {
    let pet = parse_pet(MINIMAL).unwrap();
    assert_eq!(pet.header.author, "a");
    assert_eq!(pet.header.petname, "p");
    assert_eq!(pet.header.application, 1);
    assert_eq!((pet.image.tiles_x, pet.image.tiles_y), (4, 2));
    assert_eq!(pet.image.png_base64, "AAAA");
    assert_eq!(pet.spawns.len(), 1);
    assert_eq!(pet.spawns[0].probability, 100);
    assert_eq!(pet.spawns[0].next, 1);
    assert!(pet.childs.is_empty());
    assert!(pet.sounds.is_empty());
}

#[test]
fn signale_les_elements_obligatoires_manquants() {
    assert!(matches!(parse_pet("<pet/>"), Err(FormatError::MissingRoot)));
    assert!(matches!(
        parse_pet("<animations><image/></animations>"),
        Err(FormatError::MissingElement("header"))
    ));
    assert!(matches!(
        parse_pet("<animations><header/></animations>"),
        Err(FormatError::MissingElement("image"))
    ));
    assert!(matches!(
        parse_pet("<animations><header/><image/><animations/></animations>"),
        Err(FormatError::MissingElement("animations"))
    ));
    assert!(matches!(parse_pet("<a></b>"), Err(FormatError::Xml(_))));
}

#[test]
fn les_valeurs_illisibles_prennent_le_defaut() {
    let xml = r#"<animations><header><petname>  </petname><application>x</application></header>
      <image><tilesx>-3</tilesx><png> AA AA
      AA </png><transparency>#00FF00</transparency></image>
      <animations><animation id="zz"><sequence><frame>a</frame><frame> 7 </frame>
      <next only="window">oops</next></sequence></animation></animations></animations>"#;
    let pet = parse_pet(xml).unwrap();
    assert_eq!(pet.header.petname, "Pet");
    assert_eq!(pet.header.application, 1);
    assert_eq!(pet.header.version, "0");
    assert_eq!(pet.image.tiles_x, 1);
    assert_eq!(pet.image.tiles_y, 1);
    assert_eq!(pet.image.png_base64, "AAAAAA");
    assert_eq!(pet.image.transparency, "#00FF00");
    let a = &pet.animations[0];
    assert_eq!(a.id, 0);
    assert_eq!(a.sequence.frames, vec![7]);
    assert_eq!(a.sequence.repeat.compute, "0");
    assert_eq!(a.sequence.next[0].id, -1);
    assert_eq!(a.sequence.next[0].probability, 100);
    assert_eq!(a.sequence.next[0].only, OnlyFlags::WINDOW);
    assert_eq!(a.start.x.compute, "0");
    assert_eq!(a.start.interval.compute, "100");
}

#[test]
fn lit_les_enfants_et_les_sons() {
    let xml = r#"<animations><header/><image/>
      <animations><animation id="3"><name>meet</name><end><x>4</x><opacity>0.25</opacity></end></animation></animations>
      <childs><child animationid="3"><x>300</x><y>200</y><next>5</next></child></childs>
      <sounds><sound animationid="3"><probability>20</probability><loop>2</loop><base64>UklGRg</base64></sound></sounds>
    </animations>"#;
    let pet = parse_pet(xml).unwrap();
    assert_eq!(pet.childs.len(), 1);
    assert_eq!(pet.childs[0].animation_id, 3);
    assert_eq!(pet.childs[0].x.compute, "300");
    assert_eq!(pet.childs[0].next, 5);
    assert_eq!(pet.sounds[0].probability, 20);
    assert_eq!(pet.sounds[0].loop_count, 2);
    assert_eq!(pet.sounds[0].base64, "UklGRg");
    let end = pet.animations[0].end.as_ref().unwrap();
    assert_eq!(end.x.compute, "4");
    assert_eq!(as_f64(end.opacity), 0.25);
}

#[test]
fn les_prefixes_de_namespace_sont_retires() {
    let xml = r#"<p:animations xmlns:p="urn:x"><p:header/><p:image/>
      <p:animations><p:animation p:id="4"/></p:animations></p:animations>"#;
    let pet = parse_pet(xml).unwrap();
    assert_eq!(pet.animations.len(), 1);
    assert_eq!(pet.animations[0].id, 4);
    assert_eq!(local_name(b"p:animations"), "animations");
    assert_eq!(local_name(b"a:b:c"), "c");
    assert_eq!(local_name(b"plain"), "plain");
}

#[test]
fn lit_une_opacite_decimale() {
    let r = read_opacity(&['0', '.', '5']);
    assert_eq!(as_f64(r), 0.5);
    assert_eq!(as_f64(read_opacity(&['-', '1'])), -1.0);
    assert_eq!(as_f64(read_opacity(&['.', '2', '5'])), 0.25);
    assert_eq!(read_opacity(&['a', 'b']), Ratio { num: 1, den: 1 });
    assert_eq!(read_opacity(&['1', '.', '2', '.', '3']), Ratio { num: 1, den: 1 });
}

#[test]
fn l_arbre_se_construit_depuis_les_evenements() {
    let items = vec![
        XmlItem::Open { name: "animations".into(), attrs: Vec::new() },
        XmlItem::Leaf { name: "header".into(), attrs: Vec::new() },
        XmlItem::Open { name: "image".into(), attrs: vec![("k".into(), "1".into()), ("k".into(), "2".into())] },
        XmlItem::Text(" x ".into()),
        XmlItem::Close,
        XmlItem::Close,
    ];
    let tree = tree_from_events(items);
    let top = tree.root;
    let root = tree.child(top, "animations").unwrap();
    let image = tree.child(root, "image").unwrap();
    assert!(tree.child(root, "header").is_some());
    assert_eq!(tree.attr_int(Some(image), "k", 0), 2);
    assert_eq!(tree.text_of(Some(root), "image", "d"), vec!['x']);
    assert_eq!(tree.text_of(Some(root), "missing", "d"), vec!['d']);
    assert!(matches!(pet_from_tree(&tree), Err(FormatError::MissingElement("animations"))));
}

#[test]
fn un_flux_tronque_rend_le_dernier_element_ouvert() {
    let tree = build_tree("<a><b>texte").unwrap();
    assert_eq!(tree.nodes[tree.root].name, vec!['b']);
    assert_eq!(tree.nodes[tree.root].text, "texte".chars().collect::<Vec<_>>());
}

#[test]
fn l_arbre_retire_les_prefixes() {
    let tree = build_tree("<p:animations x:id='3'><p:header/></p:animations>").unwrap();
    let top = tree.root;
    let root = tree.child(top, "animations").unwrap();
    let node = &tree.nodes[root];
    assert_eq!(node.attrs, vec![("id".chars().collect::<Vec<_>>(), vec!['3'])]);
    assert_eq!(node.children.len(), 1);
    assert_eq!(tree.nodes[node.children[0]].name, "header".chars().collect::<Vec<_>>());
}

#[test]
fn textes_et_valeurs_desechappes() {
    let tree = build_tree("<a v='x &amp; y'>1 &lt; 2<![CDATA[<b>]]></a>").unwrap();
    let a = tree.child(tree.root, "a").unwrap();
    assert_eq!(tree.nodes[a].attrs, vec![(vec!['v'], "x & y".chars().collect::<Vec<_>>())]);
    assert_eq!(tree.nodes[a].text, "1 < 2<b>".chars().collect::<Vec<_>>());
    // Une entité inconnue rend la valeur vide, sans erreur.
    let tree = build_tree("<a v='&zz;'/>").unwrap();
    let a = tree.child(tree.root, "a").unwrap();
    assert_eq!(tree.nodes[a].attrs, vec![(vec!['v'], Vec::new())]);
}

#[test]
fn une_erreur_de_syntaxe_est_rapportee() {
    assert!(matches!(build_tree("<a></b>"), Err(FormatError::Xml(_))));
}

#[test]
fn l_opacite_accepte_un_exposant() {
    let chars = |s: &str| s.chars().collect::<Vec<char>>();
    assert_eq!(as_f64(read_opacity(&chars("5e-1"))), 0.5);
    assert_eq!(as_f64(read_opacity(&chars("-5e-1"))), -0.5);
    assert_eq!(as_f64(read_opacity(&chars("2.5E2"))), 250.0);
    assert_eq!(as_f64(read_opacity(&chars("+.5e+1"))), 5.0);
    assert_eq!(as_f64(read_opacity(&chars("0e999"))), 0.0);
    // Écritures refusées par `f64::from_str` : la valeur par défaut.
    assert_eq!(read_opacity(&chars("1e")), Ratio { num: 1, den: 1 });
    assert_eq!(read_opacity(&chars(".e1")), Ratio { num: 1, den: 1 });
    assert_eq!(read_opacity(&chars("1e+-2")), Ratio { num: 1, den: 1 });
}
