use rustypet::context::SeededRng;
use rustypet::flock::{Flock, MAX_CHILDREN};
use rustypet::geometry::World;
use rustypet::parse::parse_pet;
use std::sync::Arc;

/// Un pet dont la rencontre initiale (id 3, one-shot) engendre un enfant :
/// l'enfant (id 5) trottine deux pas puis s'achève sans transition, donc se
/// ferme. Le principal continue en marche (id 1).
const XML_ENFANTS: &str = r#"
    <animations>
      <header><author>a</author><title>t</title><petname>p</petname>
        <version>1</version><info>i</info><application>1</application><icon>x</icon></header>
      <image><tilesx>2</tilesx><tilesy>1</tilesy><png>AAAA</png></image>
      <spawns><spawn id="1" probability="100"><x>100</x><y>200</y><next>3</next></spawn></spawns>
      <animations>
        <animation id="3">
          <name>meet</name>
          <start><x>0</x><y>0</y><interval>100</interval></start>
          <sequence repeat="0" repeatfrom="0"><frame>0</frame>
            <next probability="100">1</next></sequence>
        </animation>
        <animation id="1">
          <name>walk</name>
          <start><x>0</x><y>0</y><interval>100</interval></start>
          <sequence repeat="0" repeatfrom="0"><frame>0</frame><frame>1</frame>
            <next probability="100">1</next></sequence>
          <border><next probability="100">1</next></border>
        </animation>
        <animation id="5">
          <name>child_walk</name>
          <start><x>-2</x><y>0</y><interval>50</interval></start>
          <sequence repeat="0" repeatfrom="0"><frame>0</frame><frame>1</frame></sequence>
        </animation>
      </animations>
      <childs>
        <child animationid="3"><x>300</x><y>200</y><next>5</next></child>
      </childs>
    </animations>"#;

/// Variante : la marche, qui boucle sur elle-même, redéclare un enfant à
/// chaque redémarrage — le plafond doit contenir la prolifération.
const XML_PROLIFIQUE: &str = r#"
    <animations>
      <header><author>a</author><title>t</title><petname>p</petname>
        <version>1</version><info>i</info><application>1</application><icon>x</icon></header>
      <image><tilesx>2</tilesx><tilesy>1</tilesy><png>AAAA</png></image>
      <spawns><spawn id="1" probability="100"><x>100</x><y>200</y><next>1</next></spawn></spawns>
      <animations>
        <animation id="1">
          <name>walk</name>
          <start><x>0</x><y>0</y><interval>100</interval></start>
          <sequence repeat="0" repeatfrom="0"><frame>0</frame><frame>1</frame>
            <next probability="100">1</next></sequence>
          <border><next probability="100">1</next></border>
        </animation>
        <animation id="5">
          <name>child_walk</name>
          <start><x>0</x><y>0</y><interval>100</interval></start>
          <sequence repeat="30" repeatfrom="0"><frame>0</frame><frame>1</frame>
            <next probability="100">5</next></sequence>
        </animation>
      </animations>
      <childs>
        <child animationid="1"><x>300</x><y>200</y><next>5</next></child>
      </childs>
    </animations>"#;

fn flock_from(xml: &str) -> (Flock, World, SeededRng) {
    let def = Arc::new(parse_pet(xml).expect("parsing"));
    let world = World::simple(800, 600);
    let flock = Flock::new(def, (32, 32), &world);
    (flock, world, SeededRng::new(7))
}

fn make_flock() -> (Flock, World, SeededRng) {
    flock_from(XML_ENFANTS)
}

#[test]
fn le_principal_engendre_un_enfant_quand_l_animation_le_declare() {
    let (mut flock, world, mut rng) = make_flock();
    flock.spawn(&world, &mut rng);
    assert_eq!(flock.len(), 1, "au spawn, le principal est seul");

    // Le spawn a démarré l'animation : l'enfant est en attente ; il naît au
    // premier passage de la boucle.
    flock.advance(&world, &mut rng, 0);
    assert_eq!(flock.len(), 2, "l'enfant déclaré doit naître");
    let draws = flock.draws();
    assert_eq!((draws[1].x, draws[1].y), (300, 200), "l'enfant apparaît à la position déclarée");
    assert_eq!(flock.animation_ids()[1], 5);
}

#[test]
fn l_enfant_se_ferme_en_fin_de_chaine() {
    let (mut flock, world, mut rng) = make_flock();
    flock.spawn(&world, &mut rng);
    flock.advance(&world, &mut rng, 0);
    assert_eq!(flock.len(), 2);

    // L'animation 5 (2 frames, sans next) s'épuise en quelques pas de
    // 50 ms : l'enfant doit disparaître, le principal survivre.
    for _ in 0..10 {
        flock.advance(&world, &mut rng, 50);
    }
    assert_eq!(flock.len(), 1, "l'enfant fini doit se fermer");
}

#[test]
fn le_plafond_d_enfants_est_respecte() {
    let (mut flock, world, mut rng) = flock_from(XML_PROLIFIQUE);
    flock.spawn(&world, &mut rng);
    for _ in 0..200 {
        flock.advance(&world, &mut rng, 100);
    }
    assert!(
        flock.len() <= 1 + MAX_CHILDREN,
        "{} acteurs, plafond {} dépassé",
        flock.len(),
        1 + MAX_CHILDREN
    );
}

#[test]
fn chaque_acteur_avance_a_sa_cadence() {
    let (mut flock, world, mut rng) = make_flock();
    flock.spawn(&world, &mut rng);
    flock.advance(&world, &mut rng, 0);
    let child_x0 = flock.draws()[1].x;

    // 100 ms : l'enfant (50 ms) doit avoir avancé deux fois (2 × -2 px),
    // en deux passages de 50 ms.
    flock.advance(&world, &mut rng, 50);
    flock.advance(&world, &mut rng, 50);
    let child_x1 = flock.draws()[1].x;
    assert_eq!(child_x0 - child_x1, 4, "deux pas d'enfant en 100 ms");

    // La prochaine échéance ne dépasse jamais l'intervalle le plus court.
    assert!(flock.next_wait_ms() <= 50);
}

#[test]
fn le_troupeau_n_est_jamais_vide_et_reste_plafonne() {
    let (mut flock, world, mut rng) = flock_from(XML_PROLIFIQUE);
    assert!(!flock.is_empty());
    flock.spawn(&world, &mut rng);
    for step in 0..300 {
        flock.advance(&world, &mut rng, 37);
        assert!(flock.len() >= 1 && flock.len() <= 1 + MAX_CHILDREN, "pas {step}");
        assert!(flock.next_wait_ms() >= 1);
    }
    assert_eq!(flock.len(), 1 + MAX_CHILDREN);
    // Une réapparition congédie les enfants.
    flock.spawn(&world, &mut rng);
    assert_eq!(flock.len(), 1);
}

#[test]
fn sans_echeance_atteinte_rien_ne_bouge() {
    let (mut flock, world, mut rng) = make_flock();
    flock.spawn(&world, &mut rng);
    flock.advance(&world, &mut rng, 0);
    // L'enfant né à ce passage est dû tout de suite : un passage de plus.
    flock.advance(&world, &mut rng, 0);
    let before = flock.draws();
    let wait = flock.next_wait_ms();
    assert_eq!(wait, 50);
    flock.advance(&world, &mut rng, wait - 1);
    assert_eq!(flock.draws(), before);
    assert_eq!(flock.next_wait_ms(), 1);
    assert!(flock.take_sounds().is_empty());
    let ids = flock.animation_ids();
    assert_eq!(flock.main_pet_mut().animation_id(), ids[0]);
}
