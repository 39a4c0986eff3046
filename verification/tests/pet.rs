use rustypet::geometry::{Rect, World};
use rustypet::context::SeededRng;
use rustypet::parse::parse_pet;
use rustypet::pet::{Pet, TickOutcome};
use std::sync::Arc;

/// Un pet minimal : marche vers la droite, rebondit sur les bords.
const XML: &str = r#"
    <animations>
      <header><author>a</author><title>t</title><petname>p</petname>
        <version>1</version><info>i</info><application>1</application><icon>x</icon></header>
      <image><tilesx>2</tilesx><tilesy>1</tilesy><png>AAAA</png></image>
      <spawns><spawn id="1" probability="100"><x>100</x><y>200</y><next>1</next></spawn></spawns>
      <animations>
        <animation id="1">
          <name>walk</name>
          <start><x>5</x><y>0</y><interval>100</interval></start>
          <sequence repeat="0" repeatfrom="0"><frame>0</frame><frame>1</frame>
            <next probability="100">1</next></sequence>
          <border><next probability="100">2</next></border>
        </animation>
        <animation id="2">
          <name>turn</name>
          <start><x>0</x><y>0</y><interval>100</interval></start>
          <sequence repeat="0" repeatfrom="0"><frame>0</frame><action>flip</action>
            <next probability="100">1</next></sequence>
        </animation>
      </animations>
      <childs/>
    </animations>"#;

fn make_pet() -> (Pet, World, SeededRng) {
    let def = Arc::new(parse_pet(XML).expect("parsing"));
    let world = World::simple(800, 600);
    let pet = Pet::new(def, (32, 32), &world);
    (pet, world, SeededRng::new(7))
}

#[test]
fn le_spawn_positionne_le_pet() {
    let (mut pet, world, mut rng) = make_pet();
    pet.spawn(&world, &mut rng);
    assert_eq!(pet.position(), (100, 200));
    assert_eq!(pet.draw().frame, 0);
}

#[test]
fn le_pet_avance_a_chaque_tick() {
    let (mut pet, world, mut rng) = make_pet();
    pet.spawn(&world, &mut rng);
    let (x0, _) = pet.position();
    pet.tick(&world, &mut rng);
    let (x1, _) = pet.position();
    assert_eq!(x1 - x0, 5, "le pet doit avancer de 5 px par pas");
}

#[test]
fn le_pet_s_arrete_au_bord_droit() {
    let (mut pet, world, mut rng) = make_pet();
    pet.spawn(&world, &mut rng);
    pet.set_position(790, 200); // proche du bord droit (800 - 32)
    for _ in 0..10 {
        pet.tick(&world, &mut rng);
    }
    let (x, _) = pet.position();
    assert!(
        x <= world.area.right() - 32,
        "le pet est sorti à droite : x = {x}"
    );
}

#[test]
fn le_pet_ne_sort_pas_par_la_gauche() {
    let (mut pet, world, mut rng) = make_pet();
    pet.spawn(&world, &mut rng);
    // L'animation avance vers la droite (start.x = 5) ; retourné, le pet
    // avance vers la gauche.
    pet.set_flipped(true);
    pet.set_position(2, 200);
    for _ in 0..10 {
        pet.tick(&world, &mut rng);
    }
    let (x, _) = pet.position();
    assert!(x >= world.area.x, "le pet est sorti à gauche : x = {x}");
}

#[test]
fn le_drag_suspend_la_physique() {
    let (mut pet, world, mut rng) = make_pet();
    pet.spawn(&world, &mut rng);
    pet.begin_drag(&world, &mut rng);
    pet.drag_to(400, 300);
    pet.tick(&world, &mut rng);
    // La position reste celle du curseur, à l'ancrage près.
    let (x, y) = pet.position();
    assert_eq!(x, 400 - 16); // curseur - largeur/2
    assert_eq!(y, 300 - 2);
}

#[test]
fn la_simulation_est_deterministe_a_graine_egale() {
    let trace = |seed: u64| {
        let def = Arc::new(parse_pet(XML).expect("parsing"));
        let world = World::simple(800, 600);
        let mut pet = Pet::new(def, (32, 32), &world);
        let mut rng = SeededRng::new(seed);
        pet.spawn(&world, &mut rng);
        (0..200)
            .map(|_| {
                pet.tick(&world, &mut rng);
                let d = pet.draw();
                (d.frame, d.x, d.y, d.flipped)
            })
            .collect::<Vec<_>>()
    };
    assert_eq!(trace(1234), trace(1234));
}

/// Même pet mais sans transition `<border>`.
const XML_SANS_BORDER: &str = r#"
    <animations>
      <header><author>a</author><title>t</title><petname>p</petname>
        <version>1</version><info>i</info><application>1</application><icon>x</icon></header>
      <image><tilesx>2</tilesx><tilesy>1</tilesy><png>AAAA</png></image>
      <spawns><spawn id="1" probability="100"><x>100</x><y>200</y><next>1</next></spawn></spawns>
      <animations>
        <animation id="1">
          <name>walk</name>
          <start><x>5</x><y>0</y><interval>100</interval></start>
          <sequence repeat="0" repeatfrom="0"><frame>0</frame><frame>1</frame>
            <next probability="100">1</next></sequence>
        </animation>
      </animations>
      <childs/>
    </animations>"#;

#[test]
fn sans_transition_de_bord_le_pet_respawne_au_lieu_de_sortir() {
    let def = Arc::new(parse_pet(XML_SANS_BORDER).expect("parsing"));
    let world = World::simple(800, 600);
    let mut pet = Pet::new(def, (32, 32), &world);
    let mut rng = SeededRng::new(7);
    pet.spawn(&world, &mut rng);
    // Marche vers la gauche (cf. le_pet_ne_sort_pas_par_la_gauche).
    pet.set_flipped(true);
    pet.set_position(2, 200);

    let mut respawned = false;
    for step in 0..50 {
        if pet.tick(&world, &mut rng) == TickOutcome::Respawn {
            respawned = true;
            pet.spawn(&world, &mut rng);
        }
        let (x, _) = pet.position();
        assert!(x >= world.area.x, "sorti à gauche au pas {step} : x = {x}");
    }
    assert!(respawned, "le bord sans transition doit provoquer un respawn");
}

/// Un pet « façon mouton » : il marche (avec gravité) et sait tomber.
const XML_FENETRES: &str = r#"
    <animations>
      <header><author>a</author><title>t</title><petname>p</petname>
        <version>1</version><info>i</info><application>1</application><icon>x</icon></header>
      <image><tilesx>2</tilesx><tilesy>1</tilesy><png>AAAA</png></image>
      <spawns><spawn id="1" probability="100"><x>150</x><y>100</y><next>2</next></spawn></spawns>
      <animations>
        <animation id="1">
          <name>walk</name>
          <start><x>5</x><y>0</y><interval>100</interval></start>
          <sequence repeat="10" repeatfrom="0"><frame>0</frame><frame>1</frame>
            <next probability="100">1</next></sequence>
          <border><next probability="100" only="vertical">1</next></border>
          <gravity><next probability="100" only="window">2</next>
            <next probability="100">2</next></gravity>
        </animation>
        <animation id="2">
          <name>fall</name>
          <start><x>0</x><y>8</y><interval>100</interval></start>
          <sequence repeat="0" repeatfrom="0"><frame>0</frame><frame>1</frame>
            <next probability="100">2</next></sequence>
          <border><next probability="100" only="window">1</next>
            <next probability="100" only="taskbar">1</next></border>
        </animation>
      </animations>
      <childs/>
    </animations>"#;

/// Monde 800×600 avec une fenêtre dont le toit est à y = 300.
fn make_pet_fenetres() -> (Pet, World, SeededRng) {
    let def = Arc::new(parse_pet(XML_FENETRES).expect("parsing"));
    let mut world = World::simple(800, 600);
    world.windows.push(Rect::new(100, 300, 300, 200));
    let pet = Pet::new(def, (32, 32), &world);
    (pet, world, SeededRng::new(7))
}

#[test]
fn le_pet_atterrit_sur_le_toit_d_une_fenetre() {
    let (mut pet, world, mut rng) = make_pet_fenetres();
    pet.spawn(&world, &mut rng); // (150, 100), en chute
    for _ in 0..40 {
        pet.tick(&world, &mut rng);
    }
    let (_, y) = pet.position();
    assert_eq!(y, 300 - 32, "le pet doit se poser sur le toit de la fenêtre, pas au sol");
}

#[test]
fn le_pet_tombe_du_bord_de_la_fenetre_et_atteint_le_sol() {
    let (mut pet, world, mut rng) = make_pet_fenetres();
    pet.spawn(&world, &mut rng);
    for _ in 0..200 {
        pet.tick(&world, &mut rng);
    }
    let (_, y) = pet.position();
    assert_eq!(y, 600 - 32, "après le bord du toit, le pet doit finir au sol");
}

#[test]
fn le_pet_chute_quand_la_fenetre_disparait_sous_lui() {
    let (mut pet, mut world, mut rng) = make_pet_fenetres();
    pet.spawn(&world, &mut rng);
    for _ in 0..40 {
        pet.tick(&world, &mut rng);
    }
    assert_eq!(pet.position().1, 268, "prérequis : le pet est sur le toit");
    world.windows.clear();
    for _ in 0..80 {
        pet.tick(&world, &mut rng);
    }
    assert_eq!(pet.position().1, 600 - 32, "fenêtre fermée : le pet doit retomber au sol");
}

#[test]
fn le_pet_reste_dans_l_ecran_sur_une_longue_simulation() {
    let (mut pet, world, mut rng) = make_pet();
    pet.spawn(&world, &mut rng);
    for step in 0..2000 {
        pet.tick(&world, &mut rng);
        let (x, y) = pet.position();
        assert!(
            x >= world.area.x && x <= world.area.right() - 32,
            "sorti horizontalement au pas {step} : x = {x}"
        );
        assert!(
            y >= world.area.y && y <= world.area.bottom() - 32,
            "sorti verticalement au pas {step} : y = {y}"
        );
    }
}

#[test]
fn un_pet_sans_animation_demarree_ne_bouge_pas() {
    let (mut pet, world, mut rng) = make_pet();
    assert_eq!(pet.tick(&world, &mut rng), TickOutcome::Continue);
    assert_eq!(pet.position(), (0, 0));
    assert_eq!(pet.animation_id(), -1);
    assert_eq!(pet.interval_ms(), 100);
}

#[test]
fn un_enfant_se_ferme_au_lieu_de_reapparaitre() {
    let def = Arc::new(parse_pet(XML_SANS_BORDER).expect("parsing"));
    let world = World::simple(800, 600);
    let mut pet = Pet::new(def, (32, 32), &world);
    let mut rng = SeededRng::new(7);
    pet.spawn(&world, &mut rng);
    pet.set_child(true);
    pet.set_flipped(true);
    pet.set_position(2, 200);
    let mut closed = false;
    for _ in 0..5 {
        if pet.tick(&world, &mut rng) == TickOutcome::Close {
            closed = true;
            break;
        }
    }
    assert!(closed, "un enfant au bord sans transition se ferme");
}

#[test]
fn le_glisser_suit_le_curseur_sans_attendre() {
    let (mut pet, world, mut rng) = make_pet();
    pet.spawn(&world, &mut rng);
    pet.drag_to(50, 60);
    // Hors glisser, la position ne suit pas le curseur.
    assert_eq!(pet.position(), (100, 200));
    pet.begin_drag(&world, &mut rng);
    pet.drag_to(50, 60);
    assert_eq!(pet.position(), (34, 58));
    pet.end_drag(&world, &mut rng);
    assert_eq!(pet.pending_children(), Vec::<i32>::new());
    assert_eq!(pet.take_sound(), None);
}
