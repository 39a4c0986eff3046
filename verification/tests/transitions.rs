use rustypet::context::SeededRng;
use rustypet::model::{NextAnimation, OnlyFlags, Spawn};
use rustypet::transitions::{pick_next, pick_next_with, pick_spawn, pick_spawn_with};
use rustypet::value::PetValue;

fn next(id: i32, probability: i32, only: OnlyFlags) -> NextAnimation {
    NextAnimation {
        id,
        probability,
        only,
    }
}

#[test]
fn retourne_none_si_aucun_candidat() {
    let mut rng = SeededRng::new(1);
    assert_eq!(pick_next(&[], OnlyFlags::NONE, &mut rng), None);
}

#[test]
fn choisit_l_unique_candidat() {
    let mut rng = SeededRng::new(1);
    let list = [next(7, 100, OnlyFlags::NONE)];
    assert_eq!(pick_next(&list, OnlyFlags::TASKBAR, &mut rng), Some(7));
}

#[test]
fn filtre_selon_le_contexte() {
    let mut rng = SeededRng::new(1);
    let list = [
        next(1, 100, OnlyFlags::WINDOW),
        next(2, 100, OnlyFlags::TASKBAR),
    ];
    // Contexte barre des tâches : seul l'identifiant 2 est éligible.
    for _ in 0..20 {
        assert_eq!(pick_next(&list, OnlyFlags::TASKBAR, &mut rng), Some(2));
    }
}

#[test]
fn retourne_none_si_tout_est_filtre() {
    let mut rng = SeededRng::new(1);
    let list = [next(1, 100, OnlyFlags::WINDOW)];
    assert_eq!(pick_next(&list, OnlyFlags::TASKBAR, &mut rng), None);
}

#[test]
fn only_none_passe_dans_tous_les_contextes() {
    let mut rng = SeededRng::new(1);
    let list = [next(5, 100, OnlyFlags::NONE)];
    for ctx in [
        OnlyFlags::TASKBAR,
        OnlyFlags::WINDOW,
        OnlyFlags::HORIZONTAL,
        OnlyFlags::VERTICAL,
    ] {
        assert_eq!(pick_next(&list, ctx, &mut rng), Some(5));
    }
}

#[test]
fn respecte_grossierement_les_poids() {
    let mut rng = SeededRng::new(12345);
    let list = [next(1, 90, OnlyFlags::NONE), next(2, 10, OnlyFlags::NONE)];
    let mut ones = 0;
    let total = 2000;
    for _ in 0..total {
        if pick_next(&list, OnlyFlags::NONE, &mut rng) == Some(1) {
            ones += 1;
        }
    }
    // Le poids 90/100 doit dominer largement, sans exiger une précision fine.
    assert!(
        ones > total * 3 / 4,
        "l'identifiant 1 est sorti {ones} fois sur {total}"
    );
}

#[test]
fn le_tirage_est_reproductible_a_seed_egale() {
    let list = [next(1, 50, OnlyFlags::NONE), next(2, 50, OnlyFlags::NONE)];
    let mut a = SeededRng::new(42);
    let mut b = SeededRng::new(42);
    let sa: Vec<_> = (0..50)
        .map(|_| pick_next(&list, OnlyFlags::NONE, &mut a))
        .collect();
    let sb: Vec<_> = (0..50)
        .map(|_| pick_next(&list, OnlyFlags::NONE, &mut b))
        .collect();
    assert_eq!(sa, sb);
}

#[test]
fn le_tirage_retient_la_premiere_candidate_dont_le_cumul_atteint_le_tirage() {
    let list = [
        next(1, 30, OnlyFlags::NONE),
        next(2, 0, OnlyFlags::NONE),
        next(3, 70, OnlyFlags::NONE),
    ];
    assert_eq!(pick_next_with(&list, OnlyFlags::NONE, 0), Some(1));
    assert_eq!(pick_next_with(&list, OnlyFlags::NONE, 30), Some(1));
    // Le poids nul de 2 ne fait pas avancer le cumul : 31 revient à 3.
    assert_eq!(pick_next_with(&list, OnlyFlags::NONE, 31), Some(3));
    assert_eq!(pick_next_with(&list, OnlyFlags::NONE, 100), Some(3));
}

#[test]
fn des_poids_tous_nuls_donnent_la_premiere_eligible() {
    let list = [
        next(4, 0, OnlyFlags::WINDOW),
        next(5, -3, OnlyFlags::NONE),
        next(6, 0, OnlyFlags::NONE),
    ];
    assert_eq!(pick_next_with(&list, OnlyFlags::TASKBAR, 0), Some(5));
}

fn spawn(probability: i32) -> Spawn {
    Spawn {
        id: 1,
        probability,
        x: PetValue::new("0".into()),
        y: PetValue::new("0".into()),
        next: 1,
    }
}

#[test]
fn le_point_d_apparition_suit_les_poids() {
    let spawns = [spawn(10), spawn(90)];
    assert_eq!(pick_spawn_with(&spawns, 0), Some(0));
    assert_eq!(pick_spawn_with(&spawns, 10), Some(0));
    assert_eq!(pick_spawn_with(&spawns, 11), Some(1));
    assert_eq!(pick_spawn_with(&[], 3), None);
    let mut rng = SeededRng::new(5);
    assert_eq!(pick_spawn(&[spawn(0), spawn(0)], &mut rng), Some(0));
}
