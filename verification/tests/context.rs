use rustypet::context::{eval, eval_with, substitute_with, EvalContext, SeededRng};

fn ctx() -> EvalContext {
    EvalContext {
        screen_w: 1920,
        screen_h: 1080,
        area_w: 1920,
        area_h: 1050,
        image_w: 64,
        image_h: 64,
        image_x: -1,
        image_y: -1,
        rand_spawn: 42,
        scale: 1,
    }
}

#[test]
fn substitue_les_dimensions_d_ecran() {
    let mut rng = SeededRng::new(1);
    assert_eq!(eval("screenW/2-imageW/2", &ctx(), &mut rng, false), 928);
}

#[test]
fn substitue_le_bord_bas_de_la_zone_de_travail() {
    let mut rng = SeededRng::new(1);
    assert_eq!(eval("areaH-imageH", &ctx(), &mut rng, false), 986);
}

#[test]
#[allow(non_snake_case)]
fn randS_vient_du_contexte() {
    let mut rng = SeededRng::new(1);
    assert_eq!(eval("randS", &ctx(), &mut rng, false), 42);
}

#[test]
fn toutes_les_occurrences_de_random_ont_la_meme_valeur() {
    let mut rng = SeededRng::new(7);
    // random-random vaut toujours 0 si la substitution est globale et unique.
    assert_eq!(eval("random-random", &ctx(), &mut rng, false), 0);
}

#[test]
fn random_reste_dans_ses_bornes() {
    let mut rng = SeededRng::new(3);
    for _ in 0..100 {
        let v = eval("random", &ctx(), &mut rng, false);
        assert!((0..=100).contains(&v), "valeur hors bornes : {v}");
    }
}

#[test]
fn tronque_vers_zero() {
    let mut rng = SeededRng::new(1);
    assert_eq!(eval("7/2", &ctx(), &mut rng, false), 3);
    assert_eq!(eval("0-7/2", &ctx(), &mut rng, false), -3);
}

#[test]
fn retourne_zero_si_l_expression_est_invalide() {
    let mut rng = SeededRng::new(1);
    assert_eq!(eval("2+", &ctx(), &mut rng, false), 0);
}

#[test]
#[allow(non_snake_case)]
fn miroir_enfant_inverse_imageW() {
    let mut rng = SeededRng::new(1);
    // parent retourné : imageW devient (-imageW)
    assert_eq!(eval("imageW", &ctx(), &mut rng, true), -64);
    // et -imageW devient +imageW
    assert_eq!(eval("0-imageW", &ctx(), &mut rng, true), 64);
}

#[test]
fn le_rng_seede_est_reproductible() {
    let mut a = SeededRng::new(99);
    let mut b = SeededRng::new(99);
    let va: Vec<i32> = (0..10)
        .map(|_| eval("random", &ctx(), &mut a, false))
        .collect();
    let vb: Vec<i32> = (0..10)
        .map(|_| eval("random", &ctx(), &mut b, false))
        .collect();
    assert_eq!(va, vb);
}

#[test]
fn la_valeur_aleatoire_donnee_est_substituee_partout() {
    assert_eq!(eval_with("random*2+random", &ctx(), 10, false), 30);
    assert_eq!(substitute_with("random+randS", &ctx(), 7, false), "7+42");
}

#[test]
fn les_jetons_longs_sont_substitues_avant_les_courts() {
    assert_eq!(eval_with("screenH-areaW", &ctx(), 0, false), 1080 - 1920);
}

#[test]
fn deux_generateurs_de_meme_graine_tirent_pareil() {
    let mut a = SeededRng::new(1234);
    let mut b = SeededRng::new(1234);
    for _ in 0..50 {
        assert_eq!(eval("random", &ctx(), &mut a, false), eval("random", &ctx(), &mut b, false));
    }
}
