use rustypet::anim_state::{interpolate, pick_frame, total_steps};
use rustypet::arith::Ratio;
use rustypet::model::{Animation, Movement, Sequence};
use rustypet::value::PetValue;

fn ratio(num: i128, den: i128) -> Ratio {
    Ratio { num, den }
}

fn as_f64(r: Ratio) -> f64 {
    r.num as f64 / r.den as f64
}

fn movement(x: i32, y: i32, interval: i32, opacity: Ratio, offset_y: i32) -> Movement {
    let mut m = Movement {
        x: PetValue::new(x.to_string()),
        y: PetValue::new(y.to_string()),
        interval: PetValue::new(interval.to_string()),
        offset_y,
        opacity,
    };
    m.x.value = x;
    m.y.value = y;
    m.interval.value = interval;
    m
}

fn sequence(frames: Vec<i32>, repeat: i32, repeat_from: i32) -> Sequence {
    let mut r = PetValue::new(repeat.to_string());
    r.value = repeat;
    Sequence {
        repeat: r,
        repeat_from,
        frames,
        action: None,
        next: Vec::new(),
    }
}

fn animation(start: Movement, end: Option<Movement>, seq: Sequence) -> Animation {
    Animation {
        id: 1,
        name: "test".into(),
        start,
        end,
        sequence: seq,
        border: Vec::new(),
        gravity: Vec::new(),
    }
}

#[test]
fn calcule_le_nombre_total_de_pas() {
    // 4 frames, pas de répétition
    assert_eq!(total_steps(&sequence(vec![0, 1, 2, 3], 0, 0)), 4);
    // 4 frames répétées 2 fois de plus depuis le début : 4 + 4*2
    assert_eq!(total_steps(&sequence(vec![0, 1, 2, 3], 2, 0)), 12);
    // répétition partielle depuis l'index 2 : 4 + (4-2)*3
    assert_eq!(total_steps(&sequence(vec![0, 1, 2, 3], 3, 2)), 10);
}

#[test]
fn choisit_la_frame_pendant_la_premiere_passe() {
    let seq = sequence(vec![10, 11, 12], 2, 1);
    assert_eq!(pick_frame(&seq, 0), 10);
    assert_eq!(pick_frame(&seq, 1), 11);
    assert_eq!(pick_frame(&seq, 2), 12);
}

#[test]
fn choisit_la_frame_pendant_les_repetitions() {
    // frames [10,11,12], repeat_from=1 -> on boucle sur [11,12]
    let seq = sequence(vec![10, 11, 12], 2, 1);
    assert_eq!(pick_frame(&seq, 3), 11);
    assert_eq!(pick_frame(&seq, 4), 12);
    assert_eq!(pick_frame(&seq, 5), 11);
    assert_eq!(pick_frame(&seq, 6), 12);
}

#[test]
fn interpole_avec_deux_denominateurs() {
    let start = movement(0, 0, 100, ratio(0, 1), 0);
    let end = movement(10, 20, 200, ratio(1, 1), 40);
    let anim = animation(start, Some(end), sequence(vec![0; 5], 0, 0));
    let total = 5;

    // interval, opacity, offset_y : dénominateur T = 5
    let at0 = interpolate(&anim, 0, total);
    assert_eq!(at0.interval, 100);
    assert_eq!(as_f64(at0.opacity), 0.0);
    assert_eq!(at0.offset_y, 0);

    let at1 = interpolate(&anim, 1, total);
    assert_eq!(at1.interval, 120); // 100 + 100*1/5
    assert_eq!(as_f64(at1.opacity), 0.2);
    assert_eq!(at1.offset_y, 8);

    // x, y : dénominateur T-1 = 4
    assert_eq!(at1.x, 2); // 0 + 10*1/4
    assert_eq!(at1.y, 5); // 0 + 20*1/4

    let at4 = interpolate(&anim, 4, total);
    assert_eq!(at4.x, 10); // valeur de fin atteinte au dernier pas
    assert_eq!(at4.y, 20);
}

#[test]
fn ne_divise_pas_par_zero_si_un_seul_pas() {
    let start = movement(3, 4, 100, ratio(1, 1), 0);
    let end = movement(30, 40, 500, ratio(0, 1), 10);
    let anim = animation(start, Some(end), sequence(vec![0], 0, 0));
    let values = interpolate(&anim, 0, 1);
    assert_eq!(values.x, 3);
    assert_eq!(values.y, 4);
}

#[test]
fn sans_end_les_valeurs_restent_celles_de_start() {
    let anim = animation(movement(5, 6, 80, ratio(1, 2), 3), None, sequence(vec![0; 4], 0, 0));
    for step in 0..4 {
        let v = interpolate(&anim, step, 4);
        assert_eq!(v.x, 5);
        assert_eq!(v.y, 6);
        assert_eq!(v.interval, 80);
        assert_eq!(as_f64(v.opacity), 0.5);
        assert_eq!(v.offset_y, 3);
    }
}

#[test]
fn une_sequence_vide_n_a_aucun_pas_et_affiche_la_frame_zero() {
    let seq = sequence(Vec::new(), 5, 0);
    assert_eq!(total_steps(&seq), 0);
    assert_eq!(pick_frame(&seq, 3), 0);
}

#[test]
fn une_repetition_negative_compte_pour_zero() {
    assert_eq!(total_steps(&sequence(vec![0, 1, 2], -4, 0)), 3);
    // repeat_from hors bornes : ramené à la longueur, rien à répéter.
    assert_eq!(total_steps(&sequence(vec![0, 1, 2], 5, 9)), 3);
}
