use rustypet::context::{EvalContext, SeededRng};
use rustypet::value::PetValue;

fn ctx() -> EvalContext {
    EvalContext {
        screen_w: 1920,
        screen_h: 1080,
        area_w: 1920,
        area_h: 1050,
        image_w: 64,
        image_h: 64,
        image_x: -1,
        image_y: -1,
        rand_spawn: 42,
        scale: 1,
    }
}

#[test]
fn classe_les_expressions_dynamiques() {
    assert!(PetValue::new("random*2".into()).is_dynamic);
    assert!(PetValue::new("randS".into()).is_dynamic);
    assert!(PetValue::new("imageX".into()).is_dynamic);
    assert!(PetValue::new("imageY".into()).is_dynamic);
    assert!(!PetValue::new("imageW".into()).is_dynamic);
    assert!(!PetValue::new("12".into()).is_dynamic);
}

#[test]
fn classe_les_expressions_dependant_de_l_ecran() {
    assert!(PetValue::new("screenW".into()).is_screen);
    assert!(PetValue::new("areaH".into()).is_screen);
    assert!(!PetValue::new("imageW".into()).is_screen);
}

#[test]
fn update_puis_get_renvoie_la_valeur_calculee() {
    let mut rng = SeededRng::new(1);
    let mut v = PetValue::new("screenW/2".into());
    v.update(&ctx(), &mut rng, false);
    assert_eq!(v.get(), 960);
}

#[test]
fn une_valeur_neuve_vaut_zero_et_garde_son_expression() {
    let v = PetValue::new("areaW-imageW".into());
    assert_eq!(v.get(), 0);
    assert_eq!(v.compute, "areaW-imageW");
    let d = v.duplicate();
    assert_eq!(d.compute, "areaW-imageW");
    assert!(d.is_screen && !d.is_dynamic);
}
