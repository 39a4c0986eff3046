use rustypet::arith::{eval_arithmetic, ExprError, Ratio};

fn value(s: &str) -> f64 {
    let r: Ratio = eval_arithmetic(s).unwrap();
    r.num as f64 / r.den as f64
}

#[test]
fn evalue_un_entier() {
    assert_eq!(value("42"), 42.0);
}

#[test]
fn respecte_la_priorite_des_operateurs() {
    assert_eq!(value("2+3*4"), 14.0);
}

#[test]
fn respecte_les_parentheses() {
    assert_eq!(value("(2+3)*4"), 20.0);
}

#[test]
fn gere_l_unaire_negatif() {
    assert_eq!(value("-5+2"), -3.0);
    assert_eq!(value("3*-2"), -6.0);
}

#[test]
fn gere_le_modulo_et_la_division() {
    assert_eq!(value("10%3"), 1.0);
    assert_eq!(value("10/4"), 2.5);
}

#[test]
fn ignore_les_espaces() {
    assert_eq!(value(" 1920 / 2 - 32 "), 928.0);
}

#[test]
fn refuse_une_expression_incomplete() {
    assert!(matches!(eval_arithmetic("2+"), Err(ExprError::UnexpectedEnd)));
}

#[test]
fn refuse_une_parenthese_non_fermee() {
    assert!(matches!(eval_arithmetic("(2+3"), Err(ExprError::UnbalancedParen)));
}

#[test]
fn refuse_la_division_par_zero() {
    assert!(matches!(eval_arithmetic("1/0"), Err(ExprError::DivisionByZero)));
}

#[test]
fn respecte_associativite_soustraction() {
    // (10 - 3) - 2 = 7 - 2 = 5 (pas 10 - (3 - 2) = 10 - 1 = 9)
    assert_eq!(value("10-3-2"), 5.0);
}

#[test]
fn respecte_associativite_division() {
    // (100 / 5) / 2 = 20 / 2 = 10 (pas 100 / (5 / 2) = 100 / 2.5 = 40)
    assert_eq!(value("100/5/2"), 10.0);
}

#[test]
fn respecte_associativite_modulo() {
    // (20 % 7) % 4 = 6 % 4 = 2
    assert_eq!(value("20%7%4"), 2.0);
}

#[test]
fn refuse_operateur_au_debut() {
    // Un opérateur au début : "*5"
    assert!(matches!(eval_arithmetic("*5"), Err(ExprError::UnexpectedToken(_))));
}

#[test]
fn refuse_parenthese_fermante_seule() {
    // Une parenthèse fermante sans ouvrante : ")"
    assert!(matches!(eval_arithmetic(")"), Err(ExprError::UnexpectedToken(_))));
}

#[test]
fn refuse_jetons_excedentaires() {
    // Deux nombres sans opérateur : "2 3"
    assert!(matches!(eval_arithmetic("2 3"), Err(ExprError::UnexpectedToken(_))));
}

#[test]
fn verifie_parenthese_non_fermee() {
    // Parenthèse non fermée : "(2+3"
    assert!(matches!(eval_arithmetic("(2+3"), Err(ExprError::UnbalancedParen)));
}

#[test]
fn les_jetons_inattendus_sont_decrits() {
    assert_eq!(
        eval_arithmetic("2 3"),
        Err(ExprError::UnexpectedToken("nombre 3".to_string()))
    );
    assert_eq!(
        eval_arithmetic(")"),
        Err(ExprError::UnexpectedToken("parenthèse fermante".to_string()))
    );
    assert_eq!(
        eval_arithmetic("*5"),
        Err(ExprError::UnexpectedToken("opérateur *".to_string()))
    );
}

#[test]
fn un_caractere_inconnu_est_signale() {
    assert_eq!(eval_arithmetic("2+x"), Err(ExprError::UnexpectedChar('x')));
    assert_eq!(eval_arithmetic("1..2"), Err(ExprError::UnexpectedChar('1')));
}

#[test]
fn les_decimaux_sont_exacts() {
    assert_eq!(value("0.1+0.2"), 0.3);
    assert_eq!(value("7.5%2"), 1.5);
    assert_eq!(value("-7%3"), -1.0);
}

#[test]
fn un_depassement_de_la_plage_exacte_est_refuse() {
    let big = "99999999999999999999999999999999999999*99999999999999999999999999999999999999";
    assert_eq!(eval_arithmetic(big), Err(ExprError::Overflow));
}
