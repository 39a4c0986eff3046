//! Évaluateur arithmétique : jetons, nombres rationnels exacts et parseur à
//! descente récursive (`+ - * / %`, parenthèses, signe unaire, priorité
//! standard, associativité à gauche).
//!
//! Les valeurs sont des fractions exactes sur 128 bits : une expression dont
//! un calcul intermédiaire sort de cette plage est refusée (`Overflow`).

use vstd::prelude::*;
use crate::text::{
    all_digits, chars_of, digits_value, int_text, is_digit, lemma_digits_value_nonneg, nat_text,
    nat_to_chars, string_of, append_chars,
};

verus! {

/// Erreur d'évaluation d'une expression.
#[derive(Debug, Clone, PartialEq)]
pub enum ExprError {
    /// Caractère inattendu.
    UnexpectedChar(char),
    /// Jeton inattendu, décrit en clair.
    UnexpectedToken(String),
    /// Expression incomplète.
    UnexpectedEnd,
    /// Parenthèses déséquilibrées.
    UnbalancedParen,
    /// Division par zéro.
    DivisionByZero,
    /// Un calcul intermédiaire sort de la plage des fractions sur 128 bits.
    Overflow,
}

/// Nombre décimal écrit dans l'expression : `digits / 10^scale`.
#[derive(Debug, Clone, Copy, PartialEq, Eq)]
pub struct Decimal {
    pub digits: i128,
    pub scale: u32,
}

/// Un jeton d'expression arithmétique.
#[derive(Debug, Clone, Copy, PartialEq, Eq)]
pub enum Token {
    Number(Decimal),
    Plus,
    Minus,
    Star,
    Slash,
    Percent,
    LParen,
    RParen,
}

/// Fraction exacte `num / den`, dénominateur strictement positif.
#[derive(Debug, Clone, Copy, PartialEq, Eq)]
pub struct Ratio {
    pub num: i128,
    pub den: i128,
}

/// Cause d'un échec, au niveau de la spécification.
pub enum Fault {
    Char(char),
    Tok(Token),
    End,
    Paren,
    DivZero,
    Overflow,
}

/// L'erreur exécutable `e` rapporte la cause `f`.
pub open spec fn reports(e: ExprError, f: Fault) -> bool {
    match (e, f) {
        (ExprError::UnexpectedChar(c), Fault::Char(d)) => c == d,
        (ExprError::UnexpectedToken(s), Fault::Tok(t)) => s@ == token_text(t),
        (ExprError::UnexpectedEnd, Fault::End) => true,
        (ExprError::UnbalancedParen, Fault::Paren) => true,
        (ExprError::DivisionByZero, Fault::DivZero) => true,
        (ExprError::Overflow, Fault::Overflow) => true,
        _ => false,
    }
}

// ---------------------------------------------------------------------------
// Fractions
// ---------------------------------------------------------------------------

pub open spec fn fits(x: int) -> bool {
    i128::MIN <= x <= i128::MAX
}

pub open spec fn pow10(k: nat) -> int
    decreases k,
{
    if k == 0 {
        1
    } else {
        10 * pow10((k - 1) as nat)
    }
}

/// Fraction bien formée : dénominateur strictement positif.
pub open spec fn wf_ratio(r: Ratio) -> bool {
    r.den > 0
}

/// Division entière tronquée vers zéro (`/` de Rust).
pub open spec fn trunc_div(p: int, q: int) -> int {
    if p >= 0 {
        p / q
    } else {
        -((-p) / q)
    }
}

pub open spec fn mk(num: int, den: int) -> Option<Ratio> {
    if fits(num) && fits(den) {
        Some(Ratio { num: num as i128, den: den as i128 })
    } else {
        None
    }
}

pub open spec fn ratio_add(a: Ratio, b: Ratio) -> Option<Ratio> {
    let p = a.num * b.den;
    let q = b.num * a.den;
    if fits(p) && fits(q) {
        mk(p + q, a.den * b.den)
    } else {
        None
    }
}

pub open spec fn ratio_sub(a: Ratio, b: Ratio) -> Option<Ratio> {
    let p = a.num * b.den;
    let q = b.num * a.den;
    if fits(p) && fits(q) {
        mk(p - q, a.den * b.den)
    } else {
        None
    }
}

pub open spec fn ratio_mul(a: Ratio, b: Ratio) -> Option<Ratio> {
    mk(a.num * b.num, a.den * b.den)
}

/// Quotient, pour `b.num != 0`.
pub open spec fn ratio_div(a: Ratio, b: Ratio) -> Option<Ratio> {
    let n = a.num * b.den;
    let d = a.den * b.num;
    if !fits(n) || !fits(d) {
        None
    } else if d < 0 {
        mk(-n, -d)
    } else {
        mk(n, d)
    }
}

/// Reste `a - b * trunc(a / b)`, pour `b.num != 0` (le `%` des flottants).
pub open spec fn ratio_rem(a: Ratio, b: Ratio) -> Option<Ratio> {
    match ratio_div(a, b) {
        None => None,
        Some(q) => {
            let t = trunc_div(q.num as int, q.den as int);
            let p = a.num * b.den;
            let bt = b.num * t;
            let bta = bt * a.den;
            if fits(p) && fits(bt) && fits(bta) {
                mk(p - bta, a.den * b.den)
            } else {
                None
            }
        },
    }
}

pub open spec fn ratio_neg(a: Ratio) -> Option<Ratio> {
    mk(-a.num, a.den as int)
}

/// Valeur d'un nombre écrit.
pub open spec fn decimal_ratio(d: Decimal) -> Ratio {
    Ratio { num: d.digits, den: pow10(d.scale as nat) as i128 }
}

/// Nombre écrit bien formé : chiffres positifs, au plus 38 décimales.
pub open spec fn wf_decimal(d: Decimal) -> bool {
    d.digits >= 0 && d.scale <= 38
}

pub proof fn lemma_pow10_pos(k: nat)
    ensures
        pow10(k) >= 1,
    decreases k,
{
    if k > 0 {
        lemma_pow10_pos((k - 1) as nat);
    }
}

pub proof fn lemma_pow10_bounds(k: nat)
    requires
        k <= 38,
    ensures
        1 <= pow10(k) <= 100_000_000_000_000_000_000_000_000_000_000_000_000,
    decreases 38 - k,
{
    lemma_pow10_pos(k);
    if k < 38 {
        lemma_pow10_bounds(k + 1);
        assert(pow10(k + 1) == 10 * pow10(k));
    } else {
        reveal_with_fuel(pow10, 39);
        assert(pow10(38) == 100_000_000_000_000_000_000_000_000_000_000_000_000);
    }
}

pub(crate) fn pow10_exec(k: u32) -> (r: i128)
    requires
        k <= 38,
    ensures
        r == pow10(k as nat),
        r >= 1,
{
    let mut r: i128 = 1;
    let mut i: u32 = 0;
    while i < k
        invariant
            i <= k <= 38,
            r == pow10(i as nat),
        decreases k - i,
    {
        proof {
            lemma_pow10_bounds((i + 1) as nat);
        }
        r = r * 10;
        i = i + 1;
    }
    proof {
        lemma_pow10_bounds(k as nat);
    }
    r
}

pub(crate) fn checked_mul(a: i128, b: i128) -> (r: Option<i128>)
    ensures
        r == (if fits(a * b) {
            Some((a * b) as i128)
        } else {
            None::<i128>
        }),
{
    a.checked_mul(b)
}

fn checked_add(a: i128, b: i128) -> (r: Option<i128>)
    ensures
        r == (if fits(a + b) {
            Some((a + b) as i128)
        } else {
            None::<i128>
        }),
{
    a.checked_add(b)
}

fn checked_sub(a: i128, b: i128) -> (r: Option<i128>)
    ensures
        r == (if fits(a - b) {
            Some((a - b) as i128)
        } else {
            None::<i128>
        }),
{
    a.checked_sub(b)
}

fn checked_neg(a: i128) -> (r: Option<i128>)
    ensures
        r == (if fits(-a) {
            Some((-a) as i128)
        } else {
            None::<i128>
        }),
{
    if a == i128::MIN {
        None
    } else {
        Some(-a)
    }
}

/// Fraction d'un nombre écrit.
pub fn decimal_to_ratio(d: Decimal) -> (r: Ratio)
    requires
        wf_decimal(d),
    ensures
        r == decimal_ratio(d),
        wf_ratio(r),
{
    Ratio { num: d.digits, den: pow10_exec(d.scale) }
}

/// Somme exacte ; `None` en cas de dépassement.
pub fn add_ratio(a: Ratio, b: Ratio) -> (r: Option<Ratio>)
    requires
        wf_ratio(a),
        wf_ratio(b),
    ensures
        r == ratio_add(a, b),
        r matches Some(x) ==> wf_ratio(x),
{
    proof {
        assert(a.den * b.den > 0) by (nonlinear_arith)
            requires
                a.den > 0,
                b.den > 0,
        ;
    }
    let p = checked_mul(a.num, b.den)?;
    let q = checked_mul(b.num, a.den)?;
    let n = checked_add(p, q);
    let d = checked_mul(a.den, b.den);
    match (n, d) {
        (Some(n), Some(d)) => Some(Ratio { num: n, den: d }),
        _ => None,
    }
}

/// Différence exacte ; `None` en cas de dépassement.
pub fn sub_ratio(a: Ratio, b: Ratio) -> (r: Option<Ratio>)
    requires
        wf_ratio(a),
        wf_ratio(b),
    ensures
        r == ratio_sub(a, b),
        r matches Some(x) ==> wf_ratio(x),
{
    proof {
        assert(a.den * b.den > 0) by (nonlinear_arith)
            requires
                a.den > 0,
                b.den > 0,
        ;
    }
    let p = checked_mul(a.num, b.den)?;
    let q = checked_mul(b.num, a.den)?;
    let n = checked_sub(p, q);
    let d = checked_mul(a.den, b.den);
    match (n, d) {
        (Some(n), Some(d)) => Some(Ratio { num: n, den: d }),
        _ => None,
    }
}

/// Produit exact ; `None` en cas de dépassement.
pub fn mul_ratio(a: Ratio, b: Ratio) -> (r: Option<Ratio>)
    requires
        wf_ratio(a),
        wf_ratio(b),
    ensures
        r == ratio_mul(a, b),
        r matches Some(x) ==> wf_ratio(x),
{
    proof {
        assert(a.den * b.den > 0) by (nonlinear_arith)
            requires
                a.den > 0,
                b.den > 0,
        ;
    }
    let n = checked_mul(a.num, b.num);
    let d = checked_mul(a.den, b.den);
    match (n, d) {
        (Some(n), Some(d)) => Some(Ratio { num: n, den: d }),
        _ => None,
    }
}

/// Quotient exact ; `None` en cas de dépassement.
pub fn div_ratio(a: Ratio, b: Ratio) -> (r: Option<Ratio>)
    requires
        wf_ratio(a),
        wf_ratio(b),
        b.num != 0,
    ensures
        r == ratio_div(a, b),
        r matches Some(x) ==> wf_ratio(x),
{
    proof {
        assert(a.den * b.num != 0) by (nonlinear_arith)
            requires
                a.den > 0,
                b.num != 0,
        ;
    }
    let n = checked_mul(a.num, b.den)?;
    let d = checked_mul(a.den, b.num)?;
    if d < 0 {
        let n2 = checked_neg(n);
        let d2 = checked_neg(d);
        match (n2, d2) {
            (Some(n2), Some(d2)) => Some(Ratio { num: n2, den: d2 }),
            _ => None,
        }
    } else {
        Some(Ratio { num: n, den: d })
    }
}

/// Reste exact (`a - b * trunc(a / b)`) ; `None` en cas de dépassement.
pub fn rem_ratio(a: Ratio, b: Ratio) -> (r: Option<Ratio>)
    requires
        wf_ratio(a),
        wf_ratio(b),
        b.num != 0,
    ensures
        r == ratio_rem(a, b),
        r matches Some(x) ==> wf_ratio(x),
{
    proof {
        assert(a.den * b.den > 0) by (nonlinear_arith)
            requires
                a.den > 0,
                b.den > 0,
        ;
    }
    let q = div_ratio(a, b)?;
    let t: i128 = q.num / q.den;
    let p = checked_mul(a.num, b.den);
    let bt = checked_mul(b.num, t);
    match (p, bt) {
        (Some(p), Some(bt)) => {
            let bta = checked_mul(bt, a.den)?;
            let n = checked_sub(p, bta);
            let d = checked_mul(a.den, b.den);
            match (n, d) {
                (Some(n), Some(d)) => Some(Ratio { num: n, den: d }),
                _ => None,
            }
        },
        _ => None,
    }
}

/// Opposé exact ; `None` en cas de dépassement.
pub fn neg_ratio(a: Ratio) -> (r: Option<Ratio>)
    requires
        wf_ratio(a),
    ensures
        r == ratio_neg(a),
        r matches Some(x) ==> wf_ratio(x),
{
    match checked_neg(a.num) {
        Some(n) => Some(Ratio { num: n, den: a.den }),
        None => None,
    }
}


// ---------------------------------------------------------------------------
// Description des jetons
// ---------------------------------------------------------------------------

/// Retire les zéros décimaux superflus : `digits / 10^scale` inchangé.
pub open spec fn strip_zeros(digits: int, scale: nat) -> (int, nat)
    decreases scale,
{
    if scale > 0 && digits % 10 == 0 {
        strip_zeros(digits / 10, (scale - 1) as nat)
    } else {
        (digits, scale)
    }
}

/// Complète à gauche par des zéros jusqu'à `w` caractères.
pub open spec fn zero_pad(s: Seq<char>, w: int) -> Seq<char> {
    Seq::new(if w > s.len() { (w - s.len()) as nat } else { 0 }, |i: int| '0') + s
}

/// Écriture décimale usuelle d'un nombre : sans zéro superflu, sans point
/// s'il est entier.
pub open spec fn decimal_text(d: Decimal) -> Seq<char> {
    let (m, k) = strip_zeros(d.digits as int, d.scale as nat);
    if k == 0 {
        nat_text(m as nat)
    } else {
        nat_text((m / pow10(k)) as nat) + seq!['.'] + zero_pad(
            nat_text((m % pow10(k)) as nat),
            k as int,
        )
    }
}

/// Description d'un jeton dans les messages d'erreur.
pub open spec fn token_text(t: Token) -> Seq<char> {
    match t {
        Token::Number(d) => "nombre "@ + decimal_text(d),
        Token::Plus => "opérateur +"@,
        Token::Minus => "opérateur -"@,
        Token::Star => "opérateur *"@,
        Token::Slash => "opérateur /"@,
        Token::Percent => "opérateur %"@,
        Token::LParen => "parenthèse ouvrante"@,
        Token::RParen => "parenthèse fermante"@,
    }
}

/// Écriture décimale usuelle d'un nombre.
fn decimal_chars(d: Decimal) -> (out: Vec<char>)
    requires
        wf_decimal(d),
    ensures
        out@ == decimal_text(d),
{
    let mut m: i128 = d.digits;
    let mut k: u32 = d.scale;
    while k > 0 && m % 10 == 0
        invariant
            0 <= m <= d.digits,
            k <= d.scale,
            strip_zeros(m as int, k as nat) == strip_zeros(d.digits as int, d.scale as nat),
        decreases k,
    {
        m = m / 10;
        k = k - 1;
    }
    if k == 0 {
        return nat_to_chars(m as u128);
    }
    let p = pow10_exec(k);
    let mut out = nat_to_chars((m / p) as u128);
    out.push('.');
    let frac = nat_to_chars((m % p) as u128);
    let mut pad: usize = 0;
    let w: usize = k as usize;
    let ghost before = out@;
    if frac.len() < w {
        let missing = w - frac.len();
        while pad < missing
            invariant
                pad <= missing,
                out@ == before + Seq::new(pad as nat, |i: int| '0'),
            decreases missing - pad,
        {
            out.push('0');
            pad = pad + 1;
            proof {
                assert(out@ =~= before + Seq::new(pad as nat, |i: int| '0'));
            }
        }
    }
    let ghost mid = out@;
    append_chars(&mut out, &frac);
    proof {
        assert(mid == before + Seq::new(
            if w > frac@.len() { (w - frac@.len()) as nat } else { 0 },
            |i: int| '0',
        ));
        assert(out@ =~= nat_text((m / p) as nat) + seq!['.'] + zero_pad(
            nat_text((m % p) as nat),
            k as int,
        ));
    }
    out
}

/// Crée une description textuelle d'un jeton pour les messages d'erreur.
fn token_description(token: Token) -> (s: String)
    requires
        token matches Token::Number(d) ==> wf_decimal(d),
    ensures
        s@ == token_text(token),
{
    match token {
        Token::Number(d) => {
            let mut v = chars_of("nombre ");
            let t = decimal_chars(d);
            append_chars(&mut v, &t);
            string_of(&v)
        },
        Token::Plus => "opérateur +".to_string(),
        Token::Minus => "opérateur -".to_string(),
        Token::Star => "opérateur *".to_string(),
        Token::Slash => "opérateur /".to_string(),
        Token::Percent => "opérateur %".to_string(),
        Token::LParen => "parenthèse ouvrante".to_string(),
        Token::RParen => "parenthèse fermante".to_string(),
    }
}

// ---------------------------------------------------------------------------
// Découpage en jetons
// ---------------------------------------------------------------------------

pub open spec fn is_num_char(c: char) -> bool {
    is_digit(c) || c == '.'
}

pub open spec fn is_blank(c: char) -> bool {
    c == ' ' || c == '\t' || c == '\r' || c == '\n'
}

/// Nombre d'occurrences du caractère `c`.
pub open spec fn count_char(s: Seq<char>, c: char) -> nat
    decreases s.len(),
{
    if s.len() == 0 {
        0
    } else {
        count_char(s.drop_last(), c) + if s.last() == c {
            1nat
        } else {
            0nat
        }
    }
}

/// Nombre de chiffres.
pub open spec fn count_digits(s: Seq<char>) -> nat
    decreases s.len(),
{
    if s.len() == 0 {
        0
    } else {
        count_digits(s.drop_last()) + if is_digit(s.last()) {
            1nat
        } else {
            0nat
        }
    }
}

/// Nombre de caractères après le dernier point.
pub open spec fn frac_len(s: Seq<char>) -> nat
    decreases s.len(),
{
    if s.len() == 0 {
        0
    } else if s.last() == '.' {
        0
    } else {
        frac_len(s.drop_last()) + 1
    }
}

/// Lecture d'une suite de chiffres et de points, comme `str::parse::<f64>` :
/// au plus un point et au moins un chiffre, sinon le premier caractère est
/// signalé.
pub open spec fn lex_number(run: Seq<char>) -> Result<Decimal, Fault> {
    let dots = count_char(run, '.');
    if dots > 1 || count_digits(run) == 0 {
        Err(Fault::Char(run[0]))
    } else {
        let v = digits_value(run);
        let k = if dots == 1 {
            frac_len(run)
        } else {
            0
        };
        if v > i128::MAX || k > 38 {
            Err(Fault::Overflow)
        } else {
            Ok(Decimal { digits: v as i128, scale: k as u32 })
        }
    }
}

pub open spec fn cons(t: Token, r: Result<Seq<Token>, Fault>) -> Result<Seq<Token>, Fault> {
    match r {
        Ok(ts) => Ok(seq![t] + ts),
        Err(f) => Err(f),
    }
}

/// Jetons du texte à partir de la position `i` ; `run >= 0` indique un
/// nombre en cours de lecture, commencé à la position `run`.
pub open spec fn lex_from(s: Seq<char>, i: int, run: int) -> Result<Seq<Token>, Fault>
    decreases s.len() - i, if run >= 0 {
        1int
    } else {
        0int
    },
{
    if i < 0 || i > s.len() {
        Ok(Seq::empty())
    } else if run >= 0 {
        if i < s.len() && is_num_char(s[i]) {
            lex_from(s, i + 1, run)
        } else {
            match lex_number(s.subrange(run, i)) {
                Err(f) => Err(f),
                Ok(d) => cons(Token::Number(d), lex_from(s, i, -1)),
            }
        }
    } else if i == s.len() {
        Ok(Seq::empty())
    } else {
        let c = s[i];
        if is_blank(c) {
            lex_from(s, i + 1, -1)
        } else if c == '+' {
            cons(Token::Plus, lex_from(s, i + 1, -1))
        } else if c == '-' {
            cons(Token::Minus, lex_from(s, i + 1, -1))
        } else if c == '*' {
            cons(Token::Star, lex_from(s, i + 1, -1))
        } else if c == '/' {
            cons(Token::Slash, lex_from(s, i + 1, -1))
        } else if c == '%' {
            cons(Token::Percent, lex_from(s, i + 1, -1))
        } else if c == '(' {
            cons(Token::LParen, lex_from(s, i + 1, -1))
        } else if c == ')' {
            cons(Token::RParen, lex_from(s, i + 1, -1))
        } else if is_num_char(c) {
            lex_from(s, i + 1, i)
        } else {
            Err(Fault::Char(c))
        }
    }
}

/// Jetons d'un texte. Les espaces sont ignorés.
pub open spec fn lex(s: Seq<char>) -> Result<Seq<Token>, Fault> {
    lex_from(s, 0, -1)
}

/// Tous les nombres des jetons sont bien formés.
pub open spec fn wf_tokens(t: Seq<Token>) -> bool {
    forall|i: int| 0 <= i < t.len() ==> (#[trigger] t[i] matches Token::Number(d) ==> wf_decimal(d))
}

proof fn lemma_number_run(s: Seq<char>, start: int, j: int, e: int)
    requires
        0 <= start < j <= e <= s.len(),
        forall|k: int| j <= k < e ==> is_num_char(#[trigger] s[k]),
    ensures
        lex_from(s, j, start) == lex_from(s, e, start),
    decreases e - j,
{
    if j < e {
        lemma_number_run(s, start, j + 1, e);
    }
}

/// Lit le nombre `s[i..e]`.
pub fn lex_number_exec(s: &[char], i: usize, e: usize) -> (r: Result<Decimal, ExprError>)
    requires
        i < e <= s@.len(),
    ensures
        match lex_number(s@.subrange(i as int, e as int)) {
            Ok(d) => r == Ok::<Decimal, ExprError>(d) && wf_decimal(d),
            Err(f) => r matches Err(x) && reports(x, f),
        },
{
    let mut dots: usize = 0;
    let mut digits: usize = 0;
    let mut frac: usize = 0;
    let mut acc: i128 = 0;
    let mut overflow = false;
    let mut k: usize = i;
    while k < e
        invariant
            i <= k <= e <= s@.len(),
            dots == count_char(s@.subrange(i as int, k as int), '.'),
            digits == count_digits(s@.subrange(i as int, k as int)),
            frac == frac_len(s@.subrange(i as int, k as int)),
            dots <= k - i,
            digits <= k - i,
            frac <= k - i,
            !overflow ==> acc == digits_value(s@.subrange(i as int, k as int)),
            overflow ==> digits_value(s@.subrange(i as int, k as int)) > i128::MAX,
            acc >= 0,
        decreases e - k,
    {
        let c = s[k];
        let ghost pre = s@.subrange(i as int, k as int);
        proof {
            assert(s@.subrange(i as int, k + 1).drop_last() == pre);
            assert(s@.subrange(i as int, k + 1).last() == c);
            lemma_digits_value_nonneg(pre);
        }
        if c == '.' {
            dots = dots + 1;
            frac = 0;
        } else {
            frac = frac + 1;
        }
        if '0' <= c && c <= '9' {
            digits = digits + 1;
            let d = (c as u32 - '0' as u32) as i128;
            if !overflow {
                match checked_mul(acc, 10) {
                    Some(m) => match checked_add(m, d) {
                        Some(v) => {
                            acc = v;
                        },
                        None => {
                            overflow = true;
                        },
                    },
                    None => {
                        overflow = true;
                    },
                }
            }
        }
        k = k + 1;
    }
    let ghost run = s@.subrange(i as int, e as int);
    if dots > 1 || digits == 0 {
        proof {
            assert(run[0] == s@[i as int]);
        }
        return Err(ExprError::UnexpectedChar(s[i]));
    }
    let scale: usize = if dots == 1 {
        frac
    } else {
        0
    };
    if overflow || scale > 38 {
        return Err(ExprError::Overflow);
    }
    Ok(Decimal { digits: acc, scale: scale as u32 })
}

/// Découpe l'expression en jetons. Les espaces sont ignorés.
pub fn tokenize(s: &[char]) -> (r: Result<Vec<Token>, ExprError>)
    ensures
        match lex(s@) {
            Ok(t) => r matches Ok(v) && v@ == t && wf_tokens(t),
            Err(f) => r matches Err(x) && reports(x, f),
        },
{
    let mut out: Vec<Token> = Vec::new();
    let mut i: usize = 0;
    while i < s.len()
        invariant
            i <= s@.len(),
            wf_tokens(out@),
            lex(s@) == (match lex_from(s@, i as int, -1) {
                Ok(rest) => Ok(out@ + rest),
                Err(f) => Err(f),
            }),
        decreases s@.len() - i,
    {
        let c = s[i];
        let ghost before = out@;
        if c == ' ' || c == '\t' || c == '\r' || c == '\n' {
            i = i + 1;
        } else if c == '+' || c == '-' || c == '*' || c == '/' || c == '%' || c == '(' || c
            == ')' {
            let t = if c == '+' {
                Token::Plus
            } else if c == '-' {
                Token::Minus
            } else if c == '*' {
                Token::Star
            } else if c == '/' {
                Token::Slash
            } else if c == '%' {
                Token::Percent
            } else if c == '(' {
                Token::LParen
            } else {
                Token::RParen
            };
            out.push(t);
            i = i + 1;
            proof {
                assert(forall|rest: Seq<Token>| before + (seq![t] + rest) == out@ + rest);
                assert(wf_tokens(out@)) by {
                    assert forall|k: int| 0 <= k < out@.len() implies (#[trigger] out@[k] matches Token::Number(d) ==> wf_decimal(d)) by {
                        if k < before.len() {
                            assert(out@[k] == before[k]);
                        }
                    }
                }
            }
        } else if ('0' <= c && c <= '9') || c == '.' {
            let mut e: usize = i + 1;
            while e < s.len() && (('0' <= s[e] && s[e] <= '9') || s[e] == '.')
                invariant
                    i < e <= s@.len(),
                    forall|k: int| i < k < e ==> is_num_char(#[trigger] s@[k]),
                decreases s@.len() - e,
            {
                e = e + 1;
            }
            proof {
                lemma_number_run(s@, i as int, i + 1, e as int);
            }
            let d = match lex_number_exec(s, i, e) {
                Ok(d) => d,
                Err(x) => {
                    return Err(x);
                },
            };
            out.push(Token::Number(d));
            i = e;
            proof {
                assert(forall|rest: Seq<Token>| before + (seq![Token::Number(d)] + rest) == out@
                    + rest);
                assert(wf_tokens(out@)) by {
                    assert forall|k: int| 0 <= k < out@.len() implies (#[trigger] out@[k] matches Token::Number(d) ==> wf_decimal(d)) by {
                        if k < before.len() {
                            assert(out@[k] == before[k]);
                        }
                    }
                }
            }
        } else {
            return Err(ExprError::UnexpectedChar(c));
        }
    }
    proof {
        assert(out@ + Seq::<Token>::empty() == out@);
    }
    Ok(out)
}


// ---------------------------------------------------------------------------
// Grammaire et valeur
// ---------------------------------------------------------------------------

/// Jeton à la position donnée, s'il existe.
pub open spec fn tok_at(t: Seq<Token>, pos: int) -> Option<Token> {
    if 0 <= pos < t.len() {
        Some(t[pos])
    } else {
        None
    }
}

/// Jetons restant à lire à partir de `pos`.
pub open spec fn left_at(t: Seq<Token>, pos: int) -> int {
    if pos <= t.len() {
        t.len() - pos
    } else {
        0
    }
}

/// Résultat d'une règle : la valeur et le nombre de jetons consommés.
pub open spec fn shift(r: Result<(Ratio, nat), Fault>, n: nat) -> Result<(Ratio, nat), Fault> {
    match r {
        Ok((v, k)) => Ok((v, n + k)),
        Err(f) => Err(f),
    }
}

/// Somme et différence : priorité la plus faible.
pub open spec fn p_sum(t: Seq<Token>, pos: int) -> Result<(Ratio, nat), Fault>
    decreases left_at(t, pos), 5int,
{
    match p_product(t, pos) {
        Err(f) => Err(f),
        Ok((v, n)) => shift(sum_tail(t, pos + n, v), n),
    }
}

/// Suite `(+|-) produit` après un premier terme valant `left`.
pub open spec fn sum_tail(t: Seq<Token>, pos: int, left: Ratio) -> Result<(Ratio, nat), Fault>
    decreases left_at(t, pos), 4int,
{
    match tok_at(t, pos) {
        Some(Token::Plus) => match p_product(t, pos + 1) {
            Err(f) => Err(f),
            Ok((r, n)) => match ratio_add(left, r) {
                None => Err(Fault::Overflow),
                Some(x) => shift(sum_tail(t, pos + 1 + n, x), 1 + n),
            },
        },
        Some(Token::Minus) => match p_product(t, pos + 1) {
            Err(f) => Err(f),
            Ok((r, n)) => match ratio_sub(left, r) {
                None => Err(Fault::Overflow),
                Some(x) => shift(sum_tail(t, pos + 1 + n, x), 1 + n),
            },
        },
        _ => Ok((left, 0)),
    }
}

/// Produit, quotient et reste.
pub open spec fn p_product(t: Seq<Token>, pos: int) -> Result<(Ratio, nat), Fault>
    decreases left_at(t, pos), 3int,
{
    match p_unary(t, pos) {
        Err(f) => Err(f),
        Ok((v, n)) => shift(product_tail(t, pos + n, v), n),
    }
}

/// Suite `(*|/|%) unaire` après un premier facteur valant `left`.
pub open spec fn product_tail(t: Seq<Token>, pos: int, left: Ratio) -> Result<(Ratio, nat), Fault>
    decreases left_at(t, pos), 2int,
{
    match tok_at(t, pos) {
        Some(Token::Star) => match p_unary(t, pos + 1) {
            Err(f) => Err(f),
            Ok((r, n)) => match ratio_mul(left, r) {
                None => Err(Fault::Overflow),
                Some(x) => shift(product_tail(t, pos + 1 + n, x), 1 + n),
            },
        },
        Some(Token::Slash) => match p_unary(t, pos + 1) {
            Err(f) => Err(f),
            Ok((r, n)) => if r.num == 0 {
                Err(Fault::DivZero)
            } else {
                match ratio_div(left, r) {
                    None => Err(Fault::Overflow),
                    Some(x) => shift(product_tail(t, pos + 1 + n, x), 1 + n),
                }
            },
        },
        Some(Token::Percent) => match p_unary(t, pos + 1) {
            Err(f) => Err(f),
            Ok((r, n)) => if r.num == 0 {
                Err(Fault::DivZero)
            } else {
                match ratio_rem(left, r) {
                    None => Err(Fault::Overflow),
                    Some(x) => shift(product_tail(t, pos + 1 + n, x), 1 + n),
                }
            },
        },
        _ => Ok((left, 0)),
    }
}

/// Signe unaire.
pub open spec fn p_unary(t: Seq<Token>, pos: int) -> Result<(Ratio, nat), Fault>
    decreases left_at(t, pos), 1int,
{
    match tok_at(t, pos) {
        Some(Token::Minus) => match p_unary(t, pos + 1) {
            Err(f) => Err(f),
            Ok((v, n)) => match ratio_neg(v) {
                None => Err(Fault::Overflow),
                Some(x) => Ok((x, n + 1)),
            },
        },
        Some(Token::Plus) => shift(p_unary(t, pos + 1), 1),
        _ => p_atom(t, pos),
    }
}

/// Nombre ou expression parenthésée.
pub open spec fn p_atom(t: Seq<Token>, pos: int) -> Result<(Ratio, nat), Fault>
    decreases left_at(t, pos), 0int,
{
    match tok_at(t, pos) {
        Some(Token::Number(d)) => Ok((decimal_ratio(d), 1)),
        Some(Token::LParen) => match p_sum(t, pos + 1) {
            Err(f) => Err(f),
            Ok((v, n)) => if tok_at(t, pos + 1 + n) == Some(Token::RParen) {
                Ok((v, n + 2))
            } else {
                Err(Fault::Paren)
            },
        },
        Some(x) => Err(Fault::Tok(x)),
        None => Err(Fault::End),
    }
}

/// Valeur d'une suite de jetons, qui doit être entièrement consommée.
pub open spec fn eval_tokens(t: Seq<Token>) -> Result<Ratio, Fault> {
    match p_sum(t, 0) {
        Err(f) => Err(f),
        Ok((v, n)) => if n == t.len() {
            Ok(v)
        } else {
            match tok_at(t, n as int) {
                Some(x) => Err(Fault::Tok(x)),
                None => Err(Fault::End),
            }
        },
    }
}

/// Valeur d'une expression arithmétique écrite.
pub open spec fn arith_value(s: Seq<char>) -> Result<Ratio, Fault> {
    match lex(s) {
        Err(f) => Err(f),
        Ok(t) => eval_tokens(t),
    }
}

/// Le résultat exécutable `r`, avec les positions avant et après, est celui
/// que décrit la règle `spec_r`.
pub open spec fn rule_result(
    spec_r: Result<(Ratio, nat), Fault>,
    r: Result<Ratio, ExprError>,
    p0: int,
    p1: int,
) -> bool {
    match spec_r {
        Ok((v, n)) => r == Ok::<Ratio, ExprError>(v) && p1 == p0 + n && wf_ratio(v),
        Err(f) => r matches Err(x) && reports(x, f),
    }
}

struct Parser<'a> {
    tokens: &'a [Token],
    pos: usize,
}

impl<'a> Parser<'a> {
    spec fn inv(&self) -> bool {
        self.pos <= self.tokens@.len() && self.tokens@.len() <= usize::MAX && wf_tokens(
            self.tokens@,
        )
    }

    fn peek(&self) -> (r: Option<Token>)
        ensures
            r == tok_at(self.tokens@, self.pos as int),
    {
        if self.pos < self.tokens.len() {
            Some(self.tokens[self.pos])
        } else {
            None
        }
    }

    /// Somme et différence : priorité la plus faible.
    fn parse_sum(&mut self) -> (r: Result<Ratio, ExprError>)
        requires
            old(self).inv(),
        ensures
            final(self).inv(),
            final(self).tokens == old(self).tokens,
            rule_result(
                p_sum(old(self).tokens@, old(self).pos as int),
                r,
                old(self).pos as int,
                final(self).pos as int,
            ),
        decreases old(self).tokens@.len() - old(self).pos, 5int,
    {
        let ghost t = self.tokens@;
        let ghost tk = self.tokens;
        let ghost p0 = self.pos as int;
        let left0 = self.parse_product()?;
        let ghost p1 = self.pos as int;
        let mut left = left0;
        loop
            invariant
                self.inv(),
                self.tokens@ == t,
                self.tokens == tk,
                tk == old(self).tokens,
                t == old(self).tokens@,
                p0 == old(self).pos as int,
                p0 <= p1 <= self.pos,
                wf_ratio(left),
                p_product(t, p0) matches Ok((v, n)) && v == left0 && p1 == p0 + n,
                sum_tail(t, p1, left0) == shift(sum_tail(t, self.pos as int, left), (self.pos - p1) as nat),
            decreases t.len() - self.pos,
        {
            let ghost pos = self.pos as int;
            match self.peek() {
                Some(Token::Plus) => {
                    self.pos = self.pos + 1;
                    let r = self.parse_product()?;
                    left = match add_ratio(left, r) {
                        Some(x) => x,
                        None => {
                            return Err(ExprError::Overflow);
                        },
                    };
                },
                Some(Token::Minus) => {
                    self.pos = self.pos + 1;
                    let r = self.parse_product()?;
                    left = match sub_ratio(left, r) {
                        Some(x) => x,
                        None => {
                            return Err(ExprError::Overflow);
                        },
                    };
                },
                _ => {
                    return Ok(left);
                },
            }
        }
    }

    /// Produit, quotient et reste.
    fn parse_product(&mut self) -> (r: Result<Ratio, ExprError>)
        requires
            old(self).inv(),
        ensures
            final(self).inv(),
            final(self).tokens == old(self).tokens,
            rule_result(
                p_product(old(self).tokens@, old(self).pos as int),
                r,
                old(self).pos as int,
                final(self).pos as int,
            ),
        decreases old(self).tokens@.len() - old(self).pos, 3int,
    {
        let ghost t = self.tokens@;
        let ghost tk = self.tokens;
        let ghost p0 = self.pos as int;
        let left0 = self.parse_unary()?;
        let ghost p1 = self.pos as int;
        let mut left = left0;
        loop
            invariant
                self.inv(),
                self.tokens@ == t,
                self.tokens == tk,
                tk == old(self).tokens,
                t == old(self).tokens@,
                p0 == old(self).pos as int,
                p0 <= p1 <= self.pos,
                wf_ratio(left),
                p_unary(t, p0) matches Ok((v, n)) && v == left0 && p1 == p0 + n,
                product_tail(t, p1, left0) == shift(product_tail(t, self.pos as int, left), (self.pos - p1) as nat),
            decreases t.len() - self.pos,
        {
            match self.peek() {
                Some(Token::Star) => {
                    self.pos = self.pos + 1;
                    let r = self.parse_unary()?;
                    left = match mul_ratio(left, r) {
                        Some(x) => x,
                        None => {
                            return Err(ExprError::Overflow);
                        },
                    };
                },
                Some(Token::Slash) => {
                    self.pos = self.pos + 1;
                    let r = self.parse_unary()?;
                    if r.num == 0 {
                        return Err(ExprError::DivisionByZero);
                    }
                    left = match div_ratio(left, r) {
                        Some(x) => x,
                        None => {
                            return Err(ExprError::Overflow);
                        },
                    };
                },
                Some(Token::Percent) => {
                    self.pos = self.pos + 1;
                    let r = self.parse_unary()?;
                    if r.num == 0 {
                        return Err(ExprError::DivisionByZero);
                    }
                    left = match rem_ratio(left, r) {
                        Some(x) => x,
                        None => {
                            return Err(ExprError::Overflow);
                        },
                    };
                },
                _ => {
                    return Ok(left);
                },
            }
        }
    }

    /// Signe unaire.
    fn parse_unary(&mut self) -> (r: Result<Ratio, ExprError>)
        requires
            old(self).inv(),
        ensures
            final(self).inv(),
            final(self).tokens == old(self).tokens,
            rule_result(
                p_unary(old(self).tokens@, old(self).pos as int),
                r,
                old(self).pos as int,
                final(self).pos as int,
            ),
        decreases old(self).tokens@.len() - old(self).pos, 1int,
    {
        match self.peek() {
            Some(Token::Minus) => {
                self.pos = self.pos + 1;
                let v = self.parse_unary()?;
                match neg_ratio(v) {
                    Some(x) => Ok(x),
                    None => Err(ExprError::Overflow),
                }
            },
            Some(Token::Plus) => {
                self.pos = self.pos + 1;
                self.parse_unary()
            },
            _ => self.parse_atom(),
        }
    }

    /// Nombre ou expression parenthésée.
    fn parse_atom(&mut self) -> (r: Result<Ratio, ExprError>)
        requires
            old(self).inv(),
        ensures
            final(self).inv(),
            final(self).tokens == old(self).tokens,
            rule_result(
                p_atom(old(self).tokens@, old(self).pos as int),
                r,
                old(self).pos as int,
                final(self).pos as int,
            ),
        decreases old(self).tokens@.len() - old(self).pos, 0int,
    {
        match self.peek() {
            Some(Token::Number(d)) => {
                proof {
                    assert(self.tokens@[self.pos as int] matches Token::Number(d) ==> wf_decimal(d));
                }
                self.pos = self.pos + 1;
                Ok(decimal_to_ratio(d))
            },
            Some(Token::LParen) => {
                self.pos = self.pos + 1;
                let value = self.parse_sum()?;
                match self.peek() {
                    Some(Token::RParen) => {
                        self.pos = self.pos + 1;
                        Ok(value)
                    },
                    _ => Err(ExprError::UnbalancedParen),
                }
            },
            Some(token) => {
                proof {
                    assert(self.tokens@[self.pos as int] matches Token::Number(d) ==> wf_decimal(d));
                }
                Err(ExprError::UnexpectedToken(token_description(token)))
            },
            None => Err(ExprError::UnexpectedEnd),
        }
    }
}

/// Évalue une expression arithmétique ne contenant plus aucun jeton
/// symbolique. La valeur est une fraction exacte.
pub fn eval_arithmetic(input: &str) -> (r: Result<Ratio, ExprError>)
    ensures
        match arith_value(input@) {
            Ok(v) => r == Ok::<Ratio, ExprError>(v) && wf_ratio(v),
            Err(f) => r matches Err(x) && reports(x, f),
        },
{
    let chars = chars_of(input);
    let tokens = tokenize(&chars)?;
    let mut parser = Parser { tokens: tokens.as_slice(), pos: 0 };
    let value = parser.parse_sum()?;
    if parser.pos != parser.tokens.len() {
        match parser.peek() {
            Some(token) => {
                proof {
                    assert(parser.tokens@[parser.pos as int] matches Token::Number(d) ==> wf_decimal(d));
                }
                Err(ExprError::UnexpectedToken(token_description(token)))
            },
            None => Err(ExprError::UnexpectedEnd),
        }
    } else {
        Ok(value)
    }
}


proof fn lemma_nat_text_digits(n: nat)
    ensures
        all_digits(nat_text(n)),
        nat_text(n).len() > 0,
        digits_value(nat_text(n)) == n,
        count_char(nat_text(n), '.') == 0,
        count_digits(nat_text(n)) == nat_text(n).len(),
    decreases n,
{
    let s = nat_text(n);
    if n < 10 {
        let c = crate::text::digit_char(n as int);
        assert(is_digit(c));
        assert(crate::text::digit_value(c) == n);
        assert(s.drop_last().len() == 0);
        assert(s.last() == c);
        assert(c != '.');
        assert(digits_value(s.drop_last()) == 0);
        assert(digits_value(s) == digits_value(s.drop_last()) * 10 + crate::text::digit_value(c));
        assert(count_char(s.drop_last(), '.') == 0);
        assert(count_char(s, '.') == count_char(s.drop_last(), '.'));
        assert(count_digits(s.drop_last()) == 0);
        assert(count_digits(s) == count_digits(s.drop_last()) + 1);
    } else {
        lemma_nat_text_digits(n / 10);
        let t = nat_text(n / 10);
        let c = crate::text::digit_char((n % 10) as int);
        assert(is_digit(c));
        assert(crate::text::digit_value(c) == n % 10);
        assert(s == t.push(c));
        assert(s.drop_last() =~= t);
        assert(s.last() == c);
        assert(c != '.');
        assert(digits_value(s) == digits_value(t) * 10 + crate::text::digit_value(c));
        assert(count_char(s, '.') == count_char(t, '.'));
        assert(count_digits(s) == count_digits(t) + 1);
        assert forall|i: int| 0 <= i < s.len() implies is_digit(#[trigger] s[i]) by {
            if i < t.len() {
                assert(s[i] == t[i]);
            }
        }
    }
}

/// Un texte fait de chiffres se lit d'un seul jeton nombre, à partir de `i`.
proof fn lemma_lex_digits(s: Seq<char>, i: int)
    requires
        0 <= i < s.len(),
        all_digits(s.subrange(i, s.len() as int)),
        count_char(s.subrange(i, s.len() as int), '.') == 0,
        count_digits(s.subrange(i, s.len() as int)) > 0,
        digits_value(s.subrange(i, s.len() as int)) <= i128::MAX,
    ensures
        lex_from(s, i, -1) == Ok::<Seq<Token>, Fault>(seq![Token::Number(Decimal {
            digits: digits_value(s.subrange(i, s.len() as int)) as i128,
            scale: 0,
        })]),
{
    let run = s.subrange(i, s.len() as int);
    assert(is_digit(run[0]));
    assert(s[i] == run[0]);
    assert forall|k: int| i + 1 <= k < s.len() implies is_num_char(#[trigger] s[k]) by {
        assert(s[k] == run[k - i]);
        assert(is_digit(run[k - i]));
    }
    if i + 1 < s.len() {
        lemma_number_run(s, i, i + 1, s.len() as int);
    }
    assert(lex_from(s, i, -1) == lex_from(s, i + 1, i));
    assert(lex_from(s, i + 1, i) == lex_from(s, s.len() as int, i));
    assert(lex_from(s, s.len() as int, -1) == Ok::<Seq<Token>, Fault>(Seq::empty()));
    let d = Decimal { digits: digits_value(run) as i128, scale: 0 };
    assert(lex_number(run) == Ok::<Decimal, Fault>(d));
    assert(seq![Token::Number(d)] + Seq::<Token>::empty() =~= seq![Token::Number(d)]);
}

proof fn lemma_eval_number(d: Decimal)
    requires
        d.scale == 0,
    ensures
        eval_tokens(seq![Token::Number(d)]) == Ok::<Ratio, Fault>(Ratio { num: d.digits, den: 1 }),
{
    let t = seq![Token::Number(d)];
    assert(pow10(0) == 1);
    let v = Ratio { num: d.digits, den: 1 };
    assert(decimal_ratio(d) == v);
    assert(p_atom(t, 0) == Ok::<(Ratio, nat), Fault>((v, 1nat)));
    assert(p_unary(t, 0) == Ok::<(Ratio, nat), Fault>((v, 1nat)));
    assert(product_tail(t, 1, v) == Ok::<(Ratio, nat), Fault>((v, 0nat)));
    assert(p_product(t, 0) == Ok::<(Ratio, nat), Fault>((v, 1nat)));
    assert(sum_tail(t, 1, v) == Ok::<(Ratio, nat), Fault>((v, 0nat)));
    assert(p_sum(t, 0) == Ok::<(Ratio, nat), Fault>((v, 1nat)));
}

proof fn lemma_eval_negated(d: Decimal)
    requires
        d.scale == 0,
        0 <= d.digits <= 0x8000_0000,
    ensures
        eval_tokens(seq![Token::Minus, Token::Number(d)]) == Ok::<Ratio, Fault>(Ratio { num: (-d.digits) as i128, den: 1 }),
{
    let t = seq![Token::Minus, Token::Number(d)];
    assert(pow10(0) == 1);
    let w = Ratio { num: d.digits, den: 1 };
    let v = Ratio { num: (-d.digits) as i128, den: 1 };
    assert(decimal_ratio(d) == w);
    assert(p_atom(t, 1) == Ok::<(Ratio, nat), Fault>((w, 1nat)));
    assert(p_unary(t, 1) == Ok::<(Ratio, nat), Fault>((w, 1nat)));
    assert(ratio_neg(w) == Some(v));
    assert(p_unary(t, 0) == Ok::<(Ratio, nat), Fault>((v, 2nat)));
    assert(product_tail(t, 2, v) == Ok::<(Ratio, nat), Fault>((v, 0nat)));
    assert(p_product(t, 0) == Ok::<(Ratio, nat), Fault>((v, 2nat)));
    assert(sum_tail(t, 2, v) == Ok::<(Ratio, nat), Fault>((v, 0nat)));
    assert(p_sum(t, 0) == Ok::<(Ratio, nat), Fault>((v, 2nat)));
}

/// L'écriture décimale d'un entier `n` se lit comme la fraction `n / 1`.
pub proof fn lemma_number_text_value(n: i32)
    ensures
        arith_value(int_text(n as int)) == Ok::<Ratio, Fault>(Ratio { num: n as i128, den: 1 }),
{
    if n >= 0 {
        let s = nat_text(n as nat);
        lemma_nat_text_digits(n as nat);
        assert(s.subrange(0, s.len() as int) =~= s);
        lemma_lex_digits(s, 0);
        let d = Decimal { digits: n as i128, scale: 0 };
        assert(lex(s) == Ok::<Seq<Token>, Fault>(seq![Token::Number(d)]));
        lemma_eval_number(d);
    } else {
        let m: nat = (-(n as int)) as nat;
        let u = nat_text(m);
        let s = int_text(n as int);
        assert(s == seq!['-'] + u);
        lemma_nat_text_digits(m);
        assert(s.subrange(1, s.len() as int) =~= u);
        lemma_lex_digits(s, 1);
        let d = Decimal { digits: m as i128, scale: 0 };
        assert(s[0] == '-');
        assert(lex_from(s, 0, -1) == cons(Token::Minus, lex_from(s, 1, -1)));
        assert(seq![Token::Minus] + seq![Token::Number(d)] =~= seq![Token::Minus, Token::Number(d)]);
        assert(lex(s) == Ok::<Seq<Token>, Fault>(seq![Token::Minus, Token::Number(d)]));
        lemma_eval_negated(d);
    }
}

} // verus!
