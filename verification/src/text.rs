//! Outils de texte vérifiés : découpage en caractères, recherche et
//! remplacement de motifs, espaces, écriture et lecture d'entiers décimaux.

use vstd::prelude::*;
use vstd::std_specs::iter::IteratorSpec;

verus! {

broadcast use vstd::string::group_string_axioms;

// ---------------------------------------------------------------------------
// Chaînes et suites de caractères
// ---------------------------------------------------------------------------

/// Caractères d'une chaîne, dans l'ordre.
pub fn chars_of(s: &str) -> (out: Vec<char>)
    ensures
        out@ == s@,
{
    let mut out: Vec<char> = Vec::new();
    for c in it: s.chars()
        invariant
            it.seq() == s@,
            out@ == it.seq().take(it.index() as int),
    {
        out.push(c);
    }
    out
}

/// `String::push` : la chaîne s'allonge du caractère donné.
#[verifier::external_body]
fn string_push(s: &mut String, c: char)
    ensures
        final(s)@ == old(s)@.push(c),
{
    s.push(c);
}

/// Chaîne formée des caractères donnés.
pub fn string_of(v: &[char]) -> (out: String)
    ensures
        out@ == v@,
{
    let mut out = String::new();
    let mut i: usize = 0;
    while i < v.len()
        invariant
            i <= v@.len(),
            out@ == v@.take(i as int),
        decreases v@.len() - i,
    {
        string_push(&mut out, v[i]);
        i = i + 1;
        proof {
            assert(v@.take(i as int) == v@.take(i - 1).push(v@[i - 1]));
        }
    }
    proof {
        assert(v@.take(v@.len() as int) == v@);
    }
    out
}

/// Copie d'une suite de caractères.
pub fn copy_chars(v: &[char]) -> (out: Vec<char>)
    ensures
        out@ == v@,
{
    let mut out: Vec<char> = Vec::new();
    let mut i: usize = 0;
    while i < v.len()
        invariant
            i <= v@.len(),
            out@ == v@.take(i as int),
        decreases v@.len() - i,
    {
        out.push(v[i]);
        i = i + 1;
        proof {
            assert(v@.take(i as int) == v@.take(i - 1).push(v@[i - 1]));
        }
    }
    proof {
        assert(v@.take(v@.len() as int) == v@);
    }
    out
}

/// Ajoute à `out` les caractères de `v`.
pub fn append_chars(out: &mut Vec<char>, v: &[char])
    ensures
        final(out)@ == old(out)@ + v@,
{
    let ghost start = out@;
    let mut i: usize = 0;
    while i < v.len()
        invariant
            i <= v@.len(),
            out@ == start + v@.take(i as int),
        decreases v@.len() - i,
    {
        out.push(v[i]);
        i = i + 1;
        proof {
            assert(v@.take(i as int) == v@.take(i - 1).push(v@[i - 1]));
        }
    }
    proof {
        assert(v@.take(v@.len() as int) == v@);
    }
}

/// Égalité de deux suites de caractères.
pub fn chars_eq(a: &[char], b: &[char]) -> (r: bool)
    ensures
        r == (a@ == b@),
{
    if a.len() != b.len() {
        return false;
    }
    let mut i: usize = 0;
    while i < a.len()
        invariant
            i <= a@.len(),
            a@.len() == b@.len(),
            a@.take(i as int) == b@.take(i as int),
        decreases a@.len() - i,
    {
        if a[i] != b[i] {
            proof {
                assert(a@[i as int] != b@[i as int]);
            }
            return false;
        }
        i = i + 1;
        proof {
            assert(a@.take(i as int) == a@.take(i - 1).push(a@[i - 1]));
            assert(b@.take(i as int) == b@.take(i - 1).push(b@[i - 1]));
        }
    }
    proof {
        assert(a@.take(a@.len() as int) == a@);
        assert(b@.take(b@.len() as int) == b@);
    }
    true
}

// ---------------------------------------------------------------------------
// Recherche et remplacement
// ---------------------------------------------------------------------------

/// `pat` apparaît dans `s` à la position `i`.
pub open spec fn occurs_at(s: Seq<char>, pat: Seq<char>, i: int) -> bool {
    0 <= i && i + pat.len() <= s.len() && s.subrange(i, i + pat.len()) == pat
}

/// `pat` apparaît quelque part dans `s`.
pub open spec fn contains_seq(s: Seq<char>, pat: Seq<char>) -> bool {
    exists|i: int| occurs_at(s, pat, i)
}

/// Remplacement de toutes les occurrences de `pat`, de gauche à droite et
/// sans chevauchement, comme `str::replace`.
pub open spec fn replace_all(s: Seq<char>, pat: Seq<char>, rep: Seq<char>) -> Seq<char>
    decreases s.len(),
{
    if pat.len() == 0 || s.len() < pat.len() {
        s
    } else if s.take(pat.len() as int) == pat {
        rep + replace_all(s.skip(pat.len() as int), pat, rep)
    } else {
        seq![s[0]] + replace_all(s.skip(1), pat, rep)
    }
}

/// Vrai si `pat` apparaît dans `s` à la position `i`.
pub fn matches_at(s: &[char], pat: &[char], i: usize) -> (r: bool)
    requires
        i <= s@.len(),
    ensures
        r == occurs_at(s@, pat@, i as int),
{
    if pat.len() > s.len() - i {
        return false;
    }
    let mut k: usize = 0;
    while k < pat.len()
        invariant
            i + pat@.len() <= s.len(),
            s@.len() == s.len(),
            k <= pat@.len(),
            s@.subrange(i as int, i + k) == pat@.take(k as int),
        decreases pat@.len() - k,
    {
        assert(i + k < s.len());
        if s[i + k] != pat[k] {
            proof {
                assert(s@.subrange(i as int, i + pat@.len())[k as int] == s@[i + k]);
            }
            return false;
        }
        k = k + 1;
        proof {
            assert(s@.subrange(i as int, i + k) == s@.subrange(i as int, i + k - 1).push(
                s@[i + k - 1],
            ));
            assert(pat@.take(k as int) == pat@.take(k - 1).push(pat@[k - 1]));
        }
    }
    proof {
        assert(pat@.take(pat@.len() as int) == pat@);
    }
    true
}

/// Vrai si `pat` apparaît dans `s`.
pub fn contains(s: &[char], pat: &[char]) -> (r: bool)
    ensures
        r == contains_seq(s@, pat@),
{
    let mut i: usize = 0;
    while i < s.len()
        invariant
            i <= s@.len(),
            forall|j: int| 0 <= j < i ==> !occurs_at(s@, pat@, j),
        decreases s@.len() - i,
    {
        if matches_at(s, pat, i) {
            return true;
        }
        i = i + 1;
    }
    if matches_at(s, pat, i) {
        return true;
    }
    proof {
        assert forall|j: int| !occurs_at(s@, pat@, j) by {
            if 0 <= j <= i {
            }
        }
    }
    false
}

proof fn lemma_skip_take(s: Seq<char>, i: int, m: int)
    requires
        0 <= i,
        0 <= m,
        i + m <= s.len(),
    ensures
        s.skip(i).take(m) == s.subrange(i, i + m),
        s.skip(i).skip(m) == s.skip(i + m),
{
    assert(s.skip(i).take(m) =~= s.subrange(i, i + m));
    assert(s.skip(i).skip(m) =~= s.skip(i + m));
}

/// Remplace toutes les occurrences de `pat` par `rep`.
pub fn replace(s: &[char], pat: &[char], rep: &[char]) -> (out: Vec<char>)
    ensures
        out@ == replace_all(s@, pat@, rep@),
{
    if pat.len() == 0 {
        proof {
            assert(replace_all(s@, pat@, rep@) == s@);
        }
        return copy_chars(s);
    }
    let mut out: Vec<char> = Vec::new();
    let mut i: usize = 0;
    proof {
        assert(s@.skip(0) =~= s@);
    }
    while i < s.len()
        invariant
            pat@.len() > 0,
            i <= s@.len(),
            out@ + replace_all(s@.skip(i as int), pat@, rep@) == replace_all(s@, pat@, rep@),
        decreases s@.len() - i,
    {
        let ghost rest = s@.skip(i as int);
        let ghost before = out@;
        if matches_at(s, pat, i) {
            proof {
                lemma_skip_take(s@, i as int, pat@.len() as int);
                assert(rest.take(pat@.len() as int) == pat@);
            }
            append_chars(&mut out, rep);
            i = i + pat.len();
            proof {
                assert(out@ + replace_all(s@.skip(i as int), pat@, rep@) == before + (rep@
                    + replace_all(rest.skip(pat@.len() as int), pat@, rep@)));
            }
        } else {
            proof {
                if rest.len() >= pat@.len() {
                    lemma_skip_take(s@, i as int, pat@.len() as int);
                }
                lemma_skip_take(s@, i as int, 1);
                assert(rest[0] == s@[i as int]);
            }
            out.push(s[i]);
            i = i + 1;
            proof {
                assert(out@ + replace_all(s@.skip(i as int), pat@, rep@) == before + (seq![
                    rest[0],
                ] + replace_all(rest.skip(1), pat@, rep@)));
            }
        }
    }
    proof {
        assert(s@.skip(i as int).len() == 0);
        assert(out@ + replace_all(s@.skip(i as int), pat@, rep@) == out@);
    }
    out
}

// ---------------------------------------------------------------------------
// Espaces, casse, longueur en octets
// ---------------------------------------------------------------------------

/// Espace au sens Unicode (`char::is_whitespace`).
pub open spec fn is_white(c: char) -> bool {
    let u = c as u32;
    (0x09 <= u && u <= 0x0D) || u == 0x20 || u == 0x85 || u == 0xA0 || u == 0x1680 || (0x2000
        <= u && u <= 0x200A) || u == 0x2028 || u == 0x2029 || u == 0x202F || u == 0x205F || u
        == 0x3000
}

pub fn is_white_exec(c: char) -> (r: bool)
    ensures
        r == is_white(c),
{
    let u = c as u32;
    (0x09 <= u && u <= 0x0D) || u == 0x20 || u == 0x85 || u == 0xA0 || u == 0x1680 || (0x2000
        <= u && u <= 0x200A) || u == 0x2028 || u == 0x2029 || u == 0x202F || u == 0x205F || u
        == 0x3000
}

/// Retire les espaces de tête.
pub open spec fn trim_start(s: Seq<char>) -> Seq<char>
    decreases s.len(),
{
    if s.len() > 0 && is_white(s[0]) {
        trim_start(s.drop_first())
    } else {
        s
    }
}

/// Retire les espaces de queue.
pub open spec fn trim_end(s: Seq<char>) -> Seq<char>
    decreases s.len(),
{
    if s.len() > 0 && is_white(s.last()) {
        trim_end(s.drop_last())
    } else {
        s
    }
}

/// Retire les espaces des deux côtés, comme `str::trim`.
pub open spec fn trim_seq(s: Seq<char>) -> Seq<char> {
    trim_end(trim_start(s))
}

proof fn lemma_trim_start_skip(s: Seq<char>, i: int)
    requires
        0 <= i <= s.len(),
        forall|j: int| 0 <= j < i ==> is_white(s[j]),
    ensures
        trim_start(s) == trim_start(s.skip(i)),
    decreases i,
{
    if i > 0 {
        assert(s.drop_first().skip(i - 1) =~= s.skip(i));
        lemma_trim_start_skip(s.drop_first(), i - 1);
    } else {
        assert(s.skip(0) =~= s);
    }
}

proof fn lemma_trim_end_take(s: Seq<char>, j: int)
    requires
        0 <= j <= s.len(),
        forall|k: int| j <= k < s.len() ==> is_white(s[k]),
    ensures
        trim_end(s) == trim_end(s.take(j)),
    decreases s.len() - j,
{
    if j < s.len() {
        assert(s.drop_last().take(j) =~= s.take(j));
        lemma_trim_end_take(s.drop_last(), j);
    } else {
        assert(s.take(j) =~= s);
    }
}

/// `str::trim` sur une suite de caractères.
pub fn trim(s: &[char]) -> (out: Vec<char>)
    ensures
        out@ == trim_seq(s@),
{
    let mut i: usize = 0;
    while i < s.len() && is_white_exec(s[i])
        invariant
            i <= s@.len(),
            forall|j: int| 0 <= j < i ==> is_white(s@[j]),
        decreases s@.len() - i,
    {
        i = i + 1;
    }
    proof {
        lemma_trim_start_skip(s@, i as int);
    }
    let mut j: usize = s.len();
    while j > i && is_white_exec(s[j - 1])
        invariant
            i <= j <= s@.len(),
            forall|k: int| j <= k < s@.len() ==> is_white(s@[k]),
        decreases j,
    {
        j = j - 1;
    }
    let ghost rest = s@.skip(i as int);
    proof {
        lemma_trim_end_take(rest, j - i);
        assert(rest.take(j - i) =~= s@.subrange(i as int, j as int));
        let t = rest.take(j - i);
        if t.len() > 0 {
            assert(t.last() == s@[j - 1]);
        }
        assert(trim_end(t) == t);
        if i == j && i < s@.len() {
            assert(!is_white(rest[0]));
        }
        if rest.len() > 0 {
            assert(rest[0] == s@[i as int]);
        }
        assert(trim_start(rest) == rest);
    }
    let mut out: Vec<char> = Vec::new();
    let mut k: usize = i;
    while k < j
        invariant
            i <= k <= j <= s@.len(),
            out@ == s@.subrange(i as int, k as int),
        decreases j - k,
    {
        out.push(s[k]);
        k = k + 1;
        proof {
            assert(s@.subrange(i as int, k as int) == s@.subrange(i as int, k - 1).push(
                s@[k - 1],
            ));
        }
    }
    out
}

/// Retire toutes les espaces, où qu'elles soient.
pub open spec fn strip_white(s: Seq<char>) -> Seq<char> {
    s.filter(|c: char| !is_white(c))
}

/// `split_whitespace().collect::<String>()` : la suite sans aucune espace.
pub fn remove_white(s: &[char]) -> (out: Vec<char>)
    ensures
        out@ == strip_white(s@),
{
    let mut out: Vec<char> = Vec::new();
    let mut i: usize = 0;
    while i < s.len()
        invariant
            i <= s@.len(),
            out@ == strip_white(s@.take(i as int)),
        decreases s@.len() - i,
    {
        proof {
            reveal_with_fuel(Seq::filter, 1);
            assert(s@.take(i + 1).drop_last() == s@.take(i as int));
        }
        if !is_white_exec(s[i]) {
            out.push(s[i]);
        }
        i = i + 1;
    }
    proof {
        assert(s@.take(s@.len() as int) == s@);
    }
    out
}

/// Minuscule ASCII (`char::to_ascii_lowercase`).
pub open spec fn ascii_lower(c: char) -> char {
    if 'A' <= c && c <= 'Z' {
        ((c as u32) + 32) as char
    } else {
        c
    }
}

pub fn ascii_lower_exec(c: char) -> (r: char)
    ensures
        r == ascii_lower(c),
{
    if 'A' <= c && c <= 'Z' {
        let b: u8 = c as u8;
        let r = (b + 32) as char;
        proof {
            assert(b == c as u32);
        }
        r
    } else {
        c
    }
}

/// Minuscules ASCII d'une suite.
pub open spec fn lower_seq(s: Seq<char>) -> Seq<char> {
    s.map_values(|c: char| ascii_lower(c))
}

pub fn to_ascii_lowercase(s: &[char]) -> (out: Vec<char>)
    ensures
        out@ == lower_seq(s@),
{
    let mut out: Vec<char> = Vec::new();
    let mut i: usize = 0;
    while i < s.len()
        invariant
            i <= s@.len(),
            out@ == lower_seq(s@.take(i as int)),
        decreases s@.len() - i,
    {
        out.push(ascii_lower_exec(s[i]));
        i = i + 1;
        proof {
            assert(lower_seq(s@.take(i as int)) =~= lower_seq(s@.take(i - 1)).push(
                ascii_lower(s@[i - 1]),
            ));
        }
    }
    proof {
        assert(s@.take(s@.len() as int) == s@);
    }
    out
}

/// Longueur en octets UTF-8 d'un caractère.
pub open spec fn utf8_len(c: char) -> nat {
    let u = c as u32;
    if u < 0x80 {
        1
    } else if u < 0x800 {
        2
    } else if u < 0x10000 {
        3
    } else {
        4
    }
}

/// Longueur en octets UTF-8 d'une suite (`str::len`).
pub open spec fn byte_len(s: Seq<char>) -> nat
    decreases s.len(),
{
    if s.len() == 0 {
        0
    } else {
        byte_len(s.drop_last()) + utf8_len(s.last())
    }
}

pub fn utf8_len_exec(c: char) -> (r: usize)
    ensures
        r == utf8_len(c),
{
    let u = c as u32;
    if u < 0x80 {
        1
    } else if u < 0x800 {
        2
    } else if u < 0x10000 {
        3
    } else {
        4
    }
}

/// Longueur en octets UTF-8, modulo 4.
pub fn byte_len_mod4(s: &[char]) -> (r: usize)
    ensures
        r == byte_len(s@) % 4,
        r < 4,
{
    let mut r: usize = 0;
    let mut i: usize = 0;
    while i < s.len()
        invariant
            i <= s@.len(),
            r == byte_len(s@.take(i as int)) % 4,
            r < 4,
        decreases s@.len() - i,
    {
        proof {
            assert(s@.take(i + 1).drop_last() == s@.take(i as int));
        }
        r = (r + utf8_len_exec(s[i])) % 4;
        i = i + 1;
    }
    proof {
        assert(s@.take(s@.len() as int) == s@);
    }
    r
}

// ---------------------------------------------------------------------------
// Chiffres et entiers décimaux
// ---------------------------------------------------------------------------

pub open spec fn is_digit(c: char) -> bool {
    '0' <= c && c <= '9'
}

pub open spec fn digit_value(c: char) -> int {
    (c as u32) - ('0' as u32)
}

pub open spec fn digit_char(d: int) -> char {
    (d + ('0' as u32)) as char
}

/// Suite faite uniquement de chiffres.
pub open spec fn all_digits(s: Seq<char>) -> bool {
    forall|i: int| 0 <= i < s.len() ==> is_digit(#[trigger] s[i])
}

/// Valeur d'une suite de chiffres (les autres caractères sont ignorés).
pub open spec fn digits_value(s: Seq<char>) -> int
    decreases s.len(),
{
    if s.len() == 0 {
        0
    } else if is_digit(s.last()) {
        digits_value(s.drop_last()) * 10 + digit_value(s.last())
    } else {
        digits_value(s.drop_last())
    }
}

pub proof fn lemma_digits_value_nonneg(s: Seq<char>)
    ensures
        digits_value(s) >= 0,
    decreases s.len(),
{
    if s.len() > 0 {
        lemma_digits_value_nonneg(s.drop_last());
    }
}

/// Ajouter des caractères à la fin ne fait jamais diminuer la valeur.
pub proof fn lemma_digits_value_grows(s: Seq<char>, k: int)
    requires
        0 <= k <= s.len(),
    ensures
        digits_value(s.take(k)) <= digits_value(s),
    decreases s.len() - k,
{
    if k < s.len() {
        lemma_digits_value_grows(s.drop_last(), k);
        assert(s.drop_last().take(k) =~= s.take(k));
        lemma_digits_value_nonneg(s.drop_last());
        assert(s.last() as u32 >= 0);
    } else {
        assert(s.take(k) =~= s);
    }
}

/// Écriture décimale d'un entier naturel, sans zéro de tête.
pub open spec fn nat_text(n: nat) -> Seq<char>
    decreases n,
{
    if n < 10 {
        seq![digit_char(n as int)]
    } else {
        nat_text(n / 10).push(digit_char((n % 10) as int))
    }
}

/// Écriture décimale d'un entier, comme `i32::to_string`.
pub open spec fn int_text(n: int) -> Seq<char> {
    if n < 0 {
        seq!['-'] + nat_text((-n) as nat)
    } else {
        nat_text(n as nat)
    }
}

fn digit_char_exec(d: u8) -> (c: char)
    requires
        d < 10,
    ensures
        c == digit_char(d as int),
        is_digit(c),
{
    let c = (d + 48) as char;
    c
}

pub fn nat_to_chars(n: u128) -> (out: Vec<char>)
    ensures
        out@ == nat_text(n as nat),
    decreases n,
{
    if n < 10 {
        let mut out: Vec<char> = Vec::new();
        out.push(digit_char_exec(n as u8));
        proof {
            assert(out@ =~= seq![digit_char(n as int)]);
        }
        out
    } else {
        let mut out = nat_to_chars(n / 10);
        out.push(digit_char_exec((n % 10) as u8));
        out
    }
}

/// Écriture décimale d'un `i32`.
pub fn i32_to_chars(n: i32) -> (out: Vec<char>)
    ensures
        out@ == int_text(n as int),
{
    if n < 0 {
        let m: i64 = -(n as i64);
        let digits = nat_to_chars(m as u128);
        let mut out: Vec<char> = Vec::new();
        out.push('-');
        append_chars(&mut out, &digits);
        out
    } else {
        nat_to_chars(n as u128)
    }
}

/// Lecture d'un entier `i32` comme `str::parse::<i32>` : signe facultatif,
/// au moins un chiffre, rien d'autre, sans dépassement.
pub open spec fn parse_i32_seq(s: Seq<char>) -> Option<i32> {
    let signed = s.len() > 0 && (s[0] == '+' || s[0] == '-');
    let neg = s.len() > 0 && s[0] == '-';
    let digits = if signed {
        s.drop_first()
    } else {
        s
    };
    let v = if neg {
        -digits_value(digits)
    } else {
        digits_value(digits)
    };
    if digits.len() == 0 || !all_digits(digits) || v < i32::MIN || v > i32::MAX {
        None
    } else {
        Some(v as i32)
    }
}

pub fn parse_i32(s: &[char]) -> (r: Option<i32>)
    ensures
        r == parse_i32_seq(s@),
{
    let signed = s.len() > 0 && (s[0] == '+' || s[0] == '-');
    let neg = s.len() > 0 && s[0] == '-';
    let start: usize = if signed {
        1
    } else {
        0
    };
    let ghost digits = s@.skip(start as int);
    proof {
        if signed {
            assert(digits =~= s@.drop_first());
        } else {
            assert(digits =~= s@);
        }
    }
    if s.len() == start {
        return None;
    }
    let mut acc: i64 = 0;
    let mut i: usize = start;
    while i < s.len()
        invariant
            start <= i <= s@.len(),
            digits == s@.skip(start as int),
            signed == (s@.len() > 0 && (s@[0] == '+' || s@[0] == '-')),
            neg == (s@.len() > 0 && s@[0] == '-'),
            signed ==> digits == s@.drop_first(),
            !signed ==> digits == s@,
            all_digits(s@.subrange(start as int, i as int)),
            acc == digits_value(s@.subrange(start as int, i as int)),
            0 <= acc <= 0x8000_0000,
        decreases s@.len() - i,
    {
        let c = s[i];
        if !('0' <= c && c <= '9') {
            proof {
                assert(digits[i - start] == c);
                assert(!all_digits(digits));
            }
            return None;
        }
        proof {
            assert(s@.subrange(start as int, i + 1).drop_last() == s@.subrange(
                start as int,
                i as int,
            ));
            assert(s@.subrange(start as int, i + 1).last() == c);
        }
        acc = acc * 10 + (c as u32 - '0' as u32) as i64;
        i = i + 1;
        assert(acc == digits_value(s@.subrange(start as int, i as int)));
        if acc > 0x8000_0000 {
            proof {
                assert(digits.take(i - start) =~= s@.subrange(start as int, i as int));
                lemma_digits_value_grows(digits, i - start);
            }
            return None;
        }
    }
    proof {
        assert(digits =~= s@.subrange(start as int, i as int));
    }
    if neg {
        Some((-acc) as i32)
    } else if acc > 0x7FFF_FFFF {
        None
    } else {
        Some(acc as i32)
    }
}

} // verus!
