//! Nom de répertoire de cache d'un pet.

use vstd::prelude::*;
use crate::text::{ascii_lower, ascii_lower_exec, chars_of, string_of};

verus! {

/// Lettre ou chiffre ASCII.
pub open spec fn is_ascii_alnum(c: char) -> bool {
    ('a' <= c && c <= 'z') || ('A' <= c && c <= 'Z') || ('0' <= c && c <= '9')
}

/// Passe de nettoyage : lettres et chiffres en minuscules, toute suite
/// d'autres caractères fusionnée en un `_` (jamais en tête). Rend aussi si
/// la sortie finit par ce `_`.
pub open spec fn slug_raw(s: Seq<char>) -> (Seq<char>, bool)
    decreases s.len(),
{
    if s.len() == 0 {
        (Seq::empty(), false)
    } else {
        let prev = slug_raw(s.drop_last());
        let c = s.last();
        if is_ascii_alnum(c) {
            (prev.0.push(ascii_lower(c)), false)
        } else if !prev.1 && prev.0.len() > 0 {
            (prev.0.push('_'), true)
        } else {
            prev
        }
    }
}

/// Sans `_` en tête.
pub open spec fn trim_start_underscores(s: Seq<char>) -> Seq<char>
    decreases s.len(),
{
    if s.len() > 0 && s[0] == '_' {
        trim_start_underscores(s.drop_first())
    } else {
        s
    }
}

/// Sans `_` en queue.
pub open spec fn trim_end_underscores(s: Seq<char>) -> Seq<char>
    decreases s.len(),
{
    if s.len() > 0 && s.last() == '_' {
        trim_end_underscores(s.drop_last())
    } else {
        s
    }
}

/// Le composant de chemin tiré d'un nom de pet : jamais vide.
pub open spec fn slug(name: Seq<char>) -> Seq<char> {
    let t = trim_end_underscores(trim_start_underscores(slug_raw(name).0));
    if t.len() == 0 {
        "pet"@
    } else {
        t
    }
}

/// Transforme un nom de pet en composant de chemin sûr : minuscules, seuls
/// `[a-z0-9_]` conservés, le reste fusionné en `_`. Jamais vide.
pub fn slugify(name: &str) -> (r: String)
    ensures
        r@ == slug(name@),
{
    let chars = chars_of(name);
    let mut out: Vec<char> = Vec::new();
    let mut last_underscore = false;
    let mut i: usize = 0;
    proof {
        assert(chars@.take(0) =~= Seq::<char>::empty());
    }
    while i < chars.len()
        invariant
            i <= chars@.len(),
            (out@, last_underscore) == slug_raw(chars@.take(i as int)),
        decreases chars@.len() - i,
    {
        let ch = chars[i];
        proof {
            assert(chars@.take(i + 1).drop_last() =~= chars@.take(i as int));
        }
        if ('a' <= ch && ch <= 'z') || ('A' <= ch && ch <= 'Z') || ('0' <= ch && ch <= '9') {
            out.push(ascii_lower_exec(ch));
            last_underscore = false;
        } else if !last_underscore && out.len() > 0 {
            out.push('_');
            last_underscore = true;
        }
        i = i + 1;
    }
    proof {
        assert(chars@.take(chars@.len() as int) =~= chars@);
    }
    // Retire les `_` de tête puis de queue.
    let ghost raw = out@;
    let mut start: usize = 0;
    proof {
        assert(raw.skip(0) =~= raw);
    }
    while start < out.len() && out[start] == '_'
        invariant
            start <= out@.len(),
            out@ == raw,
            trim_start_underscores(raw) == trim_start_underscores(raw.skip(start as int)),
        decreases out@.len() - start,
    {
        proof {
            assert(raw.skip(start as int).drop_first() =~= raw.skip(start + 1));
        }
        start = start + 1;
    }
    let ghost t = raw.skip(start as int);
    proof {
        assert(trim_start_underscores(t) == t);
        assert(t.take(t.len() as int) =~= t);
    }
    let mut end: usize = out.len();
    while end > start && out[end - 1] == '_'
        invariant
            start <= end <= out@.len(),
            out@ == raw,
            t == raw.skip(start as int),
            trim_end_underscores(t) == trim_end_underscores(t.take(end - start)),
        decreases end,
    {
        proof {
            assert(t.take(end - start).drop_last() =~= t.take(end - start - 1));
            assert(t.take(end - start).last() == out@[end - 1]);
        }
        end = end - 1;
    }
    let mut kept: Vec<char> = Vec::new();
    let mut k: usize = start;
    while k < end
        invariant
            start <= k <= end <= out@.len(),
            out@ == raw,
            kept@ == raw.subrange(start as int, k as int),
        decreases end - k,
    {
        kept.push(out[k]);
        k = k + 1;
        proof {
            assert(kept@ =~= raw.subrange(start as int, k as int));
        }
    }
    proof {
        assert(kept@ =~= t.take(end - start));
    }
    if kept.len() == 0 {
        string_of(chars_of("pet").as_slice())
    } else {
        string_of(kept.as_slice())
    }
}


/// Caractère permis dans un composant de chemin : `[a-z0-9_]`.
pub open spec fn slug_char(c: char) -> bool {
    ('a' <= c && c <= 'z') || ('0' <= c && c <= '9') || c == '_'
}

/// Forme d'une sortie de nettoyage : caractères permis, jamais `_` en tête
/// ni deux `_` de suite.
pub open spec fn slug_shaped(t: Seq<char>) -> bool {
    &&& forall|i: int| 0 <= i < t.len() ==> slug_char(#[trigger] t[i])
    &&& t.len() > 0 ==> t[0] != '_'
    &&& forall|i: int| 0 <= i < t.len() - 1 ==> !(#[trigger] t[i] == '_' && t[i + 1] == '_')
}

proof fn lemma_slug_raw_shape(s: Seq<char>)
    ensures
        slug_shaped(slug_raw(s).0),
        slug_raw(s).1 <==> (slug_raw(s).0.len() > 0 && slug_raw(s).0.last() == '_'),
    decreases s.len(),
{
    if s.len() > 0 {
        lemma_slug_raw_shape(s.drop_last());
        let prev = slug_raw(s.drop_last());
        let out = slug_raw(s).0;
        let c = s.last();
        if is_ascii_alnum(c) {
            assert(slug_char(ascii_lower(c)));
            assert forall|i: int| 0 <= i < out.len() implies slug_char(#[trigger] out[i]) by {
                if i < prev.0.len() {
                    assert(out[i] == prev.0[i]);
                }
            }
            assert forall|i: int| 0 <= i < out.len() - 1 implies !(#[trigger] out[i] == '_' && out[i + 1] == '_') by {
                if i + 1 < prev.0.len() {
                    assert(out[i] == prev.0[i] && out[i + 1] == prev.0[i + 1]);
                }
            }
        } else if !prev.1 && prev.0.len() > 0 {
            assert forall|i: int| 0 <= i < out.len() implies slug_char(#[trigger] out[i]) by {
                if i < prev.0.len() {
                    assert(out[i] == prev.0[i]);
                }
            }
            assert forall|i: int| 0 <= i < out.len() - 1 implies !(#[trigger] out[i] == '_' && out[i + 1] == '_') by {
                if i + 1 < prev.0.len() {
                    assert(out[i] == prev.0[i] && out[i + 1] == prev.0[i + 1]);
                } else {
                    assert(out[i] == prev.0.last());
                }
            }
        }
    }
}

proof fn lemma_trim_end_prefix(t: Seq<char>)
    ensures
        exists|m: int|
            0 <= m <= t.len() && trim_end_underscores(t) == t.take(m) && (m > 0 ==> t[m - 1] != '_')
                && (forall|j: int| m <= j < t.len() ==> #[trigger] t[j] == '_'),
    decreases t.len(),
{
    if t.len() > 0 && t.last() == '_' {
        lemma_trim_end_prefix(t.drop_last());
        let m = choose|m: int|
            0 <= m <= t.drop_last().len() && trim_end_underscores(t.drop_last()) == t.drop_last().take(m) && (
            m > 0 ==> t.drop_last()[m - 1] != '_') && (forall|j: int|
                m <= j < t.drop_last().len() ==> #[trigger] t.drop_last()[j] == '_');
        assert(t.drop_last().take(m) =~= t.take(m));
        assert forall|j: int| m <= j < t.len() implies #[trigger] t[j] == '_' by {
            if j < t.len() - 1 {
                assert(t.drop_last()[j] == t[j]);
            }
        }
    } else {
        assert(t.take(t.len() as int) =~= t);
    }
}

/// Le composant de chemin n'est jamais vide, ne contient que `[a-z0-9_]`,
/// ne commence ni ne finit par `_`, et n'a jamais deux `_` de suite.
pub proof fn lemma_slug_shape(name: Seq<char>)
    ensures
        slug(name).len() > 0,
        slug_shaped(slug(name)),
        slug(name).last() != '_',
{
    reveal_strlit("pet");
    let raw = slug_raw(name).0;
    lemma_slug_raw_shape(name);
    assert(trim_start_underscores(raw) == raw);
    lemma_trim_end_prefix(raw);
    let m = choose|m: int|
        0 <= m <= raw.len() && trim_end_underscores(raw) == raw.take(m) && (m > 0 ==> raw[m - 1] != '_')
            && (forall|j: int| m <= j < raw.len() ==> #[trigger] raw[j] == '_');
    if raw.len() > 0 {
        if m == 0 {
            assert(raw[0] == '_');
        }
        let t = raw.take(m);
        assert forall|i: int| 0 <= i < t.len() implies slug_char(#[trigger] t[i]) by {
            assert(t[i] == raw[i]);
        }
        assert forall|i: int| 0 <= i < t.len() - 1 implies !(#[trigger] t[i] == '_' && t[i + 1] == '_') by {
            assert(t[i] == raw[i] && t[i + 1] == raw[i + 1]);
        }
    } else {
        assert(raw.take(m).len() == 0);
        assert forall|i: int| 0 <= i < slug(name).len() implies slug_char(#[trigger] slug(name)[i]) by {
            assert(slug(name) == "pet"@);
        }
    }
}

/// Lettres et chiffres ASCII de `s`, en minuscules, dans l'ordre.
pub open spec fn alnums(s: Seq<char>) -> Seq<char>
    decreases s.len(),
{
    if s.len() == 0 {
        Seq::empty()
    } else if is_ascii_alnum(s.last()) {
        alnums(s.drop_last()).push(ascii_lower(s.last()))
    } else {
        alnums(s.drop_last())
    }
}

/// `t` privé de ses `_`.
pub open spec fn without_underscores(t: Seq<char>) -> Seq<char>
    decreases t.len(),
{
    if t.len() == 0 {
        Seq::empty()
    } else if t.last() == '_' {
        without_underscores(t.drop_last())
    } else {
        without_underscores(t.drop_last()).push(t.last())
    }
}

proof fn lemma_raw_keeps_alnums(s: Seq<char>)
    ensures
        without_underscores(slug_raw(s).0) == alnums(s),
        alnums(s).len() == 0 ==> slug_raw(s).0.len() == 0,
    decreases s.len(),
{
    if s.len() > 0 {
        lemma_raw_keeps_alnums(s.drop_last());
        let prev = slug_raw(s.drop_last());
        let c = s.last();
        if is_ascii_alnum(c) {
            assert(prev.0.push(ascii_lower(c)).drop_last() =~= prev.0);
            assert(ascii_lower(c) != '_');
        } else if !prev.1 && prev.0.len() > 0 {
            assert(prev.0.push('_').drop_last() =~= prev.0);
        }
    }
}

proof fn lemma_trim_end_keeps(t: Seq<char>)
    ensures
        without_underscores(trim_end_underscores(t)) == without_underscores(t),
    decreases t.len(),
{
    if t.len() > 0 && t.last() == '_' {
        lemma_trim_end_keeps(t.drop_last());
    }
}

proof fn lemma_shaped_prefix(t: Seq<char>)
    requires
        t.len() > 0,
        slug_shaped(t),
    ensures
        slug_shaped(t.drop_last()),
{
    let u = t.drop_last();
    assert forall|i: int| 0 <= i < u.len() implies slug_char(#[trigger] u[i]) by {
        assert(u[i] == t[i]);
    }
    assert forall|i: int| 0 <= i < u.len() - 1 implies !(#[trigger] u[i] == '_' && u[i + 1] == '_') by {
        assert(u[i] == t[i] && u[i + 1] == t[i + 1]);
    }
    if u.len() > 0 {
        assert(u[0] == t[0]);
    }
}

/// Un texte déjà de la forme d'un composant passe la première passe tel quel.
proof fn lemma_raw_of_shaped(t: Seq<char>)
    requires
        slug_shaped(t),
    ensures
        slug_raw(t) == (t, t.len() > 0 && t.last() == '_'),
    decreases t.len(),
{
    if t.len() > 0 {
        let u = t.drop_last();
        lemma_shaped_prefix(t);
        lemma_raw_of_shaped(u);
        let c = t.last();
        assert(slug_char(t[t.len() - 1]));
        if c == '_' {
            if u.len() == 0 {
                assert(t[0] == c);
            } else {
                assert(!(t[t.len() - 2] == '_' && t[t.len() - 1] == '_'));
                assert(u.last() == t[t.len() - 2]);
            }
            assert(u.push('_') =~= t);
        } else {
            assert(is_ascii_alnum(c));
            assert(ascii_lower(c) == c);
            assert(u.push(c) =~= t);
        }
    }
}

/// Le nettoyage est idempotent, et garde les lettres et chiffres ASCII du
/// nom, en minuscules et dans l'ordre (les `_` retirés) ; sans aucun, le
/// composant est `pet`.
pub proof fn lemma_slug_laws(name: Seq<char>)
    ensures
        slug(slug(name)) == slug(name),
        alnums(name).len() > 0 ==> without_underscores(slug(name)) == alnums(name),
        alnums(name).len() == 0 ==> slug(name) == "pet"@,
{
    reveal_strlit("pet");
    lemma_slug_shape(name);
    let t = slug(name);
    lemma_raw_of_shaped(t);
    assert(t[0] != '_');
    assert(trim_start_underscores(t) == t);
    assert(trim_end_underscores(t) == t);
    let raw = slug_raw(name).0;
    lemma_raw_keeps_alnums(name);
    lemma_slug_raw_shape(name);
    if raw.len() > 0 {
        assert(raw[0] != '_');
    }
    assert(trim_start_underscores(raw) == raw);
    lemma_trim_end_keeps(raw);
    if alnums(name).len() > 0 {
        let tt = trim_end_underscores(raw);
        if tt.len() == 0 {
            assert(without_underscores(tt).len() == 0);
        }
    }
}

} // verus!
