use rustypet::cache::slugify;

#[test]
fn slugify_nettoie_les_caracteres_de_chemin() {
    assert_eq!(slugify("Neko"), "neko");
    assert_eq!(slugify("Blue Sheep"), "blue_sheep");
    assert_eq!(slugify("../evil/./x"), "evil_x");
    assert_eq!(slugify(""), "pet");
}

#[test]
fn slugify_fusionne_les_separateurs_et_retire_ceux_de_queue() {
    assert_eq!(slugify("a  --  b!!"), "a_b");
    assert_eq!(slugify("Été 2024"), "t_2024");
    assert_eq!(slugify("___"), "pet");
}

#[test]
fn slugify_est_idempotent_et_garde_l_ordre() {
    for name in ["Ça va, Été 2024!", "__a__b__", "Sheep-42 (v2)", "!!!", "Déjà Vu", "x"] {
        let out = slugify(name);
        assert_eq!(slugify(&out), out, "{name}");
        let kept: String = name.chars().filter(|c| c.is_ascii_alphanumeric()).map(|c| c.to_ascii_lowercase()).collect();
        if kept.is_empty() {
            assert_eq!(out, "pet");
        } else {
            assert_eq!(out.replace('_', ""), kept, "{name}");
        }
    }
}
