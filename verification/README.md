# rustypet

Moteur d'animaux de bureau au format eSheep (`animations.xml`), vérifié avec
Verus.

- `src/` — la bibliothèque vérifiée :
  - `text`, `arith`, `context`, `value` : texte, évaluateur exact des
    expressions (`+ - * / %`, fractions sur 128 bits), substitution des
    jetons (`screenW`, `random`…) ;
  - `xml`, `parse`, `model` : arbre XML construit sur les événements de
    `quick_xml`, lecture tolérante de la définition d'un pet ;
  - `sprites` : padding base64, couleur clé, découpage en tuiles, décodage
    via `base64` et `image` ;
  - `anim_state`, `transitions`, `pet`, `flock` : pas, frames,
    interpolation, tirage des transitions, physique d'un pet, troupeau
    cadencé ;
  - `geometry`, `cache`, `engine` : rectangles, nom de cache, pilote du
    démon.
- `tests/` — les tests d'intégration.
- `app/` — le simulateur (`sim`) et le démon D-Bus (`daemon`) : fichiers,
  cache, `zbus`, `tokio`.
