use base64::Engine;
use image::{ImageBuffer, Rgb, Rgba};
use rustypet::model::{FormatError, ImageDef, Sound};
use rustypet::sprites::{decode_sheet, decode_sound, pad_base64, parse_color, sheet_from_rgba, SpriteSheet};

/// Construit un PNG RGB 4x2 sans alpha, avec un pixel magenta en (0,0).
fn png_test_rgb() -> String {
    let mut img: ImageBuffer<Rgb<u8>, Vec<u8>> = ImageBuffer::new(4, 2);
    for p in img.pixels_mut() {
        *p = Rgb([10, 20, 30]);
    }
    img.put_pixel(0, 0, Rgb([255, 0, 255]));
    let mut buf = std::io::Cursor::new(Vec::new());
    img.write_to(&mut buf, image::ImageFormat::Png).expect("encodage");
    base64::engine::general_purpose::STANDARD.encode(buf.into_inner())
}

fn image_def(png: String) -> ImageDef {
    ImageDef {
        tiles_x: 2,
        tiles_y: 2,
        png_base64: png,
        transparency: "Magenta".into(),
    }
}

#[test]
fn pad_le_base64_non_pade() {
    assert_eq!(pad_base64("QQ"), "QQ==");
    assert_eq!(pad_base64("QUJD"), "QUJD");
    assert_eq!(pad_base64("QUJDRA"), "QUJDRA==");
}

#[test]
fn lit_les_couleurs_nommees_et_hexa() {
    assert_eq!(parse_color("Magenta"), [255, 0, 255]);
    assert_eq!(parse_color("magenta"), [255, 0, 255]);
    assert_eq!(parse_color("#FF00FF"), [255, 0, 255]);
    assert_eq!(parse_color("White"), [255, 255, 255]);
    // Valeur inconnue : magenta par défaut.
    assert_eq!(parse_color("chartreuse-fluo"), [255, 0, 255]);
}

#[test]
fn decode_et_calcule_les_dimensions_de_tuile() {
    let sheet = decode_sheet(&image_def(png_test_rgb())).unwrap();
    assert_eq!((sheet.width, sheet.height), (4, 2));
    assert_eq!((sheet.tile_w, sheet.tile_h), (2, 1));
}

#[test]
fn applique_la_couleur_cle_en_alpha_zero() {
    let sheet = decode_sheet(&image_def(png_test_rgb())).unwrap();
    // Pixel (0,0) magenta -> transparent.
    assert_eq!(sheet.rgba[3], 0);
    // Pixel (1,0) opaque.
    assert_eq!(sheet.rgba[7], 255);
}

#[test]
fn decoupe_les_tuiles_en_ligne_d_abord() {
    let sheet = decode_sheet(&image_def(png_test_rgb())).unwrap();
    // index = row * tiles_x + col
    assert_eq!(sheet.tile_rect(0), (0, 0, 2, 1)); // ligne 0, colonne 0
    assert_eq!(sheet.tile_rect(1), (2, 0, 2, 1)); // ligne 0, colonne 1
    assert_eq!(sheet.tile_rect(2), (0, 1, 2, 1)); // ligne 1, colonne 0
    assert_eq!(sheet.tile_rect(3), (2, 1, 2, 1)); // ligne 1, colonne 1
}

#[test]
fn preserve_l_alpha_existant() {
    let mut img: ImageBuffer<Rgba<u8>, Vec<u8>> = ImageBuffer::new(4, 2);
    for p in img.pixels_mut() {
        *p = Rgba([255, 0, 255, 128]); // magenta mais semi-transparent
    }
    let mut buf = std::io::Cursor::new(Vec::new());
    img.write_to(&mut buf, image::ImageFormat::Png).expect("encodage");
    let png = base64::engine::general_purpose::STANDARD.encode(buf.into_inner());

    let sheet = decode_sheet(&image_def(png)).unwrap();
    // L'alpha du PNG est conservé : pas de color-key appliquée.
    assert_eq!(sheet.rgba[3], 128);
}

#[test]
fn refuse_un_base64_invalide() {
    let def = image_def("!!!pas du base64!!!".into());
    assert!(decode_sheet(&def).is_err());
    assert!(matches!(decode_sheet(&def), Err(FormatError::Base64(_))));
}

#[test]
fn refuse_des_octets_qui_ne_sont_pas_une_image() {
    let def = image_def("AAAA".into());
    assert!(matches!(decode_sheet(&def), Err(FormatError::Image(_))));
}

#[test]
fn le_padding_compte_les_octets_et_non_les_caracteres() {
    // « é » occupe deux octets : 3 caractères, 4 octets.
    assert_eq!(pad_base64("aéb"), "aéb");
    assert_eq!(pad_base64("é"), "é==");
    assert_eq!(pad_base64(""), "");
}

#[test]
fn lit_les_couleurs_hexa_et_les_alias() {
    assert_eq!(parse_color("  #00ff80 "), [0, 255, 128]);
    assert_eq!(parse_color("#+F+F+F"), [15, 15, 15]);
    assert_eq!(parse_color("#GG0000"), [255, 0, 255]);
    assert_eq!(parse_color("AQUA"), [0, 255, 255]);
    assert_eq!(parse_color("Green"), [0, 128, 0]);
    assert_eq!(parse_color("black"), [0, 0, 0]);
}

#[test]
fn une_cle_non_ascii_vaut_magenta() {
    // Six octets après `#`, mais « é » en occupe deux : pas six chiffres.
    assert_eq!(parse_color("#1é234"), [255, 0, 255]);
    assert_eq!(parse_color("#é1234"), [255, 0, 255]);
}

#[test]
fn la_preparation_refuse_les_dimensions_nulles() {
    let def = image_def(String::new());
    assert!(matches!(sheet_from_rgba(&def, 0, 2, Vec::new()), Err(FormatError::Image(m)) if m == "image de dimension nulle"));
    let flat = ImageDef { tiles_x: 0, ..image_def(String::new()) };
    assert!(matches!(sheet_from_rgba(&flat, 1, 1, vec![0, 0, 0, 255]), Err(FormatError::Image(m)) if m == "découpage en tuiles nul"));
}

#[test]
fn la_couleur_cle_ne_touche_que_les_pixels_de_sa_couleur() {
    let def = ImageDef { tiles_x: 1, tiles_y: 1, png_base64: String::new(), transparency: "#0A141E".into() };
    let px = vec![10, 20, 30, 255, 10, 20, 31, 255];
    let sheet: SpriteSheet = sheet_from_rgba(&def, 2, 1, px).unwrap();
    assert_eq!(sheet.rgba, vec![10, 20, 30, 0, 10, 20, 31, 255]);
    assert_eq!(sheet.tile_count(), 1);
}

#[test]
fn decode_le_son_en_base64() {
    let sound = Sound { animation_id: 1, probability: 10, loop_count: 0, base64: "UklG\nRg".into() };
    assert_eq!(decode_sound(&sound).unwrap(), b"RIFF".to_vec());
    let bad = Sound { base64: "%%".into(), ..sound };
    assert!(matches!(decode_sound(&bad), Err(FormatError::Base64(_))));
}

#[test]
fn toute_couleur_cle_est_acceptee_au_decodage() {
    // Sans alpha, une clé illisible vaut magenta : le pixel (0,0) devient transparent.
    let def = ImageDef { transparency: "#1é234".into(), ..image_def(png_test_rgb()) };
    let sheet = decode_sheet(&def).expect("décodage");
    assert_eq!(&sheet.rgba[0..4], &[255, 0, 255, 0]);
    assert_eq!(&sheet.rgba[4..8], &[10, 20, 30, 255]);
    // Avec de l'alpha, la clé n'est pas lue et l'image est gardée telle quelle.
    let rgba = vec![255, 0, 255, 128, 1, 2, 3, 255];
    let def = ImageDef { tiles_x: 1, tiles_y: 1, ..def };
    let sheet = sheet_from_rgba(&def, 2, 1, rgba.clone()).expect("préparation");
    assert_eq!(sheet.rgba, rgba);
}

#[test]
fn les_tuiles_se_repetent_avec_leur_nombre() {
    let sheet = decode_sheet(&image_def(png_test_rgb())).unwrap();
    let n = sheet.tile_count();
    for i in 0..20u32 {
        let r = sheet.tile_rect(i);
        assert_eq!(r, sheet.tile_rect(i % n));
        assert!(r.0 + r.2 <= sheet.tiles_x * sheet.tile_w);
        assert!(r.1 + r.3 <= sheet.tiles_y * sheet.tile_h);
    }
}
