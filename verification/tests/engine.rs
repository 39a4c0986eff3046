use base64::Engine as _;
use image::{ImageBuffer, Rgba};
use rustypet::arith::Ratio;
use rustypet::engine::{frame_from_draw, load_definition, opacity_to_255, Engine, EngineError, PetFrame};
use rustypet::geometry::Rect;
use rustypet::model::FormatError;
use rustypet::pet::SpriteDraw;

/// PNG RGBA 4×2 opaque, encodé en base64.
fn png() -> String {
    let img: ImageBuffer<Rgba<u8>, Vec<u8>> = ImageBuffer::from_pixel(4, 2, Rgba([1, 2, 3, 255]));
    let mut buf = std::io::Cursor::new(Vec::new());
    img.write_to(&mut buf, image::ImageFormat::Png).expect("encodage");
    base64::engine::general_purpose::STANDARD.encode(buf.into_inner())
}

fn xml() -> String {
    format!(
        r#"<animations>
      <header><petname>Petit Mouton</petname></header>
      <image><tilesx>2</tilesx><tilesy>1</tilesy><png>{}</png></image>
      <spawns><spawn id="1" probability="100"><x>100</x><y>100</y><next>2</next></spawn></spawns>
      <animations>
        <animation id="1">
          <name>walk</name>
          <start><x>5</x><y>0</y><interval>80</interval><opacity>0.5</opacity></start>
          <sequence repeat="0" repeatfrom="0"><frame>0</frame><frame>1</frame>
            <next probability="100">1</next></sequence>
          <border><next probability="100">1</next></border>
        </animation>
        <animation id="2">
          <name>fall</name>
          <start><x>0</x><y>10</y><interval>100</interval></start>
          <sequence repeat="0" repeatfrom="0"><frame>1</frame>
            <next probability="100">2</next></sequence>
          <border><next probability="100" only="taskbar">1</next></border>
        </animation>
        <animation id="3">
          <name>drag</name>
          <start><x>0</x><y>0</y><interval>60</interval></start>
          <sequence repeat="0" repeatfrom="0"><frame>0</frame><next probability="100">3</next></sequence>
        </animation>
      </animations>
    </animations>"#,
        png()
    )
}

fn engine(seed: u64) -> Engine {
    let (definition, sheet) = load_definition(&xml()).expect("chargement");
    Engine::assemble(definition, &sheet, "/cache/petit_mouton/sheet.png".into(), seed, Vec::new())
}

#[test]
fn l_opacite_passe_sur_l_echelle_0_255() {
    assert_eq!(opacity_to_255(Ratio { num: 1, den: 1 }), 255);
    assert_eq!(opacity_to_255(Ratio { num: 1, den: 2 }), 128);
    assert_eq!(opacity_to_255(Ratio { num: 0, den: 1 }), 0);
    assert_eq!(opacity_to_255(Ratio { num: -3, den: 1 }), 0);
    assert_eq!(opacity_to_255(Ratio { num: 7, den: 2 }), 255);
    assert_eq!(opacity_to_255(Ratio { num: 1, den: 3 }), 85);
    assert_eq!(opacity_to_255(Ratio { num: 2, den: 1000 }), 1);
}

#[test]
fn une_tuile_negative_devient_zero() {
    let d = SpriteDraw { frame: -4, x: 1, y: 2, opacity: Ratio { num: 1, den: 4 }, flipped: true };
    assert_eq!(
        frame_from_draw(d),
        PetFrame { x: 1, y: 2, tile: 0, flipped: true, opacity: 64 }
    );
}

#[test]
fn le_pilote_expose_son_sprite() {
    let e = engine(42);
    let info = e.sprite_info();
    assert_eq!((info.tile_w, info.tile_h, info.columns), (2, 2, 2));
    assert_eq!(info.sheet_path, "/cache/petit_mouton/sheet.png");
    assert_eq!(e.interval_ms(), 100);
}

#[test]
fn le_pilote_non_configure_n_affiche_rien() {
    let mut e = engine(42);
    assert!(e.advance(10).is_empty());
    assert!(e.take_sound_paths().is_empty());
    e.begin_drag();
    e.drag_to(1, 1);
    e.end_drag();
    assert!(e.advance(10).is_empty());
}

#[test]
fn le_pilote_avance_et_reste_dans_l_echelle() {
    let mut e = engine(42);
    e.configure(Rect::new(0, 0, 1920, 1080), Rect::new(0, 0, 1920, 1050));
    let mut elapsed = 0;
    for _ in 0..300 {
        let frames = e.advance(elapsed);
        assert!(!frames.is_empty(), "le principal est toujours affiché");
        for f in &frames {
            assert!(f.opacity <= 255);
        }
        elapsed = e.interval_ms() as i64;
        assert!(elapsed >= 1, "cadence jamais nulle");
    }
}

#[test]
fn le_pilote_suit_le_curseur_pendant_le_glisser() {
    let mut e = engine(7);
    e.configure(Rect::new(0, 0, 1920, 1080), Rect::new(0, 0, 1920, 1050));
    e.advance(0);
    e.begin_drag();
    e.drag_to(600, 400);
    let main = e.advance(50)[0];
    assert_eq!((main.x, main.y), (600 - 1, 400 - 2));
    e.end_drag();
    let y0 = e.advance(50)[0].y;
    let mut fell = false;
    for _ in 0..30 {
        let elapsed = e.interval_ms() as i64;
        if e.advance(elapsed)[0].y > y0 {
            fell = true;
            break;
        }
    }
    assert!(fell, "relâché en l'air, le pet doit retomber");
}

#[test]
fn le_pilote_est_deterministe() {
    let trace = |seed| {
        let mut e = engine(seed);
        e.configure(Rect::new(0, 0, 800, 600), Rect::new(0, 0, 800, 570));
        e.set_windows(vec![Rect::new(100, 300, 200, 100)]);
        let mut elapsed = 0;
        (0..200)
            .map(|_| {
                let frames = e.advance(elapsed);
                elapsed = e.interval_ms() as i64;
                frames
            })
            .collect::<Vec<_>>()
    };
    assert_eq!(trace(3), trace(3));
}

#[test]
fn un_pet_illisible_est_refuse() {
    assert!(matches!(load_definition("<x/>"), Err(EngineError::Format(FormatError::MissingRoot))));
}
