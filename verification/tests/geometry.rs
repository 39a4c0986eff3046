use rustypet::geometry::{parse_rect, Rect, World};

#[test]
fn lit_un_rectangle_de_la_ligne_de_commande() {
    assert_eq!(parse_rect("10,20,300,40"), Ok(Rect::new(10, 20, 300, 40)));
    assert_eq!(parse_rect(" -5 , 0,1 ,2 "), Ok(Rect::new(-5, 0, 1, 2)));
}

#[test]
fn refuse_un_rectangle_mal_forme() {
    assert_eq!(
        parse_rect("1,2,3"),
        Err("attendu « x,y,largeur,hauteur », reçu « 1,2,3 »".to_string())
    );
    assert_eq!(parse_rect("1,x,3,4"), Err("invalid digit found in string".to_string()));
    assert_eq!(parse_rect(""), Err("cannot parse integer from empty string".to_string()));
    assert!(parse_rect("1,2,3,4,5").is_err());
}

#[test]
fn les_bords_d_un_rectangle() {
    let r = Rect::new(10, 20, 30, 40);
    assert_eq!(r.right(), 40);
    assert_eq!(r.bottom(), 60);
    let w = World::simple(800, 600);
    assert_eq!(w.bounds, Rect::new(0, 0, 800, 600));
    assert_eq!(w.area, w.bounds);
    assert!(w.windows.is_empty());
}

#[test]
fn les_messages_d_entier_refuse_suivent_std() {
    // Chaque message est comparé à celui de `str::parse::<i32>` lui-même.
    for s in ["99999999999", "-99999999999", "+", "-", "+-1", "9999999999x", "12a", "2147483648", "-2147483649"] {
        let expected = s.parse::<i32>().unwrap_err().to_string();
        assert_eq!(parse_rect(&format!("1,{s},3,4")), Err(expected), "{s}");
    }
    assert_eq!(parse_rect("1,-2147483648,3,2147483647"), Ok(Rect::new(1, -2147483648, 3, 2147483647)));
}
