use bwdraw::{Canvas, DuoPixel};

#[test]
fn new_canvas_is_all_off() {
    let c = Canvas::new(3, 3);
    for y in 0..4 {
        for x in 0..3 {
            assert_eq!(c.get(x, y), Some(false));
        }
    }
    assert_eq!(c.get(3, 0), None);
    assert_eq!(c.get(0, 4), None);
    assert_eq!(c.to_string(), "   \n   \n");
    assert_eq!(Canvas::new(5, 0).to_string(), "");
}

#[test]
fn get_and_set_respect_bounds() {
    let c = Canvas::new(2, 2);
    assert_eq!(c.get(2, 0), None);
    assert_eq!(c.get(0, 2), None);
    assert!(c.set(2, 0, true).is_none());
    assert!(c.set(0, 2, true).is_none());
    let mut m = c.clone();
    assert!(m.mut_set(5, 5, true).is_none());
    assert_eq!(m, c);
}

#[test]
fn set_changes_one_pixel() {
    let c = Canvas::new(2, 2);
    let d = c.set(1, 1, true).unwrap();
    assert_eq!(d.get(1, 1), Some(true));
    assert_eq!(d.get(0, 1), Some(false));
    assert_eq!(d.get(1, 0), Some(false));
    assert_eq!(c.get(1, 1), Some(false));
    assert_eq!(d.to_string(), " \u{2584}\n");
    let mut m = c.clone();
    let e = m.mut_set(1, 1, true).unwrap();
    assert_eq!(e, d);
    assert_eq!(m, d);
}

#[test]
fn invert_pixel_twice_restores() {
    let c = Canvas::from_matrix(&vec![vec![true, false], vec![false, false]]);
    let once = c.invert_pixel(0, 1).unwrap();
    assert_eq!(once.get(0, 1), Some(true));
    let twice = once.invert_pixel(0, 1).unwrap();
    assert_eq!(twice, c);
    assert!(c.invert_pixel(2, 0).is_none());
    let mut m = c.clone();
    assert!(m.mut_invert_pixel(0, 3).is_none());
    assert_eq!(m, c);
    let r = m.mut_invert_pixel(1, 0).unwrap();
    assert_eq!(m.get(1, 0), Some(true));
    assert_eq!(r, m);
}

#[test]
fn invert_twice_restores() {
    let c = Canvas::from_matrix(&vec![vec![true, false, true], vec![false, false, true]]);
    let inv = c.inverted();
    assert_eq!(inv.to_string(), "\u{2584}\u{2588} \n");
    assert_eq!(inv.inverted(), c);
    let mut m = c.clone();
    m.invert();
    assert_eq!(m, inv);
    m.invert();
    assert_eq!(m, c);
    let mut empty = Canvas::from_matrix(&Vec::new());
    empty.invert();
    assert_eq!(empty.to_string(), "");
}

#[test]
fn duopixel_access() {
    let mut c = Canvas::new(2, 4);
    assert_eq!(c.get_duopixel(1, 3), Some(DuoPixel::new(false, false)));
    let prev = c.mut_set_duopixel(1, 3, DuoPixel::new(true, false));
    assert_eq!(prev, Some(DuoPixel::new(false, false)));
    assert_eq!(c.get(1, 2), Some(true));
    assert_eq!(c.get(1, 3), Some(false));
    assert_eq!(c.get_duopixel(1, 2), Some(DuoPixel::new(true, false)));
    assert_eq!(c.mut_set_duopixel(2, 0, DuoPixel::new(true, true)), None);
    assert_eq!(c.get_duopixel(0, 4), None);
}

#[test]
fn parse_maps_characters() {
    let c = Canvas::parse("#.x\n..#", '#', '.');
    assert_eq!(c.to_matrix(), vec![vec![true, false, true], vec![false, false, true]]);
}

#[test]
fn parse_splits_lines_like_str_lines() {
    let c = Canvas::parse("#.\r\n.#\n", '#', '.');
    assert_eq!(c.to_matrix(), vec![vec![true, false], vec![false, true]]);
    let empty = Canvas::parse("", '#', '.');
    assert_eq!(empty.to_string(), "");
    let three = Canvas::parse("#\n\n#", '#', '.');
    assert_eq!(three.to_matrix(), vec![vec![], vec![], vec![], vec![]]);
}

#[test]
fn unrecognised_character_reads_like_active() {
    let with_active = Canvas::parse("#.#\n.#.", '#', '.');
    let with_other = Canvas::parse("#.x\n.?.", '#', '.');
    assert_eq!(with_active, with_other);
}
