use calculator::canvas::Canvas;
use calculator::shading::{gen_none_char, jitter_by, jitter_color, Colored, Imp};
use calculator::terminal::{area_of, listen_term_change};

#[test]
fn dots_make_braille() {
    let mut c = Canvas::new();
    c.set_dot(0, 0);
    assert_eq!(c.frame(), "⠁⠀⠀⠀⠀⠀⠀⠀⠀⠀");
    c.set_dot(1, 3);
    assert_eq!(c.frame().chars().next(), Some('⢁'));
    c.toggle_dot(0, 0);
    assert_eq!(c.frame().chars().next(), Some('⢀'));
    assert!(c.get_dot(1, 3));
    assert!(!c.get_dot(0, 0));
    c.unset_dot(1, 3);
    assert_eq!(c.frame().chars().next(), Some('⠀'));
    c.set_dot(0, 4);
    assert_eq!(c.frame().lines().count(), 2);
    c.clear();
    assert_eq!(c.frame(), "");
}

#[test]
fn wide_columns_pad_row() {
    let mut c = Canvas::new();
    c.set_dot(30, 0);
    assert_eq!(c.frame().chars().count(), 16);
}

#[test]
fn shading_chars() {
    let v = gen_none_char();
    let s: String = v.iter().map(|c| c.ch).collect();
    assert_eq!(s, ".,-~:;=!*#$@");
    assert!(v.iter().all(|c| c.color == (192, 192, 192)));
    let c = Colored::new((1, 2, 3), 'x');
    assert_eq!(c.color, (1, 2, 3));
    let _ = Imp::Plain;
}

#[test]
fn jitter_stays_near() {
    for _ in 0..20 {
        let mut c = (250u8, 5u8, 100u8);
        jitter_color(&mut c);
        assert!(c.0 >= 234 && c.0 <= 250);
        assert!(c.1 >= 5 && c.1 <= 21);
        assert!(c.2 >= 92 && c.2 <= 108);
    }
}

#[test]
fn terminal_area() {
    assert_eq!(area_of(None), (60, 30));
    assert_eq!(area_of(Some((200, 50))), (100, 45));
    assert_eq!(area_of(Some((80, 50))), (80, 40));
    let now = calculator::terminal::get_term_size();
    assert_eq!(listen_term_change(now), None);
}

#[test]
fn jitter_by_offsets() {
    assert_eq!(jitter_by(250, 16), 234);
    assert_eq!(jitter_by(5, 16), 21);
    assert_eq!(jitter_by(100, 0), 92);
    assert_eq!(jitter_by(100, 16), 108);
}
