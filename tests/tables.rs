use calculator::tables::{Align, DecChar, PushErr, Segment, Table};

fn strings(v: &[&str]) -> Vec<String> {
    v.iter().map(|s| s.to_string()).collect()
}

#[test]
fn plain_table() {
    let mut t = Table::new(false);
    t.set_header(strings(&["a", "bb"]));
    assert_eq!(t.set_rows(vec![strings(&["x", "yy"])]), Ok(()));
    assert_eq!(
        t.make_table(),
        vec!["│ a    bb  ║".to_string(), "┄┄┄┄┄┄┄┄┄┄".to_string(), " x    yy  ".to_string()]
    );
}

#[test]
fn decorated_table() {
    let mut t = Table::new(true);
    t.set_header(strings(&["a", "bb"]));
    assert_eq!(t.push(strings(&["x", "yy"])), Ok(()));
    assert_eq!(
        t.make_table(),
        vec![
            "╭──────────╖".to_string(),
            "│ a    bb  ║".to_string(),
            "├┄┄┄┄┄┄┄┄┄┄╢".to_string(),
            "│ x    yy  ║".to_string(),
            "╰══════════╝".to_string(),
        ]
    );
}

#[test]
fn push_errors() {
    let mut t = Table::new(true);
    t.set_header(strings(&["name", "age"]));
    assert_eq!(t.push(strings(&["only one"])), Err(PushErr));
    assert_eq!(t.set_rows(vec![strings(&["a", "1"]), strings(&["b"])]), Err(PushErr));
    assert_eq!(t.push_col(strings(&["x"]), "country".to_string()), Ok(()));
    assert_eq!(t.push_col(strings(&["x", "y"]), "more".to_string()), Err(PushErr));
}

#[test]
fn widths_follow_rows() {
    let mut t = Table::new(false);
    t.set_header(strings(&["h"]));
    t.push(strings(&["abc"])).unwrap();
    t.push(strings(&["a"])).unwrap();
    // second width: max(6 - 3, 1 + 3) = 4
    assert_eq!(t.make_table()[2], "abc ".to_string());
}

#[test]
fn defaults() {
    assert_eq!(Align::new(), Align::Center);
    assert_eq!(Segment::new(), Segment::OnlyHeader);
    let d = DecChar::new();
    assert_eq!(d.lt, '╭');
    assert_eq!(d.sep, ' ');
}

#[test]
fn widths_count_bytes() {
    let mut t = Table::new(false);
    t.set_header(strings(&["h"]));
    t.push(strings(&["é"])).unwrap();
    // "é" is two bytes long, so the column is five characters wide
    assert_eq!(t.make_table()[2], "  é  ".to_string());
}
