use calculator::framed::{add_frame, get_max_width};

#[test]
fn frame_around_lines() {
    let lines = vec!["ab".to_string(), "c".to_string()];
    let w = get_max_width(&lines);
    assert_eq!(w, 5);
    let framed = add_frame(&lines, w);
    assert_eq!(
        framed,
        vec![
            "┌───────┐".to_string(),
            "│ - □ x │".to_string(),
            "├───────┤".to_string(),
            "│ ab    │".to_string(),
            "│ c     │".to_string(),
            "└───────┘".to_string(),
        ]
    );
}

#[test]
fn frame_of_nothing() {
    let lines: Vec<String> = Vec::new();
    assert_eq!(get_max_width(&lines), 3);
    assert_eq!(add_frame(&lines, 3).len(), 4);
}
