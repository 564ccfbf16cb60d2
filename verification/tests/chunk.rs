use comment_by::Chunk;

fn strings(lines: &[&str]) -> Vec<String> {
    lines.iter().map(|line| line.to_string()).collect()
}

#[test]
fn new_chunk_is_empty_and_uncommented() {
    let chunk = Chunk::new();
    assert!(!chunk.comment_out);
    assert!(chunk.lines.is_empty());
}

#[test]
fn process_line_leaves_an_uncommented_line_bare() {
    let chunk = Chunk::new();
    assert_eq!(chunk.process_line(String::from("select 1"), "--"), "select 1\n");
}

#[test]
fn process_line_puts_marker_and_space_before_a_commented_line() {
    let chunk = Chunk { comment_out: true, lines: Vec::new() };
    assert_eq!(chunk.process_line(String::from("select 1"), "--"), "-- select 1\n");
}

#[test]
fn process_line_of_an_empty_line() {
    let bare = Chunk::new();
    assert_eq!(bare.process_line(String::new(), "--"), "\n");
    let commented = Chunk { comment_out: true, lines: Vec::new() };
    assert_eq!(commented.process_line(String::new(), "--"), "-- \n");
}

#[test]
fn process_line_with_an_empty_marker_still_writes_the_space() {
    let chunk = Chunk { comment_out: true, lines: Vec::new() };
    assert_eq!(chunk.process_line(String::from("x"), ""), " x\n");
}

#[test]
fn process_line_keeps_a_carriage_return_and_adds_one_newline() {
    let chunk = Chunk::new();
    let out = chunk.process_line(String::from("a\r"), "--");
    assert_eq!(out, "a\r\n");
    assert_eq!(out.matches('\n').count(), 1);
}

#[test]
fn process_line_keeps_characters_outside_ascii() {
    let chunk = Chunk { comment_out: true, lines: Vec::new() };
    assert_eq!(chunk.process_line(String::from("naïve ✓"), "#"), "# naïve ✓\n");
}

#[test]
fn render_of_an_empty_chunk_is_empty() {
    assert_eq!(Chunk::new().render("--"), "");
    let commented = Chunk { comment_out: true, lines: Vec::new() };
    assert_eq!(commented.render("--"), "");
}

#[test]
fn render_writes_the_lines_in_order() {
    let chunk = Chunk { comment_out: false, lines: strings(&["a", "b", "c"]) };
    assert_eq!(chunk.render("--"), "a\nb\nc\n");
}

#[test]
fn render_comments_every_line_of_a_commented_chunk() {
    let chunk = Chunk { comment_out: true, lines: strings(&["a", "", "c"]) };
    assert_eq!(chunk.render("//"), "// a\n// \n// c\n");
}

#[test]
fn every_rendered_line_ends_in_a_single_newline() {
    let chunk = Chunk { comment_out: true, lines: strings(&["one", "two\r", "three"]) };
    let text = chunk.render("--");
    assert!(text.ends_with('\n'));
    assert_eq!(text.matches('\n').count(), 3);
    for line in text.split_inclusive('\n') {
        assert!(line.ends_with('\n'));
        assert!(!line[..line.len() - 1].contains('\n'));
    }
}

#[test]
fn chunks_compare_by_flag_and_lines() {
    let a = Chunk { comment_out: true, lines: strings(&["x"]) };
    let b = Chunk { comment_out: true, lines: strings(&["x"]) };
    let c = Chunk { comment_out: false, lines: strings(&["x"]) };
    assert_eq!(a, b);
    assert_ne!(a, c);
}
