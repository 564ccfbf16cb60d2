use comment_by::Chunker;

fn strings(lines: &[&str]) -> Vec<String> {
    lines.iter().map(|line| line.to_string()).collect()
}

#[test]
fn a_fresh_chunker_holds_an_empty_chunk() {
    let chunker = Chunker::new("/****** Object:", "test", "--");
    assert!(chunker.chunk().lines.is_empty());
    assert!(!chunker.chunk().comment_out);
}

#[test]
fn finalize_without_lines_writes_nothing() {
    let chunker = Chunker::new("/****** Object:", "test", "--");
    assert_eq!(chunker.finalize(), "");
}

#[test]
fn case_insensitive_trigger() {
    let mut chunker = Chunker::new("/****** Object:", "test", "--");
    let flushed = chunker.process(String::from("This Is A TEST line"));
    assert_eq!(flushed, None);
    assert!(chunker.chunk().comment_out);
    assert_eq!(chunker.finalize(), "-- This Is A TEST line\n");
}

#[test]
fn trigger_in_upper_case_matches_a_line_in_lower_case() {
    let mut chunker = Chunker::new("/****** Object:", "TeSt", "--");
    assert_eq!(chunker.process(String::from("a small test")), None);
    assert!(chunker.chunk().comment_out);
}

#[test]
fn trigger_is_folded_by_the_full_upper_case_mapping() {
    let mut chunker = Chunker::new("##", "strasse", "--");
    assert_eq!(chunker.process(String::from("Hauptstraße 1")), None);
    assert!(chunker.chunk().comment_out);
}

#[test]
fn a_line_without_the_trigger_leaves_the_chunk_uncommented() {
    let mut chunker = Chunker::new("/****** Object:", "test", "--");
    assert_eq!(chunker.process(String::from("nothing here")), None);
    assert!(!chunker.chunk().comment_out);
    assert_eq!(chunker.finalize(), "nothing here\n");
}

#[test]
fn split_marker_is_matched_with_its_case() {
    let mut chunker = Chunker::new("GO", "test", "--");
    assert_eq!(chunker.process(String::from("a")), None);
    assert_eq!(chunker.process(String::from("go")), None);
    assert_eq!(chunker.process(String::from("GO")), Some(String::from("a\ngo\n")));
}

#[test]
fn split_on_first_line_does_not_flush() {
    let mut chunker = Chunker::new("/****** Object:", "test", "--");
    assert_eq!(chunker.process(String::from("/****** Object: first")), None);
    assert_eq!(chunker.chunk().lines, strings(&["/****** Object: first"]));
    assert_eq!(chunker.process(String::from("body")), None);
    assert_eq!(chunker.finalize(), "/****** Object: first\nbody\n");
}

#[test]
fn a_split_line_closes_the_open_chunk_and_joins_the_new_one() {
    let mut chunker = Chunker::new("/****** Object:", "test", "--");
    assert_eq!(chunker.process(String::from("A")), None);
    assert_eq!(
        chunker.process(String::from("/****** Object: foo")),
        Some(String::from("A\n"))
    );
    assert_eq!(chunker.chunk().lines, strings(&["/****** Object: foo"]));
    assert!(!chunker.chunk().comment_out);
}

#[test]
fn a_new_chunk_starts_uncommented() {
    let mut chunker = Chunker::new("==", "test", "--");
    assert_eq!(chunker.process(String::from("a test")), None);
    assert!(chunker.chunk().comment_out);
    assert_eq!(chunker.process(String::from("== next")), Some(String::from("-- a test\n")));
    assert!(!chunker.chunk().comment_out);
}

#[test]
fn a_split_line_that_holds_the_trigger_comments_its_own_chunk() {
    let mut chunker = Chunker::new("==", "test", "--");
    assert_eq!(chunker.process(String::from("clean")), None);
    assert_eq!(chunker.process(String::from("== test")), Some(String::from("clean\n")));
    assert!(chunker.chunk().comment_out);
    assert_eq!(chunker.finalize(), "-- == test\n");
}

#[test]
fn commenting_is_monotone_within_a_chunk() {
    let mut chunker = Chunker::new("==", "test", "--");
    assert_eq!(chunker.process(String::from("before")), None);
    assert!(!chunker.chunk().comment_out);
    assert_eq!(chunker.process(String::from("the test")), None);
    assert!(chunker.chunk().comment_out);
    assert_eq!(chunker.process(String::from("after")), None);
    assert!(chunker.chunk().comment_out);
    assert_eq!(chunker.finalize(), "-- before\n-- the test\n-- after\n");
}

#[test]
fn empty_trigger_comments_every_chunk() {
    let mut chunker = Chunker::new("==", "", "--");
    assert_eq!(chunker.process(String::from("a")), None);
    assert!(chunker.chunk().comment_out);
    assert_eq!(chunker.process(String::from("== b")), Some(String::from("-- a\n")));
    assert!(chunker.chunk().comment_out);
    assert_eq!(chunker.finalize(), "-- == b\n");
}

#[test]
fn empty_split_marker_splits_at_every_line_after_the_first() {
    let mut chunker = Chunker::new("", "test", "--");
    assert_eq!(chunker.process(String::from("a")), None);
    assert_eq!(chunker.process(String::from("test")), Some(String::from("a\n")));
    assert_eq!(chunker.process(String::from("c")), Some(String::from("-- test\n")));
    assert_eq!(chunker.finalize(), "c\n");
}

#[test]
fn empty_lines_are_kept() {
    let mut chunker = Chunker::new("==", "test", "--");
    assert_eq!(chunker.process(String::new()), None);
    assert_eq!(chunker.process(String::new()), None);
    assert_eq!(chunker.finalize(), "\n\n");
}

#[test]
fn process_folded_looks_for_the_trigger_in_the_folded_form_only() {
    let mut chunker = Chunker::with_folded_trigger("==", "TEST", "--");
    assert_eq!(chunker.process_folded(String::from("a TEST"), "A CHECK"), None);
    assert!(!chunker.chunk().comment_out);
    assert_eq!(chunker.process_folded(String::from("plain"), "HAS TEST"), None);
    assert!(chunker.chunk().comment_out);
    assert_eq!(chunker.finalize(), "-- a TEST\n-- plain\n");
}

#[test]
fn process_folded_looks_for_the_split_marker_in_the_line_itself() {
    let mut chunker = Chunker::with_folded_trigger("go", "TEST", "--");
    assert_eq!(chunker.process_folded(String::from("a"), "A"), None);
    assert_eq!(chunker.process_folded(String::from("b"), "GO go"), None);
    assert_eq!(chunker.process_folded(String::from("go"), "X"), Some(String::from("a\nb\n")));
    assert_eq!(chunker.finalize(), "go\n");
}

#[test]
fn with_folded_trigger_takes_the_trigger_as_it_is() {
    let mut chunker = Chunker::with_folded_trigger("==", "test", "--");
    assert_eq!(chunker.process(String::from("a test")), None);
    assert!(!chunker.chunk().comment_out);
    assert_eq!(chunker.process_folded(String::from("x"), "a test"), None);
    assert!(chunker.chunk().comment_out);
}

#[test]
fn process_agrees_with_process_folded_on_the_upper_case_form() {
    let lines = ["Intro", "== One", "has Test here", "== Two", "clean"];
    let mut plain = Chunker::new("==", "test", "--");
    let mut folded = Chunker::with_folded_trigger("==", "TEST", "--");
    for line in lines {
        let a = plain.process(line.to_string());
        let b = folded.process_folded(line.to_string(), &line.to_uppercase());
        assert_eq!(a, b);
        assert_eq!(plain.chunk(), folded.chunk());
    }
    assert_eq!(plain.finalize(), folded.finalize());
}

#[test]
fn flushes_are_one_more_than_split_lines() {
    let lines = ["== 0", "a", "== 1", "== 2", "b", "c", "== 3"];
    let mut chunker = Chunker::new("==", "test", "--");
    let mut flushes = 0;
    for line in lines {
        if chunker.process(line.to_string()).is_some() {
            flushes += 1;
        }
    }
    chunker.finalize();
    flushes += 1;
    assert_eq!(flushes, 1 + 3);
}

#[test]
fn only_the_open_chunk_is_held() {
    let mut chunker = Chunker::new("==", "test", "--");
    for line in ["a", "b", "== c", "d"] {
        chunker.process(line.to_string());
    }
    assert_eq!(chunker.chunk().lines, strings(&["== c", "d"]));
}
