use logrelay::assembler::{LineAssembler, LineUpdate};

fn rows(updates: &[LineUpdate]) -> Vec<(String, bool)> {
    updates.iter().map(|u| (u.row.clone(), u.replace_last_row)).collect()
}

#[test]
fn split_line_is_replaced_in_place() {
    let mut a = LineAssembler::new();
    let first = a.push_chunk("ab");
    assert_eq!(rows(&first), vec![("ab".to_string(), false)]);
    let second = a.push_chunk("cd\n");
    assert_eq!(rows(&second), vec![("abcd".to_string(), true)]);
    assert!(a.is_terminated());
}

#[test]
fn two_lines_in_one_chunk() {
    let mut a = LineAssembler::new();
    let out = a.push_chunk("L1\nL2\n");
    assert_eq!(rows(&out), vec![("L1".to_string(), false), ("L2".to_string(), false)]);
}

#[test]
fn fresh_row_after_terminator() {
    let mut a = LineAssembler::new();
    a.push_chunk("partial");
    a.push_chunk(" more\n");
    let out = a.push_chunk("next");
    assert_eq!(rows(&out), vec![("next".to_string(), false)]);
    let out = a.push_chunk(" line");
    assert_eq!(rows(&out), vec![("next line".to_string(), true)]);
}

#[test]
fn slow_writer_keeps_replacing() {
    let mut a = LineAssembler::new();
    assert_eq!(rows(&a.push_chunk("a")), vec![("a".to_string(), false)]);
    assert_eq!(rows(&a.push_chunk("b")), vec![("ab".to_string(), true)]);
    assert_eq!(rows(&a.push_chunk("c")), vec![("abc".to_string(), true)]);
    assert!(!a.is_terminated());
}

#[test]
fn continuation_then_new_line_in_one_chunk() {
    let mut a = LineAssembler::new();
    a.push_chunk("ab");
    let out = a.push_chunk("cd\nef");
    assert_eq!(rows(&out), vec![("abcd".to_string(), true), ("ef".to_string(), false)]);
}

#[test]
fn empty_chunk_emits_nothing() {
    let mut a = LineAssembler::new();
    assert!(a.push_chunk("").is_empty());
    assert!(a.is_terminated());
}

#[test]
fn blank_lines_are_rows() {
    let mut a = LineAssembler::new();
    let out = a.push_chunk("\n\n");
    assert_eq!(rows(&out), vec![("".to_string(), false), ("".to_string(), false)]);
    assert!(a.is_terminated());
}

#[test]
fn terminator_alone_completes_the_row() {
    let mut a = LineAssembler::new();
    a.push_chunk("ab");
    let out = a.push_chunk("\n");
    assert_eq!(rows(&out), vec![("ab".to_string(), true)]);
    assert!(a.is_terminated());
}

#[test]
fn non_ascii_text_is_kept() {
    let mut a = LineAssembler::new();
    let out = a.push_chunk("héllo wörld\n");
    assert_eq!(rows(&out), vec![("héllo wörld".to_string(), false)]);
}
