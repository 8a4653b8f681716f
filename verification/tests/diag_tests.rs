use s3plot::compile::compile;
use s3plot::diag::mark_errors;
use s3plot::error::{CompileError, ErrorKind, Span};
use s3plot::util::common_parent_dir;

#[test]
fn sections_reconstruct_the_text_exactly() {
    let input = "t + oops + 1";
    let error = CompileError { kind: ErrorKind::UnknownIdent, spans: vec![Span { start: 4, end: 8 }] };
    let secs = mark_errors(input, &error);
    assert_eq!(secs.len(), 3);
    assert_eq!((secs[0].start, secs[0].end, secs[0].marked), (0, 4, false));
    assert_eq!((secs[1].start, secs[1].end, secs[1].marked), (4, 8, true));
    assert_eq!((secs[2].start, secs[2].end, secs[2].marked), (8, 12, false));
    // No gaps and no overlaps: the sections tile the whole input.
    assert_eq!(secs[0].start, 0);
    assert_eq!(secs.last().unwrap().end, input.len());
    assert!(secs.windows(2).all(|w| w[0].end == w[1].start));
}

#[test]
fn overlapping_spans_coalesce() {
    let input = "abcdefgh";
    let error = CompileError {
        kind: ErrorKind::UnknownIdent,
        spans: vec![Span { start: 1, end: 4 }, Span { start: 3, end: 6 }, Span { start: 2, end: 3 }],
    };
    let secs = mark_errors(input, &error);
    assert_eq!(secs.len(), 3);
    assert_eq!((secs[0].start, secs[0].end, secs[0].marked), (0, 1, false));
    assert_eq!((secs[1].start, secs[1].end, secs[1].marked), (1, 6, true));
    assert_eq!((secs[2].start, secs[2].end, secs[2].marked), (6, 8, false));
}

#[test]
fn whole_input_marked() {
    let input = "xy";
    let error = CompileError { kind: ErrorKind::TrailingToken, spans: vec![Span { start: 0, end: 2 }] };
    let secs = mark_errors(input, &error);
    assert_eq!(secs.len(), 1);
    assert_eq!((secs[0].start, secs[0].end, secs[0].marked), (0, 2, true));
}

#[test]
fn empty_input_yields_no_sections() {
    let error = CompileError { kind: ErrorKind::EmptyExpr, spans: vec![Span { start: 0, end: 0 }] };
    assert!(mark_errors("", &error).is_empty());
}

#[test]
fn compiler_spans_drive_the_highlight() {
    let names = vec![b"t".to_vec(), b"time".to_vec()];
    let err = compile("t + nope", &names).err().expect("must fail");
    let secs = mark_errors("t + nope", &err);
    assert_eq!(secs.len(), 2);
    assert!(!secs[0].marked);
    assert!(secs[1].marked);
    assert_eq!(secs[1].start, 4);
    assert_eq!(secs[1].end, 8);
}

#[test]
fn common_parent_of_sibling_files() {
    let files = vec![b"logs/a.s3lg".to_vec(), b"logs/b.s3lg".to_vec()];
    assert_eq!(common_parent_dir(&files), Some(b"logs".to_vec()));
}

#[test]
fn no_common_parent_for_different_dirs() {
    let files = vec![b"logs/a.s3lg".to_vec(), b"other/b.s3lg".to_vec()];
    assert_eq!(common_parent_dir(&files), None);
}

#[test]
fn no_parent_without_separator() {
    assert_eq!(common_parent_dir(&vec![b"alone".to_vec()]), None);
    assert_eq!(common_parent_dir(&Vec::<Vec<u8>>::new()), None);
}

#[test]
fn nested_parent_is_the_whole_prefix() {
    let files = vec![b"a/b/c/x".to_vec(), b"a/b/c/y".to_vec()];
    assert_eq!(common_parent_dir(&files), Some(b"a/b/c".to_vec()));
}

#[test]
fn empty_span_marks_nothing() {
    let error = CompileError { kind: ErrorKind::ExpectedOperand, spans: vec![Span { start: 3, end: 3 }] };
    let secs = mark_errors("1 +", &error);
    assert_eq!(secs.len(), 1);
    assert_eq!((secs[0].start, secs[0].end, secs[0].marked), (0, 3, false));
}
