use std::cmp::Ordering;

use rudra_dataflow::program::{Loc, Program, Span};
use rudra_dataflow::report::{snippet_from_lines, Color, ColorEvent, ColorSpan, ColorSpec, ColorStack, RenderPiece};

fn empty_program() -> Program {
    Program { files: vec![], fun_decls: vec![], bodies: vec![], trait_decls: vec![], trait_impls: vec![] }
}

fn event(color: Option<Color>, line: usize, col: usize, id: usize) -> ColorEvent {
    ColorEvent { color, line, col, id }
}

#[test]
fn sub_span_in_other_file_is_dropped() {
    let main = Span { file_id: 1, beg: Loc { line: 1, col: 0 }, end: Loc { line: 9, col: 0 } };
    let mut cs = ColorSpan::new(&empty_program(), main).unwrap();
    let other = Span { file_id: 2, beg: Loc { line: 2, col: 0 }, end: Loc { line: 2, col: 5 } };
    assert!(!cs.add_sub_span(Color::Red, other));
    assert_eq!(cs.sub_span_events().len(), 0);
    let inner = Span { file_id: 1, beg: Loc { line: 2, col: 3 }, end: Loc { line: 4, col: 5 } };
    assert!(cs.add_sub_span(Color::Yellow, inner));
    assert_eq!(
        cs.sub_span_events(),
        &vec![event(Some(Color::Yellow), 2, 3, 0), event(None, 4, 5, 0)]
    );
    assert!(cs.add_sub_span(Color::Cyan, inner));
    assert_eq!(cs.sub_span_events()[2].id, 2);
    assert_eq!(cs.main_span(), main);
}

#[test]
fn color_stack_tracks_innermost_colour() {
    let mut st = ColorStack::new();
    assert_eq!(st.current_spec(), ColorSpec::Reset);
    st.handle_event(&event(Some(Color::Red), 1, 0, 0));
    st.handle_event(&event(Some(Color::Cyan), 1, 2, 2));
    assert_eq!(st.current_spec(), ColorSpec::Fg(Color::Cyan));
    st.handle_event(&event(None, 1, 4, 0));
    assert_eq!(st.current_spec(), ColorSpec::Fg(Color::Cyan));
    st.handle_event(&event(None, 1, 5, 2));
    assert_eq!(st.current_spec(), ColorSpec::Reset);
    st.handle_event(&event(None, 1, 6, 7));
    assert_eq!(st.current_spec(), ColorSpec::Reset);
}

#[test]
fn events_order_by_position_then_end_first() {
    let a = event(Some(Color::Red), 1, 5, 0);
    assert_eq!(a.cmp_events(&event(None, 2, 0, 1)), Ordering::Less);
    assert_eq!(a.cmp_events(&event(None, 1, 4, 1)), Ordering::Greater);
    assert_eq!(a.cmp_events(&event(None, 1, 5, 1)), Ordering::Greater);
    assert_eq!(event(None, 1, 5, 3).cmp_events(&a), Ordering::Less);
    assert_eq!(a.cmp_events(&event(Some(Color::Cyan), 1, 5, 9)), Ordering::Equal);
}

#[test]
fn snippet_cuts_columns() {
    let content: Vec<String> = vec!["zero", "0123456789", "abcdef", "last line"].into_iter().map(String::from).collect();
    let span = Span { file_id: 0, beg: Loc { line: 2, col: 3 }, end: Loc { line: 4, col: 2 } };
    assert_eq!(snippet_from_lines(&content, &span), Some(vec!["3456789".to_string(), "ab".to_string()]));
    let one = Span { file_id: 0, beg: Loc { line: 2, col: 3 }, end: Loc { line: 3, col: 2 } };
    assert_eq!(snippet_from_lines(&content, &one), Some(vec!["34".to_string()]));
    let past = Span { file_id: 0, beg: Loc { line: 1, col: 9 }, end: Loc { line: 2, col: 50 } };
    assert_eq!(snippet_from_lines(&content, &past), Some(vec!["".to_string()]));
}

#[test]
fn snippet_of_missing_lines_is_none() {
    let content: Vec<String> = vec!["a".to_string(), "b".to_string()];
    let empty = Span { file_id: 0, beg: Loc { line: 2, col: 0 }, end: Loc { line: 2, col: 1 } };
    assert_eq!(snippet_from_lines(&content, &empty), None);
    let zero = Span { file_id: 0, beg: Loc { line: 0, col: 0 }, end: Loc { line: 2, col: 1 } };
    assert_eq!(snippet_from_lines(&content, &zero), None);
    let beyond = Span { file_id: 0, beg: Loc { line: 1, col: 0 }, end: Loc { line: 9, col: 1 } };
    assert_eq!(snippet_from_lines(&content, &beyond), None);
}

#[test]
fn sorted_events_are_stable() {
    let main = Span { file_id: 0, beg: Loc { line: 1, col: 0 }, end: Loc { line: 9, col: 0 } };
    let mut cs = ColorSpan::new(&empty_program(), main).unwrap();
    cs.add_sub_span(Color::Red, Span { file_id: 0, beg: Loc { line: 3, col: 1 }, end: Loc { line: 3, col: 4 } });
    cs.add_sub_span(Color::Cyan, Span { file_id: 0, beg: Loc { line: 2, col: 0 }, end: Loc { line: 3, col: 4 } });
    let sorted = cs.sorted_events();
    let keys: Vec<(usize, usize, bool, usize)> =
        sorted.iter().map(|e| (e.line, e.col, e.color.is_some(), e.id)).collect();
    assert_eq!(keys, vec![(2, 0, true, 2), (3, 1, true, 0), (3, 4, false, 0), (3, 4, false, 2)]);
}

#[test]
fn render_interleaves_colours() {
    let main = Span { file_id: 0, beg: Loc { line: 1, col: 2 }, end: Loc { line: 2, col: 0 } };
    let mut cs = ColorSpan::new(&empty_program(), main).unwrap();
    cs.add_sub_span(Color::Red, Span { file_id: 0, beg: Loc { line: 1, col: 3 }, end: Loc { line: 1, col: 4 } });
    let pieces = cs.render(&vec!["ab".to_string(), "c".to_string()]);
    assert_eq!(
        pieces,
        vec![
            RenderPiece::Char('a'),
            RenderPiece::SetColor(ColorSpec::Fg(Color::Red)),
            RenderPiece::Char('b'),
            RenderPiece::SetColor(ColorSpec::Reset),
            RenderPiece::Newline,
            RenderPiece::Char('c'),
            RenderPiece::Newline,
            RenderPiece::SetColor(ColorSpec::Reset),
        ]
    );
}
