use parley::bidi::reorder_by_level;
use parley::line_break::indent_start_is_scope_line;
use parley::style::IndentStart;

#[test]
fn exact_levels_reorder_even_nested_runs() {
    let levels = [0u8, 1, 2];
    let mut indices = [0usize, 1, 2];
    reorder_by_level(&mut indices, &levels);
    assert_eq!(indices, [0, 2, 1]);
}

#[test]
fn continuation_indent_scope_depends_on_preceding_break_and_each_line() {
    assert!(!indent_start_is_scope_line(IndentStart::ContinuationAfterSoftWrap, false));
    assert!(!indent_start_is_scope_line(IndentStart::ContinuationAfterSoftWrap, true));
    assert!(!indent_start_is_scope_line(IndentStart::ContinuationAfterExplicitBreak, false));
    assert!(indent_start_is_scope_line(IndentStart::ContinuationAfterExplicitBreak, true));
}
