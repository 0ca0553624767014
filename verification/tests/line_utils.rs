use codex_mcp::line_utils::is_blank_line_spaces_only;
use codex_mcp::line_utils::line_to_static;
use codex_mcp::line_utils::prefix_lines;
use codex_mcp::line_utils::push_owned_lines;
use codex_mcp::line_utils::Line;
use codex_mcp::line_utils::Span;
use ratatui::layout::Alignment;
use ratatui::style::Style;

fn span(s: &str) -> Span {
    Span { style: Style::default(), content: s.to_string() }
}

fn line(parts: &[&str]) -> Line {
    Line { style: Style::default(), alignment: None, spans: parts.iter().map(|p| span(p)).collect() }
}

fn texts(l: &Line) -> Vec<&str> {
    l.spans.iter().map(|s| s.content.as_str()).collect()
}

#[test]
fn blank_lines() {
    assert!(is_blank_line_spaces_only(&line(&[])));
    assert!(is_blank_line_spaces_only(&line(&["", "   "])));
    assert!(!is_blank_line_spaces_only(&line(&["  ", "\t"])));
    assert!(!is_blank_line_spaces_only(&line(&["x"])));
}

#[test]
fn prefixes_first_and_following_lines() {
    let lines = vec![line(&["a", "b"]), line(&[]), line(&["c"])];
    let out = prefix_lines(&lines, span("> "), span("  "));
    assert_eq!(out.len(), 3);
    assert_eq!(texts(&out[0]), vec!["> ", "a", "b"]);
    assert_eq!(texts(&out[1]), vec!["  "]);
    assert_eq!(texts(&out[2]), vec!["  ", "c"]);
    assert!(prefix_lines(&[], span("> "), span("  ")).is_empty());
}

#[test]
fn owned_copies() {
    let mut l = line(&["x", "y"]);
    l.alignment = Some(Alignment::Center);
    let c = line_to_static(&l);
    assert_eq!(texts(&c), vec!["x", "y"]);
    assert_eq!(c.alignment, Some(Alignment::Center));
    let mut out = vec![line(&["0"])];
    push_owned_lines(&[l, line(&["z"])], &mut out);
    assert_eq!(out.len(), 3);
    assert_eq!(texts(&out[1]), vec!["x", "y"]);
    assert_eq!(texts(&out[2]), vec!["z"]);
}
