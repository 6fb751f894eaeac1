use rgdb::highlight::{highlight_lines, highlight_listing_body};
use rgdb::srcfiledata::Color;

#[test]
fn highlighted_spans_cover_each_line() {
    let lines = vec!["int main(void) { // entry".to_string(), "  return 0;".to_string(), "}".to_string()];
    let spans = highlight_lines(&lines, "c");
    assert_eq!(spans.len(), 3);
    for (line, s) in lines.iter().zip(spans.iter()) {
        let text: String = s.iter().map(|(_, t)| t.as_str()).collect();
        assert_eq!(&text, line);
        assert!(s.iter().all(|(c, _)| matches!(c, Color::Rgb(..))));
    }
    assert!(spans[0].len() > 1);
}

#[test]
fn listing_body_skips_header_and_footer() {
    let lines = vec![
        "Dump of assembler code for function main:\n".to_string(),
        "    0x1 <+0>: nop\n".to_string(),
        "End of assembler dump.".to_string(),
    ];
    let body = highlight_listing_body(&lines);
    assert_eq!(body.len(), 1);
    let text: String = body[0].iter().map(|(_, t)| t.as_str()).collect();
    assert_eq!(text, "    0x1 <+0>: nop\n");
    assert!(highlight_listing_body(&vec!["x".to_string()]).is_empty());
}

#[test]
fn unknown_extension_is_shown_white() {
    let lines = vec!["a b".to_string(), "".to_string()];
    let spans = highlight_lines(&lines, "no-such-extension");
    assert_eq!(
        spans,
        vec![vec![(Color::White, "a b".to_string())], vec![(Color::White, "".to_string())]]
    );
}

#[test]
fn line_comment_ends_with_its_line() {
    let lines = vec!["int a; // note".to_string(), "int b;".to_string()];
    let first = highlight_lines(&lines[..1].to_vec(), "c");
    let both = highlight_lines(&lines, "c");
    let alone = highlight_lines(&lines[1..].to_vec(), "c");
    assert_eq!(both[0], first[0]);
    assert_eq!(both[1], alone[0]);
}
