use presentation_preprocessor::book::{
    named_comment_rule, presentation_rules, process_chapters, script_footer, style_header,
    supports_renderer, BookNode, Chapter,
};
use presentation_preprocessor::rewrite::{apply_rule, replace};

fn chapter(name: &str, content: &str, sub_items: Vec<BookNode>) -> BookNode {
    BookNode::Chapter(Chapter { name: name.to_string(), content: content.to_string(), sub_items })
}

fn content_of(node: &BookNode) -> &str {
    match node {
        BookNode::Chapter(ch) => &ch.content,
        _ => panic!("not a chapter"),
    }
}

fn subs_of(node: &BookNode) -> &Vec<BookNode> {
    match node {
        BookNode::Chapter(ch) => &ch.sub_items,
        _ => panic!("not a chapter"),
    }
}

#[test]
fn nested_chapters_are_each_processed() {
    let grandchild = chapter("c", "$notes$n$notes-end$", vec![]);
    let child = chapter("b", "$web-only$w$web-only-end$", vec![grandchild, BookNode::Separator]);
    let mut items = vec![
        chapter("a", "top", vec![child]),
        BookNode::PartTitle("Part".to_string()),
    ];
    let rules = presentation_rules();
    process_chapters(&mut items, &rules, "H|", "|F");

    assert_eq!(items.len(), 2);
    assert_eq!(content_of(&items[0]), "H|top|F");
    let child = &subs_of(&items[0])[0];
    assert_eq!(content_of(child), "H|<!--web-only-->w<!--web-only-end-->|F");
    let grandchild = &subs_of(child)[0];
    assert_eq!(content_of(grandchild), "H|\n<!--notesn-->|F");
    assert!(matches!(subs_of(child)[1], BookNode::Separator));
    match &items[1] {
        BookNode::PartTitle(t) => assert_eq!(t, "Part"),
        _ => panic!("part title lost"),
    }
    match &items[0] {
        BookNode::Chapter(ch) => assert_eq!(ch.name, "a"),
        _ => panic!("chapter lost"),
    }
}

#[test]
fn rules_apply_in_order_to_chapter_text() {
    let text = "$web-only$a$web-only-end$\n$slides-only$b$slides-only-end$\n$notes$c$notes-end$";
    let mut items = vec![chapter("x", text, vec![])];
    process_chapters(&mut items, &presentation_rules(), "", "");
    assert_eq!(
        content_of(&items[0]),
        "<!--web-only-->a<!--web-only-end-->\n<!--slides-only-->b<!--slides-only-end-->\n\n<!--notesc-->"
    );
}

#[test]
fn empty_book_stays_empty() {
    let mut items: Vec<BookNode> = Vec::new();
    process_chapters(&mut items, &presentation_rules(), "<style></style>", "");
    assert!(items.is_empty());
}

#[test]
fn decoration_wraps_style_and_script() {
    assert_eq!(style_header("p{}"), "<style>p{}</style>\n\n");
    assert_eq!(script_footer("f()"), "\n\n<script>f()</script>");
}

#[test]
fn named_rule_matches_replace() {
    let text = "x $web-only$ y $web-only-end$ z";
    assert_eq!(apply_rule(text, &named_comment_rule("web-only")), replace(text, "web-only"));
}

#[test]
fn only_html_is_supported() {
    assert!(supports_renderer("html"));
    assert!(!supports_renderer("HTML"));
    assert!(!supports_renderer("markdown"));
    assert!(!supports_renderer(""));
}
