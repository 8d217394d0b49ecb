use presentation_preprocessor::rewrite::{
    apply_rule, apply_rules, assemble_blocks, block_bodies, render_block, replace,
    replace_with_parts, Policy, TagRule,
};
use presentation_preprocessor::scan::{chars_of, find_occurrences, same_text};

fn comment_rule(start: &str, end: &str, open: &str, close: &str) -> TagRule {
    TagRule {
        start: start.to_string(),
        end: end.to_string(),
        policy: Policy::CommentWrap { open: open.to_string(), close: close.to_string() },
    }
}

#[test]
fn basic_test() {
    let md = "
# Header
- list
- of
- items

$web-only$
# web only header
- web
- only
- list
$web-only-end$
$slides-only$
# presenting only header
- presenting
- only
- list
$slides-only-end$
";
    let first_pass = replace(md, "web-only");

    assert_eq!(
        replace(&first_pass, "slides-only"),
        r##"
# Header
- list
- of
- items

<!--web-only-->
# web only header
- web
- only
- list
<!--web-only-end-->
<!--slides-only-->
# presenting only header
- presenting
- only
- list
<!--slides-only-end-->
"##
    );
}

#[test]
fn empty_test() {
    let test = r#"# Header
- list
- of
- items
"#;
    assert_eq!(test, replace(test, "web-only"));
}

#[test]
fn notes_test() {
    let test = r#"$notes$
- notes
- for the presentation
- and stuff
$notes-end$
"#;
    let expectation = r#"
<!--notes
- notes
- for the presentation
- and stuff
-->
"#;
    assert_eq!(
        expectation,
        replace_with_parts(test, "$notes$", "\n<!--notes", "$notes-end$", "-->",)
    );
}

#[test]
fn render_block_scenario() {
    let out = render_block("$tag$\n# H\n- a\n$tag-end$", "$tag$", "$tag-end$", "c");
    assert_eq!(out, "<div class=\"c\">\n<h1>H</h1>\n<ul>\n<li>a</li>\n</ul>\n</div>");
}

#[test]
fn comment_wrap_scenario() {
    let out = replace_with_parts("$notes$\n- x\n$notes-end$\n", "$notes$", "\n<!--notes", "$notes-end$", "-->");
    assert_eq!(out, "\n<!--notes\n- x\n-->\n");
}

#[test]
fn pass_through_without_markers() {
    let text = "# Title\n\nsome $other$ text\n$other-end$\n";
    assert_eq!(replace(text, "web-only"), text);
    assert_eq!(render_block(text, "$tag$", "$tag-end$", "c"), text);
}

#[test]
fn end_marker_alone_is_kept() {
    let text = "before $notes-end$ after";
    assert_eq!(replace_with_parts(text, "$notes$", "<!--", "$notes-end$", "-->"), text);
    let rule = TagRule {
        start: "$tag$".to_string(),
        end: "$tag-end$".to_string(),
        policy: Policy::RenderBlock { class: "c".to_string() },
    };
    assert_eq!(apply_rule("x $tag-end$ y", &rule), "x $tag-end$ y");
}

#[test]
fn single_region_keeps_prefix_and_suffix() {
    let out = replace_with_parts("pre [body] post", "[", "<<", "]", ">>");
    assert_eq!(out, "pre <<body>> post");
}

#[test]
fn adjacent_markers_give_empty_body() {
    assert_eq!(replace("a$x$$x-end$b", "x"), "a<!--x--><!--x-end-->b");
    assert_eq!(render_block("a$t$$t-end$b", "$t$", "$t-end$", "k"), "a<div class=\"k\">\n</div>b");
}

#[test]
fn several_regions_are_each_rewritten() {
    let out = replace("$n$1$n-end$ mid $n$2$n-end$ tail", "n");
    assert_eq!(out, "<!--n-->1<!--n-end--> mid <!--n-->2<!--n-end--> tail");
}

#[test]
fn unmatched_trailing_start_is_kept() {
    let out = replace("$n$a$n-end$ $n$b", "n");
    assert_eq!(out, "<!--n-->a<!--n-end--> $n$b");
}

#[test]
fn end_before_start_is_not_a_region() {
    let out = replace("$n-end$ x $n$", "n");
    assert_eq!(out, "$n-end$ x $n$");
}

#[test]
fn pairing_is_positional_not_nested() {
    // The second start pairs with the first end, which lies before it, so that
    // pair is left as it stands.
    let out = replace_with_parts("[a [b] c]", "[", "<", "]", ">");
    assert_eq!(out, "<a [b> c]");
}

#[test]
fn empty_markers_match_nothing() {
    assert_eq!(replace_with_parts("abc", "", "<", "", ">"), "abc");
}

#[test]
fn non_ascii_text_is_kept() {
    let out = replace("é $n$ü$n-end$ ß", "n");
    assert_eq!(out, "é <!--n-->ü<!--n-end--> ß");
}

#[test]
fn rule_order_matters() {
    let a = comment_rule("<a>", "</a>", "<b>", "</b>");
    let b = comment_rule("<b>", "</b>", "B(", ")");
    let text = "<a>x</a>";
    let a_then_b = apply_rules(text, &vec![comment_rule("<a>", "</a>", "<b>", "</b>"), comment_rule("<b>", "</b>", "B(", ")")]);
    let b_then_a = apply_rules(text, &vec![b, a]);
    assert_eq!(a_then_b, "B(x)");
    assert_eq!(b_then_a, "<b>x</b>");
    assert_ne!(a_then_b, b_then_a);
}

#[test]
fn no_rules_keep_text() {
    assert_eq!(apply_rules("$notes$ x $notes-end$", &Vec::new()), "$notes$ x $notes-end$");
}

#[test]
fn comment_wrap_keeps_markdown_verbatim() {
    let out = replace_with_parts("<x># H\n- a\n</x>", "<x>", "[", "</x>", "]");
    assert_eq!(out, "[# H\n- a\n]");
}

#[test]
fn render_block_renders_every_body() {
    let text = "$t$\n# One\n$t-end$ and $t$\n# Two\n$t-end$";
    let bodies = block_bodies(text, "$t$", "$t-end$");
    assert_eq!(bodies, vec!["\n# One\n".to_string(), "\n# Two\n".to_string()]);
    let out = render_block(text, "$t$", "$t-end$", "c");
    assert_eq!(
        out,
        "<div class=\"c\">\n<h1>One</h1>\n</div> and <div class=\"c\">\n<h1>Two</h1>\n</div>"
    );
}

#[test]
fn assemble_blocks_uses_given_html() {
    let text = "a $t$x$t-end$ b";
    let out = assemble_blocks(text, "$t$", "$t-end$", "k", &vec!["<p>X</p>".to_string()]);
    assert_eq!(out, "a <div class=\"k\">\n<p>X</p></div> b");
}

#[test]
fn occurrences_do_not_overlap() {
    let text = chars_of("aaaa");
    let pat = chars_of("aa");
    assert_eq!(find_occurrences(&text, &pat), vec![0, 2]);
    assert_eq!(find_occurrences(&text, &chars_of("")), Vec::<usize>::new());
    assert_eq!(find_occurrences(&chars_of("a"), &chars_of("aa")), Vec::<usize>::new());
}

#[test]
fn same_text_compares_characters() {
    assert!(same_text("html", "html"));
    assert!(!same_text("html", "HTML"));
    assert!(!same_text("htm", "html"));
}
