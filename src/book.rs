//! The tree of chapters, and the pass that rewrites and decorates every
//! chapter in it.
use vstd::prelude::*;

use crate::rewrite::{
    apply_rules, concat3, end_comment, end_tag, rules_result, start_comment, start_tag, Policy, TagRule,
};

verus! {

broadcast use vstd::std_specs::vec::group_vec_axioms;

/// A chapter: its name, its text, and the items nested under it.
pub struct Chapter {
    pub name: String,
    pub content: String,
    pub sub_items: Vec<BookNode>,
}

/// One item of a book's table of contents.
pub enum BookNode {
    Chapter(Chapter),
    Separator,
    PartTitle(String),
}

/// The text of a chapter once the rules have rewritten it and the header and
/// footer stand around it.
pub open spec fn chapter_text(
    content: Seq<char>,
    rules: Seq<TagRule>,
    header: Seq<char>,
    footer: Seq<char>,
) -> Seq<char> {
    header + rules_result(content, rules) + footer
}

/// `after` is `before` with every chapter in it, at every depth, rewritten by
/// the rules and decorated; all else is kept.
pub open spec fn node_processed(
    before: BookNode,
    after: BookNode,
    rules: Seq<TagRule>,
    header: Seq<char>,
    footer: Seq<char>,
) -> bool
    decreases before, 0int,
{
    match before {
        BookNode::Chapter(ch) => match after {
            BookNode::Chapter(done) => {
                &&& done.name@ == ch.name@
                &&& done.content@ == chapter_text(ch.content@, rules, header, footer)
                &&& done.sub_items@.len() == ch.sub_items@.len()
                &&& prefix_processed(
                    ch.sub_items@,
                    done.sub_items@,
                    rules,
                    header,
                    footer,
                    ch.sub_items@.len() as int,
                )
            },
            _ => false,
        },
        BookNode::Separator => after is Separator,
        BookNode::PartTitle(title) => match after {
            BookNode::PartTitle(kept) => kept@ == title@,
            _ => false,
        },
    }
}

/// Each of the first `k` items of `after` is the matching item of
/// `before`, processed.
pub open spec fn prefix_processed(
    before: Seq<BookNode>,
    after: Seq<BookNode>,
    rules: Seq<TagRule>,
    header: Seq<char>,
    footer: Seq<char>,
    k: int,
) -> bool
    decreases before, k,
{
    if k <= 0 {
        true
    } else if k > before.len() {
        false
    } else {
        &&& prefix_processed(before, after, rules, header, footer, k - 1)
        &&& node_processed(before[k - 1], after[k - 1], rules, header, footer)
    }
}

/// Each item of `after` is the matching item of `before`, processed.
pub open spec fn items_processed(
    before: Seq<BookNode>,
    after: Seq<BookNode>,
    rules: Seq<TagRule>,
    header: Seq<char>,
    footer: Seq<char>,
) -> bool {
    &&& after.len() == before.len()
    &&& forall|i: int|
        0 <= i < before.len() ==> #[trigger] node_processed(
            before[i],
            after[i],
            rules,
            header,
            footer,
        )
}

/// Every item of a prefix is processed just when the prefix is.
pub proof fn lemma_prefix_processed(
    before: Seq<BookNode>,
    after: Seq<BookNode>,
    rules: Seq<TagRule>,
    header: Seq<char>,
    footer: Seq<char>,
    k: int,
)
    requires
        0 <= k <= before.len(),
    ensures
        prefix_processed(before, after, rules, header, footer, k) <==> forall|i: int|
            0 <= i < k ==> #[trigger] node_processed(before[i], after[i], rules, header, footer),
    decreases k,
{
    if k > 0 {
        lemma_prefix_processed(before, after, rules, header, footer, k - 1);
        if prefix_processed(before, after, rules, header, footer, k) {
            assert forall|i: int| 0 <= i < k implies #[trigger] node_processed(
                before[i],
                after[i],
                rules,
                header,
                footer,
            ) by {
                if i < k - 1 {
                    assert(node_processed(before[i], after[i], rules, header, footer));
                }
            }
        }
        if forall|i: int|
            0 <= i < k ==> #[trigger] node_processed(before[i], after[i], rules, header, footer) {
            assert(node_processed(before[k - 1], after[k - 1], rules, header, footer));
            assert forall|i: int| 0 <= i < k - 1 implies #[trigger] node_processed(
                before[i],
                after[i],
                rules,
                header,
                footer,
            ) by {
                assert(node_processed(before[i], after[i], rules, header, footer));
            }
        }
    }
}

/// Rewrites and decorates the chapter in `node`, and those under it.
fn process_node(node: BookNode, rules: &Vec<TagRule>, header: &str, footer: &str) -> (r: BookNode)
    ensures
        node_processed(node, r, rules@, header@, footer@),
    decreases node,
{
    match node {
        BookNode::Chapter(ch) => {
            let ghost old_ch = ch;
            let Chapter { name, content, sub_items } = ch;
            let body = apply_rules(content.as_str(), rules);
            let text = concat3(header, body.as_str(), footer);
            let subs = process_items(sub_items, rules, header, footer);
            let r = BookNode::Chapter(Chapter { name, content: text, sub_items: subs });
            proof {
                lemma_prefix_processed(
                    old_ch.sub_items@,
                    subs@,
                    rules@,
                    header@,
                    footer@,
                    subs@.len() as int,
                );
            }
            r
        },
        BookNode::Separator => BookNode::Separator,
        BookNode::PartTitle(title) => BookNode::PartTitle(title),
    }
}

/// Processes each item of `items`, in order.
fn process_items(items: Vec<BookNode>, rules: &Vec<TagRule>, header: &str, footer: &str) -> (r: Vec<
    BookNode,
>)
    ensures
        items_processed(items@, r@, rules@, header@, footer@),
    decreases items,
{
    let ghost orig = items;
    let mut rest = items;
    let mut done: Vec<BookNode> = Vec::new();
    let n = rest.len();
    let mut k: usize = 0;
    while k < n
        invariant
            orig == items,
            n == orig@.len(),
            k <= n,
            rest@ == orig@.subrange(k as int, n as int),
            done@.len() == k,
            forall|i: int|
                0 <= i < k ==> #[trigger] node_processed(
                    orig@[i],
                    done@[i],
                    rules@,
                    header@,
                    footer@,
                ),
        decreases n - k,
    {
        let node = rest.remove(0);
        assert(node == orig@[k as int]);
        proof {
            assert(decreases_to!(orig => orig@));
            assert(decreases_to!(orig => node));
        }
        let out = process_node(node, rules, header, footer);
        done.push(out);
        k = k + 1;
        assert(rest@ =~= orig@.subrange(k as int, n as int));
    }
    done
}

/// Rewrites every chapter of `items`, at every depth, by `rules` in order,
/// and puts `header` before and `footer` after the text of each. All other
/// items are kept as they are.
pub fn process_chapters(items: &mut Vec<BookNode>, rules: &Vec<TagRule>, header: &str, footer: &str)
    ensures
        items_processed(old(items)@, final(items)@, rules@, header@, footer@),
{
    let mut taken: Vec<BookNode> = Vec::new();
    std::mem::swap(items, &mut taken);
    let done = process_items(taken, rules, header, footer);
    *items = done;
}

/// The header put before every chapter: the style sheet `css`.
pub fn style_header(css: &str) -> (r: String)
    ensures
        r@ == "<style>"@ + css@ + "</style>\n\n"@,
{
    concat3("<style>", css, "</style>\n\n")
}

/// The footer put after every chapter: the script `js`.
pub fn script_footer(js: &str) -> (r: String)
    ensures
        r@ == "\n\n<script>"@ + js@ + "</script>"@,
{
    concat3("\n\n<script>", js, "</script>")
}

/// The rule that keeps the region between `$name$` and `$name-end$`
/// verbatim, between the comments `<!--name-->` and `<!--name-end-->`.
pub fn named_comment_rule(name: &str) -> (r: TagRule)
    ensures
        r.start@ == start_tag(name@),
        r.end@ == end_tag(name@),
        r.policy matches Policy::CommentWrap { open, close } && open@ == start_comment(name@)
            && close@ == end_comment(name@),
{
    TagRule {
        start: concat3("$", name, "$"),
        end: concat3("$", name, "-end$"),
        policy: Policy::CommentWrap {
            open: concat3("<!--", name, "-->"),
            close: concat3("<!--", name, "-end-->"),
        },
    }
}

/// The rules of a presentation book, in the order they apply: web-only
/// regions, then slides-only regions, then speaker notes, which become a
/// `notes` comment.
pub fn presentation_rules() -> (r: Vec<TagRule>)
    ensures
        r@.len() == 3,
        r@[0].start@ == start_tag("web-only"@),
        r@[0].end@ == end_tag("web-only"@),
        r@[0].policy matches Policy::CommentWrap { open, close } && open@ == start_comment(
            "web-only"@,
        ) && close@ == end_comment("web-only"@),
        r@[1].start@ == start_tag("slides-only"@),
        r@[1].end@ == end_tag("slides-only"@),
        r@[1].policy matches Policy::CommentWrap { open, close } && open@ == start_comment(
            "slides-only"@,
        ) && close@ == end_comment("slides-only"@),
        r@[2].start@ == "$notes$"@,
        r@[2].end@ == "$notes-end$"@,
        r@[2].policy matches Policy::CommentWrap { open, close } && open@ == "\n<!--notes"@
            && close@ == "-->"@,
{
    let mut r: Vec<TagRule> = Vec::new();
    r.push(named_comment_rule("web-only"));
    r.push(named_comment_rule("slides-only"));
    r.push(
        TagRule {
            start: "$notes$".to_owned(),
            end: "$notes-end$".to_owned(),
            policy: Policy::CommentWrap { open: "\n<!--notes".to_owned(), close: "-->".to_owned() },
        },
    );
    r
}

/// Whether this preprocessor serves the renderer named `renderer`: only
/// `html` is served.
pub fn supports_renderer(renderer: &str) -> (r: bool)
    ensures
        r == (renderer@ == "html"@),
{
    crate::scan::same_text(renderer, "html")
}

} // verus!
