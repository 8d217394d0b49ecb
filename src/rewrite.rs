//! Tag rules and the rewriting of a text by one rule or by a pipeline of them.
use vstd::prelude::*;

use crate::scan::{
    bodies_of, chars_of, find_spans, span_bodies, spans_of, splice, splice_spans, texts_of,
};

verus! {

/// The HTML that mdbook renders from a markdown text.
pub uninterp spec fn markdown_html(text: Seq<char>) -> Seq<char>;

/// Relies on `mdbook::utils::render_markdown`, without smart punctuation:
/// the HTML it returns depends on the markdown text alone.
#[verifier::external_body]
fn render_markdown(text: &str) -> (r: String)
    ensures
        r@ == markdown_html(text@),
{
    mdbook::utils::render_markdown(text, false)
}

/// What becomes of the body of a tagged region.
pub enum Policy {
    /// The body is rendered as markdown inside `<div class="{class}">`.
    RenderBlock { class: String },
    /// The body is kept verbatim; its two markers become `open` and `close`.
    CommentWrap { open: String, close: String },
}

/// A start marker, an end marker, and what to do with the text between them.
pub struct TagRule {
    pub start: String,
    pub end: String,
    pub policy: Policy,
}

/// The opening of a rendered block of class `class`.
pub open spec fn block_open(class: Seq<char>) -> Seq<char> {
    "<div class=\""@ + class + "\">\n"@
}

/// The closing of a rendered block.
pub open spec fn block_close() -> Seq<char> {
    "</div>"@
}

/// A rendered block of class `class` around the HTML `html`.
pub open spec fn block_around(class: Seq<char>, html: Seq<char>) -> Seq<char> {
    block_open(class) + html + block_close()
}

/// Turns a body into a comment-wrapped region.
pub open spec fn comment_wrap(open: Seq<char>, close: Seq<char>) -> spec_fn(Seq<char>) -> Seq<
    char,
> {
    |body: Seq<char>| open + body + close
}

/// Turns a body into a rendered block of class `class`.
pub open spec fn block_wrap(class: Seq<char>) -> spec_fn(Seq<char>) -> Seq<char> {
    |body: Seq<char>| block_around(class, markdown_html(body))
}

/// How a policy turns a body into its replacement.
pub open spec fn policy_wrap(policy: Policy) -> spec_fn(Seq<char>) -> Seq<char> {
    match policy {
        Policy::RenderBlock { class } => block_wrap(class@),
        Policy::CommentWrap { open, close } => comment_wrap(open@, close@),
    }
}

/// `text` with every tagged region between `start` and `end`, markers
/// included, replaced by `wrap` of its body.
pub open spec fn rewritten(
    text: Seq<char>,
    start: Seq<char>,
    end: Seq<char>,
    wrap: spec_fn(Seq<char>) -> Seq<char>,
) -> Seq<char> {
    let spans = spans_of(text, start, end);
    splice(text, spans, end.len() as int, bodies_of(text, spans, start.len() as int).map_values(wrap))
}

/// `text` with every tagged region replaced by a rendered block around the
/// matching entry of `rendered`.
pub open spec fn blocks_assembled(
    text: Seq<char>,
    start: Seq<char>,
    end: Seq<char>,
    class: Seq<char>,
    rendered: Seq<Seq<char>>,
) -> Seq<char> {
    splice(
        text,
        spans_of(text, start, end),
        end.len() as int,
        rendered.map_values(|html: Seq<char>| block_around(class, html)),
    )
}

/// What one rule makes of `text`.
pub open spec fn rule_result(text: Seq<char>, rule: TagRule) -> Seq<char> {
    rewritten(text, rule.start@, rule.end@, policy_wrap(rule.policy))
}

/// What the rules make of `text`, each applied to the output of the one
/// before, in order.
pub open spec fn rules_result(text: Seq<char>, rules: Seq<TagRule>) -> Seq<char>
    decreases rules.len(),
{
    if rules.len() == 0 {
        text
    } else {
        rule_result(rules_result(text, rules.drop_last()), rules.last())
    }
}

/// The start marker of a named region: `$name$`.
pub open spec fn start_tag(name: Seq<char>) -> Seq<char> {
    "$"@ + name + "$"@
}

/// The end marker of a named region: `$name-end$`.
pub open spec fn end_tag(name: Seq<char>) -> Seq<char> {
    "$"@ + name + "-end$"@
}

/// The comment that takes the place of a named start marker.
pub open spec fn start_comment(name: Seq<char>) -> Seq<char> {
    "<!--"@ + name + "-->"@
}

/// The comment that takes the place of a named end marker.
pub open spec fn end_comment(name: Seq<char>) -> Seq<char> {
    "<!--"@ + name + "-end-->"@
}

/// `a`, `b` and `c` one after the other.
pub(crate) fn concat3(a: &str, b: &str, c: &str) -> (r: String)
    ensures
        r@ == a@ + b@ + c@,
{
    let mut r = a.to_owned();
    r.append(b);
    r.append(c);
    r
}

/// Each entry of `bodies` between `open` and `close`.
fn wrap_each(bodies: &Vec<String>, open: &str, close: &str) -> (r: Vec<String>)
    ensures
        texts_of(r@) == texts_of(bodies@).map_values(comment_wrap(open@, close@)),
{
    let mut r: Vec<String> = Vec::new();
    let mut k: usize = 0;
    while k < bodies.len()
        invariant
            k <= bodies@.len(),
            texts_of(r@) == texts_of(bodies@).map_values(comment_wrap(open@, close@)).take(
                k as int,
            ),
        decreases bodies@.len() - k,
    {
        let w = concat3(open, bodies[k].as_str(), close);
        let ghost before = r@;
        r.push(w);
        assert(texts_of(r@) =~= texts_of(before).push(w@));
        assert(texts_of(r@) =~= texts_of(bodies@).map_values(comment_wrap(open@, close@)).take(
            k + 1,
        ));
        k = k + 1;
    }
    assert(texts_of(bodies@).map_values(comment_wrap(open@, close@)).take(k as int)
        =~= texts_of(bodies@).map_values(comment_wrap(open@, close@)));
    r
}

/// `s` with every region between `pat1` and `pat2` kept verbatim and its two
/// markers replaced by `rep1` and `rep2`. The k-th `pat1` pairs with the
/// k-th `pat2`; a pair that does not enclose a region after the previous one
/// is left as it stands, and so is any marker without a partner.
pub fn replace_with_parts(s: &str, pat1: &str, rep1: &str, pat2: &str, rep2: &str) -> (r: String)
    ensures
        r@ == rewritten(s@, pat1@, pat2@, comment_wrap(rep1@, rep2@)),
{
    let text = chars_of(s);
    let start = chars_of(pat1);
    let end = chars_of(pat2);
    let spans = find_spans(&text, &start, &end);
    let bodies = span_bodies(s, &spans, start.len(), end.len());
    let reps = wrap_each(&bodies, rep1, rep2);
    assert(texts_of(bodies@).len() == bodies@.len());
    assert(texts_of(reps@).len() == reps@.len());
    splice_spans(s, &spans, start.len(), end.len(), &reps)
}

/// `s` with every region between `$name$` and `$name-end$` kept verbatim
/// between the comments `<!--name-->` and `<!--name-end-->`.
pub fn replace(s: &str, name: &str) -> (r: String)
    ensures
        r@ == rewritten(
            s@,
            start_tag(name@),
            end_tag(name@),
            comment_wrap(start_comment(name@), end_comment(name@)),
        ),
{
    let start_tag = concat3("$", name, "$");
    let start_comment = concat3("<!--", name, "-->");
    let end_tag = concat3("$", name, "-end$");
    let end_comment = concat3("<!--", name, "-end-->");
    replace_with_parts(
        s,
        start_tag.as_str(),
        start_comment.as_str(),
        end_tag.as_str(),
        end_comment.as_str(),
    )
}

/// The bodies of the regions of `s` between `start` and `end`, in order.
pub fn block_bodies(s: &str, start: &str, end: &str) -> (r: Vec<String>)
    ensures
        texts_of(r@) == bodies_of(s@, spans_of(s@, start@, end@), start@.len() as int),
{
    let text = chars_of(s);
    let sc = chars_of(start);
    let ec = chars_of(end);
    let spans = find_spans(&text, &sc, &ec);
    span_bodies(s, &spans, sc.len(), ec.len())
}

/// `s` with the k-th region between `start` and `end` replaced by a block of
/// class `class` around `rendered[k]`, the HTML made from its body.
pub fn assemble_blocks(s: &str, start: &str, end: &str, class: &str, rendered: &Vec<String>) -> (r:
    String)
    requires
        rendered@.len() == spans_of(s@, start@, end@).len(),
    ensures
        r@ == blocks_assembled(s@, start@, end@, class@, texts_of(rendered@)),
{
    let text = chars_of(s);
    let sc = chars_of(start);
    let ec = chars_of(end);
    let spans = find_spans(&text, &sc, &ec);
    let open = concat3("<div class=\"", class, "\">\n");
    let mut reps: Vec<String> = Vec::new();
    let mut k: usize = 0;
    while k < rendered.len()
        invariant
            open@ == block_open(class@),
            k <= rendered@.len(),
            texts_of(reps@) == texts_of(rendered@).map_values(
                |html: Seq<char>| block_around(class@, html),
            ).take(k as int),
        decreases rendered@.len() - k,
    {
        let w = concat3(open.as_str(), rendered[k].as_str(), "</div>");
        let ghost before = reps@;
        reps.push(w);
        assert(texts_of(reps@) =~= texts_of(before).push(w@));
        assert(texts_of(reps@) =~= texts_of(rendered@).map_values(
            |html: Seq<char>| block_around(class@, html),
        ).take(k + 1));
        k = k + 1;
    }
    assert(texts_of(rendered@).map_values(|html: Seq<char>| block_around(class@, html)).take(
        k as int,
    ) =~= texts_of(rendered@).map_values(|html: Seq<char>| block_around(class@, html)));
    assert(texts_of(reps@).len() == reps@.len());
    splice_spans(s, &spans, sc.len(), ec.len(), &reps)
}

/// Renders each markdown text to HTML.
fn render_each(bodies: &Vec<String>) -> (r: Vec<String>)
    ensures
        texts_of(r@) == texts_of(bodies@).map_values(|b: Seq<char>| markdown_html(b)),
{
    let mut r: Vec<String> = Vec::new();
    let mut k: usize = 0;
    while k < bodies.len()
        invariant
            k <= bodies@.len(),
            texts_of(r@) == texts_of(bodies@).map_values(|b: Seq<char>| markdown_html(b)).take(
                k as int,
            ),
        decreases bodies@.len() - k,
    {
        let html = render_markdown(bodies[k].as_str());
        let ghost before = r@;
        r.push(html);
        assert(texts_of(r@) =~= texts_of(before).push(html@));
        assert(texts_of(r@) =~= texts_of(bodies@).map_values(|b: Seq<char>| markdown_html(b)).take(
            k + 1,
        ));
        k = k + 1;
    }
    assert(texts_of(bodies@).map_values(|b: Seq<char>| markdown_html(b)).take(k as int)
        =~= texts_of(bodies@).map_values(|b: Seq<char>| markdown_html(b)));
    r
}

/// `s` with every region between `start` and `end` replaced by a block of
/// class `class` around the HTML rendered from its body.
pub fn render_block(s: &str, start: &str, end: &str, class: &str) -> (r: String)
    ensures
        r@ == rewritten(s@, start@, end@, block_wrap(class@)),
{
    let bodies = block_bodies(s, start, end);
    let rendered = render_each(&bodies);
    proof {
        lemma_blocks_render_every_body(s@, start@, end@, class@);
    }
    assemble_blocks(s, start, end, class, &rendered)
}

/// A rendered block holds the HTML of each body, one rendering per region.
pub proof fn lemma_blocks_render_every_body(
    text: Seq<char>,
    start: Seq<char>,
    end: Seq<char>,
    class: Seq<char>,
)
    ensures
        rewritten(text, start, end, block_wrap(class)) == blocks_assembled(
            text,
            start,
            end,
            class,
            bodies_of(text, spans_of(text, start, end), start.len() as int).map_values(
                |b: Seq<char>| markdown_html(b),
            ),
        ),
        bodies_of(text, spans_of(text, start, end), start.len() as int).len() == spans_of(
            text,
            start,
            end,
        ).len(),
{
    let spans = spans_of(text, start, end);
    let bodies = bodies_of(text, spans, start.len() as int);
    assert(bodies.map_values(block_wrap(class)) =~= bodies.map_values(
        |b: Seq<char>| markdown_html(b),
    ).map_values(|html: Seq<char>| block_around(class, html)));
}

/// What `rule` makes of `s`.
pub fn apply_rule(s: &str, rule: &TagRule) -> (r: String)
    ensures
        r@ == rule_result(s@, *rule),
{
    match &rule.policy {
        Policy::RenderBlock { class } => render_block(
            s,
            rule.start.as_str(),
            rule.end.as_str(),
            class.as_str(),
        ),
        Policy::CommentWrap { open, close } => replace_with_parts(
            s,
            rule.start.as_str(),
            open.as_str(),
            rule.end.as_str(),
            close.as_str(),
        ),
    }
}

/// What `rules` make of `s`: each rule rewrites the output of the one before.
pub fn apply_rules(s: &str, rules: &Vec<TagRule>) -> (r: String)
    ensures
        r@ == rules_result(s@, rules@),
{
    let mut cur = s.to_owned();
    let mut k: usize = 0;
    assert(rules@.take(0) =~= Seq::<TagRule>::empty());
    while k < rules.len()
        invariant
            k <= rules@.len(),
            cur@ == rules_result(s@, rules@.take(k as int)),
        decreases rules@.len() - k,
    {
        let next = apply_rule(cur.as_str(), &rules[k]);
        assert(rules@.take(k + 1).drop_last() =~= rules@.take(k as int));
        assert(rules@.take(k + 1).last() == rules@[k as int]);
        cur = next;
        k = k + 1;
    }
    assert(rules@.take(k as int) =~= rules@);
    cur
}

} // verus!
