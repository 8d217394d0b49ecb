//! What holds of every rule on whole classes of texts.
use vstd::prelude::*;

use crate::book::{
    chapter_text, items_processed, lemma_prefix_processed, node_processed, BookNode, Chapter,
};
use crate::rewrite::{policy_wrap, rule_result, TagRule};
use crate::scan::{occurrences, occurrences_from, occurs_at, select_spans, spliced_prefix};

verus! {

/// Where `pat` is not empty and occurs nowhere in `[from, to)`, the
/// occurrences listed from `from` are those listed from `to`.
proof fn lemma_occurrences_skip(text: Seq<char>, pat: Seq<char>, from: int, to: int)
    requires
        0 <= from <= to,
        pat.len() > 0,
        forall|i: int| from <= i < to ==> !occurs_at(text, pat, i),
    ensures
        occurrences_from(text, pat, from) == occurrences_from(text, pat, to),
    decreases to - from,
{
    if from < to && from + pat.len() <= text.len() {
        lemma_occurrences_skip(text, pat, from + 1, to);
    }
}

/// A pattern that occurs at exactly one position is listed there alone.
proof fn lemma_occurrences_single(text: Seq<char>, pat: Seq<char>, p: int)
    requires
        pat.len() > 0,
        forall|i: int| occurs_at(text, pat, i) <==> i == p,
    ensures
        occurrences(text, pat) == seq![p],
{
    assert(occurs_at(text, pat, p));
    lemma_occurrences_skip(text, pat, 0, p);
    lemma_occurrences_skip(text, pat, p + pat.len(), text.len() as int);
    assert(occurrences_from(text, pat, text.len() as int) == Seq::<int>::empty());
    assert(occurrences_from(text, pat, p) == seq![p] + occurrences_from(text, pat, p + pat.len()));
    assert(seq![p] + Seq::<int>::empty() =~= seq![p]);
}

/// A text in which the start marker of a rule occurs nowhere comes out of the
/// rule unchanged.
pub proof fn law_no_start_marker_unchanged(text: Seq<char>, rule: TagRule)
    requires
        forall|i: int| !occurs_at(text, rule.start@, i),
    ensures
        rule_result(text, rule) == text,
{
    let start = rule.start@;
    if start.len() > 0 {
        lemma_occurrences_skip(text, start, 0, text.len() as int);
    }
    assert(occurrences(text, start) == Seq::<int>::empty());
    assert(text.subrange(0, text.len() as int) =~= text);
    assert(Seq::<char>::empty() + text =~= text);
}

/// A text made of `pre`, the start marker, `body`, the end marker and `post`,
/// where each marker occurs only there, comes out as `pre`, the replacement
/// of `body`, and `post`.
pub proof fn law_single_region(pre: Seq<char>, body: Seq<char>, post: Seq<char>, rule: TagRule)
    requires
        rule.start@.len() > 0,
        forall|i: int|
            occurs_at(pre + rule.start@ + body + rule.end@ + post, rule.start@, i) <==> i
                == pre.len(),
        forall|i: int|
            occurs_at(pre + rule.start@ + body + rule.end@ + post, rule.end@, i) <==> i
                == pre.len() + rule.start@.len() + body.len(),
    ensures
        rule_result(pre + rule.start@ + body + rule.end@ + post, rule) == pre + policy_wrap(
            rule.policy,
        )(body) + post,
{
    let start = rule.start@;
    let end = rule.end@;
    let text = pre + start + body + end + post;
    let p = pre.len() as int;
    let e = p + start.len() + body.len();
    if end.len() == 0 {
        assert(text.subrange(0, 0) =~= end);
        assert(occurs_at(text, end, 0));
        assert(false);
    }
    lemma_occurrences_single(text, start, p);
    lemma_occurrences_single(text, end, e);
    let spans = select_spans(seq![p], seq![e], start.len() as int, end.len() as int, 1);
    assert(select_spans(seq![p], seq![e], start.len() as int, end.len() as int, 0)
        == Seq::<(int, int)>::empty());
    assert(spans == seq![(p, e)]);
    assert(text.subrange(0, p) =~= pre);
    assert(text.subrange(p + start.len(), e) =~= body);
    assert(text.subrange(e + end.len(), text.len() as int) =~= post);
    let reps = crate::scan::bodies_of(text, spans, start.len() as int).map_values(
        policy_wrap(rule.policy),
    );
    assert(reps[0] == policy_wrap(rule.policy)(body));
    assert(spliced_prefix(text, spans, end.len() as int, reps, 0) == Seq::<char>::empty());
    assert(spliced_prefix(text, spans, end.len() as int, reps, 1) =~= pre + policy_wrap(
        rule.policy,
    )(body));
}

/// The chapter reached from `items` by following `path`: the `path[0]`-th
/// item, then the `path[1]`-th item under it, and so on.
pub open spec fn chapter_at(items: Seq<BookNode>, path: Seq<int>) -> Option<Chapter>
    decreases path.len(),
{
    if path.len() == 0 {
        None
    } else {
        let i = path[0];
        if 0 <= i < items.len() {
            match items[i] {
                BookNode::Chapter(ch) => if path.len() == 1 {
                    Some(ch)
                } else {
                    chapter_at(ch.sub_items@, path.drop_first())
                },
                _ => None,
            }
        } else {
            None
        }
    }
}

/// Once a book is processed, every chapter in it, at every depth, stands
/// where it stood, under its own name, with its own text rewritten by the
/// rules and decorated.
pub proof fn law_every_chapter_processed(
    before: Seq<BookNode>,
    after: Seq<BookNode>,
    rules: Seq<TagRule>,
    header: Seq<char>,
    footer: Seq<char>,
    path: Seq<int>,
)
    requires
        items_processed(before, after, rules, header, footer),
        chapter_at(before, path) is Some,
    ensures
        chapter_at(after, path) is Some,
        chapter_at(after, path)->0.name@ == chapter_at(before, path)->0.name@,
        chapter_at(after, path)->0.content@ == chapter_text(
            chapter_at(before, path)->0.content@,
            rules,
            header,
            footer,
        ),
    decreases path.len(),
{
    let i = path[0];
    assert(node_processed(before[i], after[i], rules, header, footer));
    match before[i] {
        BookNode::Chapter(ch) => {
            let done = after[i]->Chapter_0;
            if path.len() > 1 {
                lemma_prefix_processed(
                    ch.sub_items@,
                    done.sub_items@,
                    rules,
                    header,
                    footer,
                    ch.sub_items@.len() as int,
                );
                law_every_chapter_processed(
                    ch.sub_items@,
                    done.sub_items@,
                    rules,
                    header,
                    footer,
                    path.drop_first(),
                );
            }
        },
        _ => {},
    }
}

} // verus!
