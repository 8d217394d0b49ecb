//! Finding marker occurrences in a text, pairing them into spans, and
//! splicing replacements into the text in place of those spans.
use vstd::prelude::*;

verus! {

/// `pat` stands in `text` at position `i`.
pub open spec fn occurs_at(text: Seq<char>, pat: Seq<char>, i: int) -> bool {
    &&& 0 <= i
    &&& i + pat.len() <= text.len()
    &&& text.subrange(i, i + pat.len()) == pat
}

/// The positions of the non-overlapping occurrences of `pat` in `text` at or
/// after `from`, found left to right. An empty pattern occurs nowhere.
pub open spec fn occurrences_from(text: Seq<char>, pat: Seq<char>, from: int) -> Seq<int>
    decreases text.len() - from,
{
    if pat.len() == 0 || from < 0 || from + pat.len() > text.len() {
        Seq::empty()
    } else if occurs_at(text, pat, from) {
        seq![from] + occurrences_from(text, pat, from + pat.len())
    } else {
        occurrences_from(text, pat, from + 1)
    }
}

/// The positions of the non-overlapping occurrences of `pat` in `text`.
pub open spec fn occurrences(text: Seq<char>, pat: Seq<char>) -> Seq<int> {
    occurrences_from(text, pat, 0)
}

/// Positions held as machine integers, seen as mathematical ones.
pub open spec fn positions(v: Seq<usize>) -> Seq<int> {
    v.map_values(|i: usize| i as int)
}

/// Every position listed from `from` on is a true occurrence, at or after
/// `from`, and each one lies past the end of the one before.
pub proof fn lemma_occurrences_from_sound(text: Seq<char>, pat: Seq<char>, from: int)
    ensures
        forall|k: int|
            0 <= k < occurrences_from(text, pat, from).len() ==> {
                &&& occurs_at(text, pat, #[trigger] occurrences_from(text, pat, from)[k])
                &&& from <= occurrences_from(text, pat, from)[k]
            },
        forall|k: int|
            0 < k < occurrences_from(text, pat, from).len() ==> occurrences_from(text, pat, from)[k
                - 1] + pat.len() <= #[trigger] occurrences_from(text, pat, from)[k],
    decreases text.len() - from,
{
    let occ = occurrences_from(text, pat, from);
    if pat.len() == 0 || from < 0 || from + pat.len() > text.len() {
    } else if occurs_at(text, pat, from) {
        lemma_occurrences_from_sound(text, pat, from + pat.len());
        let rest = occurrences_from(text, pat, from + pat.len());
        assert(occ == seq![from] + rest);
        assert forall|k: int| 0 <= k < occ.len() implies occurs_at(text, pat, #[trigger] occ[k])
            && from <= occ[k] by {
            if k > 0 {
                assert(occ[k] == rest[k - 1]);
            }
        }
        assert forall|k: int| 0 < k < occ.len() implies occ[k - 1] + pat.len() <= #[trigger] occ[k] by {
            if k > 1 {
                assert(occ[k - 1] == rest[k - 2]);
            }
            assert(occ[k] == rest[k - 1]);
        }
    } else {
        lemma_occurrences_from_sound(text, pat, from + 1);
        assert(occ == occurrences_from(text, pat, from + 1));
    }
}

/// Copies the characters of `s` into a vector.
pub fn chars_of(s: &str) -> (r: Vec<char>)
    ensures
        r@ == s@,
{
    let n = s.unicode_len();
    let mut r: Vec<char> = Vec::new();
    let mut i: usize = 0;
    while i < n
        invariant
            n == s@.len(),
            i <= n,
            r@ == s@.subrange(0, i as int),
        decreases n - i,
    {
        r.push(s.get_char(i));
        i = i + 1;
    }
    assert(r@ == s@);
    r
}

/// Whether `pat` stands in `text` at position `i`.
fn matches_at(text: &Vec<char>, pat: &Vec<char>, i: usize) -> (r: bool)
    requires
        i + pat@.len() <= text@.len(),
    ensures
        r == occurs_at(text@, pat@, i as int),
{
    let n = text.len();
    let m = pat.len();
    let mut j: usize = 0;
    while j < m
        invariant
            n == text@.len(),
            m == pat@.len(),
            i + m <= text@.len(),
            j <= m,
            forall|jj: int| 0 <= jj < j ==> text@[i + jj] == pat@[jj],
        decreases m - j,
    {
        assert(i + j < text@.len());
        if text[i + j] != pat[j] {
            assert(text@.subrange(i as int, i + m)[j as int] != pat@[j as int]);
            return false;
        }
        j = j + 1;
    }
    assert(text@.subrange(i as int, i + m) =~= pat@);
    true
}

/// The positions of the non-overlapping occurrences of `pat` in `text`,
/// left to right.
pub fn find_occurrences(text: &Vec<char>, pat: &Vec<char>) -> (r: Vec<usize>)
    ensures
        positions(r@) == occurrences(text@, pat@),
{
    let n = text.len();
    let m = pat.len();
    let mut r: Vec<usize> = Vec::new();
    if m == 0 {
        assert(positions(r@) =~= Seq::<int>::empty());
        return r;
    }
    let mut i: usize = 0;
    while i <= n && m <= n - i
        invariant
            n == text@.len(),
            m == pat@.len(),
            m > 0,
            positions(r@) + occurrences_from(text@, pat@, i as int) == occurrences(text@, pat@),
        decreases n - i,
    {
        let ghost before = r@;
        if matches_at(text, pat, i) {
            r.push(i);
            assert(positions(r@) =~= positions(before) + seq![i as int]);
            assert(occurrences_from(text@, pat@, i as int) == seq![i as int] + occurrences_from(
                text@,
                pat@,
                i + m,
            ));
            assert(positions(r@) + occurrences_from(text@, pat@, i + m) =~= positions(before)
                + occurrences_from(text@, pat@, i as int));
            i = i + m;
        } else {
            i = i + 1;
        }
    }
    assert(occurrences_from(text@, pat@, i as int) == Seq::<int>::empty());
    assert(positions(r@) =~= positions(r@) + Seq::<int>::empty());
    r
}

/// Spans held as machine integers, seen as mathematical ones.
pub open spec fn span_positions(v: Seq<(usize, usize)>) -> Seq<(int, int)> {
    v.map_values(|p: (usize, usize)| (p.0 as int, p.1 as int))
}

/// Where the text that follows the first `k` spans begins. A span `(s, e)`
/// has its start marker at `s` and its end marker at `e`.
pub open spec fn cursor_at(spans: Seq<(int, int)>, end_len: int, k: int) -> int {
    if k <= 0 {
        0
    } else {
        spans[k - 1].1 + end_len
    }
}

/// The spans made by the first `k` pairs of the `k`-th start occurrence with
/// the `k`-th end occurrence. A pair is kept only where its start marker lies
/// after the last kept span and its end marker after its start marker; any
/// other pair is left as it stands.
pub open spec fn select_spans(
    starts: Seq<int>,
    ends: Seq<int>,
    start_len: int,
    end_len: int,
    k: int,
) -> Seq<(int, int)>
    decreases k,
{
    if k <= 0 {
        Seq::empty()
    } else {
        let prev = select_spans(starts, ends, start_len, end_len, k - 1);
        let s = starts[k - 1];
        let e = ends[k - 1];
        if cursor_at(prev, end_len, prev.len() as int) <= s && s + start_len <= e {
            prev.push((s, e))
        } else {
            prev
        }
    }
}

/// How many pairs two lists of occurrences make: the shorter list's length.
pub open spec fn pair_count(starts: Seq<int>, ends: Seq<int>) -> int {
    if starts.len() < ends.len() {
        starts.len() as int
    } else {
        ends.len() as int
    }
}

/// The tagged regions of `text` between the markers `start` and `end`.
pub open spec fn spans_of(text: Seq<char>, start: Seq<char>, end: Seq<char>) -> Seq<(int, int)> {
    let starts = occurrences(text, start);
    let ends = occurrences(text, end);
    select_spans(starts, ends, start.len() as int, end.len() as int, pair_count(starts, ends))
}

/// The spans lie in order inside a text of length `text_len`, none
/// overlapping the one before, each end marker after its start marker.
pub open spec fn spans_well_placed(
    text_len: int,
    spans: Seq<(int, int)>,
    start_len: int,
    end_len: int,
) -> bool {
    forall|k: int|
        0 <= k < spans.len() ==> {
            &&& cursor_at(spans, end_len, k) <= #[trigger] spans[k].0
            &&& spans[k].0 + start_len <= spans[k].1
            &&& spans[k].1 + end_len <= text_len
        }
}

/// The body of each span: the text strictly between its two markers.
pub open spec fn bodies_of(text: Seq<char>, spans: Seq<(int, int)>, start_len: int) -> Seq<
    Seq<char>,
> {
    Seq::new(spans.len(), |k: int| text.subrange(spans[k].0 + start_len, spans[k].1))
}

/// The text with the first `k` spans, markers included, replaced by
/// `reps`, up to the end of the `k`-th span.
pub open spec fn spliced_prefix(
    text: Seq<char>,
    spans: Seq<(int, int)>,
    end_len: int,
    reps: Seq<Seq<char>>,
    k: int,
) -> Seq<char>
    decreases k,
{
    if k <= 0 {
        Seq::empty()
    } else {
        spliced_prefix(text, spans, end_len, reps, k - 1) + text.subrange(
            cursor_at(spans, end_len, k - 1),
            spans[k - 1].0,
        ) + reps[k - 1]
    }
}

/// The text with every span, markers included, replaced by the matching
/// entry of `reps`, and all text outside the spans kept in order.
pub open spec fn splice(
    text: Seq<char>,
    spans: Seq<(int, int)>,
    end_len: int,
    reps: Seq<Seq<char>>,
) -> Seq<char> {
    spliced_prefix(text, spans, end_len, reps, spans.len() as int) + text.subrange(
        cursor_at(spans, end_len, spans.len() as int),
        text.len() as int,
    )
}

/// The contents of a list of strings.
pub open spec fn texts_of(v: Seq<String>) -> Seq<Seq<char>> {
    v.map_values(|s: String| s@)
}

/// The tagged regions of `text` between the markers `start` and `end`.
pub fn find_spans(text: &Vec<char>, start: &Vec<char>, end: &Vec<char>) -> (r: Vec<(usize, usize)>)
    ensures
        span_positions(r@) == spans_of(text@, start@, end@),
        spans_well_placed(text@.len() as int, span_positions(r@), start@.len() as int, end@.len() as int),
{
    let starts = find_occurrences(text, start);
    let ends = find_occurrences(text, end);
    proof {
        lemma_occurrences_from_sound(text@, start@, 0);
        lemma_occurrences_from_sound(text@, end@, 0);
    }
    let ghost sp = positions(starts@);
    let ghost ep = positions(ends@);
    let n = text.len();
    let ls = start.len();
    let le = end.len();
    let count = if starts.len() < ends.len() {
        starts.len()
    } else {
        ends.len()
    };
    let mut r: Vec<(usize, usize)> = Vec::new();
    let mut cursor: usize = 0;
    let mut k: usize = 0;
    while k < count
        invariant
            n == text@.len(),
            ls == start@.len(),
            le == end@.len(),
            sp == positions(starts@),
            ep == positions(ends@),
            sp == occurrences(text@, start@),
            ep == occurrences(text@, end@),
            count as int == pair_count(sp, ep),
            count <= starts@.len(),
            count <= ends@.len(),
            forall|j: int| 0 <= j < sp.len() ==> occurs_at(text@, start@, #[trigger] sp[j]),
            forall|j: int| 0 <= j < ep.len() ==> occurs_at(text@, end@, #[trigger] ep[j]),
            k <= count,
            span_positions(r@) == select_spans(sp, ep, ls as int, le as int, k as int),
            cursor as int == cursor_at(span_positions(r@), le as int, r@.len() as int),
            spans_well_placed(n as int, span_positions(r@), ls as int, le as int),
        decreases count - k,
    {
        let s = starts[k];
        let e = ends[k];
        assert(sp[k as int] == s as int);
        assert(ep[k as int] == e as int);
        assert(occurs_at(text@, start@, sp[k as int]));
        assert(occurs_at(text@, end@, ep[k as int]));
        let ghost prev = span_positions(r@);
        if cursor <= s && s + ls <= e {
            r.push((s, e));
            assert(span_positions(r@) =~= prev.push((s as int, e as int)));
            cursor = e + le;
            assert forall|j: int| 0 <= j < span_positions(r@).len() implies {
                &&& cursor_at(span_positions(r@), le as int, j) <= #[trigger] span_positions(r@)[j].0
                &&& span_positions(r@)[j].0 + ls <= span_positions(r@)[j].1
                &&& span_positions(r@)[j].1 + le <= n
            } by {
                if j < prev.len() {
                    assert(span_positions(r@)[j] == prev[j]);
                    assert(cursor_at(span_positions(r@), le as int, j) == cursor_at(prev, le as int, j));
                }
            }
        }
        k = k + 1;
    }
    r
}

/// The text with every span replaced by the matching entry of `reps`.
pub fn splice_spans(
    text: &str,
    spans: &Vec<(usize, usize)>,
    start_len: usize,
    end_len: usize,
    reps: &Vec<String>,
) -> (r: String)
    requires
        reps@.len() == spans@.len(),
        spans_well_placed(text@.len() as int, span_positions(spans@), start_len as int, end_len as int),
    ensures
        r@ == splice(text@, span_positions(spans@), end_len as int, texts_of(reps@)),
{
    let ghost sv = span_positions(spans@);
    let ghost rv = texts_of(reps@);
    let n = text.unicode_len();
    let mut out = String::new();
    let mut cursor: usize = 0;
    let mut k: usize = 0;
    while k < spans.len()
        invariant
            n == text@.len(),
            sv == span_positions(spans@),
            rv == texts_of(reps@),
            reps@.len() == spans@.len(),
            spans_well_placed(n as int, sv, start_len as int, end_len as int),
            k <= spans@.len(),
            cursor as int == cursor_at(sv, end_len as int, k as int),
            cursor <= n,
            out@ == spliced_prefix(text@, sv, end_len as int, rv, k as int),
        decreases spans@.len() - k,
    {
        let (s, e) = spans[k];
        assert(sv[k as int] == (s as int, e as int));
        let piece = text.substring_char(cursor, s);
        out.append(piece);
        out.append(reps[k].as_str());
        assert(rv[k as int] == reps@[k as int]@);
        cursor = e + end_len;
        k = k + 1;
    }
    let tail = text.substring_char(cursor, n);
    out.append(tail);
    out
}

/// The body of each span, in order.
pub fn span_bodies(text: &str, spans: &Vec<(usize, usize)>, start_len: usize, end_len: usize) -> (r:
    Vec<String>)
    requires
        spans_well_placed(text@.len() as int, span_positions(spans@), start_len as int, end_len as int),
    ensures
        texts_of(r@) == bodies_of(text@, span_positions(spans@), start_len as int),
{
    let ghost sv = span_positions(spans@);
    let mut r: Vec<String> = Vec::new();
    let mut k: usize = 0;
    while k < spans.len()
        invariant
            sv == span_positions(spans@),
            spans_well_placed(text@.len() as int, sv, start_len as int, end_len as int),
            k <= spans@.len(),
            texts_of(r@) == bodies_of(text@, sv, start_len as int).take(k as int),
        decreases spans@.len() - k,
    {
        let (s, e) = spans[k];
        assert(sv[k as int] == (s as int, e as int));
        let body = text.substring_char(s + start_len, e);
        let ghost before = r@;
        let owned = body.to_owned();
        r.push(owned);
        assert(texts_of(r@) =~= texts_of(before).push(owned@));
        assert(texts_of(r@) =~= bodies_of(text@, sv, start_len as int).take(k + 1));
        k = k + 1;
    }
    assert(bodies_of(text@, sv, start_len as int).take(k as int) =~= bodies_of(text@, sv, start_len as int));
    r
}

/// Whether `a` and `b` hold the same characters.
pub fn same_text(a: &str, b: &str) -> (r: bool)
    ensures
        r == (a@ == b@),
{
    let n = a.unicode_len();
    if n != b.unicode_len() {
        return false;
    }
    let mut i: usize = 0;
    while i < n
        invariant
            n == a@.len(),
            n == b@.len(),
            i <= n,
            forall|j: int| 0 <= j < i ==> a@[j] == b@[j],
        decreases n - i,
    {
        if a.get_char(i) != b.get_char(i) {
            return false;
        }
        i = i + 1;
    }
    assert(a@ =~= b@);
    true
}

} // verus!
