//! Locating elements of one tag name in generated HTML.
//!
//! This is a scanner, not a validating parser: it finds where an element of a
//! given name opens and where it closes, and leaves everything else alone.

use vstd::prelude::*;
use crate::text::{
    find_char, first_index_of, has_suffix, lemma_first_index_of, lemma_skip_leading, matches_at,
    only, skip_char, skip_char_back, skip_leading, skip_trailing, slice_of, string_of_range,
};

verus! {

/// The quote that is open after reading `c`, given the quote open before it.
pub open spec fn quote_after(quote: Option<char>, c: char) -> Option<char> {
    if c == '"' || c == '\'' {
        match quote {
            Some(q) => if q == c { None } else { quote },
            None => Some(c),
        }
    } else {
        quote
    }
}

/// Position of the `>` that ends the tag being read at `j`, where `quote` is
/// the quote open at `j`: the first `>` outside quotes. `None` when the text
/// ends first.
pub open spec fn tag_close_index(s: Seq<char>, j: int, quote: Option<char>) -> Option<int>
    decreases s.len() - j,
{
    if j < 0 || j >= s.len() {
        None
    } else if s[j] == '>' && quote is None {
        Some(j)
    } else {
        tag_close_index(s, j + 1, quote_after(quote, s[j]))
    }
}

/// Where the tag that opens at `k` ends (exclusive) when quotes are ignored:
/// just past the first `>` after `k`, or the end of the text.
pub open spec fn plain_tag_end(s: Seq<char>, k: int) -> int {
    let close = first_index_of(s, '>', k + 1);
    if close < s.len() { close + 1 } else { s.len() as int }
}

/// `</name>`.
pub open spec fn closing_tag(name: Seq<char>) -> Seq<char> {
    seq!['<', '/'] + name + seq!['>']
}

/// The tag text `t` opens an element called `name`: it is `<name>` or begins
/// with `<name` and a space.
pub open spec fn opens_element(t: Seq<char>, name: Seq<char>) -> bool {
    let n = name.len() as int;
    &&& t.len() >= n + 2
    &&& t[0] == '<'
    &&& t.subrange(1, n + 1) == name
    &&& (t[n + 1] == ' ' || (t[n + 1] == '>' && t.len() == n + 2))
}

/// The tag text `t` ends in `/>`.
pub open spec fn is_self_closing(t: Seq<char>) -> bool {
    has_suffix(t, seq!['/', '>'])
}

/// Scanning from `k` with `depth` elements of `name` open: where the closing
/// tag of the outermost one starts, and where it ends. Each further opening
/// of `name` must be closed first. Both are the end of the text when the
/// element is never closed.
pub open spec fn matching_close(s: Seq<char>, k: int, depth: nat, name: Seq<char>) -> (int, int)
    decreases s.len() - k,
{
    if k < 0 || k >= s.len() {
        (s.len() as int, s.len() as int)
    } else if s[k] != '<' {
        matching_close(s, k + 1, depth, name)
    } else {
        let e = plain_tag_end(s, k);
        let t = s.subrange(k, e);
        proof {
            lemma_first_index_of(s, '>', k + 1);
        }
        if t == closing_tag(name) {
            if depth <= 1 {
                (k, e)
            } else {
                matching_close(s, e, (depth - 1) as nat, name)
            }
        } else if opens_element(t, name) {
            matching_close(s, e, depth + 1, name)
        } else {
            matching_close(s, e, depth, name)
        }
    }
}

/// Where one element lies in a text, as character positions.
pub struct Span {
    /// The `<` of the opening tag.
    pub start: int,
    /// Just past the `>` of the opening tag.
    pub open_end: int,
    /// Where the inner markup ends and the closing tag starts.
    pub close_start: int,
    /// Just past the whole element.
    pub end: int,
}

/// The element of `name` whose opening tag starts at `i` and ends with the
/// `>` at `close`.
pub open spec fn span_at(s: Seq<char>, i: int, close: int, name: Seq<char>) -> Span {
    if is_self_closing(s.subrange(i, close + 1)) {
        Span { start: i, open_end: close + 1, close_start: close + 1, end: close + 1 }
    } else {
        let (close_start, end) = matching_close(s, close + 1, 1, name);
        Span { start: i, open_end: close + 1, close_start, end }
    }
}

/// The elements of `name` met by one left-to-right scan that starts at `i`.
/// A tag runs to its first `>` outside quotes; an element of `name` is
/// skipped as a whole, so elements nested in it are not listed.
pub open spec fn elements_from(s: Seq<char>, i: int, name: Seq<char>) -> Seq<Span>
    decreases s.len() - i,
{
    if i < 0 || i >= s.len() {
        Seq::empty()
    } else if s[i] != '<' {
        elements_from(s, i + 1, name)
    } else {
        match tag_close_index(s, i + 1, None) {
            None => Seq::empty(),
            Some(close) => {
                proof {
                    lemma_tag_close_index(s, i + 1, None);
                    lemma_matching_close(s, close + 1, 1, name);
                }
                if opens_element(s.subrange(i, close + 1), name) {
                    let span = span_at(s, i, close, name);
                    seq![span] + elements_from(s, span.end, name)
                } else {
                    elements_from(s, close + 1, name)
                }
            },
        }
    }
}

/// The top-level elements of `name` in `s`.
pub open spec fn elements_of(s: Seq<char>, name: Seq<char>) -> Seq<Span> {
    elements_from(s, 0, name)
}

/// A tag's closing `>` lies at or after the position scanned from, inside the text.
pub proof fn lemma_tag_close_index(s: Seq<char>, j: int, quote: Option<char>)
    ensures
        tag_close_index(s, j, quote) matches Some(close) ==> j <= close < s.len() && s[close]
            == '>',
    decreases s.len() - j,
{
    if 0 <= j < s.len() && !(s[j] == '>' && quote is None) {
        lemma_tag_close_index(s, j + 1, quote_after(quote, s[j]));
    }
}

/// A tag read without regard to quotes is not empty and ends inside the text.
pub proof fn lemma_plain_tag_end(s: Seq<char>, k: int)
    requires
        0 <= k < s.len(),
    ensures
        k < plain_tag_end(s, k) <= s.len(),
{
    lemma_first_index_of(s, '>', k + 1);
}

/// The closing tag that `matching_close` finds lies at or after the position
/// scanned from, inside the text.
pub proof fn lemma_matching_close(s: Seq<char>, k: int, depth: nat, name: Seq<char>)
    requires
        0 <= k <= s.len(),
    ensures
        k <= matching_close(s, k, depth, name).0 <= matching_close(s, k, depth, name).1 <= s.len(),
    decreases s.len() - k,
{
    if k < s.len() {
        if s[k] != '<' {
            lemma_matching_close(s, k + 1, depth, name);
        } else {
            let e = plain_tag_end(s, k);
            lemma_plain_tag_end(s, k);
            let t = s.subrange(k, e);
            if t == closing_tag(name) {
                if depth > 1 {
                    lemma_matching_close(s, e, (depth - 1) as nat, name);
                }
            } else if opens_element(t, name) {
                lemma_matching_close(s, e, depth + 1, name);
            } else {
                lemma_matching_close(s, e, depth, name);
            }
        }
    }
}

/// The spans are in order, do not overlap, and lie inside a text of `len`
/// characters from position `from` on.
pub open spec fn spans_in_order(spans: Seq<Span>, from: int, len: int) -> bool {
    &&& 0 <= from <= len
    &&& forall|i: int|
        0 <= i < spans.len() ==> {
            &&& from <= (#[trigger] spans[i]).start < spans[i].open_end <= spans[i].close_start
                <= spans[i].end <= len
        }
    &&& forall|i: int, j: int|
        0 <= i < j < spans.len() ==> (#[trigger] spans[i]).end <= (#[trigger] spans[j]).start
}

/// One element found by a scan lies inside the text, after its start.
pub proof fn lemma_span_at(s: Seq<char>, i: int, close: int, name: Seq<char>)
    requires
        0 <= i < close < s.len(),
    ensures
        ({
            let span = span_at(s, i, close, name);
            span.start == i && span.open_end == close + 1 && close + 1 <= span.close_start
                <= span.end <= s.len()
        }),
{
    lemma_matching_close(s, close + 1, 1, name);
}

/// The elements that a scan lists are in order, do not overlap and lie
/// inside the text.
pub proof fn lemma_elements_in_order(s: Seq<char>, i: int, name: Seq<char>)
    requires
        0 <= i <= s.len(),
    ensures
        spans_in_order(elements_from(s, i, name), i, s.len() as int),
    decreases s.len() - i,
{
    if i < s.len() {
        if s[i] != '<' {
            lemma_elements_in_order(s, i + 1, name);
        } else {
            match tag_close_index(s, i + 1, None) {
                None => {},
                Some(close) => {
                    lemma_tag_close_index(s, i + 1, None);
                    if opens_element(s.subrange(i, close + 1), name) {
                        let span = span_at(s, i, close, name);
                        lemma_span_at(s, i, close, name);
                        lemma_elements_in_order(s, span.end, name);
                        let rest = elements_from(s, span.end, name);
                        let all = seq![span] + rest;
                        assert forall|a: int| 0 <= a < all.len() implies {
                            &&& i <= (#[trigger] all[a]).start < all[a].open_end
                                <= all[a].close_start <= all[a].end <= s.len()
                        } by {
                            if a > 0 {
                                assert(all[a] == rest[a - 1]);
                            }
                        }
                        assert forall|a: int, b: int| 0 <= a < b < all.len() implies (
                        #[trigger] all[a]).end <= (#[trigger] all[b]).start by {
                            assert(all[b] == rest[b - 1]);
                            if a > 0 {
                                assert(all[a] == rest[a - 1]);
                            }
                        }
                    } else {
                        lemma_elements_in_order(s, close + 1, name);
                    }
                },
            }
        }
    }
}

/// Where one element lies in a text held as a vector of characters.
#[derive(Clone, Copy, Debug, PartialEq, Eq)]
pub struct ElementSpan {
    /// The `<` of the opening tag.
    pub start: usize,
    /// Just past the `>` of the opening tag.
    pub open_end: usize,
    /// Where the inner markup ends and the closing tag starts.
    pub close_start: usize,
    /// Just past the whole element.
    pub end: usize,
}

impl View for ElementSpan {
    type V = Span;

    open spec fn view(&self) -> Span {
        Span {
            start: self.start as int,
            open_end: self.open_end as int,
            close_start: self.close_start as int,
            end: self.end as int,
        }
    }
}

/// The spans that a vector of element positions stands for.
pub open spec fn spans_view(v: Seq<ElementSpan>) -> Seq<Span> {
    v.map_values(|e: ElementSpan| e@)
}

/// Finds the `>` that ends the tag whose text starts before `from`, reading
/// from `from` with no quote open.
pub fn scan_tag_close(s: &Vec<char>, from: usize) -> (close: Option<usize>)
    ensures
        close matches Some(c) ==> tag_close_index(s@, from as int, None) == Some(c as int),
        close is None ==> tag_close_index(s@, from as int, None) is None,
{
    let mut j: usize = from;
    let mut quote: Option<char> = None;
    while j < s.len()
        invariant
            from <= j,
            tag_close_index(s@, from as int, None) == tag_close_index(s@, j as int, quote),
        decreases s.len() - j,
    {
        let c = s[j];
        if c == '>' && quote.is_none() {
            return Some(j);
        }
        if c == '"' || c == '\'' {
            quote = match quote {
                Some(q) => if q == c { None } else { quote },
                None => Some(c),
            };
        }
        j += 1;
    }
    None
}

/// Whether `s[start..end]` opens an element called `name`.
pub fn tag_opens(s: &Vec<char>, start: usize, end: usize, name: &Vec<char>) -> (opens: bool)
    requires
        start <= end <= s.len(),
    ensures
        opens == opens_element(s@.subrange(start as int, end as int), name@),
{
    let n = name.len();
    let width = end - start;
    if width < 2 || width - 2 < n {
        return false;
    }
    let ghost t = s@.subrange(start as int, end as int);
    assert(t.subrange(1, n + 1) == s@.subrange(start + 1, start + 1 + n));
    if s[start] != '<' {
        return false;
    }
    if !matches_at(s, start + 1, name) {
        return false;
    }
    let c = s[start + 1 + n];
    assert(c == t[n + 1]);
    c == ' ' || (c == '>' && width == n + 2)
}

/// Whether `s[start..end]` is exactly `</name>`.
pub fn tag_closes(s: &Vec<char>, start: usize, end: usize, name: &Vec<char>) -> (closes: bool)
    requires
        start <= end <= s.len(),
    ensures
        closes == (s@.subrange(start as int, end as int) == closing_tag(name@)),
{
    let n = name.len();
    let width = end - start;
    let ghost t = s@.subrange(start as int, end as int);
    let ghost want = closing_tag(name@);
    assert(want.len() == n + 3);
    if width < 3 || width - 3 != n {
        return false;
    }
    assert(want[0] == '<' && want[1] == '/' && want[n + 2] == '>');
    assert(want.subrange(2, n + 2) == name@);
    assert(t.subrange(2, n + 2) == s@.subrange(start + 2, start + 2 + n));
    if s[start] != '<' || s[start + 1] != '/' || s[start + 2 + n] != '>' {
        assert(t[0] == s@[start as int] && t[1] == s@[start + 1] && t[n + 2] == s@[start + 2 + n]);
        return false;
    }
    if !matches_at(s, start + 2, name) {
        return false;
    }
    assert(t =~= want) by {
        assert forall|i: int| 0 <= i < t.len() implies t[i] == want[i] by {
            if 2 <= i < n + 2 {
                assert(t[i] == t.subrange(2, n + 2)[i - 2]);
                assert(want[i] == want.subrange(2, n + 2)[i - 2]);
            }
        }
    }
    true
}

/// Whether `s[start..end]` ends in `/>`.
pub fn tag_self_closes(s: &Vec<char>, start: usize, end: usize) -> (closed: bool)
    requires
        start <= end <= s.len(),
    ensures
        closed == is_self_closing(s@.subrange(start as int, end as int)),
{
    let ghost t = s@.subrange(start as int, end as int);
    if end - start < 2 {
        return false;
    }
    assert(t.subrange(t.len() - 2, t.len() as int) =~= seq![s@[end - 2], s@[end - 1]]);
    let closed = s[end - 2] == '/' && s[end - 1] == '>';
    proof {
        if !closed {
            let two = t.subrange(t.len() - 2, t.len() as int);
            assert(two[0] == s@[end - 2] && two[1] == s@[end - 1]);
            assert(seq!['/', '>'][0] == '/' && seq!['/', '>'][1] == '>');
        }
    }
    closed
}

/// Finds the closing tag of the element of `name` whose inner markup starts
/// at `from`: where that tag starts and where it ends.
pub fn find_matching_close(s: &Vec<char>, from: usize, name: &Vec<char>) -> (found: (usize, usize))
    requires
        1 <= from <= s.len(),
    ensures
        (found.0 as int, found.1 as int) == matching_close(s@, from as int, 1, name@),
        from <= found.0 <= found.1 <= s.len(),
{
    let mut k: usize = from;
    let mut depth: usize = 1;
    proof {
        lemma_matching_close(s@, from as int, 1, name@);
    }
    while k < s.len()
        invariant
            from <= k <= s.len(),
            1 <= depth <= k,
            matching_close(s@, from as int, 1, name@) == matching_close(
                s@,
                k as int,
                depth as nat,
                name@,
            ),
        decreases s.len() - k,
    {
        if s[k] != '<' {
            k += 1;
        } else {
            let close = find_char(s, '>', k + 1);
            let e = if close < s.len() { close + 1 } else { s.len() };
            proof {
                lemma_plain_tag_end(s@, k as int);
            }
            if tag_closes(s, k, e, name) {
                if depth <= 1 {
                    return (k, e);
                }
                depth -= 1;
            } else if tag_opens(s, k, e, name) {
                depth += 1;
            }
            k = e;
        }
    }
    (k, k)
}

/// Lists the top-level elements of `name` in `s`, in order.
pub fn find_elements(s: &Vec<char>, name: &Vec<char>) -> (spans: Vec<ElementSpan>)
    ensures
        spans_view(spans@) == elements_of(s@, name@),
        spans_in_order(spans_view(spans@), 0, s@.len() as int),
{
    let mut spans: Vec<ElementSpan> = Vec::new();
    let mut i: usize = 0;
    assert(spans_view(spans@) + elements_from(s@, 0, name@) == elements_of(s@, name@));
    while i < s.len()
        invariant
            i <= s.len(),
            spans_view(spans@) + elements_from(s@, i as int, name@) == elements_of(s@, name@),
        decreases s.len() - i,
    {
        if s[i] != '<' {
            i += 1;
        } else {
            match scan_tag_close(s, i + 1) {
                None => {
                    assert(spans_view(spans@) + Seq::<Span>::empty() == spans_view(spans@));
                    i = s.len();
                },
                Some(close) => {
                    proof {
                        lemma_tag_close_index(s@, i + 1, None);
                    }
                    if tag_opens(s, i, close + 1, name) {
                        let span = if tag_self_closes(s, i, close + 1) {
                            ElementSpan {
                                start: i,
                                open_end: close + 1,
                                close_start: close + 1,
                                end: close + 1,
                            }
                        } else {
                            let (close_start, end) = find_matching_close(s, close + 1, name);
                            ElementSpan { start: i, open_end: close + 1, close_start, end }
                        };
                        assert(span@ == span_at(s@, i as int, close as int, name@));
                        let ghost before = spans_view(spans@);
                        spans.push(span);
                        assert(spans_view(spans@) == before + seq![span@]);
                        assert(before + (seq![span@] + elements_from(s@, span.end as int, name@))
                            == (before + seq![span@]) + elements_from(
                            s@,
                            span.end as int,
                            name@,
                        ));
                        i = span.end;
                    } else {
                        i = close + 1;
                    }
                },
            }
        }
    }
    proof {
        assert(spans_view(spans@) + Seq::<Span>::empty() == spans_view(spans@));
        lemma_elements_in_order(s@, 0, name@);
    }
    spans
}

/// What stands in the output for one element: the rendered text, or the
/// element's own markup when rendering gave nothing.
pub open spec fn replacement(s: Seq<char>, span: Span, outcome: Option<Seq<char>>) -> Seq<char> {
    match outcome {
        Some(rendered) => rendered,
        None => s.subrange(span.start, span.end),
    }
}

/// Where the text between elements resumes before the `k`-th span.
pub open spec fn resume_at(spans: Seq<Span>, k: int) -> int {
    if k <= 0 {
        0
    } else {
        spans[k - 1].end
    }
}

/// The output up to and including the first `k` elements: the text between
/// elements is copied, each element is replaced by its outcome.
pub open spec fn spliced_prefix(
    s: Seq<char>,
    spans: Seq<Span>,
    outcomes: Seq<Option<Seq<char>>>,
    k: int,
) -> Seq<char>
    decreases k,
{
    if k <= 0 {
        Seq::empty()
    } else {
        spliced_prefix(s, spans, outcomes, k - 1) + s.subrange(
            resume_at(spans, k - 1),
            spans[k - 1].start,
        ) + replacement(s, spans[k - 1], outcomes[k - 1])
    }
}

/// The text `s` with each element in `spans` replaced by its outcome.
pub open spec fn spliced(s: Seq<char>, spans: Seq<Span>, outcomes: Seq<Option<Seq<char>>>) -> Seq<
    char,
> {
    spliced_prefix(s, spans, outcomes, spans.len() as int) + s.subrange(
        resume_at(spans, spans.len() as int),
        s.len() as int,
    )
}

/// The outcomes that a vector of optional rendered texts stands for.
pub open spec fn outcomes_view(v: Seq<Option<Vec<char>>>) -> Seq<Option<Seq<char>>> {
    v.map_values(
        |o: Option<Vec<char>>|
            match o {
                Some(rendered) => Some(rendered@),
                None => None,
            },
    )
}

/// While no element has an outcome, the output so far is the input so far.
pub proof fn lemma_spliced_prefix_unchanged(
    s: Seq<char>,
    spans: Seq<Span>,
    outcomes: Seq<Option<Seq<char>>>,
    k: int,
)
    requires
        spans_in_order(spans, 0, s.len() as int),
        0 <= k <= spans.len(),
        forall|i: int| 0 <= i < k ==> outcomes[i] is None,
    ensures
        spliced_prefix(s, spans, outcomes, k) == s.subrange(0, resume_at(spans, k)),
    decreases k,
{
    if k > 0 {
        lemma_spliced_prefix_unchanged(s, spans, outcomes, k - 1);
        let a = resume_at(spans, k - 1);
        let span = spans[k - 1];
        if k > 1 {
            assert(spans[k - 2].end <= spans[k - 1].start);
        }
        assert(s.subrange(0, a) + s.subrange(a, span.start) + s.subrange(span.start, span.end)
            == s.subrange(0, span.end));
    }
}

/// Where no element is rendered, splicing gives back the input.
pub proof fn lemma_spliced_unchanged(
    s: Seq<char>,
    spans: Seq<Span>,
    outcomes: Seq<Option<Seq<char>>>,
)
    requires
        spans_in_order(spans, 0, s.len() as int),
        forall|i: int| 0 <= i < spans.len() ==> outcomes[i] is None,
    ensures
        spliced(s, spans, outcomes) == s,
{
    let n = spans.len() as int;
    lemma_spliced_prefix_unchanged(s, spans, outcomes, n);
    let a = resume_at(spans, n);
    assert(s.subrange(0, a) + s.subrange(a, s.len() as int) == s);
}

/// Replaces each element in `spans` by its outcome and copies the rest.
pub fn splice(s: &Vec<char>, spans: &Vec<ElementSpan>, outcomes: &Vec<Option<Vec<char>>>) -> (out:
    Vec<char>)
    requires
        spans_in_order(spans_view(spans@), 0, s@.len() as int),
        outcomes@.len() == spans@.len(),
    ensures
        out@ == spliced(s@, spans_view(spans@), outcomes_view(outcomes@)),
{
    let mut out: Vec<char> = Vec::new();
    let mut pos: usize = 0;
    let mut k: usize = 0;
    let ghost sp = spans_view(spans@);
    let ghost oc = outcomes_view(outcomes@);
    while k < spans.len()
        invariant
            k <= spans.len(),
            outcomes@.len() == spans@.len(),
            sp == spans_view(spans@),
            oc == outcomes_view(outcomes@),
            spans_in_order(sp, 0, s@.len() as int),
            pos == resume_at(sp, k as int),
            pos <= s.len(),
            out@ == spliced_prefix(s@, sp, oc, k as int),
        decreases spans.len() - k,
    {
        let span = spans[k];
        assert(sp[k as int] == span@);
        proof {
            if k > 0 {
                assert(sp[k - 1].end <= sp[k as int].start);
            }
        }
        crate::text::push_range(&mut out, s, pos, span.start);
        match &outcomes[k] {
            Some(rendered) => {
                assert(oc[k as int] == Some(rendered@));
                crate::text::push_all(&mut out, rendered);
            },
            None => {
                assert(oc[k as int] is None);
                crate::text::push_range(&mut out, s, span.start, span.end);
            },
        }
        pos = span.end;
        k += 1;
    }
    crate::text::push_range(&mut out, s, pos, s.len());
    out
}

/// The characters that may stand in an attribute's key: all but `=` and the
/// space.
pub open spec fn key_chars() -> spec_fn(char) -> bool {
    |x: char| x != '=' && x != ' '
}

/// The value given to an attribute that is written as a bare key.
pub open spec fn bare_value() -> Seq<char> {
    seq!['t', 'r', 'u', 'e']
}

/// The attributes written in `a` from position `i` on, in order: `key=value`
/// pairs with a value in double quotes, in single quotes or running to the
/// next space, and bare keys, which get the value `true`. Reading stops where
/// no key follows.
pub open spec fn attributes_from(a: Seq<char>, i: int) -> Seq<(Seq<char>, Seq<char>)>
    decreases a.len() - i,
{
    let key_start = skip_leading(a, only(' '), i);
    let key_end = skip_leading(a, key_chars(), key_start);
    let after_key = skip_leading(a, only(' '), key_end);
    let value_start = skip_leading(a, only(' '), after_key + 1);
    if i < 0 || i > a.len() || key_end <= key_start {
        Seq::empty()
    } else {
        proof {
            lemma_skip_leading(a, only(' '), i);
            lemma_skip_leading(a, key_chars(), key_start);
            lemma_skip_leading(a, only(' '), key_end);
            if after_key < a.len() {
                lemma_skip_leading(a, only(' '), after_key + 1);
            }
        }
        let key = a.subrange(key_start, key_end);
        if after_key >= a.len() || a[after_key] != '=' {
            seq![(key, bare_value())] + attributes_from(a, after_key)
        } else if value_start >= a.len() {
            seq![(key, Seq::empty())]
        } else if a[value_start] == '"' || a[value_start] == '\'' {
            let value_end = first_index_of(a, a[value_start], value_start + 1);
            let next = if value_end < a.len() { value_end + 1 } else { a.len() as int };
            proof {
                lemma_first_index_of(a, a[value_start], value_start + 1);
            }
            seq![(key, a.subrange(value_start + 1, value_end))] + attributes_from(a, next)
        } else {
            let value_end = first_index_of(a, ' ', value_start);
            proof {
                lemma_first_index_of(a, ' ', value_start);
            }
            seq![(key, a.subrange(value_start, value_end))] + attributes_from(a, value_end)
        }
    }
}

/// The tag text `t` without the `<` at its start, the `>` at its end and
/// the `/` before those.
pub open spec fn tag_body(t: Seq<char>) -> Seq<char> {
    let a = skip_leading(t, only('<'), 0);
    let b = skip_trailing(t, only('>'), t.len() as int, a);
    let c = skip_trailing(t, only('/'), b, a);
    t.subrange(a, c)
}

/// The attributes of the opening tag `t`: what follows the first space of
/// its body, read as attributes.
pub open spec fn attributes_of(t: Seq<char>) -> Seq<(Seq<char>, Seq<char>)> {
    let body = tag_body(t);
    let space = first_index_of(body, ' ', 0);
    if space >= body.len() {
        Seq::empty()
    } else {
        attributes_from(body.subrange(space + 1, body.len() as int), 0)
    }
}

/// The pairs of texts that a vector of pairs of strings stands for.
pub open spec fn pairs_view(v: Seq<(String, String)>) -> Seq<(Seq<char>, Seq<char>)> {
    v.map_values(|p: (String, String)| (p.0@, p.1@))
}

/// First position at or after `from` that holds `=` or a space.
fn skip_key(a: &Vec<char>, from: usize) -> (at: usize)
    requires
        from <= a.len(),
    ensures
        at == skip_leading(a@, key_chars(), from as int),
        from <= at <= a.len(),
{
    let mut k: usize = from;
    while k < a.len() && a[k] != '=' && a[k] != ' '
        invariant
            from <= k <= a.len(),
            skip_leading(a@, key_chars(), from as int) == skip_leading(a@, key_chars(), k as int),
        decreases a.len() - k,
    {
        k += 1;
    }
    k
}

/// Reads the attributes written in `a`.
pub fn parse_attributes(a: &Vec<char>) -> (attrs: Vec<(String, String)>)
    ensures
        pairs_view(attrs@) == attributes_from(a@, 0),
{
    let mut attrs: Vec<(String, String)> = Vec::new();
    let mut i: usize = 0;
    assert(pairs_view(attrs@) + attributes_from(a@, 0) == attributes_from(a@, 0));
    loop
        invariant
            i <= a.len(),
            pairs_view(attrs@) + attributes_from(a@, i as int) == attributes_from(a@, 0),
        decreases a.len() - i,
    {
        let ghost before = pairs_view(attrs@);
        let key_start = skip_char(a, ' ', i);
        let key_end = skip_key(a, key_start);
        if key_end <= key_start {
            assert(before + Seq::<(Seq<char>, Seq<char>)>::empty() == before);
            return attrs;
        }
        let key = string_of_range(a, key_start, key_end);
        let after_key = skip_char(a, ' ', key_end);
        if after_key >= a.len() || a[after_key] != '=' {
            let mut value = String::new();
            value.push('t');
            value.push('r');
            value.push('u');
            value.push('e');
            assert(value@ == bare_value());
            attrs.push((key, value));
            assert(pairs_view(attrs@) == before + seq![(key@, bare_value())]);
            assert(before + (seq![(key@, bare_value())] + attributes_from(a@, after_key as int))
                == (before + seq![(key@, bare_value())]) + attributes_from(a@, after_key as int));
            i = after_key;
        } else {
            let value_start = skip_char(a, ' ', after_key + 1);
            if value_start >= a.len() {
                let value = String::new();
                attrs.push((key, value));
                assert(pairs_view(attrs@) == before + seq![(key@, Seq::<char>::empty())]);
                return attrs;
            }
            let quote = a[value_start];
            if quote == '"' || quote == '\'' {
                let value_end = find_char(a, quote, value_start + 1);
                let value = string_of_range(a, value_start + 1, value_end);
                let next = if value_end < a.len() { value_end + 1 } else { a.len() };
                attrs.push((key, value));
                assert(pairs_view(attrs@) == before + seq![(key@, value@)]);
                assert(before + (seq![(key@, value@)] + attributes_from(a@, next as int)) == (
                before + seq![(key@, value@)]) + attributes_from(a@, next as int));
                i = next;
            } else {
                let value_end = find_char(a, ' ', value_start);
                let value = string_of_range(a, value_start, value_end);
                attrs.push((key, value));
                assert(pairs_view(attrs@) == before + seq![(key@, value@)]);
                assert(before + (seq![(key@, value@)] + attributes_from(a@, value_end as int))
                    == (before + seq![(key@, value@)]) + attributes_from(a@, value_end as int));
                i = value_end;
            }
        }
    }
}

/// Reads the attributes of the opening tag `t`.
pub fn tag_attributes(t: &Vec<char>) -> (attrs: Vec<(String, String)>)
    ensures
        pairs_view(attrs@) == attributes_of(t@),
{
    let a = skip_char(t, '<', 0);
    let b = skip_char_back(t, '>', t.len(), a);
    let c = skip_char_back(t, '/', b, a);
    let body = slice_of(t, a, c);
    let space = find_char(&body, ' ', 0);
    if space >= body.len() {
        return Vec::new();
    }
    let written = slice_of(&body, space + 1, body.len());
    parse_attributes(&written)
}

} // verus!
