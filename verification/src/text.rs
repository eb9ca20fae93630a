//! Character-level building blocks shared by the parsers and transformers.
//!
//! Text is modelled as `Seq<char>`. Executable code works on `Vec<char>`,
//! where a position is a character index, and converts at the edges.

use vstd::prelude::*;

verus! {

/// `String::push`: the character is appended to the text.
pub assume_specification[ String::push ](s: &mut String, ch: char)
    ensures
        final(s)@ == old(s)@.push(ch),
;

/// The characters of `s`, in order.
pub fn chars_of(s: &str) -> (out: Vec<char>)
    ensures
        out@ == s@,
{
    let mut out: Vec<char> = Vec::new();
    for c in iter: s.chars()
        invariant
            iter.seq() == s@,
            out@ == iter.seq().subrange(0, iter.index() as int),
    {
        out.push(c);
    }
    assert(out@ == s@);
    out
}

/// The text made of the characters of `chars`, in order.
pub fn string_of(chars: &Vec<char>) -> (out: String)
    ensures
        out@ == chars@,
{
    let mut out = String::new();
    let mut i: usize = 0;
    while i < chars.len()
        invariant
            i <= chars.len(),
            out@ == chars@.subrange(0, i as int),
        decreases chars.len() - i,
    {
        out.push(chars[i]);
        i += 1;
    }
    assert(out@ == chars@);
    out
}

/// Whether two texts hold the same characters.
pub fn str_eq(a: &str, b: &str) -> (same: bool)
    ensures
        same == (a@ == b@),
{
    let x = chars_of(a);
    let y = chars_of(b);
    chars_eq(&x, &y)
}

/// Whether two character vectors are equal.
pub fn chars_eq(a: &Vec<char>, b: &Vec<char>) -> (same: bool)
    ensures
        same == (a@ == b@),
{
    if a.len() != b.len() {
        return false;
    }
    let mut i: usize = 0;
    while i < a.len()
        invariant
            i <= a.len(),
            a.len() == b.len(),
            a@.subrange(0, i as int) == b@.subrange(0, i as int),
        decreases a.len() - i,
    {
        if a[i] != b[i] {
            return false;
        }
        assert(a@.subrange(0, i + 1) == a@.subrange(0, i as int).push(a@[i as int]));
        assert(b@.subrange(0, i + 1) == b@.subrange(0, i as int).push(b@[i as int]));
        i += 1;
    }
    assert(a@ == a@.subrange(0, a.len() as int));
    assert(b@ == b@.subrange(0, b.len() as int));
    true
}

/// `p` occurs in `s` at position `i`.
pub open spec fn occurs_at(s: Seq<char>, i: int, p: Seq<char>) -> bool {
    0 <= i && i + p.len() <= s.len() && s.subrange(i, i + p.len()) == p
}

/// `s` begins with `p`.
pub open spec fn has_prefix(s: Seq<char>, p: Seq<char>) -> bool {
    occurs_at(s, 0, p)
}

/// `s` ends with `p`.
pub open spec fn has_suffix(s: Seq<char>, p: Seq<char>) -> bool {
    occurs_at(s, s.len() - p.len(), p)
}

/// Whether `p` occurs in `s` at position `i`.
pub fn matches_at(s: &Vec<char>, i: usize, p: &Vec<char>) -> (found: bool)
    ensures
        found == occurs_at(s@, i as int, p@),
{
    if i > s.len() || p.len() > s.len() - i {
        return false;
    }
    let mut k: usize = 0;
    while k < p.len()
        invariant
            k <= p.len(),
            i + p.len() <= s.len(),
            s@.subrange(i as int, i + k) == p@.subrange(0, k as int),
        decreases p.len() - k,
    {
        if s[i + k] != p[k] {
            proof {
                if s@.subrange(i as int, i + p.len()) == p@ {
                    assert(s@.subrange(i as int, i + p.len())[k as int] == p@[k as int]);
                }
            }
            return false;
        }
        assert(s@.subrange(i as int, i + k + 1) == s@.subrange(i as int, i + k).push(
            s@[i + k],
        ));
        assert(p@.subrange(0, k + 1) == p@.subrange(0, k as int).push(p@[k as int]));
        k += 1;
    }
    assert(p@ == p@.subrange(0, p.len() as int));
    true
}

/// Whether `s` begins with `p`.
pub fn starts_with(s: &Vec<char>, p: &Vec<char>) -> (found: bool)
    ensures
        found == has_prefix(s@, p@),
{
    matches_at(s, 0, p)
}

/// Whether `s` ends with `p`.
pub fn ends_with(s: &Vec<char>, p: &Vec<char>) -> (found: bool)
    ensures
        found == has_suffix(s@, p@),
{
    if p.len() > s.len() {
        return false;
    }
    matches_at(s, s.len() - p.len(), p)
}

/// Position of the first `c` in `s` at or after `from`, or the length of `s`
/// when there is none.
pub open spec fn first_index_of(s: Seq<char>, c: char, from: int) -> int
    decreases s.len() - from,
{
    if from >= s.len() {
        s.len() as int
    } else if s[from] == c {
        from
    } else {
        first_index_of(s, c, from + 1)
    }
}

/// The position that `first_index_of` gives lies between `from` and the end,
/// holds `c` unless it is the end, and no earlier position from `from` holds `c`.
pub proof fn lemma_first_index_of(s: Seq<char>, c: char, from: int)
    requires
        0 <= from <= s.len(),
    ensures
        from <= first_index_of(s, c, from) <= s.len(),
        first_index_of(s, c, from) < s.len() ==> s[first_index_of(s, c, from)] == c,
        forall|k: int| from <= k < first_index_of(s, c, from) ==> s[k] != c,
    decreases s.len() - from,
{
    if from < s.len() && s[from] != c {
        lemma_first_index_of(s, c, from + 1);
    }
}

/// Position of the first `c` in `s` at or after `from`, or `s.len()`.
pub fn find_char(s: &Vec<char>, c: char, from: usize) -> (at: usize)
    requires
        from <= s.len(),
    ensures
        at == first_index_of(s@, c, from as int),
        from <= at <= s.len(),
{
    let mut k: usize = from;
    while k < s.len()
        invariant
            from <= k <= s.len(),
            first_index_of(s@, c, from as int) == first_index_of(s@, c, k as int),
        decreases s.len() - k,
    {
        if s[k] == c {
            return k;
        }
        k += 1;
    }
    k
}

/// Position of the first occurrence of `p` in `s` at or after `from`, if any.
pub open spec fn first_occurrence(s: Seq<char>, p: Seq<char>, from: int) -> Option<int>
    decreases s.len() - from,
{
    if from < 0 || from + p.len() > s.len() {
        None
    } else if occurs_at(s, from, p) {
        Some(from)
    } else if from >= s.len() {
        None
    } else {
        first_occurrence(s, p, from + 1)
    }
}

/// Position of the first occurrence of `p` in `s` at or after `from`, if any.
pub fn find_sub(s: &Vec<char>, p: &Vec<char>, from: usize) -> (at: Option<usize>)
    ensures
        at matches Some(i) ==> first_occurrence(s@, p@, from as int) == Some(i as int)
            && from <= i && occurs_at(s@, i as int, p@),
        at is None ==> first_occurrence(s@, p@, from as int) is None,
{
    if from > s.len() || p.len() > s.len() - from {
        return None;
    }
    let last: usize = s.len() - p.len();
    let mut k: usize = from;
    loop
        invariant
            from <= k <= last,
            last == s.len() - p.len(),
            first_occurrence(s@, p@, from as int) == first_occurrence(s@, p@, k as int),
        decreases last - k,
    {
        if matches_at(s, k, p) {
            return Some(k);
        }
        if k == last {
            assert(first_occurrence(s@, p@, k + 1) is None);
            return None;
        }
        k += 1;
    }
}

/// Position of the last occurrence of `p` in `s` that starts at or before
/// `upto`, if any.
pub open spec fn last_occurrence(s: Seq<char>, p: Seq<char>, upto: int) -> Option<int>
    decreases upto + 1,
{
    if upto < 0 {
        None
    } else if occurs_at(s, upto, p) {
        Some(upto)
    } else {
        last_occurrence(s, p, upto - 1)
    }
}

/// Position of the last occurrence of `p` in `s`, if any.
pub fn rfind_sub(s: &Vec<char>, p: &Vec<char>) -> (at: Option<usize>)
    ensures
        at matches Some(i) ==> last_occurrence(s@, p@, s@.len() as int) == Some(i as int)
            && occurs_at(s@, i as int, p@),
        at is None ==> last_occurrence(s@, p@, s@.len() as int) is None,
{
    let mut k: usize = s.len();
    loop
        invariant
            k <= s.len(),
            last_occurrence(s@, p@, s@.len() as int) == last_occurrence(s@, p@, k as int),
        decreases k,
    {
        if matches_at(s, k, p) {
            return Some(k);
        }
        if k == 0 {
            assert(last_occurrence(s@, p@, -1) is None);
            return None;
        }
        k -= 1;
    }
}

/// Appends `s[from..to]` to `out`.
pub fn push_range(out: &mut Vec<char>, s: &Vec<char>, from: usize, to: usize)
    requires
        from <= to <= s.len(),
    ensures
        final(out)@ == old(out)@ + s@.subrange(from as int, to as int),
{
    let mut k: usize = from;
    while k < to
        invariant
            from <= k <= to <= s.len(),
            out@ == old(out)@ + s@.subrange(from as int, k as int),
        decreases to - k,
    {
        out.push(s[k]);
        assert(s@.subrange(from as int, k + 1) == s@.subrange(from as int, k as int).push(
            s@[k as int],
        ));
        k += 1;
    }
}

/// The characters `s[from..to]` as a new vector.
pub fn slice_of(s: &Vec<char>, from: usize, to: usize) -> (out: Vec<char>)
    requires
        from <= to <= s.len(),
    ensures
        out@ == s@.subrange(from as int, to as int),
{
    let mut out: Vec<char> = Vec::new();
    push_range(&mut out, s, from, to);
    out
}

/// Appends all of `s` to `out`.
pub fn push_all(out: &mut Vec<char>, s: &Vec<char>)
    ensures
        final(out)@ == old(out)@ + s@,
{
    push_range(out, s, 0, s.len());
    assert(s@.subrange(0, s@.len() as int) == s@);
}

/// Appends the characters of `s` to `out`.
pub fn push_str(out: &mut Vec<char>, s: &str)
    ensures
        final(out)@ == old(out)@ + s@,
{
    let v = chars_of(s);
    push_all(out, &v);
}

/// Unicode white space, as `char::is_whitespace` has it.
pub open spec fn is_whitespace(c: char) -> bool {
    ||| '\u{9}' <= c <= '\u{d}'
    ||| c == ' '
    ||| c == '\u{85}'
    ||| c == '\u{a0}'
    ||| c == '\u{1680}'
    ||| '\u{2000}' <= c <= '\u{200a}'
    ||| c == '\u{2028}'
    ||| c == '\u{2029}'
    ||| c == '\u{202f}'
    ||| c == '\u{205f}'
    ||| c == '\u{3000}'
}

/// Whether `c` is Unicode white space.
pub fn char_is_whitespace(c: char) -> (white: bool)
    ensures
        white == is_whitespace(c),
{
    ('\u{9}' <= c && c <= '\u{d}') || c == ' ' || c == '\u{85}' || c == '\u{a0}' || c
        == '\u{1680}' || ('\u{2000}' <= c && c <= '\u{200a}') || c == '\u{2028}' || c
        == '\u{2029}' || c == '\u{202f}' || c == '\u{205f}' || c == '\u{3000}'
}

/// The characters equal to `c`.
pub open spec fn only(c: char) -> spec_fn(char) -> bool {
    |x: char| x == c
}

/// The white-space characters.
pub open spec fn white() -> spec_fn(char) -> bool {
    |x: char| is_whitespace(x)
}

/// First position at or after `from` whose character is not in `class`, or
/// the length of `s`.
pub open spec fn skip_leading(s: Seq<char>, class: spec_fn(char) -> bool, from: int) -> int
    decreases s.len() - from,
{
    if from < 0 || from >= s.len() {
        s.len() as int
    } else if !class(s[from]) {
        from
    } else {
        skip_leading(s, class, from + 1)
    }
}

/// Start of the run of `class` characters that ends at `upto`, not going
/// below `floor`.
pub open spec fn skip_trailing(s: Seq<char>, class: spec_fn(char) -> bool, upto: int, floor: int) -> int
    decreases upto - floor,
{
    if upto <= floor || upto > s.len() {
        floor
    } else if !class(s[upto - 1]) {
        upto
    } else {
        skip_trailing(s, class, upto - 1, floor)
    }
}

/// `skip_leading` stays between `from` and the end of the text.
pub proof fn lemma_skip_leading(s: Seq<char>, class: spec_fn(char) -> bool, from: int)
    requires
        0 <= from <= s.len(),
    ensures
        from <= skip_leading(s, class, from) <= s.len(),
        skip_leading(s, class, from) < s.len() ==> !class(s[skip_leading(s, class, from)]),
        forall|k: int| from <= k < skip_leading(s, class, from) ==> class(s[k]),
    decreases s.len() - from,
{
    if from < s.len() && class(s[from]) {
        lemma_skip_leading(s, class, from + 1);
    }
}

/// `skip_trailing` stays between `floor` and `upto`.
pub proof fn lemma_skip_trailing(s: Seq<char>, class: spec_fn(char) -> bool, upto: int, floor: int)
    requires
        0 <= floor <= upto <= s.len(),
    ensures
        floor <= skip_trailing(s, class, upto, floor) <= upto,
    decreases upto - floor,
{
    if upto > floor && class(s[upto - 1]) {
        lemma_skip_trailing(s, class, upto - 1, floor);
    }
}

/// `s` without the `class` characters at its start and at its end.
pub open spec fn trimmed_of(s: Seq<char>, class: spec_fn(char) -> bool) -> Seq<char> {
    let a = skip_leading(s, class, 0);
    let b = skip_trailing(s, class, s.len() as int, a);
    s.subrange(a, b)
}

/// `s` without leading and trailing white space.
pub open spec fn trimmed(s: Seq<char>) -> Seq<char> {
    trimmed_of(s, white())
}

/// `s` without the characters `c` at its start and at its end.
pub open spec fn trimmed_char(s: Seq<char>, c: char) -> Seq<char> {
    trimmed_of(s, only(c))
}

/// The bounds of `s` without surrounding white space.
pub fn trim_bounds(s: &Vec<char>) -> (bounds: (usize, usize))
    ensures
        bounds.0 <= bounds.1 <= s.len(),
        bounds.0 == skip_leading(s@, white(), 0),
        bounds.1 == skip_trailing(s@, white(), s@.len() as int, bounds.0 as int),
        s@.subrange(bounds.0 as int, bounds.1 as int) == trimmed(s@),
{
    let mut a: usize = 0;
    while a < s.len() && char_is_whitespace(s[a])
        invariant
            a <= s.len(),
            skip_leading(s@, white(), 0) == skip_leading(s@, white(), a as int),
        decreases s.len() - a,
    {
        a += 1;
    }
    let mut b: usize = s.len();
    while b > a && char_is_whitespace(s[b - 1])
        invariant
            a <= b <= s.len(),
            skip_trailing(s@, white(), s@.len() as int, a as int) == skip_trailing(
                s@,
                white(),
                b as int,
                a as int,
            ),
        decreases b - a,
    {
        b -= 1;
    }
    (a, b)
}

/// `s` without leading and trailing white space.
pub fn trim(s: &Vec<char>) -> (out: Vec<char>)
    ensures
        out@ == trimmed(s@),
{
    let (a, b) = trim_bounds(s);
    slice_of(s, a, b)
}

/// `s` without the characters `c` at its start and at its end.
pub fn trim_char(s: &Vec<char>, c: char) -> (out: Vec<char>)
    ensures
        out@ == trimmed_char(s@, c),
{
    let mut a: usize = 0;
    while a < s.len() && s[a] == c
        invariant
            a <= s.len(),
            skip_leading(s@, only(c), 0) == skip_leading(s@, only(c), a as int),
        decreases s.len() - a,
    {
        a += 1;
    }
    let mut b: usize = s.len();
    while b > a && s[b - 1] == c
        invariant
            a <= b <= s.len(),
            skip_trailing(s@, only(c), s@.len() as int, a as int) == skip_trailing(
                s@,
                only(c),
                b as int,
                a as int,
            ),
        decreases b - a,
    {
        b -= 1;
    }
    slice_of(s, a, b)
}

/// The pieces of `s` from `from` on that lie between occurrences of `c`.
pub open spec fn split_from(s: Seq<char>, c: char, from: int) -> Seq<Seq<char>>
    decreases s.len() - from,
{
    let i = first_index_of(s, c, from);
    if from < 0 || from > s.len() {
        Seq::empty()
    } else if i >= s.len() {
        seq![s.subrange(from, s.len() as int)]
    } else {
        proof {
            lemma_first_index_of(s, c, from);
        }
        seq![s.subrange(from, i)] + split_from(s, c, i + 1)
    }
}

/// The pieces of `s` that lie between occurrences of `c`; a text without
/// `c` is one piece.
pub open spec fn split_on(s: Seq<char>, c: char) -> Seq<Seq<char>> {
    split_from(s, c, 0)
}

/// The pieces of `parts`, with `sep` between each two.
pub open spec fn join_with(parts: Seq<Seq<char>>, sep: Seq<char>) -> Seq<char>
    decreases parts.len(),
{
    if parts.len() == 0 {
        Seq::empty()
    } else if parts.len() == 1 {
        parts[0]
    } else {
        join_with(parts.drop_last(), sep) + sep + parts.last()
    }
}

/// The texts that a vector of character vectors stands for.
pub open spec fn texts_view(v: Seq<Vec<char>>) -> Seq<Seq<char>> {
    v.map_values(|t: Vec<char>| t@)
}

/// The pieces of `s` that lie between occurrences of `c`.
pub fn split(s: &Vec<char>, c: char) -> (parts: Vec<Vec<char>>)
    ensures
        texts_view(parts@) == split_on(s@, c),
        parts@.len() >= 1,
{
    let mut parts: Vec<Vec<char>> = Vec::new();
    let mut from: usize = 0;
    assert(texts_view(parts@) + split_from(s@, c, 0) == split_on(s@, c));
    loop
        invariant
            from <= s.len(),
            texts_view(parts@) + split_from(s@, c, from as int) == split_on(s@, c),
        decreases s.len() - from,
    {
        let i = find_char(s, c, from);
        let piece = slice_of(s, from, i);
        let ghost before = texts_view(parts@);
        parts.push(piece);
        assert(texts_view(parts@) == before + seq![piece@]);
        if i >= s.len() {
            return parts;
        }
        assert(before + (seq![piece@] + split_from(s@, c, i + 1)) == (before + seq![piece@])
            + split_from(s@, c, i + 1));
        from = i + 1;
    }
}

/// The texts in `parts[from..to]`, with `sep` between each two.
pub fn join(parts: &Vec<Vec<char>>, from: usize, to: usize, sep: &Vec<char>) -> (out: Vec<char>)
    requires
        from <= to <= parts.len(),
    ensures
        out@ == join_with(texts_view(parts@).subrange(from as int, to as int), sep@),
{
    let mut out: Vec<char> = Vec::new();
    let mut k: usize = from;
    let ghost all = texts_view(parts@);
    while k < to
        invariant
            from <= k <= to <= parts.len(),
            all == texts_view(parts@),
            out@ == join_with(all.subrange(from as int, k as int), sep@),
        decreases to - k,
    {
        let ghost done = all.subrange(from as int, k as int);
        let ghost next = all.subrange(from as int, k + 1);
        assert(next.drop_last() == done);
        assert(next.last() == parts@[k as int]@);
        if k > from {
            push_all(&mut out, sep);
        }
        push_all(&mut out, &parts[k]);
        k += 1;
    }
    out
}

/// `s` from `from` on, with each occurrence of `pat` replaced by `rep`,
/// reading left to right. An empty `pat` occurs nowhere.
pub open spec fn replaced_from(s: Seq<char>, pat: Seq<char>, rep: Seq<char>, from: int) -> Seq<char>
    decreases s.len() - from,
{
    if from < 0 || from >= s.len() {
        Seq::empty()
    } else if pat.len() > 0 && occurs_at(s, from, pat) {
        rep + replaced_from(s, pat, rep, from + pat.len())
    } else {
        seq![s[from]] + replaced_from(s, pat, rep, from + 1)
    }
}

/// `s` with each occurrence of `pat` replaced by `rep`, reading left to right.
pub open spec fn replaced(s: Seq<char>, pat: Seq<char>, rep: Seq<char>) -> Seq<char> {
    replaced_from(s, pat, rep, 0)
}

/// `s` with each occurrence of `pat` replaced by `rep`.
pub fn replace_all(s: &Vec<char>, pat: &Vec<char>, rep: &Vec<char>) -> (out: Vec<char>)
    ensures
        out@ == replaced(s@, pat@, rep@),
{
    let mut out: Vec<char> = Vec::new();
    let mut i: usize = 0;
    assert(out@ + replaced_from(s@, pat@, rep@, 0) == replaced(s@, pat@, rep@));
    while i < s.len()
        invariant
            i <= s.len(),
            out@ + replaced_from(s@, pat@, rep@, i as int) == replaced(s@, pat@, rep@),
        decreases s.len() - i,
    {
        let ghost before = out@;
        if pat.len() > 0 && matches_at(s, i, pat) {
            push_all(&mut out, rep);
            assert(before + (rep@ + replaced_from(s@, pat@, rep@, i + pat@.len())) == (before
                + rep@) + replaced_from(s@, pat@, rep@, i + pat@.len()));
            i += pat.len();
        } else {
            out.push(s[i]);
            assert(before + (seq![s@[i as int]] + replaced_from(s@, pat@, rep@, i + 1)) == (
            before + seq![s@[i as int]]) + replaced_from(s@, pat@, rep@, i + 1));
            assert(before.push(s@[i as int]) == before + seq![s@[i as int]]);
            i += 1;
        }
    }
    assert(out@ + Seq::<char>::empty() == out@);
    out
}

/// The text `s[from..to]`.
pub fn string_of_range(s: &Vec<char>, from: usize, to: usize) -> (out: String)
    requires
        from <= to <= s.len(),
    ensures
        out@ == s@.subrange(from as int, to as int),
{
    let mut out = String::new();
    let mut k: usize = from;
    while k < to
        invariant
            from <= k <= to <= s.len(),
            out@ == s@.subrange(from as int, k as int),
        decreases to - k,
    {
        out.push(s[k]);
        assert(s@.subrange(from as int, k + 1) == s@.subrange(from as int, k as int).push(
            s@[k as int],
        ));
        k += 1;
    }
    out
}

/// First position at or after `from` whose character is not `c`.
pub fn skip_char(s: &Vec<char>, c: char, from: usize) -> (at: usize)
    requires
        from <= s.len(),
    ensures
        at == skip_leading(s@, only(c), from as int),
        from <= at <= s.len(),
        at < s.len() ==> s@[at as int] != c,
{
    let mut k: usize = from;
    while k < s.len() && s[k] == c
        invariant
            from <= k <= s.len(),
            skip_leading(s@, only(c), from as int) == skip_leading(s@, only(c), k as int),
        decreases s.len() - k,
    {
        k += 1;
    }
    k
}

/// Start of the run of `c` that ends at `upto`, not going below `floor`.
pub fn skip_char_back(s: &Vec<char>, c: char, upto: usize, floor: usize) -> (at: usize)
    requires
        floor <= upto <= s.len(),
    ensures
        at == skip_trailing(s@, only(c), upto as int, floor as int),
        floor <= at <= upto,
        at > floor ==> s@[at - 1] != c,
{
    let mut k: usize = upto;
    while k > floor && s[k - 1] == c
        invariant
            floor <= k <= upto <= s.len(),
            skip_trailing(s@, only(c), upto as int, floor as int) == skip_trailing(
                s@,
                only(c),
                k as int,
                floor as int,
            ),
        decreases k - floor,
    {
        k -= 1;
    }
    k
}

/// The decimal digit for a value below ten.
pub open spec fn digit_char(d: int) -> char {
    (48 + d) as u8 as char
}

/// A natural number written in decimal, without leading zeros.
pub open spec fn decimal(n: nat) -> Seq<char>
    decreases n,
{
    if n < 10 {
        seq![digit_char(n as int)]
    } else {
        decimal(n / 10).push(digit_char((n % 10) as int))
    }
}

/// `n` written in decimal.
pub fn decimal_of(n: usize) -> (out: Vec<char>)
    ensures
        out@ == decimal(n as nat),
{
    let mut reversed: Vec<char> = Vec::new();
    let mut rest: usize = n;
    while rest >= 10
        invariant
            decimal(n as nat) == decimal(rest as nat) + reversed@.reverse(),
        decreases rest,
    {
        let digit = (rest % 10) as u8;
        let ghost before = reversed@;
        reversed.push((48 + digit) as char);
        proof {
            let c = digit_char((rest % 10) as int);
            assert(reversed@ == before.push(c));
            assert(reversed@.reverse() =~= seq![c] + before.reverse());
            assert(decimal(rest as nat) == decimal((rest / 10) as nat).push(c));
            assert(decimal((rest / 10) as nat).push(c) + before.reverse() =~= decimal(
                (rest / 10) as nat,
            ) + (seq![c] + before.reverse()));
        }
        rest = rest / 10;
    }
    let mut out: Vec<char> = Vec::new();
    out.push((48 + rest as u8) as char);
    let mut k: usize = reversed.len();
    while k > 0
        invariant
            k <= reversed@.len(),
            out@ == seq![digit_char(rest as int)] + reversed@.reverse().subrange(
                0,
                reversed@.len() - k,
            ),
        decreases k,
    {
        k -= 1;
        out.push(reversed[k]);
        proof {
            let r = reversed@.reverse();
            let n_done = reversed@.len() - k;
            assert(r[n_done - 1] == reversed@[k as int]);
            assert(r.subrange(0, n_done) == r.subrange(0, n_done - 1).push(r[n_done - 1]));
        }
    }
    proof {
        let r = reversed@.reverse();
        assert(r.subrange(0, r.len() as int) == r);
        assert(decimal(rest as nat) == seq![digit_char(rest as int)]);
    }
    out
}

/// A copy of a list of strings.
pub fn clone_strings(list: &Vec<String>) -> (copy: Vec<String>)
    ensures
        copy@ == list@,
{
    let mut copy: Vec<String> = Vec::new();
    let mut i: usize = 0;
    while i < list.len()
        invariant
            i <= list@.len(),
            copy@ == list@.subrange(0, i as int),
        decreases list.len() - i,
    {
        copy.push(list[i].clone());
        assert(list@.subrange(0, i + 1) == list@.subrange(0, i as int).push(list@[i as int]));
        i += 1;
    }
    assert(list@.subrange(0, list@.len() as int) == list@);
    copy
}

} // verus!
