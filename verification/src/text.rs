//! Text as a sequence of characters: splitting into lines, trimming, joining
//! and comparing, each with its exact meaning over `Seq<char>`.

use vstd::prelude::*;
use vstd::utf8::is_ascii_chars;

verus! {

broadcast use vstd::string::group_string_axioms;

/// `String::push` appends one character and changes nothing else.
pub assume_specification[ String::push ](s: &mut String, c: char)
    ensures
        final(s)@ == old(s)@.push(c),
;

/// What `str::to_lowercase` returns for a text: its Unicode lower-case form.
pub uninterp spec fn unicode_lowercase(s: Seq<char>) -> Seq<char>;

/// `str::to_lowercase` depends on the text alone. On a text of ASCII
/// characters it maps `A`..`Z` to `a`..`z` and keeps every other character.
pub assume_specification[ str::to_lowercase ](s: &str) -> (r: String)
    ensures
        r@ == unicode_lowercase(s@),
        is_ascii_chars(s@) ==> r@ == ascii_lowercase(s@),
;

/// Whether a character is white space: one of the 25 characters that have
/// the Unicode property `White_Space`.
pub open spec fn is_whitespace(c: char) -> bool {
    ||| '\u{9}' <= c <= '\u{d}'
    ||| c == ' '
    ||| c == '\u{85}'
    ||| c == '\u{a0}'
    ||| c == '\u{1680}'
    ||| '\u{2000}' <= c <= '\u{200a}'
    ||| c == '\u{2028}'
    ||| c == '\u{2029}'
    ||| c == '\u{202f}'
    ||| c == '\u{205f}'
    ||| c == '\u{3000}'
}

/// `char::is_whitespace` holds of exactly the characters that have the
/// Unicode property `White_Space`.
pub assume_specification[ char::is_whitespace ](c: char) -> (r: bool)
    ensures
        r == is_whitespace(c),
;

/// An ASCII capital letter.
pub open spec fn is_ascii_upper(c: char) -> bool {
    'A' <= c <= 'Z'
}

/// The lower-case form of an ASCII capital letter; any other character is kept.
pub open spec fn ascii_lower_char(c: char) -> char {
    if is_ascii_upper(c) {
        ((c as u32 + 32) as u8) as char
    } else {
        c
    }
}

/// A text with each ASCII capital letter replaced by its lower-case form.
pub open spec fn ascii_lowercase(s: Seq<char>) -> Seq<char> {
    Seq::new(s.len(), |i: int| ascii_lower_char(s[i]))
}

/// The views of a sequence of texts.
pub open spec fn views(v: Seq<Vec<char>>) -> Seq<Seq<char>> {
    Seq::new(v.len(), |i: int| v[i]@)
}

/// The views of a sequence of strings.
pub open spec fn string_views(v: Seq<String>) -> Seq<Seq<char>> {
    Seq::new(v.len(), |i: int| v[i]@)
}

/// The view of an optional string.
pub open spec fn opt_view(o: Option<String>) -> Option<Seq<char>> {
    match o {
        Some(s) => Some(s@),
        None => None,
    }
}

/// The characters of a string slice, in order.
pub fn chars_of(s: &str) -> (v: Vec<char>)
    ensures
        v@ == s@,
{
    let mut v: Vec<char> = Vec::new();
    for c in it: s.chars()
        invariant
            it.seq() == s@,
            v@ == it.seq().subrange(0, it.index() as int),
    {
        v.push(c);
        assert(v@ =~= it.seq().subrange(0, it.index() + 1));
    }
    assert(v@ =~= s@);
    v
}

/// The string made of the given characters.
pub fn string_of(v: &Vec<char>) -> (s: String)
    ensures
        s@ == v@,
{
    let mut s = String::new();
    let mut i: usize = 0;
    while i < v.len()
        invariant
            i <= v.len(),
            s@ == v@.subrange(0, i as int),
        decreases v.len() - i,
    {
        s.push(v[i]);
        i = i + 1;
        assert(s@ =~= v@.subrange(0, i as int));
    }
    assert(s@ =~= v@);
    s
}

/// `head` followed by `tail`.
pub fn concat(head: &str, tail: &str) -> (r: String)
    ensures
        r@ == head@ + tail@,
{
    let mut r = head.to_owned();
    r.append(tail);
    r
}

/// The characters of `v` from `from` up to, not including, `to`.
pub(crate) fn slice_of(v: &Vec<char>, from: usize, to: usize) -> (r: Vec<char>)
    requires
        from <= to <= v.len(),
    ensures
        r@ == v@.subrange(from as int, to as int),
{
    let mut r: Vec<char> = Vec::new();
    let mut i: usize = from;
    while i < to
        invariant
            from <= i <= to <= v.len(),
            r@ == v@.subrange(from as int, i as int),
        decreases to - i,
    {
        r.push(v[i]);
        i = i + 1;
        assert(r@ =~= v@.subrange(from as int, i as int));
    }
    r
}

/// Appends the characters of `src` to `dst`.
pub fn extend(dst: &mut Vec<char>, src: &Vec<char>)
    ensures
        final(dst)@ == old(dst)@ + src@,
{
    let mut i: usize = 0;
    while i < src.len()
        invariant
            i <= src.len(),
            dst@ == old(dst)@ + src@.subrange(0, i as int),
        decreases src.len() - i,
    {
        dst.push(src[i]);
        i = i + 1;
        assert(dst@ =~= old(dst)@ + src@.subrange(0, i as int));
    }
    assert(src@.subrange(0, src@.len() as int) =~= src@);
}

/// Whether the text that starts at position `at` of `v` begins with `p`.
pub(crate) fn has_prefix_at(v: &Vec<char>, at: usize, p: &Vec<char>) -> (r: bool)
    requires
        at <= v.len(),
    ensures
        r == p@.is_prefix_of(v@.skip(at as int)),
{
    if p.len() > v.len() - at {
        return false;
    }
    let mut i: usize = 0;
    while i < p.len()
        invariant
            i <= p.len(),
            at + p.len() <= v.len(),
            forall|k: int| 0 <= k < i ==> p@[k] == v@[at + k],
        decreases p.len() - i,
    {
        if p[i] != v[at + i] {
            assert(p@[i as int] != v@.skip(at as int).subrange(0, p@.len() as int)[i as int]);
            return false;
        }
        i = i + 1;
    }
    assert(p@ =~= v@.skip(at as int).subrange(0, p@.len() as int));
    true
}

/// Whether `v` begins with `p`.
pub fn has_prefix(v: &Vec<char>, p: &Vec<char>) -> (r: bool)
    ensures
        r == p@.is_prefix_of(v@),
{
    assert(v@.skip(0) =~= v@);
    has_prefix_at(v, 0, p)
}

/// The texts of `parts` with `sep` between each two neighbours.
pub open spec fn join(parts: Seq<Seq<char>>, sep: Seq<char>) -> Seq<char>
    decreases parts.len(),
{
    if parts.len() == 0 {
        Seq::empty()
    } else if parts.len() == 1 {
        parts[0]
    } else {
        join(parts.drop_last(), sep) + sep + parts.last()
    }
}

/// Joins texts with a separator between each two neighbours.
pub fn join_chars(parts: &Vec<Vec<char>>, sep: &Vec<char>) -> (r: Vec<char>)
    ensures
        r@ == join(views(parts@), sep@),
{
    let mut r: Vec<char> = Vec::new();
    let mut i: usize = 0;
    while i < parts.len()
        invariant
            i <= parts.len(),
            r@ == join(views(parts@).take(i as int), sep@),
        decreases parts.len() - i,
    {
        let ghost before = views(parts@).take(i as int);
        let ghost after = views(parts@).take(i + 1);
        assert(after.drop_last() =~= before);
        assert(after.last() == parts@[i as int]@);
        if i > 0 {
            extend(&mut r, sep);
        }
        extend(&mut r, &parts[i]);
        i = i + 1;
        assert(r@ =~= join(after, sep@));
    }
    assert(views(parts@).take(parts@.len() as int) =~= views(parts@));
    r
}

/// The lower-case form of a text, as `str::to_lowercase` gives it.
pub fn lowercase(v: &Vec<char>) -> (r: Vec<char>)
    ensures
        r@ == unicode_lowercase(v@),
        is_ascii_chars(v@) ==> r@ == ascii_lowercase(v@),
{
    let s = string_of(v);
    let low = s.as_str().to_lowercase();
    chars_of(low.as_str())
}

/// The position of the first line feed at or after `i`, or the length of the
/// text where there is none.
pub open spec fn line_end(s: Seq<char>, i: int) -> int
    decreases s.len() - i,
{
    if i < 0 || i >= s.len() {
        s.len() as int
    } else if s[i] == '\n' {
        i
    } else {
        line_end(s, i + 1)
    }
}

/// `line_end` lies between its start and the end of the text, and no line
/// feed stands before it.
pub proof fn lemma_line_end(s: Seq<char>, i: int)
    requires
        0 <= i <= s.len(),
    ensures
        i <= line_end(s, i) <= s.len(),
        line_end(s, i) < s.len() ==> s[line_end(s, i)] == '\n',
        forall|k: int| i <= k < line_end(s, i) ==> s[k] != '\n',
    decreases s.len() - i,
{
    if i < s.len() && s[i] != '\n' {
        lemma_line_end(s, i + 1);
    }
}

/// A line without the carriage return that stood before its line feed.
pub open spec fn strip_cr(line: Seq<char>, terminated: bool) -> Seq<char> {
    if terminated && line.len() > 0 && line.last() == '\r' {
        line.drop_last()
    } else {
        line
    }
}

/// The lines of the text from position `i` on. A line ends at a line feed or
/// at a carriage return followed by one; neither belongs to the line. A last
/// line needs no line ending, and an empty rest holds no line.
pub open spec fn lines_from(s: Seq<char>, i: int) -> Seq<Seq<char>>
    decreases s.len() - i,
{
    if i < 0 || i >= s.len() {
        Seq::empty()
    } else {
        let e = line_end(s, i);
        if e < i || e > s.len() {
            Seq::empty()
        } else if e == s.len() {
            seq![s.subrange(i, e)]
        } else {
            seq![strip_cr(s.subrange(i, e), true)] + lines_from(s, e + 1)
        }
    }
}

/// The lines of a text.
pub open spec fn lines(s: Seq<char>) -> Seq<Seq<char>> {
    lines_from(s, 0)
}

/// Where a line ends depends only on what follows its start.
pub proof fn lemma_line_end_shift(s: Seq<char>, k: int, i: int)
    requires
        0 <= k,
        0 <= i,
        k + i <= s.len(),
    ensures
        line_end(s, k + i) == k + line_end(s.skip(k), i),
    decreases s.len() - (k + i),
{
    if k + i < s.len() {
        assert(s.skip(k)[i] == s[k + i]);
        if s[k + i] != '\n' {
            lemma_line_end_shift(s, k, i + 1);
        }
    }
}

/// The lines from a position on depend only on what follows the position.
pub proof fn lemma_lines_from_shift(s: Seq<char>, k: int, i: int)
    requires
        0 <= k,
        0 <= i,
        k + i <= s.len(),
    ensures
        lines_from(s, k + i) == lines_from(s.skip(k), i),
    decreases s.len() - (k + i),
{
    if k + i < s.len() {
        let t = s.skip(k);
        lemma_line_end_shift(s, k, i);
        lemma_line_end(s, k + i);
        lemma_line_end(t, i);
        let e = line_end(t, i);
        assert(s.subrange(k + i, k + e) =~= t.subrange(i, e));
        if e < t.len() {
            lemma_lines_from_shift(s, k, e + 1);
        }
    }
}

/// Behind a text that is empty or ends with a line feed, the lines of what
/// follows come behind its own.
pub proof fn lemma_lines_concat(a: Seq<char>, b: Seq<char>, i: int)
    requires
        0 <= i <= a.len(),
        a.len() == 0 || a.last() == '\n',
    ensures
        lines_from(a + b, i) == lines_from(a, i) + lines(b),
    decreases a.len() - i,
{
    let s = a + b;
    if i == a.len() {
        assert(s.skip(a.len() as int) =~= b);
        lemma_lines_from_shift(s, a.len() as int, 0);
        assert(lines_from(a, i) =~= Seq::<Seq<char>>::empty());
        assert(Seq::<Seq<char>>::empty() + lines(b) =~= lines(b));
    } else {
        lemma_line_end(a, i);
        lemma_line_end(s, i);
        let e = line_end(a, i);
        if e == a.len() {
            assert(a[a.len() - 1] != '\n');
        }
        assert(s[e] == '\n');
        assert forall|k: int| i <= k < e implies s[k] != '\n' by {
            assert(s[k] == a[k]);
        }
        if line_end(s, i) < e {
            assert(s[line_end(s, i)] == '\n');
        }
        assert(line_end(s, i) == e);
        assert(s.subrange(i, e) =~= a.subrange(i, e));
        lemma_lines_concat(a, b, e + 1);
        assert(lines_from(s, i) =~= lines_from(a, i) + lines(b));
    }
}

/// Splits a text into its lines.
pub fn split_lines(v: &Vec<char>) -> (r: Vec<Vec<char>>)
    ensures
        views(r@) == lines(v@),
{
    let mut r: Vec<Vec<char>> = Vec::new();
    let n: usize = v.len();
    let mut start: usize = 0;
    while start < n
        invariant
            n == v.len(),
            start <= n,
            lines(v@) == views(r@) + lines_from(v@, start as int),
        decreases n - start,
    {
        let mut e: usize = start;
        while e < n && v[e] != '\n'
            invariant
                n == v.len(),
                start <= e <= n,
                line_end(v@, start as int) == line_end(v@, e as int),
            decreases n - e,
        {
            e = e + 1;
        }
        proof {
            lemma_line_end(v@, start as int);
        }
        assert(e == line_end(v@, start as int));
        let mut stop: usize = e;
        if e < n && e > start && v[e - 1] == '\r' {
            stop = e - 1;
        }
        let line = slice_of(v, start, stop);
        assert(line@ =~= strip_cr(v@.subrange(start as int, e as int), e < n));
        let ghost before = views(r@);
        r.push(line);
        assert(views(r@) =~= before + seq![line@]);
        if e < n {
            start = e + 1;
        } else {
            start = n;
        }
    }
    assert(views(r@) + lines_from(v@, start as int) =~= views(r@));
    r
}

/// Whether the character at a place is flagged; a place without a flag is
/// not.
pub open spec fn flag_at(flags: Seq<bool>, i: int) -> bool {
    0 <= i < flags.len() && flags[i]
}

/// The first place at or after `a` and before `n` that is not flagged, or
/// `n` where every place is.
pub open spec fn skip_front(flags: Seq<bool>, n: int, a: int) -> int
    decreases n - a,
{
    if a < n && flag_at(flags, a) {
        skip_front(flags, n, a + 1)
    } else {
        a
    }
}

/// The place behind the last place before `b` and not before `a` that is
/// not flagged, or `a` where every place is.
pub open spec fn skip_back(flags: Seq<bool>, a: int, b: int) -> int
    decreases b,
{
    if b > a && b > 0 && flag_at(flags, b - 1) {
        skip_back(flags, a, b - 1)
    } else {
        b
    }
}

/// A text without the flagged characters at its start and at its end.
pub open spec fn trim_where(s: Seq<char>, flags: Seq<bool>) -> Seq<char> {
    let a = skip_front(flags, s.len() as int, 0);
    s.subrange(a, skip_back(flags, a, s.len() as int))
}

/// For each character of a text whether it is white space.
pub open spec fn white_flags(s: Seq<char>) -> Seq<bool> {
    Seq::new(s.len(), |i: int| is_whitespace(s[i]))
}

/// A text without the white space at either end.
pub open spec fn trim(s: Seq<char>) -> Seq<char> {
    trim_where(s, white_flags(s))
}

/// Removes the flagged characters at both ends of a text. A character for
/// which no flag is given is kept.
pub fn trim_flagged(v: &Vec<char>, flags: &Vec<bool>) -> (r: Vec<char>)
    ensures
        r@ == trim_where(v@, flags@),
{
    let n: usize = v.len();
    let mut a: usize = 0;
    while a < n && a < flags.len() && flags[a]
        invariant
            a <= n,
            n == v.len(),
            skip_front(flags@, n as int, 0) == skip_front(flags@, n as int, a as int),
        decreases n - a,
    {
        a = a + 1;
    }
    let mut b: usize = n;
    while b > a && b - 1 < flags.len() && flags[b - 1]
        invariant
            a <= b <= n,
            n == v.len(),
            skip_back(flags@, a as int, n as int) == skip_back(flags@, a as int, b as int),
        decreases b,
    {
        b = b - 1;
    }
    slice_of(v, a, b)
}

/// Removes the white space at both ends of a text.
pub fn trim_chars(v: &Vec<char>) -> (r: Vec<char>)
    ensures
        r@ == trim(v@),
{
    let mut flags: Vec<bool> = Vec::new();
    let mut i: usize = 0;
    while i < v.len()
        invariant
            i <= v@.len(),
            flags@.len() == i,
            forall|k: int| 0 <= k < i ==> #[trigger] flags@[k] == is_whitespace(v@[k]),
        decreases v@.len() - i,
    {
        flags.push(v[i].is_whitespace());
        i = i + 1;
    }
    assert(flags@ =~= white_flags(v@));
    trim_flagged(v, &flags)
}

/// Whether `needle` stands somewhere in `hay`.
pub open spec fn contains_text(hay: Seq<char>, needle: Seq<char>) -> bool {
    exists|i: int| 0 <= i <= hay.len() && needle.is_prefix_of(#[trigger] hay.skip(i))
}

/// Whether `needle` stands somewhere in `hay`.
pub fn contains_chars(hay: &Vec<char>, needle: &Vec<char>) -> (r: bool)
    ensures
        r == contains_text(hay@, needle@),
{
    let mut i: usize = 0;
    while i < hay.len()
        invariant
            i <= hay.len(),
            forall|k: int| 0 <= k < i ==> !needle@.is_prefix_of(#[trigger] hay@.skip(k)),
        decreases hay.len() - i,
    {
        if has_prefix_at(hay, i, needle) {
            return true;
        }
        i = i + 1;
    }
    has_prefix_at(hay, i, needle)
}

/// A text without the `/` characters at its end.
pub open spec fn without_trailing_slashes(s: Seq<char>) -> Seq<char>
    decreases s.len(),
{
    if s.len() > 0 && s.last() == '/' {
        without_trailing_slashes(s.drop_last())
    } else {
        s
    }
}

/// What follows the last `/` of a text: the whole text where it holds none.
pub open spec fn after_last_slash(s: Seq<char>) -> Seq<char>
    decreases s.len(),
{
    if s.len() == 0 || s.last() == '/' {
        Seq::empty()
    } else {
        after_last_slash(s.drop_last()).push(s.last())
    }
}

/// The last part of a path that is not empty, or nothing where every part
/// is empty.
pub open spec fn last_segment(path: Seq<char>) -> Option<Seq<char>> {
    let stem = without_trailing_slashes(path);
    if stem.len() == 0 {
        None
    } else {
        Some(after_last_slash(stem))
    }
}

/// The last part of a path that is not empty.
pub fn last_segment_of(path: &Vec<char>) -> (r: Option<Vec<char>>)
    ensures
        match r {
            Some(segment) => last_segment(path@) == Some(segment@),
            None => last_segment(path@) is None,
        },
{
    let mut end: usize = path.len();
    assert(path@.subrange(0, end as int) =~= path@);
    while end > 0 && path[end - 1] == '/'
        invariant
            end <= path.len(),
            without_trailing_slashes(path@) == without_trailing_slashes(
                path@.subrange(0, end as int),
            ),
        decreases end,
    {
        assert(path@.subrange(0, end as int).drop_last() =~= path@.subrange(0, end - 1));
        end = end - 1;
    }
    if end == 0 {
        return None;
    }
    let ghost stem = path@.subrange(0, end as int);
    assert(without_trailing_slashes(path@) == stem);
    let mut start: usize = end;
    assert(path@.subrange(start as int, end as int) =~= Seq::<char>::empty());
    while start > 0 && path[start - 1] != '/'
        invariant
            start <= end <= path.len(),
            stem == path@.subrange(0, end as int),
            after_last_slash(stem) == after_last_slash(path@.subrange(0, start as int))
                + path@.subrange(start as int, end as int),
        decreases start,
    {
        let ghost head = path@.subrange(0, start as int);
        assert(head.drop_last() =~= path@.subrange(0, start - 1));
        assert(after_last_slash(head.drop_last()).push(head.last()) + path@.subrange(
            start as int,
            end as int,
        ) =~= after_last_slash(head.drop_last()) + path@.subrange(start - 1, end as int));
        start = start - 1;
    }
    assert(after_last_slash(path@.subrange(0, start as int)) =~= Seq::<char>::empty());
    assert(Seq::<char>::empty() + path@.subrange(start as int, end as int) =~= path@.subrange(
        start as int,
        end as int,
    ));
    Some(slice_of(path, start, end))
}

/// A copy of a list of strings.
pub fn clone_strings(v: &Vec<String>) -> (r: Vec<String>)
    ensures
        r@ == v@,
{
    let mut r: Vec<String> = Vec::new();
    let mut i: usize = 0;
    while i < v.len()
        invariant
            i <= v.len(),
            r@ == v@.take(i as int),
        decreases v.len() - i,
    {
        r.push(v[i].clone());
        i = i + 1;
        assert(r@ =~= v@.take(i as int));
    }
    assert(v@.take(v@.len() as int) =~= v@);
    r
}

} // verus!
