//! Characters and strings: the conversions that the rest of the crate builds on.

use vstd::prelude::*;

verus! {

/// The upper-case form of an ASCII lower-case letter; every other character
/// stands for itself.
pub open spec fn ascii_upper(c: char) -> char {
    if 'a' <= c && c <= 'z' {
        ((c as u32) - 32) as char
    } else {
        c
    }
}

/// The lower-case form of an ASCII upper-case letter; every other character
/// stands for itself.
pub open spec fn ascii_lower(c: char) -> char {
    if 'A' <= c && c <= 'Z' {
        ((c as u32) + 32) as char
    } else {
        c
    }
}

/// Whether `c` is one of the letters `a` to `z`.
pub open spec fn is_lower_letter(c: char) -> bool {
    'a' <= c && c <= 'z'
}

/// `char::to_ascii_uppercase` of the standard library: the letters `a` to `z`
/// are mapped to `A` to `Z`, and every other character is returned unchanged.
pub assume_specification[ char::to_ascii_uppercase ](c: &char) -> (r: char)
    ensures
        r == ascii_upper(*c),
;

/// `char::to_ascii_lowercase` of the standard library: the letters `A` to `Z`
/// are mapped to `a` to `z`, and every other character is returned unchanged.
pub assume_specification[ char::to_ascii_lowercase ](c: &char) -> (r: char)
    ensures
        r == ascii_lower(*c),
;

/// Whether `c` has the Unicode property White_Space: the controls from tab to
/// carriage return, the space, the next-line control, and the spaces and
/// separators that Unicode adds to them.
pub open spec fn white_space(c: char) -> bool {
    ||| '\u{9}' <= c <= '\u{d}'
    ||| c == ' '
    ||| c == '\u{85}'
    ||| c == '\u{a0}'
    ||| c == '\u{1680}'
    ||| '\u{2000}' <= c <= '\u{200a}'
    ||| c == '\u{2028}'
    ||| c == '\u{2029}'
    ||| c == '\u{202f}'
    ||| c == '\u{205f}'
    ||| c == '\u{3000}'
}

/// `char::is_whitespace` of the standard library: whether the character has
/// the Unicode property White_Space, which the Unicode Character Database
/// gives to the twenty-five characters that `white_space` lists.
pub assume_specification[ char::is_whitespace ](c: char) -> (b: bool)
    ensures
        b == white_space(c),
;

/// `String::push` of the standard library: the character is appended to the
/// end of the string.
pub assume_specification[ String::push ](s: &mut String, ch: char)
    ensures
        final(s)@ == old(s)@.push(ch),
;

/// The characters of `s`, in order.
pub fn chars_of(s: &str) -> (r: Vec<char>)
    ensures
        r@ == s@,
{
    let mut r: Vec<char> = Vec::new();
    for c in it: s.chars()
        invariant
            it.seq() == s@,
            r@ == s@.take(it.index()),
    {
        r.push(c);
    }
    r
}

/// The string made of the characters `chars[from..to]`.
pub fn string_of(chars: &Vec<char>, from: usize, to: usize) -> (r: String)
    requires
        from <= to <= chars@.len(),
    ensures
        r@ == chars@.subrange(from as int, to as int),
{
    let mut r = String::new();
    let mut i: usize = from;
    while i < to
        invariant
            from <= i <= to <= chars@.len(),
            r@ == chars@.subrange(from as int, i as int),
        decreases to - i,
    {
        r.push(chars[i]);
        i += 1;
        assert(r@ =~= chars@.subrange(from as int, i as int));
    }
    r
}

/// The string made of the characters of `chars`.
pub fn text_of(chars: &Vec<char>) -> (r: String)
    ensures
        r@ == chars@,
{
    let r = string_of(chars, 0, chars.len());
    assert(r@ =~= chars@);
    r
}

/// Whether `c` occurs in `chars`.
pub fn has_char(chars: &Vec<char>, c: char) -> (b: bool)
    ensures
        b == chars@.contains(c),
{
    let mut i: usize = 0;
    while i < chars.len()
        invariant
            i <= chars@.len(),
            forall|j: int| 0 <= j < i ==> chars@[j] != c,
        decreases chars@.len() - i,
    {
        if chars[i] == c {
            return true;
        }
        i += 1;
    }
    false
}

/// The words of a list, each as the sequence of its characters.
pub open spec fn spellings(words: Seq<String>) -> Seq<Seq<char>> {
    words.map_values(|w: String| w@)
}

/// A sequence with one more item holds what it held before, and that item.
pub proof fn lemma_contains_push<A>(s: Seq<A>, c: A)
    ensures
        forall|x: A| s.push(c).contains(x) == (s.contains(x) || x == c),
{
    assert forall|x: A| s.push(c).contains(x) == (s.contains(x) || x == c) by {
        if s.contains(x) {
            let m = choose|m: int| 0 <= m < s.len() && s[m] == x;
            assert(s.push(c)[m] == x);
        }
        if x == c {
            assert(s.push(c)[s.len() as int] == c);
        }
    }
}

/// Two sequences written one after the other hold what either holds.
pub proof fn lemma_contains_concat<A>(a: Seq<A>, b: Seq<A>)
    ensures
        forall|x: A| (a + b).contains(x) == (a.contains(x) || b.contains(x)),
{
    assert forall|x: A| (a + b).contains(x) == (a.contains(x) || b.contains(x)) by {
        if (a + b).contains(x) {
            let m = choose|m: int| 0 <= m < (a + b).len() && (a + b)[m] == x;
            if m < a.len() {
                assert(a[m] == x);
            } else {
                assert(b[m - a.len()] == x);
            }
        }
        if a.contains(x) {
            let m = choose|m: int| 0 <= m < a.len() && a[m] == x;
            assert((a + b)[m] == x);
        }
        if b.contains(x) {
            let m = choose|m: int| 0 <= m < b.len() && b[m] == x;
            assert((a + b)[a.len() + m] == x);
        }
    }
}

/// The items of `s`, each once, in the order of their first occurrence.
pub open spec fn distinct<A>(s: Seq<A>) -> Seq<A>
    decreases s.len(),
{
    if s.len() == 0 {
        Seq::empty()
    } else if s.drop_last().contains(s.last()) {
        distinct(s.drop_last())
    } else {
        distinct(s.drop_last()).push(s.last())
    }
}

/// `distinct(s)` holds exactly the items of `s`, and none twice.
pub proof fn lemma_distinct_properties<A>(s: Seq<A>)
    ensures
        distinct(s).no_duplicates(),
        distinct(s).len() <= s.len(),
        forall|c: A| distinct(s).contains(c) == s.contains(c),
    decreases s.len(),
{
    if s.len() > 0 {
        let front = s.drop_last();
        lemma_distinct_properties(front);
        assert forall|c: A| distinct(s).contains(c) == s.contains(c) by {
            assert(distinct(front).contains(c) == front.contains(c));
            if s.contains(c) {
                let i = choose|i: int| 0 <= i < s.len() && s[i] == c;
                if i < front.len() {
                    assert(front[i] == c);
                    let j = choose|j: int| 0 <= j < distinct(front).len() && distinct(front)[j] == c;
                    assert(distinct(s)[j] == c);
                } else if front.contains(c) {
                    let j = choose|j: int| 0 <= j < distinct(front).len() && distinct(front)[j] == c;
                    assert(distinct(s)[j] == c);
                } else {
                    assert(distinct(s)[distinct(front).len() as int] == c);
                }
            }
            if distinct(s).contains(c) {
                let j = choose|j: int| 0 <= j < distinct(s).len() && distinct(s)[j] == c;
                if j < distinct(front).len() {
                    assert(distinct(front)[j] == c);
                    let i = choose|i: int| 0 <= i < front.len() && front[i] == c;
                    assert(s[i] == c);
                } else {
                    assert(s[s.len() - 1] == c);
                }
            }
        }
    }
}

/// `distinct` of a sequence with one more item.
pub proof fn lemma_distinct_push<A>(s: Seq<A>, c: A)
    ensures
        distinct(s.push(c)) == if s.contains(c) {
            distinct(s)
        } else {
            distinct(s).push(c)
        },
{
    assert(s.push(c).drop_last() =~= s);
}

/// The characters `chars[from..to]`.
pub fn slice_of(chars: &Vec<char>, from: usize, to: usize) -> (r: Vec<char>)
    requires
        from <= to <= chars@.len(),
    ensures
        r@ == chars@.subrange(from as int, to as int),
{
    let mut r: Vec<char> = Vec::new();
    let mut i: usize = from;
    while i < to
        invariant
            from <= i <= to <= chars@.len(),
            r@ == chars@.subrange(from as int, i as int),
        decreases to - i,
    {
        r.push(chars[i]);
        i += 1;
        assert(r@ =~= chars@.subrange(from as int, i as int));
    }
    r
}

/// The sequences that a list of vectors holds.
pub open spec fn rows(v: Seq<Vec<char>>) -> Seq<Seq<char>> {
    v.map_values(|x: Vec<char>| x@)
}

/// `s` in ASCII lower case: the letters `A` to `Z` become `a` to `z`.
pub open spec fn lowered(s: Seq<char>) -> Seq<char> {
    s.map_values(|c: char| ascii_lower(c))
}

/// `chars` in ASCII lower case.
pub fn to_lowercase(chars: &Vec<char>) -> (r: Vec<char>)
    ensures
        r@ == lowered(chars@),
{
    let mut r: Vec<char> = Vec::new();
    for i in 0..chars.len()
        invariant
            r@ == lowered(chars@.take(i as int)),
    {
        r.push(chars[i].to_ascii_lowercase());
        assert(r@ =~= lowered(chars@.take(i + 1)));
    }
    assert(chars@.take(chars@.len() as int) =~= chars@);
    r
}

/// `s` without the white space at its start.
pub open spec fn trim_start(s: Seq<char>) -> Seq<char>
    decreases s.len(),
{
    if s.len() > 0 && white_space(s[0]) {
        trim_start(s.drop_first())
    } else {
        s
    }
}

/// `s` without the white space at its end.
pub open spec fn trim_end(s: Seq<char>) -> Seq<char>
    decreases s.len(),
{
    if s.len() > 0 && white_space(s.last()) {
        trim_end(s.drop_last())
    } else {
        s
    }
}

/// `s` without the white space at its start and at its end.
pub open spec fn trimmed(s: Seq<char>) -> Seq<char> {
    trim_end(trim_start(s))
}

/// A text that neither starts nor ends with white space is trimmed already.
pub proof fn lemma_bare_text_is_trimmed(s: Seq<char>)
    requires
        s.len() > 0 ==> !white_space(s[0]) && !white_space(s.last()),
    ensures
        trimmed(s) == s,
{
}

/// `chars` without the white space at its start and at its end.
pub fn trim(chars: &Vec<char>) -> (r: Vec<char>)
    ensures
        r@ == trimmed(chars@),
{
    let mut start: usize = 0;
    assert(chars@.skip(0) =~= chars@);
    while start < chars.len() && chars[start].is_whitespace()
        invariant
            start <= chars@.len(),
            trim_start(chars@) == trim_start(chars@.skip(start as int)),
        decreases chars@.len() - start,
    {
        assert(chars@.skip(start as int).drop_first() =~= chars@.skip(start + 1));
        start += 1;
    }
    assert(trim_start(chars@) == chars@.skip(start as int));
    let mut end: usize = chars.len();
    assert(chars@.skip(start as int) =~= chars@.subrange(start as int, end as int));
    while end > start && chars[end - 1].is_whitespace()
        invariant
            start <= end <= chars@.len(),
            trimmed(chars@) == trim_end(chars@.subrange(start as int, end as int)),
        decreases end,
    {
        assert(chars@.subrange(start as int, end as int).drop_last() =~= chars@.subrange(
            start as int,
            end - 1,
        ));
        end -= 1;
    }
    slice_of(chars, start, end)
}

/// The number of characters of `s` that stand before the first `sep`; the
/// length of `s` where there is no `sep`.
pub open spec fn first_index(s: Seq<char>, sep: char) -> int
    decreases s.len(),
{
    if s.len() == 0 || s[0] == sep {
        0
    } else {
        1 + first_index(s.drop_first(), sep)
    }
}

/// `first_index` is the place of the first `sep`.
pub proof fn lemma_first_index(s: Seq<char>, sep: char)
    ensures
        0 <= first_index(s, sep) <= s.len(),
        forall|j: int| 0 <= j < first_index(s, sep) ==> s[j] != sep,
        first_index(s, sep) < s.len() ==> s[first_index(s, sep)] == sep,
        (first_index(s, sep) == s.len()) == !s.contains(sep),
    decreases s.len(),
{
    if s.len() > 0 && s[0] != sep {
        let rest = s.drop_first();
        lemma_first_index(rest, sep);
        assert forall|j: int| 0 <= j < first_index(s, sep) implies s[j] != sep by {
            if j > 0 {
                assert(rest[j - 1] == s[j]);
            }
        }
        if first_index(s, sep) < s.len() {
            assert(rest[first_index(rest, sep)] == s[first_index(s, sep)]);
        }
    }
}

/// The place of the first `sep` at or after `from`; the length of `chars`
/// where there is none.
pub fn find_char(chars: &Vec<char>, from: usize, sep: char) -> (at: usize)
    requires
        from <= chars@.len(),
    ensures
        from <= at <= chars@.len(),
        at - from == first_index(chars@.skip(from as int), sep),
{
    let ghost rest = chars@.skip(from as int);
    let mut at: usize = from;
    while at < chars.len() && chars[at] != sep
        invariant
            from <= at <= chars@.len(),
            rest == chars@.skip(from as int),
            first_index(rest, sep) == (at - from) + first_index(chars@.skip(at as int), sep),
        decreases chars@.len() - at,
    {
        assert(chars@.skip(at as int).drop_first() =~= chars@.skip(at + 1));
        at += 1;
    }
    at
}

/// A line without the carriage return that ends it, if one does.
pub open spec fn without_return(line: Seq<char>) -> Seq<char> {
    if line.len() > 0 && line.last() == '\r' {
        line.drop_last()
    } else {
        line
    }
}

/// The lines of a text.
///
/// A line ends at a line feed, or at a carriage return followed by a line
/// feed; neither belongs to the line. What follows the last line feed is a
/// line too, unless it is empty.
pub open spec fn lines_of(s: Seq<char>) -> Seq<Seq<char>>
    decreases s.len(),
{
    let n = first_index(s, '\n');
    if s.len() == 0 {
        Seq::empty()
    } else if 0 <= n < s.len() {
        seq![without_return(s.take(n))] + lines_of(s.skip(n + 1))
    } else {
        seq![s]
    }
}

/// The lines of `content`.
pub fn lines(content: &str) -> (r: Vec<Vec<char>>)
    ensures
        rows(r@) == lines_of(content@),
{
    let chars = chars_of(content);
    let mut out: Vec<Vec<char>> = Vec::new();
    let mut pos: usize = 0;
    assert(chars@.skip(0) =~= chars@);
    assert(rows(out@) + lines_of(chars@) =~= lines_of(chars@));
    while pos < chars.len()
        invariant
            pos <= chars@.len(),
            lines_of(chars@) == rows(out@) + lines_of(chars@.skip(pos as int)),
        decreases chars@.len() - pos,
    {
        let ghost rest = chars@.skip(pos as int);
        let ghost done = rows(out@);
        let end = find_char(&chars, pos, '\n');
        proof {
            lemma_first_index(rest, '\n');
            assert(rest.take(end - pos) =~= chars@.subrange(pos as int, end as int));
        }
        if end < chars.len() {
            let stop = if end > pos && chars[end - 1] == '\r' {
                end - 1
            } else {
                end
            };
            let line = slice_of(&chars, pos, stop);
            assert(line@ =~= without_return(rest.take(end - pos)));
            assert(rest.skip(end - pos + 1) =~= chars@.skip(end + 1));
            out.push(line);
            assert(rows(out@) =~= done.push(line@));
            assert(done.push(line@) + lines_of(chars@.skip(end + 1)) =~= done + (seq![line@]
                + lines_of(chars@.skip(end + 1))));
            pos = end + 1;
        } else {
            let line = slice_of(&chars, pos, end);
            assert(line@ =~= rest);
            out.push(line);
            assert(rows(out@) =~= done.push(line@));
            pos = end;
            assert(chars@.skip(pos as int).len() == 0);
            assert(done.push(line@) + lines_of(chars@.skip(pos as int)) =~= done + seq![rest]);
        }
    }
    assert(rows(out@) + lines_of(chars@.skip(pos as int)) =~= rows(out@));
    out
}

/// The two parts of `s` around its first `sep`.
pub open spec fn split_once_at(s: Seq<char>, sep: char) -> Option<(Seq<char>, Seq<char>)> {
    if s.contains(sep) {
        Some((s.take(first_index(s, sep)), s.skip(first_index(s, sep) + 1)))
    } else {
        None
    }
}

/// Splits `chars` at its first `sep`: what stands before it and what stands
/// after it, or nothing where `chars` holds no `sep`.
pub fn split_once(chars: &Vec<char>, sep: char) -> (r: Option<(Vec<char>, Vec<char>)>)
    ensures
        match r {
            Some((head, tail)) => split_once_at(chars@, sep) == Some((head@, tail@)),
            None => split_once_at(chars@, sep) is None,
        },
{
    let at = find_char(chars, 0, sep);
    proof {
        assert(chars@.skip(0) =~= chars@);
        lemma_first_index(chars@, sep);
    }
    if at < chars.len() {
        let head = slice_of(chars, 0, at);
        let tail = slice_of(chars, at + 1, chars.len());
        assert(head@ =~= chars@.take(at as int));
        assert(tail@ =~= chars@.skip(at + 1));
        Some((head, tail))
    } else {
        None
    }
}

/// The pieces of `s` between the occurrences of `sep`: one more than there are
/// occurrences.
pub open spec fn pieces(s: Seq<char>, sep: char) -> Seq<Seq<char>>
    decreases s.len(),
{
    let n = first_index(s, sep);
    if 0 <= n < s.len() {
        seq![s.take(n)] + pieces(s.skip(n + 1), sep)
    } else {
        seq![s]
    }
}

/// The pieces of `chars` between the occurrences of `sep`.
pub fn split(chars: &Vec<char>, sep: char) -> (r: Vec<Vec<char>>)
    ensures
        rows(r@) == pieces(chars@, sep),
{
    let mut out: Vec<Vec<char>> = Vec::new();
    let mut pos: usize = 0;
    assert(chars@.skip(0) =~= chars@);
    assert(rows(out@) + pieces(chars@, sep) =~= pieces(chars@, sep));
    loop
        invariant_except_break
            pos <= chars@.len(),
            pieces(chars@, sep) == rows(out@) + pieces(chars@.skip(pos as int), sep),
        ensures
            rows(out@) == pieces(chars@, sep),
        decreases chars@.len() - pos,
    {
        let ghost rest = chars@.skip(pos as int);
        let ghost done = rows(out@);
        let end = find_char(chars, pos, sep);
        proof {
            lemma_first_index(rest, sep);
            assert(rest.take(end - pos) =~= chars@.subrange(pos as int, end as int));
        }
        let piece = slice_of(chars, pos, end);
        out.push(piece);
        assert(rows(out@) =~= done.push(piece@));
        if end < chars.len() {
            assert(rest.skip(end - pos + 1) =~= chars@.skip(end + 1));
            assert(done.push(piece@) + pieces(chars@.skip(end + 1), sep) =~= done + (seq![piece@]
                + pieces(chars@.skip(end + 1), sep)));
            pos = end + 1;
        } else {
            assert(piece@ =~= rest);
            assert(done.push(piece@) =~= done + seq![rest]);
            break;
        }
    }
    out
}

/// What follows `prefix` in `s`, where `s` starts with `prefix`.
pub open spec fn without_prefix(s: Seq<char>, prefix: Seq<char>) -> Option<Seq<char>> {
    if prefix.is_prefix_of(s) {
        Some(s.skip(prefix.len() as int))
    } else {
        None
    }
}

/// What follows `prefix` in `chars`, or nothing where `chars` does not start
/// with `prefix`.
pub fn strip_prefix(chars: &Vec<char>, prefix: &str) -> (r: Option<Vec<char>>)
    ensures
        match r {
            Some(rest) => without_prefix(chars@, prefix@) == Some(rest@),
            None => without_prefix(chars@, prefix@) is None,
        },
{
    let head = chars_of(prefix);
    if head.len() > chars.len() {
        return None;
    }
    for i in 0..head.len()
        invariant
            head@ == prefix@,
            head@.len() <= chars@.len(),
            forall|j: int| 0 <= j < i ==> head@[j] == chars@[j],
    {
        if head[i] != chars[i] {
            assert(!prefix@.is_prefix_of(chars@)) by {
                if prefix@.is_prefix_of(chars@) {
                    assert(chars@.subrange(0, prefix@.len() as int)[i as int] == prefix@[i as int]);
                }
            }
            return None;
        }
    }
    assert(prefix@ =~= chars@.subrange(0, prefix@.len() as int));
    let rest = slice_of(chars, head.len(), chars.len());
    assert(rest@ =~= chars@.skip(prefix@.len() as int));
    Some(rest)
}

} // verus!
