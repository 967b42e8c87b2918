//! Text as sequences of characters: white space, trimming, splitting and searching.
//!
//! Strings are turned into characters once, with [`chars_of`], and the functions
//! of this module then work on borrowed slices of them.

use vstd::prelude::*;
use vstd::slice::slice_subrange;

verus! {

/// `String::push` appends one character at the end of the string and changes
/// nothing else.
pub assume_specification[ String::push ](s: &mut String, c: char)
    ensures
        final(s)@ == old(s)@.push(c),
;

/// The characters that Unicode gives the property `White_Space`.
pub open spec fn is_white_space(c: char) -> bool {
    let n = c as u32;
    ||| 0x9 <= n <= 0xd
    ||| n == 0x20
    ||| n == 0x85
    ||| n == 0xa0
    ||| n == 0x1680
    ||| 0x2000 <= n <= 0x200a
    ||| n == 0x2028
    ||| n == 0x2029
    ||| n == 0x202f
    ||| n == 0x205f
    ||| n == 0x3000
}

/// Whether a text holds nothing but white space.
pub open spec fn is_blank(s: Seq<char>) -> bool {
    forall|i: int| 0 <= i < s.len() ==> is_white_space(#[trigger] s[i])
}

/// A text without its leading white space.
pub open spec fn trimmed_start(s: Seq<char>) -> Seq<char>
    decreases s.len(),
{
    if s.len() > 0 && is_white_space(s[0]) {
        trimmed_start(s.skip(1))
    } else {
        s
    }
}

/// A text without its trailing white space.
pub open spec fn trimmed_end(s: Seq<char>) -> Seq<char>
    decreases s.len(),
{
    if s.len() > 0 && is_white_space(s.last()) {
        trimmed_end(s.drop_last())
    } else {
        s
    }
}

/// A text without the white space at its two ends.
pub open spec fn trimmed(s: Seq<char>) -> Seq<char> {
    trimmed_end(trimmed_start(s))
}

/// A text without the run of `c` at its end.
pub open spec fn without_trailing(s: Seq<char>, c: char) -> Seq<char>
    decreases s.len(),
{
    if s.len() > 0 && s.last() == c {
        without_trailing(s.drop_last(), c)
    } else {
        s
    }
}

/// The pieces of a text between the occurrences of `sep`; a text without `sep`
/// is one piece.
pub open spec fn split_on(s: Seq<char>, sep: char) -> Seq<Seq<char>>
    decreases s.len(),
{
    if s.len() == 0 {
        seq![Seq::empty()]
    } else {
        let front = split_on(s.drop_last(), sep);
        if s.last() == sep {
            front.push(Seq::empty())
        } else {
            front.drop_last().push(front.last().push(s.last()))
        }
    }
}

/// The texts one after the other, with `sep` between each two.
pub open spec fn joined(parts: Seq<Seq<char>>, sep: char) -> Seq<char>
    decreases parts.len(),
{
    if parts.len() == 0 {
        Seq::empty()
    } else if parts.len() == 1 {
        parts[0]
    } else {
        joined(parts.drop_last(), sep).push(sep) + parts.last()
    }
}

/// A line without the carriage return before its newline.
pub open spec fn without_cr(line: Seq<char>) -> Seq<char> {
    if line.len() > 0 && line.last() == '\r' {
        line.drop_last()
    } else {
        line
    }
}

/// The lines of a text. A newline, or a carriage return and a newline, ends a
/// line; the last line need not be ended.
pub open spec fn lines_of(s: Seq<char>) -> Seq<Seq<char>> {
    let parts = split_on(s, '\n');
    let ended = parts.drop_last().map_values(|line: Seq<char>| without_cr(line));
    if parts.last().len() == 0 {
        ended
    } else {
        ended.push(parts.last())
    }
}

/// The longest prefix of a text that holds no white space.
pub open spec fn leading_word(s: Seq<char>) -> Seq<char>
    decreases s.len(),
{
    if s.len() == 0 || is_white_space(s[0]) {
        Seq::empty()
    } else {
        seq![s[0]] + leading_word(s.skip(1))
    }
}

/// The first of the words that white space separates; empty in a blank text.
pub open spec fn first_word(s: Seq<char>) -> Seq<char> {
    leading_word(trimmed_start(s))
}

/// The first position, from `i` on, of two spaces in a row.
pub open spec fn gap_from(s: Seq<char>, i: int) -> Option<int>
    decreases s.len() - i,
{
    if i + 1 >= s.len() {
        None
    } else if s[i] == ' ' && s[i + 1] == ' ' {
        Some(i)
    } else {
        gap_from(s, i + 1)
    }
}

/// A letter from `a` to `z` as its capital; any other character as it is.
pub open spec fn ascii_upper(c: char) -> char {
    if 'a' <= c <= 'z' {
        (c as u32 - 32) as char
    } else {
        c
    }
}

/// The views of a sequence of strings.
pub open spec fn views(v: Seq<String>) -> Seq<Seq<char>> {
    v.map_values(|s: String| s@)
}

/// The view of an optional string.
pub open spec fn opt_view(o: Option<String>) -> Option<Seq<char>> {
    match o {
        Some(s) => Some(s@),
        None => None,
    }
}

/// The views of a sequence of character slices.
pub open spec fn slice_views(v: Seq<&[char]>) -> Seq<Seq<char>> {
    v.map_values(|s: &[char]| s@)
}

/// The characters of a string.
pub fn chars_of(s: &str) -> (r: Vec<char>)
    ensures
        r@ == s@,
{
    let mut r: Vec<char> = Vec::new();
    for c in iter: s.chars()
        invariant
            r@ == s@.take(iter.index() as int),
            iter.seq() == s@,
    {
        r.push(c);
        assert(s@.take(iter.index() + 1) =~= s@.take(iter.index() as int).push(c));
    }
    assert(s@.take(s@.len() as int) =~= s@);
    r
}

/// The string made of the given characters.
pub fn string_of(s: &[char]) -> (r: String)
    ensures
        r@ == s@,
{
    let mut r = String::new();
    for i in 0..s.len()
        invariant
            r@ == s@.take(i as int),
    {
        r.push(s[i]);
        assert(s@.take(i + 1) =~= s@.take(i as int).push(s@[i as int]));
    }
    assert(s@.take(s@.len() as int) =~= s@);
    r
}

/// Appends a text to a vector of characters.
pub fn push_text(v: &mut Vec<char>, s: &str)
    ensures
        final(v)@ == old(v)@ + s@,
{
    let mut tail = chars_of(s);
    v.append(&mut tail);
}

/// Whether two texts are the same.
pub fn same_text(a: &str, b: &str) -> (r: bool)
    ensures
        r == (a@ == b@),
{
    let x = chars_of(a);
    let y = chars_of(b);
    same_chars(&x, &y)
}

/// Whether two sequences of characters are the same.
pub fn same_chars(a: &[char], b: &[char]) -> (r: bool)
    ensures
        r == (a@ == b@),
{
    if a.len() != b.len() {
        return false;
    }
    for i in 0..a.len()
        invariant
            a@.len() == b@.len(),
            a@.take(i as int) == b@.take(i as int),
    {
        if a[i] != b[i] {
            assert(a@[i as int] != b@[i as int]);
            return false;
        }
        assert(a@.take(i + 1) =~= a@.take(i as int).push(a@[i as int]));
        assert(b@.take(i + 1) =~= b@.take(i as int).push(b@[i as int]));
    }
    assert(a@.take(a@.len() as int) =~= a@);
    assert(b@.take(b@.len() as int) =~= b@);
    true
}

/// Whether a text begins with `prefix`.
pub fn starts_with(s: &[char], prefix: &str) -> (r: bool)
    ensures
        r == prefix@.is_prefix_of(s@),
{
    let p = chars_of(prefix);
    if p.len() > s.len() {
        return false;
    }
    same_chars(slice_subrange(s, 0, p.len()), &p)
}

/// Whether a character is white space.
pub fn white_space(c: char) -> (r: bool)
    ensures
        r == is_white_space(c),
{
    let n: u32 = c as u32;
    (0x9 <= n && n <= 0xd) || n == 0x20 || n == 0x85 || n == 0xa0 || n == 0x1680 || (0x2000 <= n
        && n <= 0x200a) || n == 0x2028 || n == 0x2029 || n == 0x202f || n == 0x205f || n == 0x3000
}

/// A text without its leading white space.
pub fn trim_start<'a>(s: &'a [char]) -> (r: &'a [char])
    ensures
        r@ == trimmed_start(s@),
{
    let mut i: usize = 0;
    assert(s@.skip(0) =~= s@);
    while i < s.len() && white_space(s[i])
        invariant
            i <= s@.len(),
            trimmed_start(s@) == trimmed_start(s@.skip(i as int)),
        decreases s@.len() - i,
    {
        assert(s@.skip(i as int).skip(1) =~= s@.skip(i + 1));
        i = i + 1;
    }
    slice_subrange(s, i, s.len())
}

/// A text without its trailing white space.
pub fn trim_end<'a>(s: &'a [char]) -> (r: &'a [char])
    ensures
        r@ == trimmed_end(s@),
{
    let mut n: usize = s.len();
    assert(s@.take(n as int) =~= s@);
    while n > 0 && white_space(s[n - 1])
        invariant
            n <= s@.len(),
            trimmed_end(s@) == trimmed_end(s@.take(n as int)),
        decreases n,
    {
        assert(s@.take(n as int).drop_last() =~= s@.take(n - 1));
        n = n - 1;
    }
    slice_subrange(s, 0, n)
}

/// A text without the white space at its two ends.
pub fn trim<'a>(s: &'a [char]) -> (r: &'a [char])
    ensures
        r@ == trimmed(s@),
{
    trim_end(trim_start(s))
}

/// A text without the run of `c` at its end.
pub fn trim_trailing<'a>(s: &'a [char], c: char) -> (r: &'a [char])
    ensures
        r@ == without_trailing(s@, c),
{
    let mut n: usize = s.len();
    assert(s@.take(n as int) =~= s@);
    while n > 0 && s[n - 1] == c
        invariant
            n <= s@.len(),
            without_trailing(s@, c) == without_trailing(s@.take(n as int), c),
        decreases n,
    {
        assert(s@.take(n as int).drop_last() =~= s@.take(n - 1));
        n = n - 1;
    }
    slice_subrange(s, 0, n)
}

/// Whether a text holds nothing but white space.
pub fn blank(s: &[char]) -> (r: bool)
    ensures
        r == is_blank(s@),
{
    for i in 0..s.len()
        invariant
            forall|k: int| 0 <= k < i ==> is_white_space(#[trigger] s@[k]),
    {
        if !white_space(s[i]) {
            assert(!is_white_space(s@[i as int]));
            return false;
        }
    }
    true
}

/// The pieces of a text between the occurrences of `sep`.
pub fn split<'a>(s: &'a [char], sep: char) -> (r: Vec<&'a [char]>)
    ensures
        slice_views(r@) == split_on(s@, sep),
{
    let mut parts: Vec<&'a [char]> = Vec::new();
    let mut start: usize = 0;
    let ghost mut done: Seq<Seq<char>> = Seq::empty();
    assert(s@.subrange(0, 0) =~= Seq::empty());
    for i in 0..s.len()
        invariant
            start <= i <= s@.len(),
            slice_views(parts@) == done,
            done.push(s@.subrange(start as int, i as int)) == split_on(s@.take(i as int), sep),
    {
        let ghost before = split_on(s@.take(i as int), sep);
        assert(s@.take(i + 1).drop_last() =~= s@.take(i as int));
        assert(s@.take(i + 1).last() == s@[i as int]);
        assert(before.last() == s@.subrange(start as int, i as int));
        assert(before.drop_last() =~= done);
        if s[i] == sep {
            let part = slice_subrange(s, start, i);
            let ghost old_parts = parts@;
            parts.push(part);
            start = i + 1;
            proof {
                assert(slice_views(parts@) =~= slice_views(old_parts).push(part@));
                done = before;
                assert(slice_views(parts@) =~= done);
                assert(s@.subrange(start as int, i + 1) =~= Seq::empty());
            }
        } else {
            assert(s@.subrange(start as int, i + 1) =~= s@.subrange(start as int, i as int).push(
                s@[i as int],
            ));
        }
    }
    let last = slice_subrange(s, start, s.len());
    let ghost old_parts = parts@;
    parts.push(last);
    proof {
        assert(slice_views(parts@) =~= slice_views(old_parts).push(last@));
        assert(s@.take(s@.len() as int) =~= s@);
    }
    parts
}

/// The lines of a text.
pub fn lines<'a>(s: &'a [char]) -> (r: Vec<&'a [char]>)
    ensures
        slice_views(r@) == lines_of(s@),
{
    let parts = split(s, '\n');
    let ghost pieces = split_on(s@, '\n');
    proof {
        lemma_split_nonempty(s@, '\n');
        assert(slice_views(parts@).len() == parts@.len());
    }
    let n: usize = parts.len();
    let mut r: Vec<&'a [char]> = Vec::new();
    for i in 0..n - 1
        invariant
            n == parts@.len(),
            n >= 1,
            pieces == slice_views(parts@),
            r@.len() == i,
            forall|k: int| 0 <= k < i ==> #[trigger] r@[k]@ == without_cr(pieces[k]),
    {
        let part = parts[i];
        assert(part@ == pieces[i as int]);
        let m: usize = part.len();
        if m > 0 && part[m - 1] == '\r' {
            let line = slice_subrange(part, 0, m - 1);
            assert(line@ =~= part@.drop_last());
            r.push(line);
        } else {
            r.push(part);
        }
    }
    let ghost ended = pieces.drop_last().map_values(|line: Seq<char>| without_cr(line));
    assert(slice_views(r@) =~= ended);
    let last = parts[n - 1];
    assert(last@ == pieces.last());
    if last.len() > 0 {
        let ghost old_r = r@;
        r.push(last);
        assert(slice_views(r@) =~= slice_views(old_r).push(last@));
    }
    r
}

/// The first of the words that white space separates.
pub fn word<'a>(s: &'a [char]) -> (r: &'a [char])
    ensures
        r@ == first_word(s@),
{
    let t = trim_start(s);
    let mut n: usize = 0;
    assert(t@.skip(0) =~= t@);
    assert(t@.take(0) + leading_word(t@) =~= leading_word(t@));
    while n < t.len() && !white_space(t[n])
        invariant
            n <= t@.len(),
            t@.take(n as int) + leading_word(t@.skip(n as int)) == leading_word(t@),
        decreases t@.len() - n,
    {
        proof {
            let rest = t@.skip(n as int);
            assert(rest.skip(1) =~= t@.skip(n + 1));
            assert(t@.take(n as int) + (seq![rest[0]] + leading_word(rest.skip(1))) =~= t@.take(
                n + 1,
            ) + leading_word(t@.skip(n + 1)));
        }
        n = n + 1;
    }
    assert(leading_word(t@.skip(n as int)) =~= Seq::empty());
    assert(t@.take(n as int) + Seq::<char>::empty() =~= t@.take(n as int));
    slice_subrange(t, 0, n)
}

/// The first position of two spaces in a row.
pub fn find_gap(s: &[char]) -> (r: Option<usize>)
    ensures
        match r {
            Some(i) => gap_from(s@, 0) == Some(i as int) && i + 1 < s@.len(),
            None => gap_from(s@, 0) is None,
        },
{
    let n: usize = s.len();
    let mut i: usize = 0;
    while i < n && i + 1 < n
        invariant
            n == s@.len(),
            i <= n,
            gap_from(s@, 0) == gap_from(s@, i as int),
        decreases n - i,
    {
        if s[i] == ' ' && s[i + 1] == ' ' {
            return Some(i);
        }
        i = i + 1;
    }
    None
}

/// A letter from `a` to `z` as its capital; any other character as it is.
pub fn to_ascii_upper(c: char) -> (r: char)
    ensures
        r == ascii_upper(c),
{
    match c {
        'a' => 'A',
        'b' => 'B',
        'c' => 'C',
        'd' => 'D',
        'e' => 'E',
        'f' => 'F',
        'g' => 'G',
        'h' => 'H',
        'i' => 'I',
        'j' => 'J',
        'k' => 'K',
        'l' => 'L',
        'm' => 'M',
        'n' => 'N',
        'o' => 'O',
        'p' => 'P',
        'q' => 'Q',
        'r' => 'R',
        's' => 'S',
        't' => 'T',
        'u' => 'U',
        'v' => 'V',
        'w' => 'W',
        'x' => 'X',
        'y' => 'Y',
        'z' => 'Z',
        _ => c,
    }
}

/// A text has at least one piece.
pub proof fn lemma_split_nonempty(s: Seq<char>, sep: char)
    ensures
        split_on(s, sep).len() >= 1,
    decreases s.len(),
{
    if s.len() > 0 {
        lemma_split_nonempty(s.drop_last(), sep);
    }
}

/// A piece without the separator, put behind a separator, is the last piece.
proof fn lemma_split_append(s: Seq<char>, sep: char, tail: Seq<char>)
    requires
        !tail.contains(sep),
    ensures
        split_on(s.push(sep) + tail, sep) == split_on(s, sep).push(tail),
{
    lemma_split_at(s, tail, sep);
    lemma_split_single(tail, sep);
    assert(split_on(s, sep) + seq![tail] =~= split_on(s, sep).push(tail));
}

/// A text without the separator is its own only piece.
pub proof fn lemma_split_single(s: Seq<char>, sep: char)
    requires
        !s.contains(sep),
    ensures
        split_on(s, sep) == seq![s],
    decreases s.len(),
{
    if s.len() == 0 {
        assert(s =~= Seq::empty());
    } else {
        let shorter = s.drop_last();
        assert forall|c: char| shorter.contains(c) implies s.contains(c) by {
            let i = choose|i: int| 0 <= i < shorter.len() && shorter[i] == c;
            assert(s[i] == c);
        }
        lemma_split_single(shorter, sep);
        assert(s[s.len() - 1] == s.last());
        assert(seq![shorter].drop_last() =~= Seq::empty());
        assert(shorter.push(s.last()) =~= s);
        assert(Seq::<Seq<char>>::empty().push(s) =~= seq![s]);
    }
}

/// Splitting loses nothing: the pieces hold no separator, and joined by it they
/// are the text again.
pub proof fn law_split_then_join(s: Seq<char>, sep: char)
    ensures
        joined(split_on(s, sep), sep) == s,
        forall|i: int|
            0 <= i < split_on(s, sep).len() ==> !(#[trigger] split_on(s, sep)[i]).contains(sep),
    decreases s.len(),
{
    let parts = split_on(s, sep);
    lemma_split_nonempty(s, sep);
    if s.len() > 0 {
        let front = split_on(s.drop_last(), sep);
        law_split_then_join(s.drop_last(), sep);
        lemma_split_nonempty(s.drop_last(), sep);
        if s.last() == sep {
            assert(parts.drop_last() =~= front);
            assert(joined(parts, sep) =~= s.drop_last().push(sep));
            assert forall|i: int| 0 <= i < parts.len() implies !(
            #[trigger] parts[i]).contains(sep) by {
                if i < front.len() {
                    assert(parts[i] == front[i]);
                }
            }
        } else {
            assert(parts.drop_last() =~= front.drop_last());
            assert(parts.last() == front.last().push(s.last()));
            assert(joined(parts, sep) =~= joined(front, sep).push(s.last()));
            assert forall|i: int| 0 <= i < parts.len() implies !(
            #[trigger] parts[i]).contains(sep) by {
                if i < front.len() - 1 {
                    assert(parts[i] == front[i]);
                } else {
                    let f = front[front.len() - 1];
                    assert(!f.contains(sep));
                    if parts[i].contains(sep) {
                        let k = choose|k: int| 0 <= k < parts[i].len() && parts[i][k] == sep;
                        assert(k < f.len());
                        assert(f[k] == sep);
                    }
                }
            }
        }
        assert(s.drop_last().push(s.last()) =~= s);
    }
}

/// Joining loses nothing either: texts without the separator, joined by it, are
/// the pieces of the result.
pub proof fn law_join_then_split(parts: Seq<Seq<char>>, sep: char)
    requires
        parts.len() >= 1,
        forall|i: int| 0 <= i < parts.len() ==> !(#[trigger] parts[i]).contains(sep),
    ensures
        split_on(joined(parts, sep), sep) == parts,
    decreases parts.len(),
{
    if parts.len() == 1 {
        lemma_split_single(parts[0], sep);
        assert(parts =~= seq![parts[0]]);
    } else {
        let front = parts.drop_last();
        assert forall|i: int| 0 <= i < front.len() implies !(#[trigger] front[i]).contains(sep) by {
            assert(front[i] == parts[i]);
        }
        law_join_then_split(front, sep);
        assert(!parts[parts.len() - 1].contains(sep));
        lemma_split_append(joined(front, sep), sep, parts.last());
        assert(front.push(parts.last()) =~= parts);
    }
}

/// Trimming takes off white space only, and leaves none at the two ends.
pub proof fn law_trimmed(s: Seq<char>)
    ensures
        exists|before: Seq<char>, after: Seq<char>|
            #![trigger before + trimmed(s) + after]
            is_blank(before) && is_blank(after) && s == before + trimmed(s) + after,
        trimmed(s).len() > 0 ==> !is_white_space(trimmed(s)[0]) && !is_white_space(
            trimmed(s).last(),
        ),
{
    lemma_trimmed_start(s);
    let t = trimmed_start(s);
    lemma_trimmed_end(t);
    let before = s.take(s.len() - t.len());
    let after = t.skip(trimmed(s).len() as int);
    assert(s =~= before + trimmed(s) + after);
}

/// What trimming the start leaves: a suffix of the text, behind white space only.
pub proof fn lemma_trimmed_start(s: Seq<char>)
    ensures
        trimmed_start(s).len() <= s.len(),
        trimmed_start(s) == s.skip(s.len() - trimmed_start(s).len()),
        is_blank(s.take(s.len() - trimmed_start(s).len())),
        trimmed_start(s).len() > 0 ==> !is_white_space(trimmed_start(s)[0]),
    decreases s.len(),
{
    if s.len() > 0 && is_white_space(s[0]) {
        let rest = s.skip(1);
        lemma_trimmed_start(rest);
        let n = s.len() - trimmed_start(s).len();
        assert(trimmed_start(s) =~= s.skip(n));
        assert forall|i: int| 0 <= i < n implies is_white_space(#[trigger] s.take(n)[i]) by {
            if i > 0 {
                assert(is_white_space(rest.take(n - 1)[i - 1]));
            }
        }
    } else {
        assert(s.skip(0) =~= s);
    }
}

/// What trimming the end leaves: a prefix of the text, before white space only.
pub proof fn lemma_trimmed_end(s: Seq<char>)
    ensures
        trimmed_end(s).len() <= s.len(),
        trimmed_end(s) == s.take(trimmed_end(s).len() as int),
        is_blank(s.skip(trimmed_end(s).len() as int)),
        trimmed_end(s).len() > 0 ==> !is_white_space(trimmed_end(s).last()),
        trimmed_end(s).len() > 0 ==> trimmed_end(s)[0] == s[0],
    decreases s.len(),
{
    if s.len() > 0 && is_white_space(s.last()) {
        let rest = s.drop_last();
        lemma_trimmed_end(rest);
        let n = trimmed_end(s).len() as int;
        assert(trimmed_end(s) =~= s.take(n));
        assert forall|i: int| 0 <= i < s.len() - n implies is_white_space(
            #[trigger] s.skip(n)[i],
        ) by {
            if i < rest.len() - n {
                assert(is_white_space(rest.skip(n)[i]));
            }
        }
    } else {
        assert(s.take(s.len() as int) =~= s);
    }
}

/// White space before a text does not change the text without its leading white
/// space.
pub proof fn lemma_trimmed_start_skips_blank(blank: Seq<char>, s: Seq<char>)
    requires
        is_blank(blank),
    ensures
        trimmed_start(blank + s) == trimmed_start(s),
    decreases blank.len(),
{
    if blank.len() == 0 {
        assert(blank + s =~= s);
    } else {
        assert(is_white_space(blank[0]));
        assert((blank + s)[0] == blank[0]);
        assert((blank + s).skip(1) =~= blank.skip(1) + s);
        assert(is_blank(blank.skip(1)));
        lemma_trimmed_start_skips_blank(blank.skip(1), s);
    }
}

/// A text is blank exactly when trimming leaves nothing of it.
pub proof fn lemma_blank_is_trimmed_empty(s: Seq<char>)
    ensures
        is_blank(s) <==> trimmed(s).len() == 0,
        is_blank(s) <==> trimmed_start(s).len() == 0,
{
    lemma_trimmed_start(s);
    let t = trimmed_start(s);
    lemma_trimmed_end(t);
    let n = s.len() - t.len();
    if is_blank(s) {
        if t.len() > 0 {
            assert(s[n] == t[0]);
            assert(false);
        }
    }
    if t.len() == 0 {
        assert(s.take(n) =~= s);
    }
    if trimmed(s).len() == 0 && t.len() > 0 {
        assert(t.skip(0)[0] == t[0]);
    }
}

/// A text without the separator, put before another, belongs to its first piece.
pub proof fn lemma_split_prefix(prefix: Seq<char>, s: Seq<char>, sep: char)
    requires
        !prefix.contains(sep),
    ensures
        split_on(prefix + s, sep) == split_on(s, sep).update(0, prefix + split_on(s, sep)[0]),
    decreases s.len(),
{
    lemma_split_nonempty(s, sep);
    if s.len() == 0 {
        assert(prefix + s =~= prefix);
        lemma_split_single(prefix, sep);
        assert(seq![prefix] =~= split_on(s, sep).update(0, prefix + split_on(s, sep)[0]));
    } else {
        let shorter = s.drop_last();
        lemma_split_prefix(prefix, shorter, sep);
        lemma_split_nonempty(shorter, sep);
        assert((prefix + s).drop_last() =~= prefix + shorter);
        assert((prefix + s).last() == s.last());
        let front = split_on(shorter, sep);
        let whole = front.update(0, prefix + front[0]);
        assert(whole == split_on(prefix + shorter, sep));
        let after = split_on(s, sep);
        if s.last() == sep {
            assert(whole.push(Seq::empty()) =~= after.update(0, prefix + after[0]));
        } else if front.len() == 1 {
            assert((prefix + front[0]).push(s.last()) =~= prefix + front[0].push(s.last()));
            assert(whole.drop_last().push(whole.last().push(s.last())) =~= after.update(
                0,
                prefix + after[0],
            ));
        } else {
            assert(whole.drop_last().push(whole.last().push(s.last())) =~= after.update(
                0,
                prefix + after[0],
            ));
        }
    }
}

/// A text that is not empty has a line.
pub proof fn lemma_lines_nonempty(s: Seq<char>)
    requires
        s.len() > 0,
    ensures
        lines_of(s).len() > 0,
{
    lemma_split_nonempty(s, '\n');
    lemma_split_nonempty(s.drop_last(), '\n');
}

/// The pieces on the two sides of a separator are the pieces of the whole.
pub proof fn lemma_split_at(a: Seq<char>, b: Seq<char>, sep: char)
    ensures
        split_on(a.push(sep) + b, sep) == split_on(a, sep) + split_on(b, sep),
    decreases b.len(),
{
    let front = split_on(a, sep);
    if b.len() == 0 {
        assert(a.push(sep) + b =~= a.push(sep));
        assert(a.push(sep).drop_last() =~= a);
        assert(front.push(Seq::empty()) =~= front + split_on(b, sep));
    } else {
        let shorter = b.drop_last();
        lemma_split_at(a, shorter, sep);
        lemma_split_nonempty(shorter, sep);
        let whole = a.push(sep) + b;
        assert(whole.drop_last() =~= a.push(sep) + shorter);
        assert(whole.last() == b.last());
        let back = split_on(shorter, sep);
        if b.last() == sep {
            assert((front + back).push(Seq::empty()) =~= front + back.push(Seq::empty()));
        } else {
            assert((front + back).drop_last().push((front + back).last().push(b.last())) =~= front
                + back.drop_last().push(back.last().push(b.last())));
        }
    }
}

/// Trimming the end of a text that does not end blank leaves what stands before
/// it alone.
pub proof fn lemma_trimmed_end_keeps_prefix(prefix: Seq<char>, s: Seq<char>)
    requires
        !is_blank(s),
    ensures
        trimmed_end(prefix + s) == prefix + trimmed_end(s),
    decreases s.len(),
{
    assert(s.len() > 0);
    assert((prefix + s).last() == s.last());
    if is_white_space(s.last()) {
        let shorter = s.drop_last();
        assert((prefix + s).drop_last() =~= prefix + shorter);
        assert(!is_blank(shorter)) by {
            let i = choose|i: int| 0 <= i < s.len() && !is_white_space(#[trigger] s[i]);
            assert(i < shorter.len());
            assert(!is_white_space(shorter[i]));
        }
        lemma_trimmed_end_keeps_prefix(prefix, shorter);
    }
}

/// White space round a text that has none at its two ends is what trimming takes
/// off.
pub proof fn law_white_space_round_a_text_is_trimmed(
    before: Seq<char>,
    s: Seq<char>,
    after: Seq<char>,
)
    requires
        is_blank(before),
        is_blank(after),
        s.len() > 0,
        !is_white_space(s[0]),
        !is_white_space(s.last()),
    ensures
        trimmed(before + s + after) == s,
{
    assert(before + s + after =~= before + (s + after));
    lemma_trimmed_start_skips_blank(before, s + after);
    assert((s + after)[0] == s[0]);
    lemma_trimmed_end_skips_blank(s, after);
}

/// White space behind a text does not change the text without its trailing white
/// space.
proof fn lemma_trimmed_end_skips_blank(s: Seq<char>, blank: Seq<char>)
    requires
        is_blank(blank),
    ensures
        trimmed_end(s + blank) == trimmed_end(s),
    decreases blank.len(),
{
    if blank.len() == 0 {
        assert(s + blank =~= s);
    } else {
        assert(is_white_space(blank[blank.len() - 1]));
        assert((s + blank).drop_last() =~= s + blank.drop_last());
        lemma_trimmed_end_skips_blank(s, blank.drop_last());
    }
}

/// The first word of a text is made of characters other than white space.
pub proof fn lemma_word_has_no_white_space(s: Seq<char>)
    ensures
        forall|i: int| 0 <= i < leading_word(s).len() ==> !is_white_space(
            #[trigger] leading_word(s)[i],
        ),
    decreases s.len(),
{
    if s.len() > 0 && !is_white_space(s[0]) {
        lemma_word_has_no_white_space(s.skip(1));
        assert forall|i: int| 0 <= i < leading_word(s).len() implies !is_white_space(
            #[trigger] leading_word(s)[i],
        ) by {
            if i > 0 {
                assert(leading_word(s)[i] == leading_word(s.skip(1))[i - 1]);
            }
        }
    }
}

/// A word at the start of a text, with white space or nothing behind it, is its
/// first word.
pub proof fn lemma_first_word(word: Seq<char>, tail: Seq<char>)
    requires
        word.len() > 0,
        forall|i: int| 0 <= i < word.len() ==> !is_white_space(#[trigger] word[i]),
        tail.len() > 0 ==> is_white_space(tail[0]),
    ensures
        first_word(word + tail) == word,
{
    assert((word + tail)[0] == word[0]);
    lemma_leading_word(word, tail);
}

proof fn lemma_leading_word(word: Seq<char>, tail: Seq<char>)
    requires
        forall|i: int| 0 <= i < word.len() ==> !is_white_space(#[trigger] word[i]),
        tail.len() > 0 ==> is_white_space(tail[0]),
    ensures
        leading_word(word + tail) == word,
    decreases word.len(),
{
    let s = word + tail;
    if word.len() == 0 {
        assert(s =~= tail);
        assert(leading_word(s) =~= word);
    } else {
        let rest = word.skip(1);
        assert forall|i: int| 0 <= i < rest.len() implies !is_white_space(#[trigger] rest[i]) by {
            assert(rest[i] == word[i + 1]);
        }
        lemma_leading_word(rest, tail);
        assert(s[0] == word[0]);
        assert(s.skip(1) =~= rest + tail);
        assert(seq![word[0]] + rest =~= word);
    }
}

/// A text is blank exactly when each of its characters is white space.
pub proof fn law_blank_is_white_space_throughout(s: Seq<char>)
    ensures
        is_blank(s) <==> forall|i: int| 0 <= i < s.len() ==> is_white_space(#[trigger] s[i]),
{
}

/// Trimming takes off exactly the white space at the ends: of white space, a text
/// without white space at its ends, and white space again, the text is left. With
/// nothing between them nothing is left.
pub proof fn law_trimming(before: Seq<char>, s: Seq<char>, after: Seq<char>)
    requires
        forall|i: int| 0 <= i < before.len() ==> is_white_space(#[trigger] before[i]),
        forall|i: int| 0 <= i < after.len() ==> is_white_space(#[trigger] after[i]),
        s.len() > 0 ==> !is_white_space(s[0]) && !is_white_space(s.last()),
    ensures
        trimmed(before + s + after) == s,
        s.len() > 0 ==> trimmed_start(before + s + after) == s + after,
        s.len() > 0 ==> trimmed_end(before + s + after) == before + s,
        s.len() == 0 ==> trimmed_start(before + after).len() == 0,
        s.len() == 0 ==> trimmed_end(before + after).len() == 0,
{
    assert(before + s + after =~= before + (s + after));
    lemma_trimmed_start_skips_blank(before, s + after);
    lemma_trimmed_end_skips_blank(before + s, after);
    if s.len() > 0 {
        assert((s + after)[0] == s[0]);
        assert((before + s).last() == s.last());
        lemma_trimmed_end_skips_blank(s, after);
    } else {
        let both = before + after;
        assert(before + s + after =~= both);
        assert(is_blank(both)) by {
            assert forall|i: int| 0 <= i < both.len() implies is_white_space(#[trigger] both[i]) by {
                if i < before.len() {
                    assert(both[i] == before[i]);
                } else {
                    assert(both[i] == after[i - before.len()]);
                }
            }
        }
        lemma_blank_is_trimmed_empty(both);
        assert(trimmed(both) =~= s);
        assert(Seq::<char>::empty() + both =~= both);
        lemma_trimmed_end_skips_blank(Seq::empty(), both);
    }
}

/// Taking a run of a character off the end of a text leaves what stands before the
/// run, whole.
pub proof fn law_trailing_run_is_taken_off(s: Seq<char>, run: Seq<char>, c: char)
    requires
        s.len() > 0 ==> s.last() != c,
        forall|i: int| 0 <= i < run.len() ==> #[trigger] run[i] == c,
    ensures
        without_trailing(s + run, c) == s,
    decreases run.len(),
{
    if run.len() == 0 {
        assert(s + run =~= s);
    } else {
        assert(run[run.len() - 1] == c);
        assert((s + run).drop_last() =~= s + run.drop_last());
        law_trailing_run_is_taken_off(s, run.drop_last(), c);
    }
}

/// A text is cut at its separators and nowhere else: the pieces of two texts with a
/// separator between them are those of the one and those of the other, and a text
/// without a separator is one piece.
pub proof fn law_split_at_separators(a: Seq<char>, b: Seq<char>, sep: char)
    ensures
        split_on(a + seq![sep] + b, sep) == split_on(a, sep) + split_on(b, sep),
        !a.contains(sep) ==> split_on(a, sep) == seq![a],
{
    assert(a + seq![sep] + b =~= a.push(sep) + b);
    lemma_split_at(a, b, sep);
    if !a.contains(sep) {
        lemma_split_single(a, sep);
    }
}

/// Joining puts one separator between each two texts and nothing else.
pub proof fn law_joined(parts: Seq<Seq<char>>, last: Seq<char>, sep: char)
    ensures
        joined(Seq::empty(), sep).len() == 0,
        joined(seq![last], sep) == last,
        parts.len() > 0 ==> joined(parts.push(last), sep) == joined(parts, sep) + seq![sep] + last,
{
    if parts.len() > 0 {
        assert(parts.push(last).drop_last() =~= parts);
        assert(joined(parts, sep).push(sep) + last =~= joined(parts, sep) + seq![sep] + last);
    }
}

/// One carriage return is taken off the end of a line, and nothing else.
pub proof fn law_one_carriage_return_is_taken_off(line: Seq<char>)
    ensures
        without_cr(line + seq!['\r']) == line,
        line.len() == 0 || line.last() != '\r' ==> without_cr(line) == line,
{
    assert(line + seq!['\r'] =~= line.push('\r'));
    assert(line.push('\r').drop_last() =~= line);
}

/// A text up to its first newline is its first line, without one carriage return at
/// its end, and the other lines are those of what stands behind. A text without a
/// newline is one line as it is, unless it is empty.
pub proof fn law_lines(line: Seq<char>, rest: Seq<char>)
    requires
        !line.contains('\n'),
    ensures
        lines_of(line + seq!['\n'] + rest) == seq![
            if line.len() > 0 && line.last() == '\r' {
                line.take(line.len() - 1)
            } else {
                line
            },
        ] + lines_of(rest),
        line.len() > 0 ==> lines_of(line) == seq![line],
        line.len() == 0 ==> lines_of(line).len() == 0,
{
    law_split_at_separators(line, rest, '\n');
    lemma_split_nonempty(rest, '\n');
    let parts = split_on(rest, '\n');
    let whole = seq![line] + parts;
    assert(whole.last() == parts.last());
    let first = if line.len() > 0 && line.last() == '\r' {
        line.take(line.len() - 1)
    } else {
        line
    };
    assert(first =~= without_cr(line));
    assert(lines_of(line + seq!['\n'] + rest) =~= seq![first] + lines_of(rest));
    assert(seq![line].drop_last().map_values(|l: Seq<char>| without_cr(l)) =~= Seq::empty());
    if line.len() > 0 {
        assert(lines_of(line) =~= seq![line]);
    }
}

/// The first word of a text is what stands, whole, between the white space before it
/// and the white space or the end behind it. White space alone has none.
pub proof fn law_first_word(before: Seq<char>, word: Seq<char>, tail: Seq<char>)
    requires
        forall|i: int| 0 <= i < before.len() ==> is_white_space(#[trigger] before[i]),
        forall|i: int| 0 <= i < word.len() ==> !is_white_space(#[trigger] word[i]),
        tail.len() > 0 ==> word.len() > 0 && is_white_space(tail[0]),
    ensures
        first_word(before + word + tail) == word,
{
    assert(before + word + tail =~= before + (word + tail));
    lemma_trimmed_start_skips_blank(before, word + tail);
    if word.len() > 0 {
        lemma_first_word(word, tail);
        assert((word + tail)[0] == word[0]);
    } else {
        assert(word + tail =~= Seq::empty());
        assert(first_word(before + word + tail) =~= word);
    }
}

/// A gap is the first place of two spaces in a row, and nothing else is one.
pub proof fn law_gap_is_two_spaces(s: Seq<char>, from: int)
    requires
        0 <= from,
    ensures
        match gap_from(s, from) {
            Some(i) => {
                &&& from <= i < s.len() - 1
                &&& s[i] == ' '
                &&& s[i + 1] == ' '
                &&& forall|k: int| from <= k < i ==> !(#[trigger] s[k] == ' ' && s[k + 1] == ' ')
            },
            None => forall|k: int|
                from <= k < s.len() - 1 ==> !(#[trigger] s[k] == ' ' && s[k + 1] == ' '),
        },
    decreases s.len() - from,
{
    if from + 1 < s.len() && !(s[from] == ' ' && s[from + 1] == ' ') {
        law_gap_is_two_spaces(s, from + 1);
    }
}

/// Only the letters from `a` to `z` change, each to the letter 32 places before it.
pub proof fn law_ascii_upper(c: char)
    ensures
        'a' <= c <= 'z' ==> ascii_upper(c) as u32 + 32 == c as u32,
        !('a' <= c <= 'z') ==> ascii_upper(c) == c,
{
}

/// The models of strings and slices hold their characters, one for one.
pub proof fn law_views(v: Seq<String>, o: Option<String>, slices: Seq<&[char]>)
    ensures
        views(v).len() == v.len(),
        forall|i: int| 0 <= i < v.len() ==> #[trigger] views(v)[i] == v[i]@,
        match o {
            Some(s) => opt_view(o) == Some(s@),
            None => opt_view(o) is None,
        },
        slice_views(slices).len() == slices.len(),
        forall|i: int| 0 <= i < slices.len() ==> #[trigger] slice_views(slices)[i] == slices[i]@,
{
}

}
