//! The `FROM` line of a Modelfile.

use vstd::prelude::*;
use crate::text::{
    ascii_upper, blank, chars_of, is_blank, is_white_space, joined, law_lines,
    law_split_at_separators, law_split_then_join, law_trimmed, law_trimming,
    lemma_blank_is_trimmed_empty, lemma_lines_nonempty, lemma_split_at, lemma_split_nonempty,
    lemma_split_prefix, lemma_split_single, lemma_trimmed_end, lemma_trimmed_end_keeps_prefix,
    lemma_trimmed_start, lemma_trimmed_start_skips_blank, lines, lines_of, push_text,
    slice_views, split_on, starts_with, string_of, to_ascii_upper, trim, trim_start, trimmed,
    trimmed_end, trimmed_start, without_cr,
};
use vstd::slice::slice_subrange;

verus! {

/// A text as `Debug` prints it: in double quotes, with the characters escaped
/// that Rust escapes there.
pub uninterp spec fn debug_text(s: Seq<char>) -> Seq<char>;

/// `Debug` of `str`, as the format `{:?}` prints it. The text that it gives is
/// taken as a function of the text printed; nothing else is claimed of it.
#[verifier::external_body]
fn debug_quoted(s: &str) -> (r: String)
    ensures
        r@ == debug_text(s@),
{
    format!("{:?}", s)
}

/// The message for a Modelfile that begins with another line than `FROM`, which
/// stands in it as `quoted`.
pub open spec fn missing_from(quoted: Seq<char>) -> Seq<char> {
    "modelfile must start with `FROM <model>` (first line: "@ + quoted + ")"@
}

/// The first line of a text without the white space round it.
pub open spec fn leading_line(text: Seq<char>) -> Seq<char> {
    trimmed(lines_of(trimmed_start(text))[0])
}

/// Whether a line begins with the word `FROM`, in capitals or not, and a space.
pub open spec fn is_from_line(line: Seq<char>) -> bool {
    "FROM "@.is_prefix_of(line.map_values(|c: char| ascii_upper(c)))
}

/// The lines behind the first, each ended by a newline; none where they are blank.
pub open spec fn remainder(text: Seq<char>) -> Option<Seq<char>> {
    let rest = joined(lines_of(trimmed_start(text)).skip(1), '\n');
    if is_blank(rest) {
        None
    } else {
        Some(rest.push('\n'))
    }
}

/// The base model that a Modelfile names and the rest of the file, or the message
/// that says what is wrong with it.
pub open spec fn modelfile_parts(text: Seq<char>) -> Result<
    (Seq<char>, Option<Seq<char>>),
    Seq<char>,
> {
    if is_blank(text) {
        Err("modelfile is empty"@)
    } else if !is_from_line(leading_line(text)) {
        Err(missing_from(debug_text(leading_line(text))))
    } else {
        Ok((trimmed(leading_line(text).skip(5)), remainder(text)))
    }
}

/// The message for a Modelfile that begins with another line than `FROM`.
pub fn missing_from_message(quoted: &str) -> (r: String)
    ensures
        r@ == missing_from(quoted@),
        r@ == "modelfile must start with `FROM <model>` (first line: "@ + quoted@ + ")"@,
{
    let mut v = chars_of("modelfile must start with `FROM <model>` (first line: ");
    push_text(&mut v, quoted);
    push_text(&mut v, ")");
    string_of(&v)
}

/// Whether a line begins with the word `FROM`, in capitals or not, and a space.
pub fn from_line(line: &[char]) -> (r: bool)
    ensures
        r == is_from_line(line@),
        r == (line@.len() >= 5 && (line@[0] == 'F' || line@[0] == 'f') && (line@[1] == 'R'
            || line@[1] == 'r') && (line@[2] == 'O' || line@[2] == 'o') && (line@[3] == 'M'
            || line@[3] == 'm') && line@[4] == ' '),
{
    proof {
        law_from_lines_begin_with_the_keyword(line@);
    }
    let mut upper: Vec<char> = Vec::new();
    for i in 0..line.len()
        invariant
            upper@.len() == i,
            forall|k: int| 0 <= k < i ==> #[trigger] upper@[k] == ascii_upper(line@[k]),
    {
        upper.push(to_ascii_upper(line[i]));
    }
    assert(upper@ =~= line@.map_values(|c: char| ascii_upper(c)));
    starts_with(&upper, "FROM ")
}

/// The texts one after the other, with a newline between each two.
fn join_lines(parts: &[&[char]]) -> (r: Vec<char>)
    ensures
        r@ == joined(slice_views(parts@), '\n'),
{
    let ghost texts = slice_views(parts@);
    let mut v: Vec<char> = Vec::new();
    for i in 0..parts.len()
        invariant
            texts == slice_views(parts@),
            v@ == joined(texts.take(i as int), '\n'),
    {
        let part: &[char] = parts[i];
        proof {
            assert(texts.take(i + 1).drop_last() =~= texts.take(i as int));
            assert(texts.take(i + 1).last() == part@);
        }
        if i > 0 {
            v.push('\n');
        }
        let ghost before = v@;
        for k in 0..part.len()
            invariant
                v@ == before + part@.take(k as int),
        {
            v.push(part[k]);
            assert(part@.take(k + 1) =~= part@.take(k as int).push(part@[k as int]));
        }
        assert(part@.take(part@.len() as int) =~= part@);
        assert(v@ =~= joined(texts.take(i + 1), '\n'));
    }
    assert(texts.take(texts.len() as int) =~= texts);
    v
}

/// Splits Modelfile text into the base model name (for the `from` field) and the rest (parameters, SYSTEM, ...).
pub fn split_modelfile_from(content: &str) -> (r: Result<(String, Option<String>), String>)
    ensures
        match modelfile_parts(content@) {
            Ok((base, rest)) => match r {
                Ok((b, None)) => b@ == base && rest is None,
                Ok((b, Some(t))) => b@ == base && rest == Some(t@),
                Err(_) => false,
            },
            Err(e) => r is Err && r->Err_0@ == e,
        },
{
    let chars = chars_of(content);
    let trimmed_text = trim_start(&chars);
    proof {
        lemma_blank_is_trimmed_empty(content@);
    }
    if trimmed_text.len() == 0 {
        return Err("modelfile is empty".to_string());
    }
    let all = lines(trimmed_text);
    proof {
        lemma_lines_nonempty(trimmed_text@);
        assert(slice_views(all@).len() == all@.len());
        assert(slice_views(all@)[0] == all@[0]@);
    }
    let first = trim(all[0]);
    if !from_line(first) {
        let quoted = debug_quoted(string_of(first).as_str());
        return Err(missing_from_message(quoted.as_str()));
    }
    proof {
        reveal_strlit("FROM ");
        assert("FROM "@.len() == 5);
    }
    let base = trim(slice_subrange(first, 5, first.len()));
    let tail = slice_subrange(all.as_slice(), 1, all.len());
    proof {
        assert(first@.subrange(5, first@.len() as int) =~= first@.skip(5));
        assert(slice_views(tail@) =~= lines_of(trimmed_text@).skip(1));
    }
    let mut rest = join_lines(tail);
    if blank(&rest) {
        Ok((string_of(base), None))
    } else {
        rest.push('\n');
        Ok((string_of(base), Some(string_of(&rest))))
    }
}

/// White space before the `FROM` line is ignored.
pub proof fn law_blank_before_from_is_ignored(blank: Seq<char>, text: Seq<char>)
    requires
        is_blank(blank),
    ensures
        modelfile_parts(blank + text) == modelfile_parts(text),
{
    lemma_trimmed_start_skips_blank(blank, text);
    lemma_blank_is_trimmed_empty(blank + text);
    lemma_blank_is_trimmed_empty(text);
}

/// The base model is always named: its name is not empty, has no white space at
/// its ends and stands on one line. The rest, where there is one, is not blank
/// and ends with a newline.
pub proof fn law_base_is_named(text: Seq<char>)
    requires
        modelfile_parts(text) is Ok,
    ensures
        match modelfile_parts(text) {
            Ok((base, rest)) => {
                &&& base.len() > 0
                &&& !is_white_space(base[0])
                &&& !is_white_space(base.last())
                &&& !base.contains('\n')
                &&& rest is Some ==> !is_blank(rest->0) && rest->0.last() == '\n'
            },
            Err(_) => false,
        },
{
    reveal_strlit("FROM ");
    let t = trimmed_start(text);
    lemma_blank_is_trimmed_empty(text);
    lemma_lines_nonempty(t);
    let line = lines_of(t)[0];
    let first = leading_line(text);
    law_trimmed(line);
    lemma_from_line(first);
    let after = first.skip(5);
    assert(first.last() == after.last());
    assert(!is_blank(after)) by {
        assert(!is_white_space(after[after.len() - 1]));
    }
    lemma_blank_is_trimmed_empty(after);
    law_trimmed(after);
    let base = trimmed(after);
    law_split_then_join(t, '\n');
    lemma_split_nonempty(t, '\n');
    let part = split_on(t, '\n')[0];
    assert(line == part || line == without_cr(part));
    assert(!base.contains('\n')) by {
        if base.contains('\n') {
            let i = choose|i: int| 0 <= i < base.len() && base[i] == '\n';
            lemma_trimmed_keeps(after, i);
            let j = choose|j: int| 0 <= j < after.len() && after[j] == '\n';
            assert(first[j + 5] == '\n');
            lemma_trimmed_keeps(line, j + 5);
            let k = choose|k: int| 0 <= k < line.len() && line[k] == '\n';
            assert(part[k] == '\n');
            assert(part.contains('\n'));
        }
    }
    let rest = joined(lines_of(t).skip(1), '\n');
    if !is_blank(rest) {
        let i = choose|i: int| 0 <= i < rest.len() && !is_white_space(#[trigger] rest[i]);
        assert(!is_white_space(rest.push('\n')[i]));
    }
}

/// The word `FROM` is read in capitals, in small letters and in any mix of them.
pub proof fn law_keyword_in_any_case(keyword: Seq<char>, tail: Seq<char>)
    requires
        keyword.map_values(|c: char| ascii_upper(c)) == "FROM "@,
    ensures
        modelfile_parts(keyword + tail) is Ok <==> modelfile_parts("FROM "@ + tail) is Ok,
        modelfile_parts("FROM "@ + tail) is Ok ==> modelfile_parts(keyword + tail)
            == modelfile_parts("FROM "@ + tail),
{
    reveal_strlit("FROM ");
    let upper = "FROM "@;
    assert(keyword.len() == 5);
    assert forall|i: int| 0 <= i < 5 implies ascii_upper(#[trigger] keyword[i]) == upper[i] by {
        assert(keyword.map_values(|c: char| ascii_upper(c))[i] == upper[i]);
    }
    assert forall|i: int| 0 <= i < 5 implies ascii_upper(#[trigger] upper[i]) == upper[i] by {}
    lemma_after_keyword(upper, tail);
    lemma_after_keyword(keyword, tail);
}

/// A `FROM` line and the lines behind it are read back as they were written: the
/// base as it is named, and the rest as it stands, ended by a newline. The rest is
/// not blank, and none of its lines ends with a carriage return.
pub proof fn law_written_modelfile_is_read_back(base: Seq<char>, body: Seq<char>)
    requires
        base.len() > 0,
        !is_white_space(base[0]),
        !is_white_space(base.last()),
        !base.contains('\n'),
        forall|i: int|
            0 <= i < body.len() - 1 && #[trigger] body[i] == '\r' ==> body[i + 1] != '\n',
        !is_blank(body),
    ensures
        modelfile_parts(("FROM "@ + base).push('\n') + body) == Ok::<
            (Seq<char>, Option<Seq<char>>),
            Seq<char>,
        >(
            (
                base,
                Some(
                    if body.last() == '\n' {
                        body
                    } else {
                        body.push('\n')
                    },
                ),
            ),
        ),
{
    reveal_strlit("FROM ");
    let line = "FROM "@ + base;
    let text = line.push('\n') + body;
    assert(text[0] == 'F');
    assert(trimmed_start(text) == text);
    assert(!is_blank(text)) by {
        assert(!is_white_space(text[0]));
    }
    assert(!line.contains('\n')) by {
        if line.contains('\n') {
            let i = choose|i: int| 0 <= i < line.len() && line[i] == '\n';
            assert(i >= 5);
            assert(base[i - 5] == '\n');
        }
    }
    lemma_split_at(line, body, '\n');
    lemma_split_single(line, '\n');
    law_split_then_join(body, '\n');
    lemma_split_nonempty(body.drop_last(), '\n');
    let pieces = split_on(body, '\n');
    let parts = split_on(text, '\n');
    assert(parts == seq![line] + pieces);
    assert(parts.last() == pieces.last());
    let ls = lines_of(text);
    assert forall|i: int| 0 <= i < pieces.len() - 1 implies without_cr(#[trigger] pieces[i])
        == pieces[i] by {
        if pieces[i].len() > 0 && pieces[i].last() == '\r' {
            lemma_piece_end(body, '\n', i);
            let j = choose|j: int|
                0 <= j < body.len() - 1 && #[trigger] body[j] == '\r' && body[j + 1] == '\n';
            assert(false);
        }
    }
    assert(line.last() == base.last());
    assert(line.last() != '\r');
    let behind = if body.last() == '\n' {
        pieces.drop_last()
    } else {
        pieces
    };
    assert(pieces.last().len() == 0 <==> body.last() == '\n');
    assert(ls =~= seq![line] + behind);
    assert(ls.skip(1) =~= behind);
    let rest = joined(behind, '\n');
    if body.last() == '\n' {
        assert(pieces.last() =~= Seq::empty());
        assert(rest.push('\n') =~= body);
    }
    assert(!is_blank(rest)) by {
        let i = choose|i: int| 0 <= i < body.len() && !is_white_space(#[trigger] body[i]);
        assert(i < rest.len());
        assert(!is_white_space(rest[i]));
    }
    assert(trimmed(line) == line);
    assert(is_from_line(line)) by {
        let upper = line.map_values(|c: char| ascii_upper(c));
        assert("FROM "@ =~= upper.subrange(0, 5));
    }
    assert(line.skip(5) =~= base);
    assert(trimmed(base) == base);
}

/// A `FROM` line alone names its base and leaves no rest.
pub proof fn law_from_line_alone(base: Seq<char>)
    requires
        base.len() > 0,
        !is_white_space(base[0]),
        !is_white_space(base.last()),
        !base.contains('\n'),
    ensures
        modelfile_parts("FROM "@ + base) == Ok::<(Seq<char>, Option<Seq<char>>), Seq<char>>(
            (base, None),
        ),
{
    reveal_strlit("FROM ");
    let keyword = "FROM "@;
    assert forall|i: int| 0 <= i < 5 implies ascii_upper(#[trigger] keyword[i]) == keyword[i] by {}
    lemma_after_keyword(keyword, base);
    lemma_split_single(base, '\n');
    assert(lines_of(base).skip(1) =~= Seq::empty());
    assert(joined(Seq::empty(), '\n') =~= Seq::empty());
    assert(trimmed(base) == base);
}

/// What a `FROM` line looks like: the space stands fifth, and the trimmed line
/// has more behind it.
proof fn lemma_from_line(first: Seq<char>)
    requires
        is_from_line(first),
        first.len() > 0 ==> !is_white_space(first.last()),
    ensures
        first.len() > 5,
        first[4] == ' ',
{
    reveal_strlit("FROM ");
    let upper = first.map_values(|c: char| ascii_upper(c));
    assert(upper.len() >= 5);
    assert("FROM "@[4] == upper.subrange(0, 5)[4]);
    assert(ascii_upper(first[4]) == ' ');
}

/// A character that trimming leaves stands in the text.
proof fn lemma_trimmed_keeps(s: Seq<char>, i: int)
    requires
        0 <= i < trimmed(s).len(),
    ensures
        s.contains(trimmed(s)[i]),
{
    lemma_trimmed_start(s);
    let t = trimmed_start(s);
    lemma_trimmed_end(t);
    assert(t[i] == trimmed(s)[i]);
    assert(s[s.len() - t.len() + i] == t[i]);
}

/// Behind the last character of a piece, unless it is the last piece, stands the
/// separator.
proof fn lemma_piece_end(s: Seq<char>, sep: char, i: int)
    requires
        0 <= i < split_on(s, sep).len() - 1,
        split_on(s, sep)[i].len() > 0,
    ensures
        exists|j: int|
            0 <= j < s.len() - 1 && #[trigger] s[j] == split_on(s, sep)[i].last() && s[j + 1]
                == sep,
    decreases s.len(),
{
    let shorter = s.drop_last();
    let front = split_on(shorter, sep);
    lemma_split_nonempty(shorter, sep);
    if i < front.len() - 1 {
        lemma_piece_end(shorter, sep, i);
        let j = choose|j: int|
            0 <= j < shorter.len() - 1 && #[trigger] shorter[j] == front[i].last() && shorter[j + 1]
                == sep;
        assert(s[j] == shorter[j]);
        assert(s[j + 1] == shorter[j + 1]);
    } else {
        assert(s.last() == sep);
        assert(split_on(s, sep)[i] == front.last());
        assert(shorter.len() > 0);
        assert(front.last().last() == shorter.last());
        assert(s[s.len() - 2] == shorter.last());
    }
}

/// What stands behind the keyword does not depend on how the keyword is written.
proof fn lemma_after_keyword(keyword: Seq<char>, tail: Seq<char>)
    requires
        keyword.len() == 5,
        forall|i: int| 0 <= i < 5 ==> ascii_upper(#[trigger] keyword[i]) == "FROM "@[i],
    ensures
        ({
            let pieces = split_on(tail, '\n');
            let line = if pieces.len() > 1 {
                without_cr(pieces[0])
            } else {
                pieces[0]
            };
            let others = joined(lines_of(tail).skip(1), '\n');
            if is_blank(line) {
                modelfile_parts(keyword + tail) is Err
            } else {
                modelfile_parts(keyword + tail) == Ok::<
                    (Seq<char>, Option<Seq<char>>),
                    Seq<char>,
                >(
                    (
                        trimmed(trimmed_end(line)),
                        if is_blank(others) {
                            None
                        } else {
                            Some(others.push('\n'))
                        },
                    ),
                )
            }
        }),
{
    reveal_strlit("FROM ");
    let text = keyword + tail;
    let pieces = split_on(tail, '\n');
    lemma_split_nonempty(tail, '\n');
    let line = if pieces.len() > 1 {
        without_cr(pieces[0])
    } else {
        pieces[0]
    };
    assert(ascii_upper(keyword[0]) == 'F');
    assert(ascii_upper(keyword[1]) == 'R');
    assert(ascii_upper(keyword[2]) == 'O');
    assert(ascii_upper(keyword[3]) == 'M');
    assert(ascii_upper(keyword[4]) == ' ');
    assert(text[0] == keyword[0]);
    assert(!is_white_space(text[0]));
    assert(trimmed_start(text) == text);
    assert(!is_blank(text));
    assert(!keyword.contains('\n'));
    lemma_split_prefix(keyword, tail, '\n');
    let parts = split_on(text, '\n');
    assert(parts[0] == keyword + pieces[0]);
    let ls = lines_of(text);
    assert(ls[0] =~= keyword + line) by {
        if pieces.len() > 1 {
            if pieces[0].len() > 0 {
                assert(parts[0].last() == pieces[0].last());
                assert((keyword + pieces[0]).drop_last() =~= keyword + pieces[0].drop_last());
            } else {
                assert(parts[0] =~= keyword);
            }
        }
    }
    if pieces.len() > 1 {
        assert(parts.last() == pieces.last());
    }
    let whole = keyword + line;
    assert(trimmed_start(whole) == whole) by {
        assert(whole[0] == keyword[0]);
    }
    let first = leading_line(text);
    assert(first == trimmed_end(whole));
    if is_blank(line) {
        lemma_trimmed_end(whole);
        if is_from_line(first) {
            lemma_from_line(first);
            assert(first.last() == whole[first.len() - 1]);
            assert(whole[first.len() - 1] == line[first.len() - 6]);
        }
    } else {
        lemma_trimmed_end_keeps_prefix(keyword, line);
        assert(ls.skip(1) =~= lines_of(tail).skip(1));
        assert(is_from_line(first)) by {
            let upper = first.map_values(|c: char| ascii_upper(c));
            assert("FROM "@ =~= upper.subrange(0, 5));
        }
        assert(first.skip(5) =~= trimmed_end(line));
    }
}

/// The base is what stands behind the keyword on its line, whole but for white space at
/// its ends, and the rest is the lines behind it, as they stand, each ended by a newline.
/// Lines of white space alone are no rest.
pub proof fn law_base_and_rest_are_whole(
    before: Seq<char>,
    keyword: Seq<char>,
    line: Seq<char>,
    tail: Seq<char>,
)
    requires
        forall|i: int| 0 <= i < before.len() ==> is_white_space(#[trigger] before[i]),
        keyword.len() == 5,
        keyword[0] == 'F' || keyword[0] == 'f',
        keyword[1] == 'R' || keyword[1] == 'r',
        keyword[2] == 'O' || keyword[2] == 'o',
        keyword[3] == 'M' || keyword[3] == 'm',
        keyword[4] == ' ',
        !line.contains('\n'),
        trimmed(line).len() > 0,
    ensures
        modelfile_parts(before + keyword + line) == Ok::<
            (Seq<char>, Option<Seq<char>>),
            Seq<char>,
        >((trimmed(line), None)),
        modelfile_parts(before + keyword + line + seq!['\n'] + tail) == Ok::<
            (Seq<char>, Option<Seq<char>>),
            Seq<char>,
        >(
            (
                trimmed(line),
                if trimmed(joined(lines_of(tail), '\n')).len() == 0 {
                    None
                } else {
                    Some(joined(lines_of(tail), '\n') + seq!['\n'])
                },
            ),
        ),
{
    reveal_strlit("FROM ");
    let upper = "FROM "@;
    assert(upper =~= seq!['F', 'R', 'O', 'M', ' ']);
    assert forall|i: int| 0 <= i < 5 implies ascii_upper(#[trigger] keyword[i]) == upper[i] by {}
    assert(before + keyword + line =~= before + (keyword + line));
    law_blank_before_from_is_ignored(before, keyword + line);
    let more = line + seq!['\n'] + tail;
    assert(before + keyword + line + seq!['\n'] + tail =~= before + (keyword + more));
    law_blank_before_from_is_ignored(before, keyword + more);
    lemma_after_keyword(keyword, line);
    lemma_after_keyword(keyword, more);
    law_split_at_separators(line, tail, '\n');
    lemma_split_nonempty(tail, '\n');
    law_lines(line, tail);
    assert(lines_of(more).skip(1) =~= lines_of(tail));
    lemma_blank_is_trimmed_empty(line);
    assert(lines_of(line).skip(1) =~= Seq::empty());
    assert(joined(Seq::empty(), '\n') =~= Seq::empty());
    lemma_trimmed_of_trimmed_end(line);
    lemma_without_cr_is_trimmed(line);
    lemma_trimmed_of_trimmed_end(without_cr(line));
    lemma_blank_is_trimmed_empty(without_cr(line));
    let others = joined(lines_of(tail), '\n');
    lemma_blank_is_trimmed_empty(others);
    assert(others.push('\n') =~= others + seq!['\n']);
}

/// Trimming the end first changes nothing for trimming both ends.
proof fn lemma_trimmed_of_trimmed_end(s: Seq<char>)
    ensures
        trimmed(trimmed_end(s)) == trimmed(s),
{
    law_trimmed(s);
    let t = trimmed(s);
    let (before, after) = choose|before: Seq<char>, after: Seq<char>|
        #![trigger before + t + after]
        is_blank(before) && is_blank(after) && s == before + t + after;
    let none = Seq::<char>::empty();
    law_trimming(before, t, after);
    if t.len() > 0 {
        law_trimming(before, t, none);
        assert(before + t + none =~= before + t);
    } else {
        assert(s =~= before + after);
        assert(trimmed_end(s) =~= none);
        law_trimming(none, none, none);
        assert(none + none + none =~= none);
        assert(t =~= none);
    }
}

/// A carriage return at the end is white space like any other.
proof fn lemma_without_cr_is_trimmed(s: Seq<char>)
    ensures
        trimmed_end(without_cr(s)) == trimmed_end(s),
        trimmed(without_cr(s)) == trimmed(s),
{
    lemma_trimmed_of_trimmed_end(s);
    lemma_trimmed_of_trimmed_end(without_cr(s));
}

/// Any other text is refused: one of white space alone as empty, and one whose first
/// line begins otherwise than with the keyword, in capitals or not, and a space, with
/// that line in the message.
pub proof fn law_other_modelfiles_are_refused(
    before: Seq<char>,
    line: Seq<char>,
    tail: Seq<char>,
)
    requires
        forall|i: int| 0 <= i < before.len() ==> is_white_space(#[trigger] before[i]),
        line.len() > 0,
        !is_white_space(line[0]),
        !line.contains('\n'),
        tail.len() > 0 ==> tail[0] == '\n',
    ensures
        modelfile_parts(before) == Err::<(Seq<char>, Option<Seq<char>>), Seq<char>>(
            "modelfile is empty"@,
        ),
        ({
            let first = trimmed_end(line);
            let begins = first.len() >= 5 && (first[0] == 'F' || first[0] == 'f') && (first[1]
                == 'R' || first[1] == 'r') && (first[2] == 'O' || first[2] == 'o') && (first[3]
                == 'M' || first[3] == 'm') && first[4] == ' ';
            &&& modelfile_parts(before + line + tail) is Ok <==> begins
            &&& !begins ==> modelfile_parts(before + line + tail) == Err::<
                (Seq<char>, Option<Seq<char>>),
                Seq<char>,
            >(
                "modelfile must start with `FROM <model>` (first line: "@ + debug_text(first)
                    + ")"@,
            )
        }),
{
    reveal_strlit("FROM ");
    let upper = "FROM "@;
    assert(upper =~= seq!['F', 'R', 'O', 'M', ' ']);
    let text = line + tail;
    assert(before + line + tail =~= before + text);
    law_blank_before_from_is_ignored(before, text);
    assert(text[0] == line[0]);
    assert(!is_blank(text));
    assert(trimmed_start(text) == text);
    if tail.len() == 0 {
        assert(text =~= line);
        law_lines(line, tail);
    } else {
        let rest = tail.skip(1);
        assert(text =~= line + seq!['\n'] + rest);
        law_lines(line, rest);
    }
    let head = lines_of(text)[0];
    assert(head == line || head =~= without_cr(line));
    lemma_without_cr_is_trimmed(line);
    assert(head.len() > 0 && head[0] == line[0]) by {
        if line.len() == 1 {
            assert(line.last() == line[0]);
        }
    }
    assert(trimmed_start(head) == head);
    let first = trimmed_end(line);
    assert(leading_line(text) == first);
    law_from_lines_begin_with_the_keyword(first);
}

/// A line is a `FROM` line by its first five characters: the four letters of the keyword,
/// in capitals or not, and a space.
pub proof fn law_from_lines_begin_with_the_keyword(line: Seq<char>)
    ensures
        is_from_line(line) <==> {
            &&& line.len() >= 5
            &&& line[0] == 'F' || line[0] == 'f'
            &&& line[1] == 'R' || line[1] == 'r'
            &&& line[2] == 'O' || line[2] == 'o'
            &&& line[3] == 'M' || line[3] == 'm'
            &&& line[4] == ' '
        },
{
    reveal_strlit("FROM ");
    let upper = "FROM "@;
    assert(upper =~= seq!['F', 'R', 'O', 'M', ' ']);
    let m = line.map_values(|c: char| ascii_upper(c));
    if upper.is_prefix_of(m) {
        assert(m.subrange(0, 5) == upper);
        assert(m[0] == m.subrange(0, 5)[0]);
        assert(m[1] == m.subrange(0, 5)[1]);
        assert(m[2] == m.subrange(0, 5)[2]);
        assert(m[3] == m.subrange(0, 5)[3]);
        assert(m[4] == m.subrange(0, 5)[4]);
    }
    if line.len() >= 5 && (line[0] == 'F' || line[0] == 'f') && (line[1] == 'R' || line[1] == 'r')
        && (line[2] == 'O' || line[2] == 'o') && (line[3] == 'M' || line[3] == 'm') && line[4]
        == ' ' {
        assert(m.subrange(0, 5) =~= upper);
    }
}

}
