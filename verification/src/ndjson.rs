//! Streams of JSON objects, one on each line.

use vstd::prelude::*;
use crate::batch::outcome_view;
use crate::text::{chars_of, is_white_space, law_trimming, opt_view, string_of, trim, trimmed};

verus! {

/// A stream that is read line by line. The caller reads, and handles the lines:
/// [`NdjsonReader::on_read`] takes what a read gave and says which line to handle,
/// [`NdjsonReader::on_handled`] takes what came of handling it.
#[derive(Debug)]
pub struct NdjsonReader {
    outcome: Option<Result<(), String>>,
}

/// How a stream ended, once it did.
pub type StreamEnd = Option<Result<(), Seq<char>>>;

/// What a read gives: a number of bytes, or an error.
pub open spec fn read_view(read: Result<usize, String>) -> Result<nat, Seq<char>> {
    match read {
        Ok(n) => Ok(n as nat),
        Err(e) => Err(e@),
    }
}

/// How a stream stands after a read. A read without bytes ends it well, an error
/// ends it with that error. A stream that has ended stays as it is.
pub open spec fn end_after_read(end: StreamEnd, read: Result<nat, Seq<char>>) -> StreamEnd {
    if end is Some {
        end
    } else {
        match read {
            Ok(n) => if n == 0 {
                Some(Ok(()))
            } else {
                None
            },
            Err(e) => Some(Err(e)),
        }
    }
}

/// The line that a read hands out for handling: the text without white space at
/// the ends, unless it is blank, the read gave no bytes or the stream has ended.
pub open spec fn line_after_read(
    end: StreamEnd,
    read: Result<nat, Seq<char>>,
    line: Seq<char>,
) -> Option<Seq<char>> {
    if end is None && read is Ok && read->Ok_0 > 0 && trimmed(line).len() > 0 {
        Some(trimmed(line))
    } else {
        None
    }
}

/// How a stream stands after a line was handled. An error ends it.
pub open spec fn end_after_handling(end: StreamEnd, handled: Result<(), Seq<char>>) -> StreamEnd {
    if end is None && handled is Err {
        Some(handled)
    } else {
        end
    }
}

impl NdjsonReader {
    /// How the stream ended, once it did.
    pub closed spec fn end(&self) -> StreamEnd {
        match self.outcome {
            Some(o) => Some(outcome_view(o)),
            None => None,
        }
    }

    /// A stream of which nothing is read.
    pub fn new() -> (r: Self)
        ensures
            r.end() is None,
    {
        NdjsonReader { outcome: None }
    }

    /// Whether there is nothing more to read.
    pub fn is_done(&self) -> (r: bool)
        ensures
            r == self.end() is Some,
    {
        self.outcome.is_some()
    }

    /// Takes what a read gave: the number of bytes, and the line that they make
    /// up. Gives the line to handle, if there is one.
    pub fn on_read(&mut self, read: Result<usize, String>, line: &str) -> (r: Option<String>)
        ensures
            final(self).end() == end_after_read(old(self).end(), read_view(read)),
            opt_view(r) == line_after_read(old(self).end(), read_view(read), line@),
            match old(self).end() {
                Some(_) => r is None && final(self).end() == old(self).end(),
                None => match read {
                    Ok(n) => if n == 0 {
                        r is None && final(self).end() == Some(Ok::<(), Seq<char>>(()))
                    } else {
                        &&& final(self).end() is None
                        &&& trimmed(line@).len() == 0 ==> r is None
                        &&& trimmed(line@).len() > 0 ==> r is Some && r->0@ == trimmed(line@)
                    },
                    Err(e) => r is None && final(self).end() == Some(Err::<(), Seq<char>>(e@)),
                },
            },
    {
        if self.outcome.is_some() {
            return None;
        }
        match read {
            Err(e) => {
                self.outcome = Some(Err(e));
                None
            },
            Ok(n) => {
                if n == 0 {
                    self.outcome = Some(Ok(()));
                    None
                } else {
                    let chars = chars_of(line);
                    let t = trim(&chars);
                    if t.len() == 0 {
                        None
                    } else {
                        Some(string_of(t))
                    }
                }
            },
        }
    }

    /// Takes what came of handling a line.
    pub fn on_handled(&mut self, handled: Result<(), String>)
        ensures
            final(self).end() == end_after_handling(old(self).end(), outcome_view(handled)),
            match (old(self).end(), handled) {
                (None, Err(e)) => final(self).end() == Some(Err::<(), Seq<char>>(e@)),
                _ => final(self).end() == old(self).end(),
            },
    {
        if self.outcome.is_none() {
            match handled {
                Ok(()) => {},
                Err(e) => {
                    self.outcome = Some(Err(e));
                },
            }
        }
    }

    /// How the stream ended, if it did.
    pub fn finish(self) -> (r: Option<Result<(), String>>)
        ensures
            match r {
                Some(o) => self.end() == Some(outcome_view(o)),
                None => self.end() is None,
            },
            match r {
                Some(Ok(())) => self.end() == Some(Ok::<(), Seq<char>>(())),
                Some(Err(e)) => self.end() == Some(Err::<(), Seq<char>>(e@)),
                None => self.end() is None,
            },
    {
        self.outcome
    }
}

/// What happens to a stream.
pub enum StreamEvent {
    /// A read, and the line that its bytes make up.
    Read(Result<nat, Seq<char>>, Seq<char>),
    /// A line was handled.
    Handled(Result<(), Seq<char>>),
}

/// How the stream stands after a number of events.
pub open spec fn end_after(events: Seq<StreamEvent>) -> StreamEnd
    decreases events.len(),
{
    if events.len() == 0 {
        None
    } else {
        let before = end_after(events.drop_last());
        match events.last() {
            StreamEvent::Read(read, _) => end_after_read(before, read),
            StreamEvent::Handled(handled) => end_after_handling(before, handled),
        }
    }
}

/// The lines that a number of events hand out for handling, in order.
pub open spec fn lines_after(events: Seq<StreamEvent>) -> Seq<Seq<char>>
    decreases events.len(),
{
    if events.len() == 0 {
        Seq::empty()
    } else {
        let front = events.drop_last();
        match events.last() {
            StreamEvent::Read(read, line) => match line_after_read(end_after(front), read, line) {
                Some(t) => lines_after(front).push(t),
                None => lines_after(front),
            },
            StreamEvent::Handled(_) => lines_after(front),
        }
    }
}

/// The events of a stream of these lines, each of them handled well.
pub open spec fn handled_well(lines: Seq<Seq<char>>, sizes: Seq<nat>) -> Seq<StreamEvent>
    decreases lines.len(),
{
    if lines.len() == 0 {
        Seq::empty()
    } else {
        handled_well(lines.drop_last(), sizes).push(
            StreamEvent::Read(Ok(sizes[lines.len() - 1]), lines.last()),
        ).push(StreamEvent::Handled(Ok(())))
    }
}

/// The texts of the lines that are not blank, in order.
pub open spec fn texts_to_handle(lines: Seq<Seq<char>>) -> Seq<Seq<char>>
    decreases lines.len(),
{
    if lines.len() == 0 {
        Seq::empty()
    } else if trimmed(lines.last()).len() == 0 {
        texts_to_handle(lines.drop_last())
    } else {
        texts_to_handle(lines.drop_last()).push(trimmed(lines.last()))
    }
}

/// A stream whose lines are handled well hands out every line that is not blank,
/// in order and without white space at its ends, and ends well at the first read
/// without bytes.
pub proof fn law_every_line_is_handled(lines: Seq<Seq<char>>, sizes: Seq<nat>)
    requires
        sizes.len() == lines.len(),
        forall|i: int| 0 <= i < sizes.len() ==> #[trigger] sizes[i] > 0,
    ensures
        ({
            let read = handled_well(lines, sizes);
            let all = read.push(StreamEvent::Read(Ok(0), Seq::empty()));
            &&& end_after(read) is None
            &&& lines_after(read) == texts_to_handle(lines)
            &&& end_after(all) == Some(Ok::<(), Seq<char>>(()))
            &&& lines_after(all) == texts_to_handle(lines)
        }),
{
    lemma_handled_well(lines, sizes);
    let read = handled_well(lines, sizes);
    assert(read.push(StreamEvent::Read(Ok(0), Seq::empty())).drop_last() =~= read);
}

proof fn lemma_handled_well(lines: Seq<Seq<char>>, sizes: Seq<nat>)
    requires
        sizes.len() >= lines.len(),
        forall|i: int| 0 <= i < sizes.len() ==> #[trigger] sizes[i] > 0,
    ensures
        end_after(handled_well(lines, sizes)) is None,
        lines_after(handled_well(lines, sizes)) == texts_to_handle(lines),
    decreases lines.len(),
{
    if lines.len() > 0 {
        lemma_handled_well(lines.drop_last(), sizes);
        let front = handled_well(lines.drop_last(), sizes);
        assert(sizes[lines.len() - 1] > 0);
        let read = front.push(StreamEvent::Read(Ok(sizes[lines.len() - 1]), lines.last()));
        assert(read.drop_last() =~= front);
        assert(end_after(read) is None);
        assert(lines_after(read) == texts_to_handle(lines));
        assert(read.push(StreamEvent::Handled(Ok(()))).drop_last() =~= read);
    }
}

/// A stream that has ended stays ended as it is, whatever is read or handled
/// after it, and hands out no further line.
pub proof fn law_ended_streams_stay_ended(events: Seq<StreamEvent>, later: Seq<StreamEvent>)
    requires
        end_after(events) is Some,
    ensures
        end_after(events + later) == end_after(events),
        lines_after(events + later) == lines_after(events),
    decreases later.len(),
{
    if later.len() == 0 {
        assert(events + later =~= events);
    } else {
        law_ended_streams_stay_ended(events, later.drop_last());
        assert((events + later).drop_last() =~= events + later.drop_last());
        assert((events + later).last() == later.last());
    }
}

/// The first line that is not handled well ends the stream with its error.
pub proof fn law_first_error_ends_the_stream(
    lines: Seq<Seq<char>>,
    sizes: Seq<nat>,
    line: Seq<char>,
    size: nat,
    error: Seq<char>,
    later: Seq<StreamEvent>,
)
    requires
        sizes.len() == lines.len(),
        forall|i: int| 0 <= i < sizes.len() ==> #[trigger] sizes[i] > 0,
        size > 0,
        trimmed(line).len() > 0,
    ensures
        ({
            let events = handled_well(lines, sizes).push(StreamEvent::Read(Ok(size), line)).push(
                StreamEvent::Handled(Err(error)),
            ) + later;
            &&& end_after(events) == Some(Err::<(), Seq<char>>(error))
            &&& lines_after(events) == texts_to_handle(lines).push(trimmed(line))
        }),
{
    lemma_handled_well(lines, sizes);
    let front = handled_well(lines, sizes);
    let read = front.push(StreamEvent::Read(Ok(size), line));
    let failed = read.push(StreamEvent::Handled(Err(error)));
    assert(read.drop_last() =~= front);
    assert(end_after(read) is None);
    assert(lines_after(read) == texts_to_handle(lines).push(trimmed(line)));
    assert(failed.drop_last() =~= read);
    law_ended_streams_stay_ended(failed, later);
}

/// A read hands out the line that was read, whole but for white space at its ends, and
/// leaves the stream open. White space alone is handed out as nothing.
pub proof fn law_a_line_is_handed_out_whole(
    before: Seq<char>,
    text: Seq<char>,
    after: Seq<char>,
    size: nat,
)
    requires
        forall|i: int| 0 <= i < before.len() ==> is_white_space(#[trigger] before[i]),
        forall|i: int| 0 <= i < after.len() ==> is_white_space(#[trigger] after[i]),
        text.len() > 0 ==> !is_white_space(text[0]) && !is_white_space(text.last()),
        size > 0,
    ensures
        line_after_read(None, Ok(size), before + text + after) == (if text.len() > 0 {
            Some(text)
        } else {
            None
        }),
        end_after_read(None, Ok(size)) is None,
{
    law_trimming(before, text, after);
}

/// A stream ends by a read without bytes, by an error of a read and by an error of
/// handling a line, with that error, and by nothing else; then nothing is handed out.
pub proof fn law_what_ends_a_stream(
    end: Result<(), Seq<char>>,
    read: Result<nat, Seq<char>>,
    handled: Result<(), Seq<char>>,
    line: Seq<char>,
    error: Seq<char>,
)
    ensures
        end_after_read(None, Ok(0)) == Some(Ok::<(), Seq<char>>(())),
        line_after_read(None, Ok(0), line) is None,
        end_after_read(None, Err(error)) == Some(Err::<(), Seq<char>>(error)),
        line_after_read(None, Err(error), line) is None,
        end_after_handling(None, Err(error)) == Some(Err::<(), Seq<char>>(error)),
        end_after_handling(None, Ok(())) is None,
        end_after_read(Some(end), read) == Some(end),
        line_after_read(Some(end), read, line) is None,
        end_after_handling(Some(end), handled) == Some(end),
{
}

}
