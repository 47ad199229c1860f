//! Following the monitored log: what is read of it, and which lines are complete.

use vstd::prelude::*;
use crate::incident::{is_incident, reports_incident};
use crate::text::{contains_text, ends_with, trimmed};

verus! {

/// What a file is told apart from other files by.
#[derive(Debug, Clone, Copy, PartialEq, Eq, Structural)]
pub struct FileIdentity {
    pub dev: u64,
    pub ino: u64,
}

/// How far a file has been read, and the beginning of a line whose end has not been
/// seen yet.
#[derive(Debug)]
pub struct LogTail {
    pub position: u64,
    pub identity: FileIdentity,
    pub partial_line: String,
}

pub struct TailView {
    pub position: int,
    pub identity: FileIdentity,
    pub partial_line: Seq<char>,
}

impl View for LogTail {
    type V = TailView;

    open spec fn view(&self) -> TailView {
        TailView {
            position: self.position as int,
            identity: self.identity,
            partial_line: self.partial_line@,
        }
    }
}

/// What has been found out about the file.
#[derive(Debug)]
pub struct Observation {
    /// What the log says of it.
    pub notice: Option<String>,
    /// There is something to be read behind the position.
    pub read: bool,
}

/// Reading starts over with the file at hand.
pub open spec fn restarted(identity: FileIdentity) -> TailView {
    TailView { position: 0, identity, partial_line: Seq::empty() }
}

/// How far the file has been read once its identity and its size are known: not at
/// all where it is another file, or shorter than what has been read.
pub open spec fn observed(tail: TailView, identity: FileIdentity, size: int) -> TailView {
    if identity != tail.identity || size < tail.position {
        restarted(identity)
    } else {
        tail
    }
}

/// A line has come to its end.
pub open spec fn is_complete(text: Seq<char>) -> bool {
    text.len() > 0 && text.last() == '\n'
}

/// What is known after a piece of the file has been read.
pub open spec fn advanced(tail: TailView, piece: Seq<char>, bytes: int) -> TailView {
    let text = tail.partial_line + piece;
    TailView {
        position: tail.position + bytes,
        partial_line: if is_complete(text) {
            Seq::empty()
        } else {
            text
        },
        ..tail
    }
}

/// The incident that a piece of the file brings to its end.
pub open spec fn reported(tail: TailView, piece: Seq<char>) -> Option<Seq<char>> {
    let text = tail.partial_line + piece;
    if is_complete(text) && reports_incident(trimmed(text)) {
        Some(trimmed(text))
    } else {
        None
    }
}

impl LogTail {
    /// Follows a file from its present end on.
    pub fn new(identity: FileIdentity, size: u64) -> (r: LogTail)
        ensures
            r@ == (TailView { position: size as int, identity, partial_line: Seq::empty() }),
            r.position == size,
            r.identity == identity,
            r.partial_line@.len() == 0,
    {
        LogTail { position: size, identity, partial_line: String::new() }
    }

    /// Takes in what the file is and how long it is, and tells whether there is
    /// something to be read.
    pub fn observe(&mut self, identity: FileIdentity, size: u64) -> (r: Observation)
        ensures
            final(self)@ == observed(old(self)@, identity, size as int),
            r.read == (size > final(self)@.position),
            r.notice is None <==> identity == old(self)@.identity && size >= old(self)@.position,
            r.notice matches Some(notice) ==> notice@ == (if identity != old(self)@.identity {
                "[INFO] Log file replacement detected. Resetting position."@
            } else {
                "[INFO] Log truncation detected. Resetting position."@
            }),
            final(self).identity == identity,
            identity != old(self).identity || size < old(self).position ==> final(self).position
                == 0 && final(self).partial_line@.len() == 0 && r.read == (size > 0),
            identity == old(self).identity && size >= old(self).position ==> final(self).position
                == old(self).position && final(self).partial_line@ == old(self).partial_line@
                && r.read == (size > old(self).position),
    {
        let mut notice: Option<String> = None;
        if identity != self.identity {
            notice = Some("[INFO] Log file replacement detected. Resetting position.".to_owned());
            self.identity = identity;
            self.position = 0;
            self.partial_line = String::new();
        } else if size < self.position {
            notice = Some("[INFO] Log truncation detected. Resetting position.".to_owned());
            self.position = 0;
            self.partial_line = String::new();
        }
        Observation { notice, read: size > self.position }
    }

    /// Takes in a piece of the file that reaches at most to the end of a line, and
    /// gives back the line without the white space around it where the piece
    /// completes one that reports an incident.
    pub fn accept(&mut self, piece: &str, bytes_read: usize) -> (r: Option<String>)
        requires
            old(self).position + bytes_read <= u64::MAX,
        ensures
            final(self)@ == advanced(old(self)@, piece@, bytes_read as int),
            match reported(old(self)@, piece@) {
                None => r is None,
                Some(incident) => r is Some && r->0@ == incident,
            },
            final(self).position == old(self).position + bytes_read,
            final(self).identity == old(self).identity,
            ({
                let text = old(self).partial_line@ + piece@;
                if text.len() > 0 && text.last() == '\n' {
                    &&& final(self).partial_line@.len() == 0
                    &&& r is Some <==> contains_text(trimmed(text), "[ERROR]"@) || contains_text(
                        trimmed(text),
                        "[CRITICAL]"@,
                    )
                    &&& r is Some ==> r->0@ == trimmed(text)
                } else {
                    final(self).partial_line@ == text && r is None
                }
            }),
    {
        self.position = self.position + bytes_read as u64;
        self.partial_line.append(piece);
        if !ends_with(self.partial_line.as_str(), '\n') {
            return None;
        }
        let line: String = self.partial_line.as_str().trim().to_owned();
        self.partial_line = String::new();
        if is_incident(line.as_str()) {
            Some(line)
        } else {
            None
        }
    }
}

/// After a file has been looked at, what has been read of it is never more than
/// there is.
pub proof fn position_stays_within_the_file(tail: TailView, identity: FileIdentity, size: int)
    requires
        size >= 0,
    ensures
        observed(tail, identity, size).position <= size,
        observed(tail, identity, size).identity == identity,
{
}

/// Looking at an unchanged file again changes nothing.
pub proof fn looking_twice_changes_nothing(tail: TailView, identity: FileIdentity, size: int)
    requires
        size >= 0,
    ensures
        observed(observed(tail, identity, size), identity, size) == observed(tail, identity, size),
{
}

/// A piece of the file, and how many bytes it was read from.
pub struct PieceView {
    pub text: Seq<char>,
    pub bytes: int,
}

/// What is known after pieces of the file have been read one after the other.
pub open spec fn advanced_by(tail: TailView, pieces: Seq<PieceView>) -> TailView
    decreases pieces.len(),
{
    if pieces.len() == 0 {
        tail
    } else {
        advanced(
            advanced_by(tail, pieces.drop_last()),
            pieces.last().text,
            pieces.last().bytes,
        )
    }
}

/// The pieces put together.
pub open spec fn whole(pieces: Seq<PieceView>) -> PieceView
    decreases pieces.len(),
{
    if pieces.len() == 0 {
        PieceView { text: Seq::empty(), bytes: 0 }
    } else {
        let front = whole(pieces.drop_last());
        PieceView {
            text: front.text + pieces.last().text,
            bytes: front.bytes + pieces.last().bytes,
        }
    }
}

/// Where a line is cut when it is read makes no difference: pieces none of which
/// completes the line leave behind what reading them at once leaves behind, report
/// nothing, and the piece that comes next reports what all of them would have
/// reported at once.
pub proof fn cuts_make_no_difference(tail: TailView, pieces: Seq<PieceView>, next: PieceView)
    requires
        !is_complete(tail.partial_line),
        forall|i: int| 0 <= i < pieces.len() ==> !is_complete(#[trigger] pieces[i].text),
    ensures
        advanced_by(tail, pieces) == advanced(tail, whole(pieces).text, whole(pieces).bytes),
        forall|i: int|
            0 <= i < pieces.len() ==> reported(
                advanced_by(tail, pieces.take(i)),
                #[trigger] pieces[i].text,
            ) is None,
        reported(advanced_by(tail, pieces), next.text) == reported(
            tail,
            whole(pieces.push(next)).text,
        ),
        advanced_by(tail, pieces.push(next)) == advanced(
            tail,
            whole(pieces.push(next)).text,
            whole(pieces.push(next)).bytes,
        ),
{
    lemma_advanced_by(tail, pieces);
    assert forall|i: int| 0 <= i < pieces.len() implies reported(
        advanced_by(tail, pieces.take(i)),
        #[trigger] pieces[i].text,
    ) is None by {
        let front = pieces.take(i);
        assert forall|j: int| 0 <= j < front.len() implies !is_complete(
            #[trigger] front[j].text,
        ) by {
            assert(front[j] == pieces[j]);
        }
        lemma_advanced_by(tail, front);
        let state = advanced_by(tail, front);
        let text = state.partial_line + pieces[i].text;
        if pieces[i].text.len() == 0 {
            assert(text == state.partial_line);
        } else {
            assert(text.last() == pieces[i].text.last());
        }
    }
    assert(pieces.push(next).drop_last() == pieces);
    let state = advanced_by(tail, pieces);
    assert(state.partial_line + next.text == tail.partial_line + whole(pieces.push(next)).text);
}

proof fn lemma_advanced_by(tail: TailView, pieces: Seq<PieceView>)
    requires
        !is_complete(tail.partial_line),
        forall|i: int| 0 <= i < pieces.len() ==> !is_complete(#[trigger] pieces[i].text),
    ensures
        advanced_by(tail, pieces) == advanced(tail, whole(pieces).text, whole(pieces).bytes),
        advanced_by(tail, pieces).partial_line == tail.partial_line + whole(pieces).text,
        !is_complete(advanced_by(tail, pieces).partial_line),
    decreases pieces.len(),
{
    if pieces.len() == 0 {
        assert(tail.partial_line + Seq::<char>::empty() == tail.partial_line);
    } else {
        let front = pieces.drop_last();
        let last = pieces.last();
        assert forall|i: int| 0 <= i < front.len() implies !is_complete(
            #[trigger] front[i].text,
        ) by {
            assert(front[i] == pieces[i]);
        }
        assert(!is_complete(pieces[front.len() as int].text));
        lemma_advanced_by(tail, front);
        let state = advanced_by(tail, front);
        let text = state.partial_line + last.text;
        assert(text == tail.partial_line + whole(pieces).text);
        if last.text.len() == 0 {
            assert(text == state.partial_line);
        } else {
            assert(text.last() == last.text.last());
        }
    }
}

/// A file that has come in the place of another is read from its beginning, and so is
/// one that has become shorter than what has been read; the line that was begun is
/// dropped. A file that is the same and no shorter is read on from where it was left.
pub proof fn reading_starts_over_with_another_file(
    tail: TailView,
    identity: FileIdentity,
    size: int,
)
    ensures
        ({
            let after = observed(tail, identity, size);
            &&& after.identity == identity
            &&& identity != tail.identity || size < tail.position ==> after.position == 0
                && after.partial_line.len() == 0
            &&& identity == tail.identity && size >= tail.position ==> after == tail
        }),
{
}

/// A piece that brings a line to its end leaves nothing of it behind, and reports the
/// trimmed line exactly where one of the marks stands in it. Any other piece is kept as
/// it is and reports nothing. Either way it is behind what has been read.
pub proof fn a_line_is_reported_at_its_end(tail: TailView, piece: Seq<char>, bytes: int)
    ensures
        ({
            let text = tail.partial_line + piece;
            let after = advanced(tail, piece, bytes);
            let line = trimmed(text);
            &&& after.position == tail.position + bytes
            &&& after.identity == tail.identity
            &&& if text.len() > 0 && text[text.len() - 1] == '\n' {
                &&& after.partial_line.len() == 0
                &&& reported(tail, piece) == (if contains_text(line, "[ERROR]"@) || contains_text(
                    line,
                    "[CRITICAL]"@,
                ) {
                    Some(line)
                } else {
                    None
                })
            } else {
                after.partial_line == text && reported(tail, piece) is None
            }
        }),
{
}

/// Lines that are read one after the other, each to its end, are told apart: each is
/// reported on its own, whatever came before it.
pub proof fn each_line_is_reported_once(tail: TailView, lines: Seq<PieceView>, i: int)
    requires
        tail.partial_line.len() == 0,
        forall|j: int|
            0 <= j < lines.len() ==> (#[trigger] lines[j]).text.len() > 0 && lines[j].text.last()
                == '\n',
        0 <= i < lines.len(),
    ensures
        ({
            let line = trimmed(lines[i].text);
            reported(advanced_by(tail, lines.take(i)), lines[i].text) == (if contains_text(
                line,
                "[ERROR]"@,
            ) || contains_text(line, "[CRITICAL]"@) {
                Some(line)
            } else {
                None
            })
        }),
        advanced_by(tail, lines).partial_line.len() == 0,
{
    lemma_no_line_is_begun(tail, lines);
    let front = lines.take(i);
    assert forall|j: int| 0 <= j < front.len() implies (#[trigger] front[j]).text.len() > 0
        && front[j].text.last() == '\n' by {
        assert(front[j] == lines[j]);
    }
    lemma_no_line_is_begun(tail, front);
    let state = advanced_by(tail, front);
    assert(state.partial_line + lines[i].text == lines[i].text);
    a_line_is_reported_at_its_end(state, lines[i].text, lines[i].bytes);
}

proof fn lemma_no_line_is_begun(tail: TailView, lines: Seq<PieceView>)
    requires
        tail.partial_line.len() == 0,
        forall|j: int|
            0 <= j < lines.len() ==> (#[trigger] lines[j]).text.len() > 0 && lines[j].text.last()
                == '\n',
    ensures
        advanced_by(tail, lines).partial_line.len() == 0,
    decreases lines.len(),
{
    if lines.len() > 0 {
        let front = lines.drop_last();
        assert forall|j: int| 0 <= j < front.len() implies (#[trigger] front[j]).text.len() > 0
            && front[j].text.last() == '\n' by {
            assert(front[j] == lines[j]);
        }
        lemma_no_line_is_begun(tail, front);
        let last = lines[lines.len() - 1];
        let state = advanced_by(tail, front);
        assert(last == lines.last());
        assert(state.partial_line + last.text == last.text);
    }
}

} // verus!
