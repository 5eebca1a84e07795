//! The lines of a log: one event to a line, each ended by a newline.

use vstd::prelude::*;

use crate::event::texts;
use crate::listing::{
    lemma_one_for_each_agrees, lemma_one_for_next, lemma_one_for_none, one_for_each,
};
use crate::text::chars_of;

verus! {

/// `String::push`: the given character is appended to the end of the string.
pub assume_specification[ String::push ](s: &mut String, c: char)
    ensures
        final(s)@ == old(s)@.push(c),
;

/// What is appended to a log for a line.
pub open spec fn framed_line(line: Seq<char>) -> Seq<char> {
    line.push('\n')
}

/// What is appended to a log for a line: the line and a newline, in one piece.
pub fn framed(line: &str) -> (res: String)
    ensures
        res@ == framed_line(line@),
        res@ == line@.push('\n'),
{
    let mut text = line.to_owned();
    text.push('\n');
    text
}

/// `c` is the position of the first newline of a text.
pub open spec fn is_line_end(text: Seq<char>, c: int) -> bool {
    &&& 0 <= c < text.len()
    &&& text[c] == '\n'
    &&& forall|k: int| 0 <= k < c ==> #[trigger] text[k] != '\n'
}

/// A line without the carriage return that it may end in.
pub open spec fn without_return(line: Seq<char>) -> Seq<char> {
    if line.len() > 0 && line.last() == '\r' {
        line.drop_last()
    } else {
        line
    }
}

/// The lines of a text. Each ends at a newline, or at a carriage return and a
/// newline, and neither belongs to it; what follows the last newline is a line
/// too, unless it is empty.
pub open spec fn lines_of(text: Seq<char>) -> Seq<Seq<char>>
    decreases text.len(),
{
    if exists|c: int| is_line_end(text, c) {
        let c = choose|c: int| is_line_end(text, c);
        seq![without_return(text.take(c))] + lines_of(text.skip(c + 1))
    } else if text.len() > 0 {
        seq![text]
    } else {
        Seq::empty()
    }
}

/// A text without a newline.
pub open spec fn is_one_line(text: Seq<char>) -> bool {
    forall|k: int| 0 <= k < text.len() ==> #[trigger] text[k] != '\n'
}

proof fn lemma_first_line(line: Seq<char>, rest: Seq<char>)
    requires
        is_one_line(line),
    ensures
        lines_of(framed_line(line) + rest) == seq![without_return(line)] + lines_of(rest),
{
    let text = framed_line(line) + rest;
    let end = line.len() as int;
    assert(is_line_end(text, end));
    let c = choose|c: int| is_line_end(text, c);
    assert(c == end) by {
        if c < end {
            assert(text[c] == line[c]);
        } else if end < c {
            assert(text[end] != '\n');
        }
    }
    assert(text.take(end) =~= line);
    assert(text.skip(end + 1) =~= rest);
}

proof fn lemma_last_line(line: Seq<char>)
    requires
        is_one_line(line),
    ensures
        lines_of(line) == if line.len() > 0 {
            seq![line]
        } else {
            Seq::empty()
        },
{
    assert forall|c: int| !is_line_end(line, c) by {
        if 0 <= c < line.len() {
            assert(line[c] != '\n');
        }
    }
}

/// A line of which a carriage return may have been read but not taken in yet.
spec fn with_pending(line: Seq<char>, pending: bool) -> Seq<char> {
    if pending {
        line.push('\r')
    } else {
        line
    }
}

/// The lines of a text.
#[verifier::loop_isolation(false)]
pub fn log_lines(text: &str) -> (res: Vec<String>)
    ensures
        texts(res@) == lines_of(text@),
{
    let mut lines: Vec<String> = Vec::new();
    let mut line = String::new();
    let mut pending = false;
    let chars = chars_of(text);
    let mut i: usize = 0;
    assert(text@.skip(0) =~= text@);
    assert(texts(lines@) =~= Seq::empty());
    assert(line@ + text@ =~= text@);
    while i < chars.len()
        invariant
            i <= chars@.len(),
            is_one_line(line@),
            !pending ==> line@.len() == 0 || line@.last() != '\r',
            lines_of(text@) == texts(lines@) + lines_of(
                with_pending(line@, pending) + text@.skip(i as int),
            ),
        decreases chars@.len() - i,
    {
        let c: char = chars[i];
        let ghost rest = text@.skip(i + 1);
        let ghost current = with_pending(line@, pending);
        assert(text@.skip(i as int) =~= seq![c] + rest);
        if c == '\n' {
            proof {
                assert(is_one_line(current));
                lemma_first_line(current, rest);
                assert(current + text@.skip(i as int) =~= framed_line(current) + rest);
                assert(without_return(current) =~= line@);
            }
            let ghost before = lines@;
            let ghost ended = line@;
            lines.push(line);
            assert(texts(lines@) =~= texts(before).push(ended));
            line = String::new();
            pending = false;
            assert(texts(before) + (seq![ended] + lines_of(rest)) =~= texts(lines@) + lines_of(
                rest,
            ));
            assert(with_pending(line@, pending) + rest =~= rest);
        } else {
            if pending {
                line.push('\r');
            }
            if c == '\r' {
                pending = true;
            } else {
                pending = false;
                line.push(c);
            }
            assert(with_pending(line@, pending) =~= current.push(c));
            assert(current.push(c) + rest =~= current + text@.skip(i as int));
        }
        i = i + 1;
    }
    let ghost current = with_pending(line@, pending);
    if pending {
        line.push('\r');
    }
    proof {
        assert(current + text@.skip(i as int) =~= line@);
        assert(is_one_line(line@));
        lemma_last_line(line@);
    }
    if line.as_str().unicode_len() > 0 {
        let ghost before = lines@;
        let ghost ended = line@;
        lines.push(line);
        assert(texts(lines@) =~= texts(before) + seq![ended]);
    } else {
        assert(texts(lines@) =~= texts(lines@) + Seq::empty());
    }
    lines
}

/// Whether a character has Unicode's property `White_Space`.
pub open spec fn is_white_space(c: char) -> bool {
    let code = c as int;
    ||| 0x9 <= code <= 0xd
    ||| code == 0x20 || code == 0x85 || code == 0xa0 || code == 0x1680
    ||| 0x2000 <= code <= 0x200a
    ||| code == 0x2028 || code == 0x2029 || code == 0x202f || code == 0x205f || code == 0x3000
}

/// `char::is_whitespace`: whether `c` has the property `White_Space`, which
/// Unicode gives to the characters that `is_white_space` lists.
#[verifier::external_body]
fn white_space(c: char) -> (res: bool)
    ensures
        res == is_white_space(c),
{
    c.is_whitespace()
}

/// A text of white space only, or an empty one.
pub open spec fn blank(s: Seq<char>) -> bool {
    forall|i: int| 0 <= i < s.len() ==> is_white_space(#[trigger] s[i])
}

/// Whether a line is blank: such a line holds no event.
pub fn is_blank(line: &str) -> (res: bool)
    ensures
        res == blank(line@),
        res <==> forall|i: int| 0 <= i < line@.len() ==> is_white_space(#[trigger] line@[i]),
{
    let chars = chars_of(line);
    let mut i: usize = 0;
    while i < chars.len()
        invariant
            i <= chars@.len(),
            chars@ == line@,
            forall|k: int| 0 <= k < i ==> is_white_space(#[trigger] line@[k]),
        decreases chars@.len() - i,
    {
        if !white_space(chars[i]) {
            assert(!is_white_space(line@[i as int]));
            return false;
        }
        i = i + 1;
    }
    true
}

/// The lines that are not blank, in order.
pub open spec fn without_blanks(lines: Seq<Seq<char>>) -> Seq<Seq<char>>
    decreases lines.len(),
{
    if lines.len() == 0 {
        Seq::empty()
    } else if blank(lines.last()) {
        without_blanks(lines.drop_last())
    } else {
        without_blanks(lines.drop_last()).push(lines.last())
    }
}

/// The lines of a log that hold an event: all but the blank ones, in order.
pub fn entry_lines(text: &str) -> (res: Vec<String>)
    ensures
        texts(res@) == without_blanks(lines_of(text@)),
        tells_entries(lines_of(text@), texts(res@)),
{
    let lines = log_lines(text);
    let ghost all = lines_of(text@);
    let mut entries: Vec<String> = Vec::new();
    let mut i: usize = 0;
    assert(texts(entries@) =~= without_blanks(all.take(0)));
    while i < lines.len()
        invariant
            i <= lines@.len(),
            all == texts(lines@),
            texts(entries@) == without_blanks(all.take(i as int)),
        decreases lines@.len() - i,
    {
        assert(all.take(i + 1).drop_last() =~= all.take(i as int));
        assert(all[i as int] == lines@[i as int]@);
        if !is_blank(lines[i].as_str()) {
            let ghost before = entries@;
            entries.push(lines[i].clone());
            assert(texts(entries@) =~= texts(before).push(all[i as int]));
        }
        i = i + 1;
    }
    assert(all.take(i as int) =~= all);
    proof {
        law_entries_are_the_lines_not_blank(all);
    }
    entries
}

/// A line has a character that is not white space.
pub open spec fn has_text(line: Seq<char>) -> bool {
    exists|i: int| 0 <= i < line.len() && !is_white_space(#[trigger] line[i])
}

/// One entry for each line that has a text, in order: the line itself.
pub open spec fn tells_entries(lines: Seq<Seq<char>>, entries: Seq<Seq<char>>) -> bool {
    one_for_each(
        entries,
        lines.len() as int,
        |i: int| has_text(lines[i]),
        |i: int| lines[i],
    )
}

/// Of the lines of a log, each that has a text is an entry, and no other.
pub proof fn law_entries_are_the_lines_not_blank(lines: Seq<Seq<char>>)
    ensures
        tells_entries(lines, without_blanks(lines)),
    decreases lines.len(),
{
    let p = |i: int| has_text(lines[i]);
    let item = |i: int| lines[i];
    if lines.len() == 0 {
        lemma_one_for_none(p, item);
    } else {
        let rest = lines.drop_last();
        let n = rest.len() as int;
        law_entries_are_the_lines_not_blank(rest);
        lemma_one_for_each_agrees(
            without_blanks(rest),
            n,
            |i: int| has_text(rest[i]),
            p,
            |i: int| rest[i],
            item,
        );
        lemma_one_for_next(without_blanks(rest), n, p, item);
        assert(lines.last() == lines[n]);
        assert(has_text(lines[n]) == !blank(lines[n]));
    }
}

/// A text that starts with a line and a newline has that line first, without
/// the carriage return that it may end in, and then the lines of what follows.
/// A text without a newline is one line, unless it is empty.
pub proof fn law_lines_end_at_newlines(line: Seq<char>, rest: Seq<char>)
    requires
        forall|k: int| 0 <= k < line.len() ==> #[trigger] line[k] != '\n',
    ensures
        line.len() > 0 && line.last() == '\r' ==> lines_of(line.push('\n') + rest) == seq![
            line.drop_last(),
        ] + lines_of(rest),
        line.len() == 0 || line.last() != '\r' ==> lines_of(line.push('\n') + rest) == seq![line]
            + lines_of(rest),
        lines_of(line) == if line.len() > 0 {
            seq![line]
        } else {
            Seq::empty()
        },
{
    lemma_first_line(line, rest);
    lemma_last_line(line);
}

/// A log to which nothing but framed lines was appended: it is empty, or ends
/// in a newline.
pub open spec fn is_framed(text: Seq<char>) -> bool {
    text.len() == 0 || text.last() == '\n'
}

/// A line that a log keeps as it is: it has no newline, and does not end in a
/// carriage return.
pub open spec fn is_kept(line: Seq<char>) -> bool {
    is_one_line(line) && (line.len() == 0 || line.last() != '\r')
}

/// Appending a line to a log adds that line at the end, leaves the lines
/// before it as they are, and leaves the log ready for the next one.
pub proof fn law_appended_line_comes_last(text: Seq<char>, line: Seq<char>)
    requires
        is_framed(text),
        is_kept(line),
    ensures
        lines_of(text + framed_line(line)) == lines_of(text).push(line),
        is_framed(text + framed_line(line)),
    decreases text.len(),
{
    if text.len() == 0 {
        lemma_first_line(line, Seq::empty());
        lemma_last_line(Seq::empty());
        lemma_last_line(text);
        assert(text + framed_line(line) =~= framed_line(line) + Seq::empty());
        assert(lines_of(text).push(line) =~= seq![line] + Seq::empty());
    } else {
        let c = first_newline(text);
        let first = text.take(c);
        let rest = text.skip(c + 1);
        assert(text =~= framed_line(first) + rest);
        assert(text + framed_line(line) =~= framed_line(first) + (rest + framed_line(line)));
        assert(is_one_line(first));
        lemma_first_line(first, rest);
        lemma_first_line(first, rest + framed_line(line));
        assert(rest.len() > 0 ==> rest.last() == text.last());
        law_appended_line_comes_last(rest, line);
        assert(seq![without_return(first)] + lines_of(rest).push(line) =~= (seq![
            without_return(first),
        ] + lines_of(rest)).push(line));
    }
}

proof fn first_newline(text: Seq<char>) -> (c: int)
    requires
        text.len() > 0,
        text.last() == '\n',
    ensures
        is_line_end(text, c),
{
    lemma_first_newline(text, 0)
}

proof fn lemma_first_newline(text: Seq<char>, from: int) -> (c: int)
    requires
        text.len() > 0,
        text.last() == '\n',
        0 <= from < text.len(),
        forall|k: int| 0 <= k < from ==> #[trigger] text[k] != '\n',
    ensures
        is_line_end(text, c),
    decreases text.len() - from,
{
    if text[from] == '\n' {
        from
    } else {
        lemma_first_newline(text, from + 1)
    }
}

/// The text of a log to which lines were appended, one after the other.
pub open spec fn log_of(lines: Seq<Seq<char>>) -> Seq<char>
    decreases lines.len(),
{
    if lines.len() == 0 {
        Seq::empty()
    } else {
        log_of(lines.drop_last()) + framed_line(lines.last())
    }
}

/// What was appended to a log line by line reads back as those lines.
pub proof fn law_appended_lines_read_back(lines: Seq<Seq<char>>)
    requires
        forall|i: int| 0 <= i < lines.len() ==> is_kept(#[trigger] lines[i]),
    ensures
        lines_of(log_of(lines)) == lines,
        is_framed(log_of(lines)),
    decreases lines.len(),
{
    if lines.len() == 0 {
        lemma_last_line(Seq::empty());
    } else {
        let rest = lines.drop_last();
        assert forall|i: int| 0 <= i < rest.len() implies is_kept(#[trigger] rest[i]) by {
            assert(is_kept(lines[i]));
        }
        law_appended_lines_read_back(rest);
        assert(is_kept(lines[lines.len() - 1]));
        law_appended_line_comes_last(log_of(rest), lines.last());
        assert(rest.push(lines.last()) =~= lines);
    }
}

} // verus!
