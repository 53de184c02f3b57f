//! The file of class names: plain text with one class name on each line, the
//! first line naming class 0.

use vstd::prelude::*;
use vstd::string::*;

verus! {

/// The place of the first line feed at or after `from`, or the end of the
/// text where none follows.
pub open spec fn line_end(text: Seq<char>, from: int) -> int
    decreases text.len() - from,
{
    if from >= text.len() {
        text.len() as int
    } else if text[from] == '\n' {
        from
    } else {
        line_end(text, from + 1)
    }
}

/// The line that begins at `from`, without its end of line: a line feed, or a
/// carriage return and a line feed. A carriage return that no line feed
/// follows belongs to the line.
pub open spec fn line_at(text: Seq<char>, from: int) -> Seq<char> {
    let end = line_end(text, from);
    if from < end < text.len() && text[end - 1] == '\r' {
        text.subrange(from, end - 1)
    } else {
        text.subrange(from, end)
    }
}

/// The lines of the text from `from` on. A line feed at the very end of the
/// text ends the last line and opens no new one; an empty line is a line.
pub open spec fn lines_from(text: Seq<char>, from: int) -> Seq<Seq<char>>
    decreases text.len() - from,
    via lines_from_terminates
{
    if from < 0 || from >= text.len() {
        Seq::empty()
    } else if line_end(text, from) + 1 >= text.len() {
        seq![line_at(text, from)]
    } else {
        seq![line_at(text, from)] + lines_from(text, line_end(text, from) + 1)
    }
}

#[via_fn]
proof fn lines_from_terminates(text: Seq<char>, from: int) {
    if 0 <= from < text.len() {
        lemma_line_end_bounds(text, from);
    }
}

/// The class names as sequences of characters.
pub open spec fn names_in(names: Seq<String>) -> Seq<Seq<char>> {
    Seq::new(names.len(), |k: int| names[k]@)
}

/// The end of a line lies between its beginning and the end of the text, and
/// nothing before it is a line feed.
proof fn lemma_line_end_bounds(text: Seq<char>, from: int)
    requires
        0 <= from <= text.len(),
    ensures
        from <= line_end(text, from) <= text.len(),
        line_end(text, from) < text.len() ==> text[line_end(text, from)] == '\n',
        forall|k: int| from <= k < line_end(text, from) ==> text[k] != '\n',
    decreases text.len() - from,
{
    if from < text.len() && text[from] != '\n' {
        lemma_line_end_bounds(text, from + 1);
    }
}

/// Reads the class names from the text of a class file: one name for each
/// line, in the order of the lines. Lines lose their end of line and nothing
/// else, and an empty line gives an empty name.
pub fn parse_classes_txt(contents: &str) -> (class_names: Vec<String>)
    ensures
        names_in(class_names@) == lines_from(contents@, 0),
{
    let length = contents.unicode_len();
    let mut class_names: Vec<String> = Vec::new();
    let mut from: usize = 0;
    while from < length
        invariant
            length == contents@.len(),
            from <= length,
            names_in(class_names@) + lines_from(contents@, from as int) == lines_from(
                contents@,
                0,
            ),
        decreases length - from,
    {
        let mut end: usize = from;
        while end < length && contents.get_char(end) != '\n'
            invariant
                length == contents@.len(),
                from <= end <= length,
                line_end(contents@, end as int) == line_end(contents@, from as int),
            decreases length - end,
        {
            end += 1;
        }
        proof {
            lemma_line_end_bounds(contents@, from as int);
            assert(line_end(contents@, end as int) == end);
        }
        let stop = if from < end && end < length && contents.get_char(end - 1) == '\r' {
            end - 1
        } else {
            end
        };
        let name = contents.substring_char(from, stop).to_owned();
        let next = if end < length {
            end + 1
        } else {
            length
        };
        proof {
            let before = names_in(class_names@);
            let rest = lines_from(contents@, next as int);
            assert(name@ == line_at(contents@, from as int));
            assert(names_in(class_names@.push(name)) =~= before.push(name@));
            assert(lines_from(contents@, from as int) =~= seq![name@] + rest);
            assert(before + (seq![name@] + rest) =~= before.push(name@) + rest);
        }
        class_names.push(name);
        from = next;
    }
    proof {
        assert(names_in(class_names@) + Seq::<Seq<char>>::empty() =~= names_in(class_names@));
    }
    class_names
}

} // verus!
