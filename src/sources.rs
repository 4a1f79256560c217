//! The source index: maps spans back to text, lines and columns.

use crate::lexer::{chars_of, len_to_newline, lemma_len_to_newline_bound, Span};
use vstd::prelude::*;
use vstd::string::*;

verus! {

/// The longest source text accepted: spans and columns are 32-bit.
pub const MAX_SOURCE_LEN: usize = 0x3fff_ffff;

/// Whether a carriage return stands in `s[i..j)`.
pub open spec fn has_carriage_return(s: Seq<char>, i: int, j: int) -> bool {
    exists|k: int| i <= k < j && s[k] == '\r'
}

/// The ranges of the lines of `s` that start at or after position `i`.
/// A line ends before its newline, and one place earlier where a carriage
/// return stands anywhere in it; text after the last newline is a line of its
/// own if it is not empty.
pub open spec fn lines_from(s: Seq<char>, i: int) -> Seq<(int, int)>
    decreases (if i < s.len() {
        s.len() - i
    } else {
        0
    }),
{
    if i < 0 || i >= s.len() {
        seq![]
    } else {
        let e = i + len_to_newline(s, i);
        if e >= s.len() {
            seq![(i, s.len() as int)]
        } else {
            seq![(i, if has_carriage_return(s, i, e) { e - 1 } else { e })] + lines_from(s, e + 1)
        }
    }
}

/// The first line from the `k`-th on that contains position `index`.
pub open spec fn line_containing(lines: Seq<(int, int)>, index: int, k: int) -> Option<int>
    decreases lines.len() - k,
{
    if k < 0 || k >= lines.len() {
        None
    } else if lines[k].0 <= index < lines[k].1 {
        Some(k)
    } else {
        line_containing(lines, index, k + 1)
    }
}

/// The width of `s` on screen, a tab counting four.
pub open spec fn display_width(s: Seq<char>) -> nat
    decreases s.len(),
{
    if s.len() == 0 {
        0
    } else {
        display_width(s.drop_last()) + if s.last() == '\t' {
            4nat
        } else {
            1nat
        }
    }
}

proof fn lemma_display_width_bound(s: Seq<char>)
    ensures
        display_width(s) <= 4 * s.len(),
    decreases s.len(),
{
    if s.len() > 0 {
        lemma_display_width_bound(s.drop_last());
    }
}

proof fn lemma_lines_bound(s: Seq<char>, i: int)
    requires
        0 <= i,
    ensures
        forall|k: int|
            0 <= k < lines_from(s, i).len() ==> i <= #[trigger] lines_from(s, i)[k].0 <= lines_from(
                s,
                i,
            )[k].1 <= s.len(),
        lines_from(s, i).len() <= s.len() + 1 - i || lines_from(s, i).len() == 0,
    decreases (if i < s.len() {
        s.len() - i
    } else {
        0
    }),
{
    if i < s.len() {
        let e = i + len_to_newline(s, i);
        lemma_len_to_newline_bound(s, i);
        if e < s.len() {
            lemma_lines_bound(s, e + 1);
            let end = if has_carriage_return(s, i, e) {
                e - 1
            } else {
                e
            };
            if has_carriage_return(s, i, e) {
                let k = choose|k: int| i <= k < e && s[k] == '\r';
                assert(i <= end);
            }
            let rest = lines_from(s, e + 1);
            assert(lines_from(s, i) == seq![(i, end)] + rest);
            assert forall|k: int| 0 <= k < lines_from(s, i).len() implies i <= #[trigger] lines_from(
                s,
                i,
            )[k].0 <= lines_from(s, i)[k].1 <= s.len() by {
                if k > 0 {
                    assert(lines_from(s, i)[k] == rest[k - 1]);
                }
            }
        }
    }
}

/// Wraps the raw source text; the only component that reads it directly.
pub struct SourceManager<'a> {
    source: &'a str,
    text: Vec<char>,
    lines: Vec<(usize, usize)>,
    file_name: String,
}

pub open spec fn ranges_view(v: Seq<(usize, usize)>) -> Seq<(int, int)> {
    v.map_values(|p: (usize, usize)| (p.0 as int, p.1 as int))
}

impl<'a> SourceManager<'a> {
    #[verifier::type_invariant]
    spec fn inv(&self) -> bool {
        &&& self.text@ == self.source@
        &&& self.text@.len() <= MAX_SOURCE_LEN
        &&& ranges_view(self.lines@) == lines_from(self.text@, 0)
    }

    /// The source text.
    pub closed spec fn text(&self) -> Seq<char> {
        self.text@
    }

    /// The ranges of its lines.
    pub closed spec fn line_ranges(&self) -> Seq<(int, int)> {
        ranges_view(self.lines@)
    }

    pub closed spec fn spec_file_name(&self) -> Seq<char> {
        self.file_name@
    }

    pub fn new(source: &'a str, file_name: String) -> (r: SourceManager<'a>)
        requires
            source@.len() <= MAX_SOURCE_LEN,
        ensures
            r.text() == source@,
            r.line_ranges() == lines_from(source@, 0),
            r.spec_file_name() == file_name@,
    {
        let text = chars_of(source);
        let ghost s = text@;
        let mut lines: Vec<(usize, usize)> = Vec::new();
        let mut last_newline: usize = 0;
        let mut current_index: usize = 0;
        let mut saw_carriage_return = false;
        while current_index < text.len()
            invariant
                s == text@,
                s.len() <= MAX_SOURCE_LEN,
                last_newline <= current_index <= s.len(),
                len_to_newline(s, last_newline as int) == (current_index - last_newline)
                    + len_to_newline(s, current_index as int),
                saw_carriage_return == has_carriage_return(s, last_newline as int, current_index as int),
                lines_from(s, 0) == ranges_view(lines@) + lines_from(s, last_newline as int),
            decreases s.len() - current_index,
        {
            let c = text[current_index];
            let ghost prev = lines@;
            if c == '\r' {
                saw_carriage_return = true;
            } else if c == '\n' {
                if saw_carriage_return {
                    lines.push((last_newline, current_index - 1));
                    saw_carriage_return = false;
                } else {
                    lines.push((last_newline, current_index));
                }
                proof {
                    assert(ranges_view(lines@) =~= ranges_view(prev) + seq![
                        (last_newline as int, ranges_view(lines@).last().1),
                    ]);
                    assert(ranges_view(lines@) + lines_from(s, current_index + 1) =~= ranges_view(
                        prev,
                    ) + lines_from(s, last_newline as int));
                }
                last_newline = current_index + 1;
            }
            proof {
                if c == '\r' && last_newline <= current_index {
                    assert(has_carriage_return(s, last_newline as int, current_index + 1));
                }
                if c != '\r' && c != '\n' && !saw_carriage_return {
                    assert forall|k: int| last_newline <= k < current_index + 1 implies s[k]
                        != '\r' by {
                        if k < current_index {
                            assert(!has_carriage_return(s, last_newline as int, current_index as int));
                        }
                    }
                }
            }
            current_index += 1;
        }
        if last_newline != current_index {
            let ghost prev = lines@;
            lines.push((last_newline, current_index));
            assert(ranges_view(lines@) =~= ranges_view(prev) + seq![
                (last_newline as int, current_index as int),
            ]);
        }
        assert(ranges_view(lines@) == lines_from(s, 0)) by {
            if last_newline == current_index {
                assert(ranges_view(lines@) + seq![] =~= ranges_view(lines@));
            }
        }
        SourceManager { source, text, lines, file_name }
    }

    /// The text that `span` covers; fails if it reaches past the end.
    pub fn get_span(&self, span: Span) -> (r: Result<&'a str, ()>)
        ensures
            r is Ok <==> span.end() <= self.text().len(),
            r matches Ok(t) ==> t@ == self.text().subrange(span.index as int, span.end()),
    {
        proof {
            use_type_invariant(self);
        }
        let index = span.index as usize;
        let len = span.len as usize;
        if (span.index as u64) + (span.len as u64) <= self.text.len() as u64 {
            Ok(self.source.substring_char(index, index + len))
        } else {
            Err(())
        }
    }

    /// The line that holds the start of `span`, its 1-based number, and the
    /// span's column on screen (tabs count four). The span must not cross lines.
    pub fn get_span_line(&self, span: Span) -> (r: Result<(&'a str, u32, u32), ()>)
        ensures
            r is Ok <==> line_containing(self.line_ranges(), span.index as int, 0) is Some,
            r matches Ok(res) ==> ({
                let k = line_containing(self.line_ranges(), span.index as int, 0)->Some_0;
                let (start, end) = self.line_ranges()[k];
                &&& res.0@ == self.text().subrange(start, end)
                &&& res.1 == k + 1
                &&& res.2 == display_width(self.text().subrange(start, span.index as int))
            }),
    {
        proof {
            use_type_invariant(self);
            lemma_lines_bound(self.text@, 0);
        }
        let (line_range, line_number) = match self.find_line_containing_char(span.index as usize) {
            Some(found) => found,
            None => {
                return Err(());
            },
        };
        let (start, end) = line_range;
        proof {
            let k = line_number as int;
            lemma_line_containing(self.line_ranges(), span.index as int, 0);
            assert(lines_from(self.text@, 0)[k].0 <= lines_from(self.text@, 0)[k].1 <= self.text@.len());
        }
        let line = self.source.substring_char(start, end);
        let offset = span.index as usize - start;
        let mut col: u32 = 0;
        let mut i: usize = 0;
        proof {
            lemma_display_width_bound(self.text@.subrange(start as int, span.index as int));
        }
        while i < offset
            invariant
                start + offset <= end <= self.text@.len() <= MAX_SOURCE_LEN,
                i <= offset,
                col == display_width(self.text@.subrange(start as int, start + i)),
                display_width(self.text@.subrange(start as int, start + offset)) <= 4 * offset,
            decreases offset - i,
        {
            proof {
                let a = self.text@.subrange(start as int, start + i + 1);
                assert(a.drop_last() =~= self.text@.subrange(start as int, start + i));
                lemma_display_width_bound(a);
                lemma_width_prefix(self.text@.subrange(start as int, start + offset), i + 1);
                assert(self.text@.subrange(start as int, start + offset).take(i + 1) =~= a);
            }
            if self.text[start + i] != '\t' {
                col += 1;
            } else {
                col += 4;
            }
            i += 1;
        }
        Ok((line, line_number + 1, col))
    }

    pub fn file_name(&self) -> (r: &String)
        ensures
            r@ == self.spec_file_name(),
    {
        &self.file_name
    }

    fn find_line_containing_char(&self, index: usize) -> (r: Option<((usize, usize), u32)>)
        requires
            self.text@.len() <= MAX_SOURCE_LEN,
            forall|k: int|
                0 <= k < self.line_ranges().len() ==> #[trigger] self.line_ranges()[k].0
                    <= self.line_ranges()[k].1 <= self.text@.len(),
            self.line_ranges().len() <= self.text@.len() + 1,
        ensures
            r is Some <==> line_containing(self.line_ranges(), index as int, 0) is Some,
            r matches Some(found) ==> ({
                let k = line_containing(self.line_ranges(), index as int, 0)->Some_0;
                &&& found.1 == k
                &&& found.0.0 == self.line_ranges()[k].0
                &&& found.0.1 == self.line_ranges()[k].1
                &&& found.0.0 <= index < found.0.1
            }),
    {
        let mut line_number: usize = 0;
        while line_number < self.lines.len()
            invariant
                line_number <= self.lines@.len() <= MAX_SOURCE_LEN + 1,
                line_containing(self.line_ranges(), index as int, 0) == line_containing(
                    self.line_ranges(),
                    index as int,
                    line_number as int,
                ),
            decreases self.lines@.len() - line_number,
        {
            let (start, end) = self.lines[line_number];
            if start <= index && index < end {
                return Some(((start, end), line_number as u32));
            }
            line_number += 1;
        }
        None
    }
}

proof fn lemma_line_containing(lines: Seq<(int, int)>, index: int, j: int)
    requires
        line_containing(lines, index, j) is Some,
    ensures
        ({
            let k = line_containing(lines, index, j)->Some_0;
            j <= k < lines.len() && lines[k].0 <= index < lines[k].1
        }),
    decreases lines.len() - j,
{
    if 0 <= j < lines.len() && !(lines[j].0 <= index < lines[j].1) {
        lemma_line_containing(lines, index, j + 1);
    }
}

proof fn lemma_width_prefix(s: Seq<char>, n: int)
    requires
        0 <= n <= s.len(),
    ensures
        display_width(s.take(n)) <= display_width(s),
    decreases s.len() - n,
{
    if n < s.len() {
        assert(s.take(n + 1).drop_last() =~= s.take(n));
        lemma_width_prefix(s, n + 1);
    } else {
        assert(s.take(n) =~= s);
    }
}

} // verus!
