//! Reading a whole index into memory: the header and one entry per record.

use crate::filter::header_len;
use crate::filter::is_separator;
use crate::filter::is_separator_line;
use crate::filter::separator;
use crate::filter::FilterError;
use crate::lines::after_first_line;
use crate::lines::first_line;
use crate::lines::lemma_line_end;
use crate::lines::LineReader;
use crate::text::lemma_skip_spaces;
use crate::text::lemma_skip_spaces_back;
use crate::text::skip_spaces;
use crate::text::skip_spaces_back;
use crate::text::trim;
use crate::text::trimmed;
use crate::text::SPACE;
use vstd::prelude::*;
use vstd::slice::slice_to_vec;

verus! {

/// One record of an index.
#[derive(Debug, Clone)]
pub struct GemLine {
    /// The number of the record's line, counted from 1, blank lines of the
    /// record section left out.
    pub line_number: usize,
    /// The entry name: what stands before the first space.
    pub name: Vec<u8>,
    /// What follows the first space.
    pub content: Vec<u8>,
}

/// A whole index.
pub struct VersionsFile {
    /// The header, separator line included, as it stands.
    pub metadata: Vec<u8>,
    /// The records, in the order of the input.
    pub entries: Vec<GemLine>,
}

/// What a `GemLine` stands for.
pub struct Entry {
    pub line_number: int,
    pub name: Seq<u8>,
    pub content: Seq<u8>,
}

impl View for GemLine {
    type V = Entry;

    open spec fn view(&self) -> Entry {
        Entry { line_number: self.line_number as int, name: self.name@, content: self.content@ }
    }
}

/// What each of `entries` stands for.
pub open spec fn entry_views(entries: Seq<GemLine>) -> Seq<Entry> {
    Seq::new(entries.len(), |i: int| entries[i]@)
}

/// Index of the first space of `s` at or after `i`, or the length of `s`
/// where there is none.
pub open spec fn first_space(s: Seq<u8>, i: int) -> int
    decreases s.len() - i,
{
    if 0 <= i < s.len() && s[i] != SPACE {
        first_space(s, i + 1)
    } else {
        i
    }
}

/// A trimmed record line cut at its first space: what stands before it and
/// what follows it. `None` where the line holds no space.
pub open spec fn split_record(line: Seq<u8>) -> Option<(Seq<u8>, Seq<u8>)> {
    let k = first_space(line, 0);
    if k < line.len() {
        Some((line.take(k), line.skip(k + 1)))
    } else {
        None
    }
}

/// Number of lines in the header of `s`: the number, counted from 1, of
/// its first separator line. Meant for an `s` that has one.
pub open spec fn header_line_count(s: Seq<u8>) -> int
    decreases s.len(),
{
    if s.len() == 0 {
        0
    } else {
        proof {
            lemma_line_end(s, 0);
        }
        if is_separator(first_line(s)) {
            1
        } else {
            1 + header_line_count(after_first_line(s))
        }
    }
}

/// The entries of the record section `body`, the first line that is not
/// blank having the number `number`. Blank lines are passed over and not
/// counted; a line without a space is counted and gives no entry.
pub open spec fn entries_from(body: Seq<u8>, number: int) -> Seq<Entry>
    decreases body.len(),
{
    if body.len() == 0 {
        Seq::empty()
    } else {
        proof {
            lemma_line_end(body, 0);
        }
        let line = trimmed(first_line(body));
        if line.len() == 0 {
            entries_from(after_first_line(body), number)
        } else {
            match split_record(line) {
                Some((name, content)) => seq![Entry { line_number: number, name, content }]
                    + entries_from(after_first_line(body), number + 1),
                None => entries_from(after_first_line(body), number + 1),
            }
        }
    }
}

/// A separator line has three bytes or more.
pub proof fn lemma_separator_len(line: Seq<u8>)
    requires
        is_separator(line),
    ensures
        line.len() >= 3,
{
    let a = skip_spaces(line, 0);
    lemma_skip_spaces(line, 0);
    lemma_skip_spaces_back(line, a, line.len() as int);
    assert(separator().len() == 3);
    assert(trimmed(line).len() == skip_spaces_back(line, a, line.len() as int) - a);
}

/// Reads the index `input`: its header, and an entry for each record line
/// that holds a space. Fails where `input` has no separator line.
pub fn parse_versions(input: &[u8]) -> (r: Result<VersionsFile, FilterError>)
    ensures
        match header_len(input@) {
            Some(h) => {
                &&& r matches Ok(file)
                &&& file.metadata@ == input@.take(h)
                &&& entry_views(file.entries@) == entries_from(
                    input@.skip(h),
                    header_line_count(input@) + 1,
                )
            },
            None => r matches Err(e) && e == FilterError::MissingSeparator,
        },
{
    let mut reader = LineReader::new(input);
    let mut metadata: Vec<u8> = Vec::new();
    let mut header_lines: usize = 0;
    let ghost mut done: int = 0;
    assert(input@.skip(0) =~= input@);
    let total = input.len();
    loop
        invariant_except_break
            header_lines <= done,
            header_len(input@) == match header_len(reader.remaining()) {
                Some(h) => Some(done + h),
                None => None,
            },
            header_line_count(input@) == header_lines + header_line_count(reader.remaining()),
        invariant
            total == input@.len(),
            0 <= done <= input@.len(),
            reader.remaining() == input@.skip(done),
            metadata@ == input@.take(done),
        ensures
            header_lines + 2 <= done,
            header_len(input@) == Some(done),
            header_line_count(input@) == header_lines,
        decreases reader.remaining().len(),
    {
        let ghost rest = reader.remaining();
        match reader.next_line() {
            None => {
                return Err(FilterError::MissingSeparator);
            },
            Some(line) => {
                proof {
                    lemma_line_end(rest, 0);
                    assert(input@.take(done + line@.len()) =~= input@.take(done) + line@);
                    assert(input@.skip(done + line@.len()) =~= after_first_line(rest));
                    done = done + line@.len();
                }
                metadata.extend_from_slice(line);
                header_lines += 1;
                if is_separator_line(line) {
                    proof {
                        lemma_separator_len(line@);
                    }
                    break ;
                }
            },
        }
    }
    let mut entries: Vec<GemLine> = Vec::new();
    let mut line_number: usize = header_lines + 1;
    let ghost body = reader.remaining();
    let ghost first_number = line_number as int;
    assert(entry_views(entries@) =~= Seq::<Entry>::empty());
    loop
        invariant
            total == input@.len(),
            line_number + 1 + reader.remaining().len() <= input@.len(),
            entries_from(body, first_number) == entry_views(entries@) + entries_from(
                reader.remaining(),
                line_number as int,
            ),
        ensures
            entries_from(body, first_number) == entry_views(entries@),
        decreases reader.remaining().len(),
    {
        let ghost rest = reader.remaining();
        match reader.next_line() {
            None => {
                break ;
            },
            Some(line) => {
                proof {
                    lemma_line_end(rest, 0);
                }
                let t = trim(line);
                if t.len() == 0 {
                    continue ;
                }
                let mut k: usize = 0;
                while k < t.len() && t[k] != SPACE
                    invariant
                        k <= t.len(),
                        first_space(t@, 0) == first_space(t@, k as int),
                    decreases t.len() - k,
                {
                    k += 1;
                }
                if k < t.len() {
                    let ghost before = entry_views(entries@);
                    let entry = GemLine {
                        line_number,
                        name: slice_to_vec(&t[0..k]),
                        content: slice_to_vec(&t[k + 1..t.len()]),
                    };
                    entries.push(entry);
                    assert(entry_views(entries@) =~= before.push(entry@));
                }
                line_number += 1;
            },
        }
    }
    Ok(VersionsFile { metadata, entries })
}

} // verus!
