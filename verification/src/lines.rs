//! Lines of a byte string, and a reader that hands them out one by one.

use crate::text::LINE_FEED;
use vstd::prelude::*;

verus! {

/// Index just behind the first line feed of `s` at or after `i`, or the
/// length of `s` where there is none.
pub open spec fn line_end(s: Seq<u8>, i: int) -> int
    decreases s.len() - i,
{
    if 0 <= i < s.len() {
        if s[i] == LINE_FEED {
            i + 1
        } else {
            line_end(s, i + 1)
        }
    } else {
        i
    }
}

/// The first line of `s`, with its line feed if it has one. Empty only if
/// `s` is.
pub open spec fn first_line(s: Seq<u8>) -> Seq<u8> {
    s.take(line_end(s, 0))
}

/// What follows the first line of `s`.
pub open spec fn after_first_line(s: Seq<u8>) -> Seq<u8> {
    s.skip(line_end(s, 0))
}

/// The lines of `s` in order: `s` cut behind each of its line feeds.
pub open spec fn lines(s: Seq<u8>) -> Seq<Seq<u8>>
    decreases s.len(),
{
    if s.len() == 0 {
        Seq::empty()
    } else {
        proof {
            lemma_line_end(s, 0);
        }
        seq![first_line(s)] + lines(after_first_line(s))
    }
}

/// A line ends behind its first line feed, or where the bytes end.
pub proof fn lemma_line_end(s: Seq<u8>, i: int)
    requires
        0 <= i <= s.len(),
    ensures
        i <= line_end(s, i) <= s.len(),
        i < s.len() ==> i < line_end(s, i),
        forall|k: int| i <= k < line_end(s, i) - 1 ==> #[trigger] s[k] != LINE_FEED,
        i < line_end(s, i) < s.len() ==> s[line_end(s, i) - 1] == LINE_FEED,
    decreases s.len() - i,
{
    if i < s.len() && s[i] != LINE_FEED {
        lemma_line_end(s, i + 1);
    }
}

/// Where a line ends does not depend on what stands before it.
pub proof fn lemma_line_end_skip(s: Seq<u8>, p: int, i: int)
    requires
        0 <= p,
        0 <= i,
        p + i <= s.len(),
    ensures
        line_end(s.skip(p), i) + p == line_end(s, p + i),
    decreases s.len() - p - i,
{
    if p + i < s.len() && s[p + i] != LINE_FEED {
        lemma_line_end_skip(s, p, i + 1);
    }
}

/// The lines of `s`, put together again, are `s`.
pub proof fn lemma_lines_flatten(s: Seq<u8>)
    ensures
        lines(s).flatten() == s,
    decreases s.len(),
{
    if s.len() > 0 {
        lemma_line_end(s, 0);
        lemma_lines_flatten(after_first_line(s));
        let ls = lines(s);
        assert(ls.first() == first_line(s));
        assert(ls.drop_first() =~= lines(after_first_line(s)));
        assert(first_line(s) + after_first_line(s) =~= s);
    }
}

/// Hands out the lines of a byte string one by one, each with its line
/// feed.
pub struct LineReader<'a> {
    data: &'a [u8],
    pos: usize,
}

impl<'a> LineReader<'a> {
    #[verifier::type_invariant]
    spec fn in_bounds(self) -> bool {
        self.pos <= self.data@.len()
    }

    /// The bytes not yet handed out.
    pub closed spec fn remaining(self) -> Seq<u8> {
        self.data@.skip(self.pos as int)
    }

    /// A reader at the start of `data`.
    pub fn new(data: &'a [u8]) -> (reader: Self)
        ensures
            reader.remaining() == data@,
    {
        let reader = LineReader { data, pos: 0 };
        assert(reader.remaining() =~= data@);
        reader
    }

    /// The next line, or `None` once all bytes have been handed out.
    pub fn next_line(&mut self) -> (line: Option<&'a [u8]>)
        ensures
            match line {
                Some(l) => {
                    &&& old(self).remaining().len() > 0
                    &&& l@ == first_line(old(self).remaining())
                    &&& final(self).remaining() == after_first_line(old(self).remaining())
                },
                None => {
                    &&& old(self).remaining().len() == 0
                    &&& final(self).remaining() == old(self).remaining()
                },
            },
    {
        proof {
            use_type_invariant(&*self);
        }
        let data = self.data;
        let start = self.pos;
        if start >= data.len() {
            return None;
        }
        let mut end: usize = start;
        while end < data.len() && data[end] != LINE_FEED
            invariant
                start <= end <= data.len(),
                line_end(data@, start as int) == line_end(data@, end as int),
            decreases data.len() - end,
        {
            end += 1;
        }
        if end < data.len() {
            end += 1;
        }
        proof {
            lemma_line_end_skip(data@, start as int, 0);
            assert(data@.skip(start as int).take(end - start) =~= data@.subrange(
                start as int,
                end as int,
            ));
            assert(data@.skip(start as int).skip(end - start) =~= data@.skip(end as int));
        }
        self.pos = end;
        Some(&data[start..end])
    }
}

} // verus!
