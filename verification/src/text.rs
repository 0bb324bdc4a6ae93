//! Whitespace, trimming and fields.

use vstd::prelude::*;

verus! {

/// The byte that ends a line.
pub const LINE_FEED: u8 = 0x0a;

/// The byte that joins the fields of a rewritten record.
pub const SPACE: u8 = 0x20;

/// Whether `b` is a whitespace character of one byte: tab, line feed,
/// vertical tab, form feed, carriage return or space.
pub open spec fn is_ascii_space(b: u8) -> bool {
    b == 0x20 || (0x09 <= b && b <= 0x0d)
}

/// Whether `a`, `b` are the UTF-8 encoding of a whitespace character of
/// two bytes: U+0085 or U+00A0.
pub open spec fn is_space_pair(a: u8, b: u8) -> bool {
    a == 0xc2 && (b == 0x85 || b == 0xa0)
}

/// Whether `a`, `b`, `c` are the UTF-8 encoding of a whitespace character
/// of three bytes: U+1680, U+2000 to U+200A, U+2028, U+2029, U+202F,
/// U+205F or U+3000.
pub open spec fn is_space_triple(a: u8, b: u8, c: u8) -> bool {
    ||| a == 0xe1 && b == 0x9a && c == 0x80
    ||| a == 0xe2 && b == 0x80 && ((0x80 <= c && c <= 0x8a) || c == 0xa8 || c == 0xa9 || c
        == 0xaf)
    ||| a == 0xe2 && b == 0x81 && c == 0x9f
    ||| a == 0xe3 && b == 0x80 && c == 0x80
}

/// Number of bytes of the whitespace character whose UTF-8 encoding starts
/// at index `i` of `s`: 1, 2 or 3, or 0 where none starts there. The
/// whitespace characters are those with the Unicode property White_Space.
pub open spec fn space_len(s: Seq<u8>, i: int) -> int {
    if 0 <= i < s.len() && is_ascii_space(s[i]) {
        1
    } else if 0 <= i && i + 1 < s.len() && is_space_pair(s[i], s[i + 1]) {
        2
    } else if 0 <= i && i + 2 < s.len() && is_space_triple(s[i], s[i + 1], s[i + 2]) {
        3
    } else {
        0
    }
}

/// Number of bytes of the whitespace character whose UTF-8 encoding ends
/// just before index `j` of `s`, or 0 where none ends there.
pub open spec fn space_len_before(s: Seq<u8>, j: int) -> int {
    if 1 <= j <= s.len() && is_ascii_space(s[j - 1]) {
        1
    } else if 2 <= j <= s.len() && is_space_pair(s[j - 2], s[j - 1]) {
        2
    } else if 3 <= j <= s.len() && is_space_triple(s[j - 3], s[j - 2], s[j - 1]) {
        3
    } else {
        0
    }
}

/// Index behind the whitespace characters of `s` that start at `i` and
/// follow one another.
pub open spec fn skip_spaces(s: Seq<u8>, i: int) -> int
    decreases s.len() - i,
{
    if space_len(s, i) > 0 {
        skip_spaces(s, i + space_len(s, i))
    } else {
        i
    }
}

/// Index before the whitespace characters of `s` that end at `j` and
/// precede one another, never below `lo`.
pub open spec fn skip_spaces_back(s: Seq<u8>, lo: int, j: int) -> int
    decreases j,
{
    if space_len_before(s, j) > 0 && 0 <= lo <= j - space_len_before(s, j) {
        skip_spaces_back(s, lo, j - space_len_before(s, j))
    } else {
        j
    }
}

/// `s` without its leading and trailing whitespace.
pub open spec fn trimmed(s: Seq<u8>) -> Seq<u8> {
    let a = skip_spaces(s, 0);
    let b = skip_spaces_back(s, a, s.len() as int);
    s.subrange(a, b)
}

/// Index of the first whitespace character of `s` at or after `i`, or the
/// length of `s` where there is none.
pub open spec fn word_end(s: Seq<u8>, i: int) -> int
    decreases s.len() - i,
{
    if 0 <= i < s.len() && space_len(s, i) == 0 {
        word_end(s, i + 1)
    } else {
        i
    }
}

/// Skipping whitespace stays inside the bytes and stops where no
/// whitespace character starts.
pub proof fn lemma_skip_spaces(s: Seq<u8>, i: int)
    requires
        0 <= i <= s.len(),
    ensures
        i <= skip_spaces(s, i) <= s.len(),
        space_len(s, skip_spaces(s, i)) == 0,
    decreases s.len() - i,
{
    if space_len(s, i) > 0 {
        lemma_skip_spaces(s, i + space_len(s, i));
    }
}

/// Skipping whitespace backwards stays between its bounds.
pub proof fn lemma_skip_spaces_back(s: Seq<u8>, lo: int, j: int)
    requires
        0 <= lo <= j <= s.len(),
    ensures
        lo <= skip_spaces_back(s, lo, j) <= j,
    decreases j,
{
    if space_len_before(s, j) > 0 && lo <= j - space_len_before(s, j) {
        lemma_skip_spaces_back(s, lo, j - space_len_before(s, j));
    }
}

/// A word ends inside the bytes, where a whitespace character starts or
/// the bytes end, and no whitespace character starts inside it.
pub proof fn lemma_word_end(s: Seq<u8>, i: int)
    requires
        0 <= i <= s.len(),
    ensures
        i <= word_end(s, i) <= s.len(),
        word_end(s, i) < s.len() ==> space_len(s, word_end(s, i)) > 0,
        forall|k: int| i <= k < word_end(s, i) ==> #[trigger] space_len(s, k) == 0,
        i < s.len() && space_len(s, i) == 0 ==> i < word_end(s, i),
    decreases s.len() - i,
{
    if i < s.len() && space_len(s, i) == 0 {
        lemma_word_end(s, i + 1);
    }
}

/// The whitespace-separated fields of `s` that start at or after `i`, in
/// order.
pub open spec fn fields_from(s: Seq<u8>, i: int) -> Seq<Seq<u8>>
    decreases s.len() - i,
{
    let a = skip_spaces(s, i);
    let b = word_end(s, a);
    if 0 <= i <= s.len() && a < s.len() {
        proof {
            lemma_skip_spaces(s, i);
            lemma_word_end(s, a);
        }
        seq![s.subrange(a, b)] + fields_from(s, b)
    } else {
        Seq::empty()
    }
}

/// The whitespace-separated fields of `s`: its maximal runs of bytes that
/// are no whitespace, in order.
pub open spec fn fields(s: Seq<u8>) -> Seq<Seq<u8>> {
    fields_from(s, 0)
}

/// A field behind a single space.
pub open spec fn spaced() -> spec_fn(Seq<u8>) -> Seq<u8> {
    |field: Seq<u8>| seq![SPACE] + field
}

/// Whether `w` could be a field: it is not empty and no whitespace
/// character starts in it.
pub open spec fn is_word(w: Seq<u8>) -> bool {
    w.len() > 0 && forall|k: int| 0 <= k < w.len() ==> #[trigger] space_len(w, k) == 0
}

/// Whether each of `ws` could be a field.
pub open spec fn all_words(ws: Seq<Seq<u8>>) -> bool {
    forall|k: int| 0 <= k < ws.len() ==> is_word(#[trigger] ws[k])
}

/// The words `ws`, of which there is at least one, with a single space
/// between each two.
pub open spec fn joined(ws: Seq<Seq<u8>>) -> Seq<u8> {
    ws[0] + ws.skip(1).flat_map(spaced())
}

/// A word that stands in `t` at `a`, before a byte below 0x80 or at the
/// end, holds no whitespace there either.
pub proof fn lemma_word_in_context(t: Seq<u8>, a: int, w: Seq<u8>)
    requires
        0 <= a,
        a + w.len() <= t.len(),
        t.subrange(a, a + w.len()) == w,
        is_word(w),
        a + w.len() == t.len() || t[a + w.len()] < 0x80,
    ensures
        forall|k: int| a <= k < a + w.len() ==> #[trigger] space_len(t, k) == 0,
{
    let b = a + w.len();
    assert forall|k: int| a <= k < b implies #[trigger] space_len(t, k) == 0 by {
        assert(space_len(w, k - a) == 0);
        assert(w[k - a] == t[k]);
        if k + 1 < b {
            assert(w[k - a + 1] == t[k + 1]);
        }
        if k + 2 < b {
            assert(w[k - a + 2] == t[k + 2]);
        }
    }
}

/// A run of bytes in which no whitespace character starts is one word.
pub proof fn lemma_word_end_run(s: Seq<u8>, i: int, e: int)
    requires
        0 <= i <= e <= s.len(),
        forall|k: int| i <= k < e ==> #[trigger] space_len(s, k) == 0,
        e == s.len() || space_len(s, e) > 0,
    ensures
        word_end(s, i) == e,
    decreases e - i,
{
    if i < e {
        lemma_word_end_run(s, i + 1, e);
    }
}

/// Every field is a word.
pub proof fn lemma_fields_are_words(s: Seq<u8>, i: int)
    ensures
        all_words(fields_from(s, i)),
    decreases s.len() - i,
{
    let a = skip_spaces(s, i);
    let b = word_end(s, a);
    if 0 <= i <= s.len() && a < s.len() {
        lemma_skip_spaces(s, i);
        lemma_word_end(s, a);
        lemma_fields_are_words(s, b);
        let first = s.subrange(a, b);
        assert(is_word(first)) by {
            assert forall|k: int| 0 <= k < first.len() implies #[trigger] space_len(first, k)
                == 0 by {
                assert(space_len(s, a + k) == 0);
                assert(first[k] == s[a + k]);
                if k + 1 < first.len() {
                    assert(first[k + 1] == s[a + k + 1]);
                }
                if k + 2 < first.len() {
                    assert(first[k + 2] == s[a + k + 2]);
                }
            }
        }
        let rest = fields_from(s, b);
        assert forall|k: int| 0 <= k < fields_from(s, i).len() implies is_word(
            #[trigger] fields_from(s, i)[k],
        ) by {
            if k > 0 {
                assert(fields_from(s, i)[k] == rest[k - 1]);
            }
        }
    }
}

/// Spaced words, front first.
pub proof fn lemma_spaced_front(w: Seq<u8>, ws: Seq<Seq<u8>>)
    ensures
        (seq![w] + ws).flat_map(spaced()) == seq![SPACE] + w + ws.flat_map(spaced()),
{
    let all = seq![w] + ws;
    let mapped = all.map_values(spaced());
    assert(mapped.first() == seq![SPACE] + w);
    assert(mapped.drop_first() =~= ws.map_values(spaced()));
}

/// Spaced words, of which there is at least one, start with a space.
pub proof fn lemma_spaced_starts_with_space(ws: Seq<Seq<u8>>)
    requires
        ws.len() > 0,
    ensures
        ws.flat_map(spaced()).len() > 0,
        ws.flat_map(spaced())[0] == SPACE,
{
    assert(ws =~= seq![ws[0]] + ws.drop_first());
    lemma_spaced_front(ws[0], ws.drop_first());
}

/// Words joined end with the last word, which stands at the start or
/// behind a space.
pub proof fn lemma_joined_end(ws: Seq<Seq<u8>>)
    requires
        ws.len() > 0,
    ensures
        joined(ws).len() >= ws.last().len(),
        joined(ws).subrange(joined(ws).len() - ws.last().len(), joined(ws).len() as int)
            == ws.last(),
        joined(ws).len() == ws.last().len() || joined(ws)[joined(ws).len() - ws.last().len()
            - 1] == SPACE,
{
    let j = joined(ws);
    let last = ws.last();
    let rest = ws.skip(1);
    if rest.len() > 0 {
        let init = rest.drop_last();
        assert(rest =~= init.push(last));
        init.lemma_flat_map_push(spaced(), last);
        assert(j =~= ws[0] + init.flat_map(spaced()) + seq![SPACE] + last);
        assert(j.subrange(j.len() - last.len(), j.len() as int) =~= last);
    } else {
        assert(rest.flat_map(spaced()) =~= Seq::<u8>::empty());
        assert(j =~= ws[0]);
        assert(j.subrange(0, j.len() as int) =~= last);
    }
}

/// Behind any prefix, spaced words split into those words.
pub proof fn lemma_fields_after_prefix(p: Seq<u8>, ws: Seq<Seq<u8>>)
    requires
        all_words(ws),
    ensures
        fields_from(p + ws.flat_map(spaced()), p.len() as int) == ws,
    decreases ws.len(),
{
    let t = p + ws.flat_map(spaced());
    let n = p.len() as int;
    if ws.len() == 0 {
        assert(ws.flat_map(spaced()) =~= Seq::<u8>::empty());
        assert(t =~= p);
        assert(space_len(t, n) == 0);
        assert(fields_from(t, n) =~= ws);
    } else {
        let w = ws[0];
        let rest = ws.drop_first();
        assert(ws =~= seq![w] + rest);
        lemma_spaced_front(w, rest);
        let tail = rest.flat_map(spaced());
        assert(t =~= p + seq![SPACE] + w + tail);
        assert(is_word(w));
        assert(all_words(rest)) by {
            assert forall|k: int| 0 <= k < rest.len() implies is_word(#[trigger] rest[k]) by {
                assert(rest[k] == ws[k + 1]);
            }
        }
        let a = n + 1;
        let b = a + w.len();
        assert(t[n] == SPACE);
        assert(space_len(t, n) == 1);
        assert(t.subrange(a, b) =~= w);
        if rest.len() > 0 {
            lemma_spaced_starts_with_space(rest);
            assert(t[b] == tail[0]);
            assert(space_len(t, b) == 1);
        } else {
            assert(tail =~= Seq::<u8>::empty());
        }
        lemma_word_in_context(t, a, w);
        assert(space_len(t, a) == 0);
        assert(skip_spaces(t, a) == a);
        assert(skip_spaces(t, n) == a);
        lemma_word_end_run(t, a, b);
        let prefix = p + seq![SPACE] + w;
        assert(t =~= prefix + tail);
        lemma_fields_after_prefix(prefix, rest);
        assert(fields_from(t, n) =~= seq![w] + fields_from(t, b));
    }
}

/// Words joined by single spaces split into those words.
pub proof fn lemma_fields_of_joined(ws: Seq<Seq<u8>>)
    requires
        ws.len() > 0,
        all_words(ws),
    ensures
        fields(joined(ws)) == ws,
{
    let w = ws[0];
    let rest = ws.skip(1);
    let t = joined(ws);
    assert(is_word(w));
    assert(all_words(rest)) by {
        assert forall|k: int| 0 <= k < rest.len() implies is_word(#[trigger] rest[k]) by {
            assert(rest[k] == ws[k + 1]);
        }
    }
    lemma_fields_after_prefix(w, rest);
    let b = w.len() as int;
    let tail = rest.flat_map(spaced());
    assert(t.subrange(0, b) =~= w);
    if rest.len() > 0 {
        lemma_spaced_starts_with_space(rest);
        assert(t[b] == tail[0]);
        assert(space_len(t, b) == 1);
    } else {
        assert(tail =~= Seq::<u8>::empty());
    }
    lemma_word_in_context(t, 0, w);
    assert(space_len(t, 0) == 0);
    assert(skip_spaces(t, 0) == 0);
    lemma_word_end_run(t, 0, b);
    assert(ws =~= seq![w] + rest);
    assert(fields_from(t, 0) =~= seq![w] + fields_from(t, b));
}

/// A line of words joined by single spaces, ended by a line feed, trims to
/// the joined words.
pub proof fn lemma_trimmed_joined_line(ws: Seq<Seq<u8>>)
    requires
        ws.len() > 0,
        all_words(ws),
    ensures
        trimmed(joined(ws) + seq![LINE_FEED]) == joined(ws),
{
    let j = joined(ws);
    let t = j + seq![LINE_FEED];
    let n = j.len() as int;
    let first = ws[0];
    let last = ws.last();
    assert(is_word(first));
    assert(is_word(ws[ws.len() - 1]));
    // nothing to trim at the front
    assert(t.subrange(0, first.len() as int) =~= first);
    assert(first.len() == t.len() || t[first.len() as int] < 0x80) by {
        let rest = ws.skip(1);
        if rest.len() > 0 {
            lemma_spaced_starts_with_space(rest);
            assert(t[first.len() as int] == rest.flat_map(spaced())[0]);
        } else {
            assert(rest.flat_map(spaced()) =~= Seq::<u8>::empty());
            assert(t[first.len() as int] == LINE_FEED);
        }
    }
    lemma_word_in_context(t, 0, first);
    assert(space_len(t, 0) == 0);
    assert(skip_spaces(t, 0) == 0);
    // the line feed is all there is to trim at the back
    lemma_joined_end(ws);
    let m = n - last.len();
    assert(t.subrange(m, n) =~= last);
    assert(t[n] == LINE_FEED);
    lemma_word_in_context(t, m, last);
    assert(m == 0 || t[m - 1] == SPACE) by {
        if m > 0 {
            assert(t[m - 1] == j[m - 1]);
        }
    }
    assert(space_len(t, n - 1) == 0);
    assert(space_len_before(t, n) == 0) by {
        if n - 2 >= m {
            assert(space_len(t, n - 2) == 0);
        }
        if n - 3 >= m {
            assert(space_len(t, n - 3) == 0);
        }
    }
    assert(space_len_before(t, n + 1) == 1);
    assert(skip_spaces_back(t, 0, n) == n);
    assert(skip_spaces_back(t, 0, n + 1) == n);
    assert(t.subrange(0, n) =~= j);
}

/// Number of bytes of the whitespace character that starts at index `i`
/// of `line`, or 0 where none starts there.
pub fn space_at(line: &[u8], i: usize) -> (n: usize)
    ensures
        n == space_len(line@, i as int),
{
    let len = line.len();
    if i >= len {
        return 0;
    }
    let a = line[i];
    if a == 0x20 || (0x09 <= a && a <= 0x0d) {
        return 1;
    }
    if len - i >= 2 {
        let b = line[i + 1];
        if a == 0xc2 && (b == 0x85 || b == 0xa0) {
            return 2;
        }
        if len - i >= 3 {
            let c = line[i + 2];
            if (a == 0xe1 && b == 0x9a && c == 0x80) || (a == 0xe2 && b == 0x80 && ((0x80 <= c
                && c <= 0x8a) || c == 0xa8 || c == 0xa9 || c == 0xaf)) || (a == 0xe2 && b == 0x81
                && c == 0x9f) || (a == 0xe3 && b == 0x80 && c == 0x80) {
                return 3;
            }
        }
    }
    0
}

/// Number of bytes of the whitespace character that ends just before
/// index `j` of `line`, or 0 where none ends there.
pub fn space_before(line: &[u8], j: usize) -> (n: usize)
    ensures
        n == space_len_before(line@, j as int),
{
    if j > line.len() || j < 1 {
        return 0;
    }
    let c = line[j - 1];
    if c == 0x20 || (0x09 <= c && c <= 0x0d) {
        return 1;
    }
    if j >= 2 {
        let b = line[j - 2];
        if b == 0xc2 && (c == 0x85 || c == 0xa0) {
            return 2;
        }
        if j >= 3 {
            let a = line[j - 3];
            if (a == 0xe1 && b == 0x9a && c == 0x80) || (a == 0xe2 && b == 0x80 && ((0x80 <= c
                && c <= 0x8a) || c == 0xa8 || c == 0xa9 || c == 0xaf)) || (a == 0xe2 && b == 0x81
                && c == 0x9f) || (a == 0xe3 && b == 0x80 && c == 0x80) {
                return 3;
            }
        }
    }
    0
}

/// Trims leading and trailing whitespace off `line`.
pub fn trim(line: &[u8]) -> (t: &[u8])
    ensures
        t@ == trimmed(line@),
{
    let mut a: usize = 0;
    loop
        invariant
            a <= line.len(),
            skip_spaces(line@, 0) == skip_spaces(line@, a as int),
        ensures
            a <= line.len(),
            skip_spaces(line@, 0) == a,
        decreases line.len() - a,
    {
        let n = space_at(line, a);
        if n == 0 {
            break ;
        }
        a += n;
    }
    let mut b: usize = line.len();
    loop
        invariant
            a <= b <= line.len(),
            skip_spaces_back(line@, a as int, line@.len() as int) == skip_spaces_back(
                line@,
                a as int,
                b as int,
            ),
        ensures
            a <= b <= line.len(),
            skip_spaces_back(line@, a as int, line@.len() as int) == b,
        decreases b,
    {
        let n = space_before(line, b);
        if n == 0 || b - a < n {
            break ;
        }
        b -= n;
    }
    &line[a..b]
}

/// Splits `line` into its whitespace-separated fields.
pub fn split_fields(line: &[u8]) -> (parts: Vec<&[u8]>)
    ensures
        parts@.len() == fields(line@).len(),
        forall|k: int| 0 <= k < parts@.len() ==> (#[trigger] parts@[k])@ == fields(line@)[k],
{
    let mut parts: Vec<&[u8]> = Vec::new();
    let mut i: usize = 0;
    loop
        invariant
            i <= line.len(),
            fields(line@) == Seq::new(parts@.len(), |k: int| parts@[k]@) + fields_from(
                line@,
                i as int,
            ),
        ensures
            fields(line@) == Seq::new(parts@.len(), |k: int| parts@[k]@),
        decreases line.len() - i,
    {
        let mut a: usize = i;
        loop
            invariant
                i <= a <= line.len(),
                skip_spaces(line@, i as int) == skip_spaces(line@, a as int),
            ensures
                i <= a <= line.len(),
                skip_spaces(line@, i as int) == a,
            decreases line.len() - a,
        {
            let n = space_at(line, a);
            if n == 0 {
                break ;
            }
            a += n;
        }
        if a >= line.len() {
            break ;
        }
        let mut b: usize = a;
        while b < line.len() && space_at(line, b) == 0
            invariant
                a <= b <= line.len(),
                word_end(line@, a as int) == word_end(line@, b as int),
            decreases line.len() - b,
        {
            b += 1;
        }
        proof {
            lemma_word_end(line@, a as int);
        }
        let ghost before = Seq::new(parts@.len(), |k: int| parts@[k]@);
        parts.push(&line[a..b]);
        assert(Seq::new(parts@.len(), |k: int| parts@[k]@) =~= before.push(
            line@.subrange(a as int, b as int),
        ));
        i = b;
    }
    parts
}

} // verus!
