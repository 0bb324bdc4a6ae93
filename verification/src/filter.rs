//! The filter engine: header, membership, rewriting, and the whole run.

use crate::digest::digest_hex;
use crate::digest::digest_hex_len;
use crate::digest::DigestAlgorithm;
use crate::digest::DigestWriter;
use crate::lines::after_first_line;
use crate::lines::first_line;
use crate::lines::lemma_line_end;
use crate::lines::line_end;
use crate::lines::lines;
use crate::lines::LineReader;
use crate::names::NameSet;
use crate::text::fields;
use crate::text::space_at;
use crate::text::spaced;
use crate::text::split_fields;
use crate::text::trim;
use crate::text::trimmed;
use crate::text::word_end;
use crate::text::LINE_FEED;
use crate::text::SPACE;
use vstd::prelude::*;

verus! {

/// The byte `-`, of which the separator line holds three.
pub const HYPHEN: u8 = 0x2d;

/// The byte `0`, which stands for the version field of a stripped record.
pub const PLACEHOLDER: u8 = 0x30;

/// Which records a run keeps.
#[derive(Debug, Clone, Copy)]
pub enum FilterMode<'a> {
    /// Keep every record.
    Passthrough,
    /// Keep the records whose name is in the set.
    Allow(&'a NameSet),
    /// Keep the records whose name is not in the set.
    Block(&'a NameSet),
}

/// What a `FilterMode` stands for: a selection policy over sets of names.
pub enum Policy {
    Passthrough,
    Allow(Set<Seq<u8>>),
    Block(Set<Seq<u8>>),
}

impl<'a> View for FilterMode<'a> {
    type V = Policy;

    open spec fn view(&self) -> Policy {
        match *self {
            FilterMode::Passthrough => Policy::Passthrough,
            FilterMode::Allow(set) => Policy::Allow(set@),
            FilterMode::Block(set) => Policy::Block(set@),
        }
    }
}

/// What a run writes for a record it keeps.
#[derive(Debug, Clone, Copy, PartialEq, Eq, Structural)]
pub enum VersionOutput {
    /// The line as it stands.
    Preserve,
    /// The line with its second field replaced by `0`.
    Strip,
}

/// Why a run failed.
#[derive(Debug, Clone, Copy, PartialEq, Eq, Structural)]
pub enum FilterError {
    /// The input ended before a separator line.
    MissingSeparator,
}

impl FilterError {
    /// The error in words.
    pub fn message(&self) -> (text: String)
        ensures
            text@ == "No separator found in versions file"@,
    {
        "No separator found in versions file".to_owned()
    }
}

/// The separator line without its whitespace: `---`.
pub open spec fn separator() -> Seq<u8> {
    seq![HYPHEN, HYPHEN, HYPHEN]
}

/// Whether `line` is a separator line: `---` once trimmed.
pub open spec fn is_separator(line: Seq<u8>) -> bool {
    trimmed(line) == separator()
}

/// Length of the header of `s`: the offset just behind its first separator
/// line, or `None` where no line of `s` is a separator.
pub open spec fn header_len(s: Seq<u8>) -> Option<int>
    decreases s.len(),
{
    if s.len() == 0 {
        None
    } else {
        proof {
            lemma_line_end(s, 0);
        }
        if is_separator(first_line(s)) {
            Some(line_end(s, 0))
        } else {
            match header_len(after_first_line(s)) {
                Some(h) => Some(line_end(s, 0) + h),
                None => None,
            }
        }
    }
}

/// The entry name of a trimmed record line: what stands before its first
/// whitespace character. `None` where the line holds no whitespace.
pub open spec fn gem_name(line: Seq<u8>) -> Option<Seq<u8>> {
    let k = word_end(line, 0);
    if k < line.len() {
        Some(line.take(k))
    } else {
        None
    }
}

/// Whether `policy` keeps a record named `name`.
pub open spec fn admits(policy: Policy, name: Seq<u8>) -> bool {
    match policy {
        Policy::Passthrough => true,
        Policy::Allow(set) => set.contains(name),
        Policy::Block(set) => !set.contains(name),
    }
}

/// Whether a run under `policy` keeps `line`. A line without a name, and
/// so a blank one, is never kept.
pub open spec fn keeps(policy: Policy, line: Seq<u8>) -> bool {
    match gem_name(trimmed(line)) {
        Some(name) => admits(policy, name),
        None => false,
    }
}

/// The record of the fields `fs` with the second one replaced by `0`: the
/// first field, ` 0`, every field from the third on behind a single space,
/// and a line feed.
pub open spec fn stripped(fs: Seq<Seq<u8>>) -> Seq<u8> {
    fs[0] + seq![SPACE, PLACEHOLDER] + fs.skip(2).flat_map(spaced()) + seq![LINE_FEED]
}

/// What stripping writes for a record whose trimmed line is `line` and
/// whose line as read is `original`: the stripped record where `line` has
/// three fields or more, else `original` unchanged.
pub open spec fn rewritten(line: Seq<u8>, original: Seq<u8>) -> Seq<u8> {
    if fields(line).len() >= 3 {
        stripped(fields(line))
    } else {
        original
    }
}

/// What a run writes for a kept `line`.
pub open spec fn rendered(version_output: VersionOutput, line: Seq<u8>) -> Seq<u8> {
    match version_output {
        VersionOutput::Preserve => line,
        VersionOutput::Strip => rewritten(trimmed(line), line),
    }
}

/// What a run writes for the record line `line`: nothing unless it is kept.
pub open spec fn emitted(policy: Policy, version_output: VersionOutput, line: Seq<u8>) -> Seq<
    u8,
> {
    if keeps(policy, line) {
        rendered(version_output, line)
    } else {
        Seq::empty()
    }
}

/// `emitted` as a function of the line.
pub open spec fn emitter(policy: Policy, version_output: VersionOutput) -> spec_fn(Seq<u8>) -> Seq<
    u8,
> {
    |line: Seq<u8>| emitted(policy, version_output, line)
}

/// What a run writes for the record section `body`: what it writes for
/// each line, in the order of the lines.
pub open spec fn records_output(body: Seq<u8>, policy: Policy, version_output: VersionOutput) -> Seq<
    u8,
> {
    lines(body).flat_map(emitter(policy, version_output))
}

/// What a run writes for `input`: the header as it stands, then the record
/// section filtered. `None` where `input` has no separator line.
pub open spec fn filtered(input: Seq<u8>, policy: Policy, version_output: VersionOutput) -> Option<
    Seq<u8>,
> {
    match header_len(input) {
        Some(h) => Some(input.take(h) + records_output(input.skip(h), policy, version_output)),
        None => None,
    }
}

/// The policy of a membership test against `set` that keeps a record if
/// and only if the test gives `include_on_match`.
pub open spec fn membership(set: Set<Seq<u8>>, include_on_match: bool) -> Policy {
    if include_on_match {
        Policy::Allow(set)
    } else {
        Policy::Block(set)
    }
}

/// The header ends inside the bytes, behind a separator line.
pub proof fn lemma_header_len(s: Seq<u8>)
    ensures
        header_len(s) matches Some(h) ==> 0 < h <= s.len(),
    decreases s.len(),
{
    if s.len() > 0 {
        lemma_line_end(s, 0);
        lemma_header_len(after_first_line(s));
    }
}

/// The record section is filtered line by line, front to back.
pub proof fn lemma_records_output_step(
    body: Seq<u8>,
    policy: Policy,
    version_output: VersionOutput,
)
    requires
        body.len() > 0,
    ensures
        records_output(body, policy, version_output) == emitted(
            policy,
            version_output,
            first_line(body),
        ) + records_output(after_first_line(body), policy, version_output),
{
    let f = emitter(policy, version_output);
    let ls = lines(body);
    let rest = lines(after_first_line(body));
    assert(ls =~= seq![first_line(body)] + rest);
    let mapped = ls.map_values(f);
    assert(mapped.first() == f(first_line(body)));
    assert(mapped.drop_first() =~= rest.map_values(f));
}

/// Tells whether `line` is a separator line.
pub fn is_separator_line(line: &[u8]) -> (r: bool)
    ensures
        r == is_separator(line@),
{
    let t = trim(line);
    let r = t.len() == 3 && t[0] == HYPHEN && t[1] == HYPHEN && t[2] == HYPHEN;
    proof {
        if r {
            assert(t@ =~= separator());
        } else if t@ == separator() {
            assert(separator().len() == 3);
            assert(separator()[0] == HYPHEN && separator()[1] == HYPHEN && separator()[2]
                == HYPHEN);
        }
    }
    r
}

/// Extracts the entry name of a trimmed record line: what stands before
/// its first whitespace character. `None` where the line holds no whitespace.
pub fn extract_gem_name(line: &[u8]) -> (name: Option<&[u8]>)
    ensures
        match name {
            Some(n) => gem_name(line@) == Some(n@),
            None => gem_name(line@) is None,
        },
{
    let mut k: usize = 0;
    while k < line.len() && space_at(line, k) == 0
        invariant
            k <= line.len(),
            word_end(line@, 0) == word_end(line@, k as int),
        decreases line.len() - k,
    {
        k += 1;
    }
    if k < line.len() {
        Some(&line[0..k])
    } else {
        None
    }
}

/// Writes the record of `trimmed` with its second field replaced by `0`.
/// Where `trimmed` has fewer than three fields, writes `original_line`
/// unchanged instead.
pub fn write_gem_line_stripped(
    trimmed: &[u8],
    original_line: &[u8],
    output: &mut DigestWriter<'_>,
)
    ensures
        final(output).fed(old(output), rewritten(trimmed@, original_line@)),
        *final(final(output).inner) == *final(old(output).inner),
{
    let parts = split_fields(trimmed);
    if parts.len() >= 3 {
        let ghost fs = fields(trimmed@);
        let ghost tail = fs.skip(2);
        let mut record: Vec<u8> = Vec::new();
        record.extend_from_slice(parts[0]);
        record.push(SPACE);
        record.push(PLACEHOLDER);
        let mut k: usize = 2;
        while k < parts.len()
            invariant
                2 <= k <= parts.len(),
                parts@.len() == fs.len(),
                forall|j: int| 0 <= j < parts@.len() ==> (#[trigger] parts@[j])@ == fs[j],
                tail == fs.skip(2),
                record@ == fs[0] + seq![SPACE, PLACEHOLDER] + tail.take(k - 2).flat_map(spaced()),
            decreases parts.len() - k,
        {
            record.push(SPACE);
            record.extend_from_slice(parts[k]);
            proof {
                tail.lemma_flat_map_take_append(spaced(), k - 2);
                assert(spaced()(tail[k - 2]) == seq![SPACE] + fs[k as int]);
            }
            k += 1;
        }
        record.push(LINE_FEED);
        assert(tail.take(k - 2) =~= tail);
        output.write(record.as_slice());
    } else {
        output.write(original_line);
    }
}

/// Writes a kept record: `original_line` as it stands, or stripped.
pub fn write_gem_line(
    trimmed: &[u8],
    original_line: &[u8],
    output: &mut DigestWriter<'_>,
    version_output: VersionOutput,
)
    ensures
        final(output).fed(
            old(output),
            match version_output {
                VersionOutput::Preserve => original_line@,
                VersionOutput::Strip => rewritten(trimmed@, original_line@),
            },
        ),
        *final(final(output).inner) == *final(old(output).inner),
{
    match version_output {
        VersionOutput::Strip => write_gem_line_stripped(trimmed, original_line, output),
        VersionOutput::Preserve => {
            output.write(original_line);
        },
    }
}

/// Tells whether `mode` keeps a record named `name`.
pub fn admits_name(mode: FilterMode<'_>, name: &[u8]) -> (r: bool)
    ensures
        r == admits(mode@, name@),
{
    match mode {
        FilterMode::Passthrough => true,
        FilterMode::Allow(set) => set.contains(name),
        FilterMode::Block(set) => !set.contains(name),
    }
}

/// Handles one line of the record section: writes it, as `version_output`
/// says, if `mode` keeps it.
pub fn process_record(
    line: &[u8],
    mode: FilterMode<'_>,
    version_output: VersionOutput,
    output: &mut DigestWriter<'_>,
)
    ensures
        final(output).fed(old(output), emitted(mode@, version_output, line@)),
        *final(final(output).inner) == *final(old(output).inner),
{
    let trimmed = trim(line);
    match extract_gem_name(trimmed) {
        Some(name) => {
            if admits_name(mode, name) {
                write_gem_line(trimmed, line, output, version_output);
            }
        },
        None => {},
    }
}

/// Forwards the header: writes every line up to and including the first
/// separator line as it stands. Fails, having written every line, where
/// the input ends before a separator line.
pub fn pass_through_metadata(reader: &mut LineReader<'_>, output: &mut DigestWriter<'_>) -> (r:
    Result<(), FilterError>)
    ensures
        match header_len(old(reader).remaining()) {
            Some(h) => {
                &&& r is Ok
                &&& final(output).fed(old(output), old(reader).remaining().take(h))
                &&& final(reader).remaining() == old(reader).remaining().skip(h)
            },
            None => {
                &&& r == Err::<(), FilterError>(FilterError::MissingSeparator)
                &&& final(output).fed(old(output), old(reader).remaining())
                &&& final(reader).remaining().len() == 0
            },
        },
        *final(final(output).inner) == *final(old(output).inner),
{
    let ghost start = reader.remaining();
    let ghost mut done: int = 0;
    assert(start.skip(0) =~= start);
    assert(start.take(0) =~= Seq::<u8>::empty());
    loop
        invariant
            0 <= done <= start.len(),
            start == old(reader).remaining(),
            reader.remaining() == start.skip(done),
            output.fed(old(output), start.take(done)),
            *final(output.inner) == *final(old(output).inner),
            header_len(start) == match header_len(reader.remaining()) {
                Some(h) => Some(done + h),
                None => None,
            },
        decreases reader.remaining().len(),
    {
        let ghost rest = reader.remaining();
        match reader.next_line() {
            None => {
                assert(start.take(done) =~= start);
                return Err(FilterError::MissingSeparator);
            },
            Some(line) => {
                proof {
                    lemma_line_end(rest, 0);
                    assert(start.take(done + line@.len()) =~= start.take(done) + line@);
                    assert(start.skip(done + line@.len()) =~= after_first_line(rest));
                }
                output.write(line);
                proof {
                    done = done + line@.len();
                }
                if is_separator_line(line) {
                    return Ok(());
                }
            },
        }
    }
}

/// Filters the rest of the input as a record section under `mode`.
pub fn process_records(
    reader: &mut LineReader<'_>,
    output: &mut DigestWriter<'_>,
    mode: FilterMode<'_>,
    version_output: VersionOutput,
)
    ensures
        final(output).fed(
            old(output),
            records_output(old(reader).remaining(), mode@, version_output),
        ),
        final(reader).remaining().len() == 0,
        *final(final(output).inner) == *final(old(output).inner),
{
    let ghost start = reader.remaining();
    let ghost mut done: Seq<u8> = Seq::empty();
    loop
        invariant
            output.fed(old(output), done),
            *final(output.inner) == *final(old(output).inner),
            records_output(start, mode@, version_output) == done + records_output(
                reader.remaining(),
                mode@,
                version_output,
            ),
        ensures
            output.fed(old(output), records_output(start, mode@, version_output)),
            *final(output.inner) == *final(old(output).inner),
            reader.remaining().len() == 0,
        decreases reader.remaining().len(),
    {
        let ghost rest = reader.remaining();
        match reader.next_line() {
            None => {
                assert(lines(rest) =~= Seq::<Seq<u8>>::empty());
                assert(records_output(rest, mode@, version_output) =~= Seq::<u8>::empty());
                break ;
            },
            Some(line) => {
                proof {
                    lemma_line_end(rest, 0);
                    lemma_records_output_step(rest, mode@, version_output);
                }
                process_record(line, mode, version_output, output);
                proof {
                    done = done + emitted(mode@, version_output, line@);
                }
            },
        }
    }
}

/// Filters the rest of the input as a record section that keeps every
/// record.
pub fn process_passthrough(
    reader: &mut LineReader<'_>,
    output: &mut DigestWriter<'_>,
    version_output: VersionOutput,
)
    ensures
        final(output).fed(
            old(output),
            records_output(old(reader).remaining(), Policy::Passthrough, version_output),
        ),
        final(reader).remaining().len() == 0,
        *final(final(output).inner) == *final(old(output).inner),
{
    process_records(reader, output, FilterMode::Passthrough, version_output)
}

/// Filters the rest of the input as a record section by membership in
/// `gemlist`: a record is kept if and only if the test whether its name is
/// in `gemlist` gives `include_on_match`.
pub fn process_filtered(
    reader: &mut LineReader<'_>,
    output: &mut DigestWriter<'_>,
    gemlist: &NameSet,
    include_on_match: bool,
    version_output: VersionOutput,
)
    ensures
        final(output).fed(
            old(output),
            records_output(
                old(reader).remaining(),
                membership(gemlist@, include_on_match),
                version_output,
            ),
        ),
        final(reader).remaining().len() == 0,
        *final(final(output).inner) == *final(old(output).inner),
{
    if include_on_match {
        process_records(reader, output, FilterMode::Allow(gemlist), version_output)
    } else {
        process_records(reader, output, FilterMode::Block(gemlist), version_output)
    }
}

/// Whether `digest` is the digest asked for by `algorithm` of a run that
/// wrote `out`: none where none was asked for, else the digest of `out` in
/// lowercase hexadecimal.
pub open spec fn is_digest_of(
    digest: Option<String>,
    algorithm: Option<DigestAlgorithm>,
    out: Seq<u8>,
) -> bool {
    match algorithm {
        Some(a) => digest matches Some(hex) && hex@ == digest_hex(a, out) && hex@.len()
            == digest_hex_len(a),
        None => digest is None,
    }
}

/// Filters `input` onto the end of `output` in one pass: the header as it
/// stands, then the records that `mode` keeps, each written as
/// `version_output` says. Returns the digest of what was written if
/// `digest_algorithm` asks for one.
///
/// Fails where `input` has no separator line; all of `input` has then been
/// written.
pub fn filter_versions_streaming(
    input: &[u8],
    output: &mut Vec<u8>,
    mode: FilterMode<'_>,
    version_output: VersionOutput,
    digest_algorithm: Option<DigestAlgorithm>,
) -> (r: Result<Option<String>, FilterError>)
    ensures
        match filtered(input@, mode@, version_output) {
            Some(out) => {
                &&& r matches Ok(digest) && is_digest_of(digest, digest_algorithm, out)
                &&& final(output)@ == old(output)@ + out
            },
            None => {
                &&& r matches Err(e) && e == FilterError::MissingSeparator
                &&& final(output)@ == old(output)@ + input@
            },
        },
{
    let mut reader = LineReader::new(input);
    let mut writer = match digest_algorithm {
        Some(algorithm) => DigestWriter::new(output, algorithm),
        None => DigestWriter::transparent(output),
    };
    match pass_through_metadata(&mut reader, &mut writer) {
        Err(e) => Err(e),
        Ok(()) => {
            match mode {
                FilterMode::Passthrough => process_passthrough(
                    &mut reader,
                    &mut writer,
                    version_output,
                ),
                FilterMode::Allow(allowlist) => process_filtered(
                    &mut reader,
                    &mut writer,
                    allowlist,
                    true,
                    version_output,
                ),
                FilterMode::Block(blocklist) => process_filtered(
                    &mut reader,
                    &mut writer,
                    blocklist,
                    false,
                    version_output,
                ),
            }
            Ok(writer.finalize())
        },
    }
}

/// The lists that a caller may give: names to keep, names to drop, both or
/// neither.
pub struct Selection {
    /// The set that records are tested against, if any.
    pub names: Option<NameSet>,
    /// Whether a record is kept when its name is in `names`, rather than
    /// when it is not.
    pub include_on_match: bool,
}

/// The policy that an allowlist and a blocklist, each of which may be
/// missing, stand for: with both, the allowlist without the blocked names;
/// with one, that list; with neither, everything.
pub open spec fn selection_policy(allow: Option<Set<Seq<u8>>>, block: Option<Set<Seq<u8>>>) -> Policy {
    match (allow, block) {
        (Some(a), Some(b)) => Policy::Allow(a.difference(b)),
        (Some(a), None) => Policy::Allow(a),
        (None, Some(b)) => Policy::Block(b),
        (None, None) => Policy::Passthrough,
    }
}

/// What `set` holds, if there is one.
pub open spec fn names_view(set: Option<NameSet>) -> Option<Set<Seq<u8>>> {
    match set {
        Some(s) => Some(s@),
        None => None,
    }
}

impl Selection {
    /// Combines an allowlist and a blocklist, each of which may be
    /// missing, into one set and one test.
    pub fn new(allow: Option<NameSet>, block: Option<NameSet>) -> (selection: Self)
        requires
            allow matches Some(a) ==> a.well_formed(),
        ensures
            selection.mode()@ == selection_policy(names_view(allow), names_view(block)),
    {
        match (allow, block) {
            (Some(a), Some(b)) => Selection {
                names: Some(a.difference(&b)),
                include_on_match: true,
            },
            (Some(a), None) => Selection { names: Some(a), include_on_match: true },
            (None, Some(b)) => Selection { names: Some(b), include_on_match: false },
            (None, None) => Selection { names: None, include_on_match: true },
        }
    }

    /// The filter mode of this selection.
    #[verifier::when_used_as_spec(spec_mode)]
    pub fn mode(&self) -> (mode: FilterMode<'_>)
        ensures
            mode == self.spec_mode(),
    {
        match &self.names {
            Some(set) => if self.include_on_match {
                FilterMode::Allow(set)
            } else {
                FilterMode::Block(set)
            },
            None => FilterMode::Passthrough,
        }
    }

    /// The filter mode of this selection.
    pub open spec fn spec_mode(&self) -> FilterMode<'_> {
        match &self.names {
            Some(set) => if self.include_on_match {
                FilterMode::Allow(set)
            } else {
                FilterMode::Block(set)
            },
            None => FilterMode::Passthrough,
        }
    }
}

/// Filters the index `data` down to the names in `allowlist`, with
/// versions stripped, and returns what is left with its SHA-256 digest in
/// lowercase hexadecimal. Fails where `data` has no separator line.
pub fn filter_gem_index(data: &[u8], allowlist: &NameSet) -> (r: Result<
    (Vec<u8>, String),
    FilterError,
>)
    ensures
        match filtered(data@, Policy::Allow(allowlist@), VersionOutput::Strip) {
            Some(out) => r matches Ok((bytes, checksum)) && bytes@ == out && checksum@
                == digest_hex(DigestAlgorithm::Sha256, out) && checksum@.len() == 64,
            None => r matches Err(e) && e == FilterError::MissingSeparator,
        },
{
    let mut output: Vec<u8> = Vec::new();
    let digest = filter_versions_streaming(
        data,
        &mut output,
        FilterMode::Allow(allowlist),
        VersionOutput::Strip,
        Some(DigestAlgorithm::Sha256),
    );
    match digest {
        Ok(Some(checksum)) => {
            assert(output@ =~= filtered(
                data@,
                Policy::Allow(allowlist@),
                VersionOutput::Strip,
            )->0);
            Ok((output, checksum))
        },
        Ok(None) => Ok((output, String::new())),
        Err(e) => Err(e),
    }
}

} // verus!
