//! What holds of every run.

use crate::digest::digest_hex;
use crate::digest::DigestAlgorithm;
use crate::filter::emitted;
use crate::filter::emitter;
use crate::filter::filtered;
use crate::filter::gem_name;
use crate::filter::header_len;
use crate::filter::keeps;
use crate::filter::lemma_header_len;
use crate::filter::records_output;
use crate::filter::rendered;
use crate::filter::Policy;
use crate::filter::VersionOutput;
use crate::lines::lines;
use crate::filter::rewritten;
use crate::filter::stripped;
use crate::filter::PLACEHOLDER;
use crate::text::all_words;
use crate::text::fields;
use crate::text::is_word;
use crate::text::joined;
use crate::text::lemma_fields_are_words;
use crate::text::lemma_fields_of_joined;
use crate::text::lemma_spaced_front;
use crate::text::lemma_trimmed_joined_line;
use crate::text::spaced;
use crate::text::LINE_FEED;
use crate::text::SPACE;
use crate::text::trimmed;
use vstd::prelude::*;

verus! {

/// `keeps` as a function of the line.
pub open spec fn keeper(policy: Policy) -> spec_fn(Seq<u8>) -> bool {
    |line: Seq<u8>| keeps(policy, line)
}

/// `rendered` as a function of the line.
pub open spec fn renderer(version_output: VersionOutput) -> spec_fn(Seq<u8>) -> Seq<u8> {
    |line: Seq<u8>| rendered(version_output, line)
}

/// The lines of the record section `body` that a run under `policy` keeps,
/// in the order of the input.
pub open spec fn kept_lines(body: Seq<u8>, policy: Policy) -> Seq<Seq<u8>> {
    lines(body).filter(keeper(policy))
}

/// The digest that a run returns: of what it wrote, under `algorithm`.
pub open spec fn run_digest(
    input: Seq<u8>,
    policy: Policy,
    version_output: VersionOutput,
    algorithm: DigestAlgorithm,
) -> Option<Seq<char>> {
    match filtered(input, policy, version_output) {
        Some(out) => Some(digest_hex(algorithm, out)),
        None => None,
    }
}

/// Header fidelity: where the input has a separator line, the output up to
/// and including that line is the input up to and including that line,
/// byte for byte.
pub proof fn lemma_header_fidelity(input: Seq<u8>, policy: Policy, version_output: VersionOutput)
    requires
        header_len(input) is Some,
    ensures
        filtered(input, policy, version_output) is Some,
        header_len(input)->0 <= filtered(input, policy, version_output)->0.len(),
        filtered(input, policy, version_output)->0.take(header_len(input)->0) == input.take(
            header_len(input)->0,
        ),
{
    lemma_header_len(input);
    let h = header_len(input)->0;
    let out = filtered(input, policy, version_output)->0;
    assert(out.take(h) =~= input.take(h));
}

/// Allow and Block are each other's complement on a record: of a line that
/// has a name, exactly one of `Allow(set)` and `Block(set)` keeps it; a
/// line without a name is kept by neither.
pub proof fn lemma_allow_block_line(set: Set<Seq<u8>>, line: Seq<u8>)
    ensures
        gem_name(trimmed(line)) is Some ==> (keeps(Policy::Allow(set), line) <==> !keeps(
            Policy::Block(set),
            line,
        )),
        gem_name(trimmed(line)) is None ==> !keeps(Policy::Allow(set), line) && !keeps(
            Policy::Block(set),
            line,
        ),
        keeps(Policy::Passthrough, line) <==> gem_name(trimmed(line)) is Some,
{
}

/// Allow/Block duality: for one set and one record section, the lines kept
/// under `Allow(set)` are exactly the record lines that are not kept under
/// `Block(set)`.
pub proof fn lemma_allow_block_duality(body: Seq<u8>, set: Set<Seq<u8>>)
    ensures
        kept_lines(body, Policy::Allow(set)).to_set() == kept_lines(
            body,
            Policy::Passthrough,
        ).to_set().difference(kept_lines(body, Policy::Block(set)).to_set()),
{
    let ls = lines(body);
    let allow = kept_lines(body, Policy::Allow(set));
    let block = kept_lines(body, Policy::Block(set));
    let all = kept_lines(body, Policy::Passthrough);
    assert forall|l: Seq<u8>| allow.contains(l) <==> (all.contains(l) && !block.contains(l)) by {
        lemma_allow_block_line(set, l);
        lemma_filter_member(ls, keeper(Policy::Allow(set)), l);
        lemma_filter_member(ls, keeper(Policy::Block(set)), l);
        lemma_filter_member(ls, keeper(Policy::Passthrough), l);
    }
    assert(allow.to_set() =~= all.to_set().difference(block.to_set()));
}

/// An allowlist without the blocked names keeps a line exactly when the
/// allowlist keeps it and the blocklist does not drop it.
pub proof fn lemma_allow_without_blocked(
    allow: Set<Seq<u8>>,
    block: Set<Seq<u8>>,
    line: Seq<u8>,
)
    ensures
        keeps(Policy::Allow(allow.difference(block)), line) <==> keeps(Policy::Allow(allow), line)
            && keeps(Policy::Block(block), line),
{
}

/// A sequence filtered holds exactly the members of the sequence that meet
/// the predicate.
pub proof fn lemma_filter_member<A>(s: Seq<A>, pred: spec_fn(A) -> bool, x: A)
    ensures
        s.filter(pred).contains(x) <==> s.contains(x) && pred(x),
{
    if s.filter(pred).contains(x) {
        s.lemma_filter_contains_rev(pred, x);
        let i = choose|i: int| 0 <= i < s.filter(pred).len() && s.filter(pred)[i] == x;
        s.lemma_filter_pred(pred, i);
    }
    if s.contains(x) && pred(x) {
        let i = choose|i: int| 0 <= i < s.len() && s[i] == x;
        s.lemma_filter_contains(pred, i);
    }
}

/// Mapping and flattening a filtered sequence is mapping and flattening the
/// sequence with nothing written for what the filter drops.
pub proof fn lemma_flat_map_filter<A, B>(
    s: Seq<A>,
    keep: spec_fn(A) -> bool,
    kept: spec_fn(A) -> Seq<B>,
    all: spec_fn(A) -> Seq<B>,
)
    requires
        forall|x: A|
            #[trigger] all(x) == if keep(x) {
                kept(x)
            } else {
                Seq::<B>::empty()
            },
    ensures
        s.flat_map(all) == s.filter(keep).flat_map(kept),
    decreases s.len(),
{
    reveal(Seq::filter);
    if s.len() == 0 {
        assert(s.flat_map(all) =~= Seq::<B>::empty());
        assert(s.filter(keep).flat_map(kept) =~= Seq::<B>::empty());
    } else {
        let init = s.drop_last();
        let x = s.last();
        lemma_flat_map_filter(init, keep, kept, all);
        assert(s =~= init.push(x));
        init.lemma_flat_map_push(all, x);
        if keep(x) {
            init.filter(keep).lemma_flat_map_push(kept, x);
        } else {
            assert(init.flat_map(all) + all(x) =~= init.flat_map(all));
        }
    }
}

/// Order preservation: the record section of the output is the kept lines
/// of the input, each written as `version_output` says, in the order of the
/// input, each as often as it occurs.
pub proof fn lemma_order_preserved(body: Seq<u8>, policy: Policy, version_output: VersionOutput)
    ensures
        records_output(body, policy, version_output) == kept_lines(body, policy).flat_map(
            renderer(version_output),
        ),
{
    lemma_flat_map_filter(
        lines(body),
        keeper(policy),
        renderer(version_output),
        emitter(policy, version_output),
    );
}

/// Stripping a stripped record changes nothing: once a record with the
/// fields `fs`, three or more, has been stripped, its fields are those of
/// `fs` with `0` for the second, and stripping it again gives the same
/// line.
pub proof fn lemma_stripped_is_fixed(fs: Seq<Seq<u8>>)
    requires
        fs.len() >= 3,
        all_words(fs),
    ensures
        fields(trimmed(stripped(fs))) == fs.update(1, seq![PLACEHOLDER]),
        rewritten(trimmed(stripped(fs)), stripped(fs)) == stripped(fs),
{
    let zero = seq![PLACEHOLDER];
    let gs = fs.update(1, zero);
    assert(is_word(zero));
    assert(all_words(gs)) by {
        assert forall|k: int| 0 <= k < gs.len() implies is_word(#[trigger] gs[k]) by {
            if k != 1 {
                assert(gs[k] == fs[k]);
            }
        }
    }
    assert(gs.skip(1) =~= seq![zero] + fs.skip(2));
    assert(gs.skip(2) =~= fs.skip(2));
    lemma_spaced_front(zero, fs.skip(2));
    assert(joined(gs) =~= fs[0] + seq![SPACE, PLACEHOLDER] + fs.skip(2).flat_map(spaced()));
    assert(stripped(fs) =~= joined(gs) + seq![LINE_FEED]);
    lemma_trimmed_joined_line(gs);
    lemma_fields_of_joined(gs);
    assert(stripped(gs) =~= stripped(fs));
}

/// Strip idempotence: writing a line stripped, and stripping what was
/// written, gives what was written.
pub proof fn lemma_strip_idempotent(line: Seq<u8>)
    ensures
        rendered(VersionOutput::Strip, rendered(VersionOutput::Strip, line)) == rendered(
            VersionOutput::Strip,
            line,
        ),
{
    let fs = fields(trimmed(line));
    if fs.len() >= 3 {
        lemma_fields_are_words(trimmed(line), 0);
        lemma_stripped_is_fixed(fs);
    }
}

/// Digest determinism: two runs with the same input, the same policy, the
/// same rewrite mode and the same algorithm return the same digest.
pub proof fn lemma_digest_deterministic(
    input1: Seq<u8>,
    input2: Seq<u8>,
    policy1: Policy,
    policy2: Policy,
    version_output1: VersionOutput,
    version_output2: VersionOutput,
    algorithm1: DigestAlgorithm,
    algorithm2: DigestAlgorithm,
)
    requires
        input1 == input2,
        policy1 == policy2,
        version_output1 == version_output2,
        algorithm1 == algorithm2,
    ensures
        run_digest(input1, policy1, version_output1, algorithm1) == run_digest(
            input2,
            policy2,
            version_output2,
            algorithm2,
        ),
{
}

/// Malformed-line fallback: a kept record line with fewer than three
/// fields is written unchanged when stripping.
pub proof fn lemma_malformed_line_unchanged(policy: Policy, line: Seq<u8>)
    requires
        keeps(policy, line),
        fields(trimmed(line)).len() < 3,
    ensures
        emitted(policy, VersionOutput::Strip, line) == line,
{
}

} // verus!
