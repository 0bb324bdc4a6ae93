//! The run as a state machine over lines, for callers that read the input
//! and write the output piece by piece.

use crate::digest::DigestWriter;
use crate::filter::emitted;
use crate::filter::filtered;
use crate::filter::header_len;
use crate::filter::is_separator;
use crate::filter::is_separator_line;
use crate::filter::lemma_header_len;
use crate::filter::lemma_records_output_step;
use crate::filter::process_record;
use crate::filter::records_output;
use crate::filter::FilterError;
use crate::filter::FilterMode;
use crate::filter::Policy;
use crate::filter::VersionOutput;
use crate::lines::after_first_line;
use crate::lines::first_line;
use crate::lines::lemma_line_end;
use crate::lines::lines;
use vstd::prelude::*;

verus! {

/// Where a run stands.
#[derive(Debug, Clone, Copy, PartialEq, Eq, Structural)]
pub enum Phase {
    /// No separator line has been seen yet.
    Header,
    /// The separator line has been seen.
    Records,
}

/// The phase after `line` was seen in `phase`.
pub open spec fn next_phase(phase: Phase, line: Seq<u8>) -> Phase {
    match phase {
        Phase::Header => if is_separator(line) {
            Phase::Records
        } else {
            Phase::Header
        },
        Phase::Records => Phase::Records,
    }
}

/// What a run in `phase` writes for `line`: a header line as it stands, a
/// record line filtered.
pub open spec fn line_output(
    phase: Phase,
    policy: Policy,
    version_output: VersionOutput,
    line: Seq<u8>,
) -> Seq<u8> {
    match phase {
        Phase::Header => line,
        Phase::Records => emitted(policy, version_output, line),
    }
}

/// The phase after the lines `ls` were seen one after the other, starting
/// in `phase`.
pub open spec fn phase_after(phase: Phase, ls: Seq<Seq<u8>>) -> Phase
    decreases ls.len(),
{
    if ls.len() == 0 {
        phase
    } else {
        phase_after(next_phase(phase, ls.first()), ls.drop_first())
    }
}

/// What a run writes for the lines `ls`, seen one after the other starting
/// in `phase`.
pub open spec fn output_after(
    phase: Phase,
    policy: Policy,
    version_output: VersionOutput,
    ls: Seq<Seq<u8>>,
) -> Seq<u8>
    decreases ls.len(),
{
    if ls.len() == 0 {
        Seq::empty()
    } else {
        line_output(phase, policy, version_output, ls.first()) + output_after(
            next_phase(phase, ls.first()),
            policy,
            version_output,
            ls.drop_first(),
        )
    }
}

/// Handles one line of the input in `phase`: writes what the run writes for
/// it and returns the phase for the next line.
pub fn step(
    phase: Phase,
    line: &[u8],
    mode: FilterMode<'_>,
    version_output: VersionOutput,
    output: &mut DigestWriter<'_>,
) -> (next: Phase)
    ensures
        next == next_phase(phase, line@),
        final(output).fed(old(output), line_output(phase, mode@, version_output, line@)),
        *final(final(output).inner) == *final(old(output).inner),
{
    match phase {
        Phase::Header => {
            output.write(line);
            if is_separator_line(line) {
                Phase::Records
            } else {
                Phase::Header
            }
        },
        Phase::Records => {
            process_record(line, mode, version_output, output);
            Phase::Records
        },
    }
}

/// Ends a run at the end of the input: fails if and only if no separator
/// line was seen.
pub fn finish(phase: Phase) -> (r: Result<(), FilterError>)
    ensures
        match phase {
            Phase::Header => r == Err::<(), FilterError>(FilterError::MissingSeparator),
            Phase::Records => r is Ok,
        },
{
    match phase {
        Phase::Header => Err(FilterError::MissingSeparator),
        Phase::Records => Ok(()),
    }
}

/// Once the separator was seen, the lines of `body` give the filtered
/// record section.
pub proof fn lemma_records_by_steps(body: Seq<u8>, policy: Policy, version_output: VersionOutput)
    ensures
        phase_after(Phase::Records, lines(body)) == Phase::Records,
        output_after(Phase::Records, policy, version_output, lines(body)) == records_output(
            body,
            policy,
            version_output,
        ),
    decreases body.len(),
{
    if body.len() > 0 {
        lemma_line_end(body, 0);
        lemma_records_by_steps(after_first_line(body), policy, version_output);
        lemma_records_output_step(body, policy, version_output);
        assert(lines(body).first() == first_line(body));
        assert(lines(body).drop_first() =~= lines(after_first_line(body)));
    } else {
        assert(records_output(body, policy, version_output) =~= Seq::<u8>::empty());
    }
}

/// Line by line and all at once are the same run: stepping through the
/// lines of `input` from the header phase ends in the record phase with the
/// filtered output written, where `input` has a separator line, and else
/// ends in the header phase with all of `input` written.
pub proof fn lemma_run_by_steps(input: Seq<u8>, policy: Policy, version_output: VersionOutput)
    ensures
        match filtered(input, policy, version_output) {
            Some(out) => {
                &&& phase_after(Phase::Header, lines(input)) == Phase::Records
                &&& output_after(Phase::Header, policy, version_output, lines(input)) == out
            },
            None => {
                &&& phase_after(Phase::Header, lines(input)) == Phase::Header
                &&& output_after(Phase::Header, policy, version_output, lines(input)) == input
            },
        },
    decreases input.len(),
{
    if input.len() > 0 {
        lemma_line_end(input, 0);
        let line = first_line(input);
        let rest = after_first_line(input);
        assert(lines(input).first() == line);
        assert(lines(input).drop_first() =~= lines(rest));
        assert(line + rest =~= input);
        if is_separator(line) {
            lemma_records_by_steps(rest, policy, version_output);
            assert(input.take(line.len() as int) =~= line);
        } else {
            lemma_run_by_steps(rest, policy, version_output);
            match header_len(rest) {
                Some(h) => {
                    lemma_header_len(rest);
                    assert(input.take(line.len() + h) =~= line + rest.take(h));
                    assert(input.skip(line.len() + h) =~= rest.skip(h));
                    assert(line + (rest.take(h) + records_output(
                        rest.skip(h),
                        policy,
                        version_output,
                    )) =~= (line + rest.take(h)) + records_output(
                        rest.skip(h),
                        policy,
                        version_output,
                    ));
                },
                None => {},
            }
        }
    } else {
        assert(output_after(Phase::Header, policy, version_output, lines(input)) =~= input);
    }
}

} // verus!
