//! The decisions of one supervised command run: how the race between the
//! run, a cancellation and a timeout settles, the escalation that follows an
//! abort, what each read of the output pipe delivers, and the error texts.

use crate::text::join_text;
use std::collections::HashMap;
use vstd::prelude::*;
use vstd::utf8::{
    decode_utf8, decode_utf8_encode_utf8, encode_scalar, encode_utf8, valid_utf8,
};

verus! {

/// The fixed interval between the interrupt and the forceful kill of an
/// escalation, in milliseconds.
pub const GRACE_PERIOD_MS: u64 = 50;

/// The size of the buffer that the output pipe is drained through.
pub const CHUNK_SIZE: usize = 8192;

/// What a supervised run is asked to do.
pub struct ShellExecuteOptions {
    pub command: String,
    pub cwd: Option<String>,
    /// Replaces the ambient environment when given.
    pub env: Option<HashMap<String, String>>,
    pub timeout_ms: Option<u32>,
    pub execution_id: String,
}

/// How a supervised run ended, when it did not fail.
#[derive(Clone, Copy, Debug, PartialEq, Eq, Structural)]
pub struct ShellExecuteResult {
    pub exit_code: Option<i32>,
    pub cancelled: bool,
    pub timed_out: bool,
}

/// Why a supervised run failed; each carries the underlying cause text
/// where there is one.
#[derive(Clone, Debug, PartialEq, Eq)]
pub enum ShellError {
    LockPoisoned,
    DuplicateExecution,
    InterpreterInitFailed(String),
    WorkingDirectorySetFailed(String),
    EnvironmentSetFailed(String),
    PipeCreationFailed(String),
    PipeCloneFailed(String),
    InterpreterExecutionFailed(String),
}

/// The human-readable text of an error.
pub open spec fn message_of(e: ShellError) -> Seq<char> {
    match e {
        ShellError::LockPoisoned => "Execution lock poisoned"@,
        ShellError::DuplicateExecution => "Execution already running"@,
        ShellError::InterpreterInitFailed(c) => "Failed to initialize shell: "@ + c@,
        ShellError::WorkingDirectorySetFailed(c) => "Failed to set cwd: "@ + c@,
        ShellError::EnvironmentSetFailed(c) => "Failed to set env: "@ + c@,
        ShellError::PipeCreationFailed(c) => "Failed to create pipe: "@ + c@,
        ShellError::PipeCloneFailed(c) => "Failed to clone pipe: "@ + c@,
        ShellError::InterpreterExecutionFailed(c) => "Shell execution failed: "@ + c@,
    }
}

impl ShellError {
    /// The human-readable text of this error.
    pub fn message(&self) -> (r: String)
        ensures
            r@ == message_of(*self),
    {
        match self {
            ShellError::LockPoisoned => "Execution lock poisoned".to_owned(),
            ShellError::DuplicateExecution => "Execution already running".to_owned(),
            ShellError::InterpreterInitFailed(c) => join_text(
                "Failed to initialize shell: ",
                c.as_str(),
            ),
            ShellError::WorkingDirectorySetFailed(c) => join_text("Failed to set cwd: ", c.as_str()),
            ShellError::EnvironmentSetFailed(c) => join_text("Failed to set env: ", c.as_str()),
            ShellError::PipeCreationFailed(c) => join_text("Failed to create pipe: ", c.as_str()),
            ShellError::PipeCloneFailed(c) => join_text("Failed to clone pipe: ", c.as_str()),
            ShellError::InterpreterExecutionFailed(c) => join_text(
                "Shell execution failed: ",
                c.as_str(),
            ),
        }
    }
}

/// The branch that won the race of a supervised run.
pub enum RaceOutcome {
    /// The interpreter finished: its exit code, or why the run failed.
    Finished(Result<u8, ShellError>),
    /// The run's cancellation signal fired.
    Cancelled,
    /// The configured timeout elapsed.
    TimedOut,
}

/// At most one of the flags is set, and an exit code is present exactly when
/// neither is.
pub open spec fn result_consistent(r: ShellExecuteResult) -> bool {
    &&& !(r.cancelled && r.timed_out)
    &&& (r.exit_code is Some <==> !r.cancelled && !r.timed_out)
}

/// What a race ends in.
pub open spec fn settled(outcome: RaceOutcome) -> Result<ShellExecuteResult, ShellError> {
    match outcome {
        RaceOutcome::Finished(Ok(code)) => Ok(
            ShellExecuteResult { exit_code: Some(code as i32), cancelled: false, timed_out: false },
        ),
        RaceOutcome::Finished(Err(e)) => Err(e),
        RaceOutcome::Cancelled => Ok(
            ShellExecuteResult { exit_code: None, cancelled: true, timed_out: false },
        ),
        RaceOutcome::TimedOut => Ok(
            ShellExecuteResult { exit_code: None, cancelled: false, timed_out: true },
        ),
    }
}

impl RaceOutcome {
    /// Whether the run was abandoned, so that the direct children must be
    /// escalated against.
    pub fn escalates(&self) -> (r: bool)
        ensures
            r <==> (*self is Cancelled || *self is TimedOut),
    {
        match self {
            RaceOutcome::Finished(_) => false,
            _ => true,
        }
    }
}

/// Settles a race: a finished run reports its exit code or its failure, a
/// cancelled or timed-out one reports the flag alone.
pub fn settle(outcome: RaceOutcome) -> (r: Result<ShellExecuteResult, ShellError>)
    ensures
        r == settled(outcome),
        r matches Ok(res) ==> result_consistent(res),
{
    match outcome {
        RaceOutcome::Finished(Ok(code)) => Ok(
            ShellExecuteResult { exit_code: Some(code as i32), cancelled: false, timed_out: false },
        ),
        RaceOutcome::Finished(Err(e)) => Err(e),
        RaceOutcome::Cancelled => Ok(
            ShellExecuteResult { exit_code: None, cancelled: true, timed_out: false },
        ),
        RaceOutcome::TimedOut => Ok(
            ShellExecuteResult { exit_code: None, cancelled: false, timed_out: true },
        ),
    }
}

/// One step of the escalation against an abandoned run's direct children.
#[derive(Clone, Copy, Debug, PartialEq, Eq, Structural)]
pub enum EscalationStep {
    /// Send an interrupt to the process.
    Interrupt(i32),
    /// Wait this many milliseconds.
    Wait(u64),
    /// Forcefully kill the process.
    Kill(i32),
}

/// Interrupt every child, wait the grace period, then kill every child; no
/// step at all when there is no child.
pub open spec fn escalation_of(children: Seq<i32>) -> Seq<EscalationStep> {
    if children.len() == 0 {
        Seq::empty()
    } else {
        children.map_values(|p: i32| EscalationStep::Interrupt(p)).push(
            EscalationStep::Wait(GRACE_PERIOD_MS),
        ) + children.map_values(|p: i32| EscalationStep::Kill(p))
    }
}

/// The escalation against `children`, the direct children of this process
/// at the moment the run was abandoned.
pub fn escalation_plan(children: &Vec<i32>) -> (r: Vec<EscalationStep>)
    ensures
        r@ == escalation_of(children@),
{
    let mut steps: Vec<EscalationStep> = Vec::new();
    if children.len() == 0 {
        assert(steps@ =~= escalation_of(children@));
        return steps;
    }
    let mut i: usize = 0;
    while i < children.len()
        invariant
            i <= children@.len(),
            steps@ == children@.take(i as int).map_values(|p: i32| EscalationStep::Interrupt(p)),
        decreases children@.len() - i,
    {
        steps.push(EscalationStep::Interrupt(children[i]));
        i = i + 1;
        assert(steps@ =~= children@.take(i as int).map_values(
            |p: i32| EscalationStep::Interrupt(p),
        ));
    }
    steps.push(EscalationStep::Wait(GRACE_PERIOD_MS));
    let ghost head = steps@;
    let mut j: usize = 0;
    while j < children.len()
        invariant
            j <= children@.len(),
            steps@ == head + children@.take(j as int).map_values(|p: i32| EscalationStep::Kill(p)),
        decreases children@.len() - j,
    {
        steps.push(EscalationStep::Kill(children[j]));
        j = j + 1;
        assert(steps@ =~= head + children@.take(j as int).map_values(
            |p: i32| EscalationStep::Kill(p),
        ));
    }
    assert(children@.take(i as int) == children@);
    assert(children@.take(j as int) == children@);
    steps
}

/// The text that lossy UTF-8 decoding gives for a run of bytes.
pub uninterp spec fn utf8_lossy(bytes: Seq<u8>) -> Seq<char>;

/// Relies on `String::from_utf8_lossy`: bytes that are valid UTF-8 decode to
/// their characters; other sequences get replacement characters.
#[verifier::external_body]
fn decode_lossy(buf: &[u8], len: usize) -> (r: String)
    requires
        len <= buf@.len(),
    ensures
        r@ == utf8_lossy(buf@.take(len as int)),
        valid_utf8(buf@.take(len as int)) ==> r@ == decode_utf8(buf@.take(len as int)),
{
    String::from_utf8_lossy(&buf[..len]).to_string()
}

/// What one read of the output pipe delivers: `None` (end of stream or a
/// failed read, `read` being `None`) stops the relay, and so does a read of
/// zero bytes; otherwise the bytes read, decoded lossily, form one chunk.
pub fn relay_chunk(buf: &[u8], read: Option<usize>) -> (r: Option<String>)
    requires
        read matches Some(n) ==> n <= buf@.len(),
    ensures
        r is None <==> (read is None || read == Some(0usize)),
        r matches Some(text) ==> text@ == utf8_lossy(buf@.take(read->0 as int)),
        r matches Some(text) ==> (valid_utf8(buf@.take(read->0 as int)) ==> text@ == decode_utf8(
            buf@.take(read->0 as int),
        )),
{
    match read {
        None => None,
        Some(n) => {
            if n == 0 {
                None
            } else {
                Some(decode_lossy(buf, n))
            }
        },
    }
}

/// The bytes of a run of chunks, in order.
pub open spec fn joined_bytes(chunks: Seq<Seq<u8>>) -> Seq<u8>
    decreases chunks.len(),
{
    if chunks.len() == 0 {
        Seq::empty()
    } else {
        joined_bytes(chunks.drop_last()) + chunks.last()
    }
}

/// The texts of a run of valid chunks, decoded one by one, in order.
pub open spec fn joined_texts(chunks: Seq<Seq<u8>>) -> Seq<char>
    decreases chunks.len(),
{
    if chunks.len() == 0 {
        Seq::empty()
    } else {
        joined_texts(chunks.drop_last()) + decode_utf8(chunks.last())
    }
}

proof fn lemma_encode_concat(a: Seq<char>, b: Seq<char>)
    ensures
        encode_utf8(a + b) == encode_utf8(a) + encode_utf8(b),
    decreases a.len(),
{
    if a.len() > 0 {
        lemma_encode_concat(a.drop_first(), b);
        assert((a + b).drop_first() =~= a.drop_first() + b);
        assert((a + b)[0] == a[0]);
        let head = encode_scalar(a[0] as u32);
        assert(encode_utf8(a + b) == head + encode_utf8(a.drop_first() + b));
        assert(encode_utf8(a) == head + encode_utf8(a.drop_first()));
        assert(head + (encode_utf8(a.drop_first()) + encode_utf8(b)) =~= (head + encode_utf8(
            a.drop_first(),
        )) + encode_utf8(b));
    } else {
        assert(a + b =~= b);
        assert(encode_utf8(a) =~= Seq::<u8>::empty());
        assert(encode_utf8(a) + encode_utf8(b) =~= encode_utf8(b));
    }
}

/// Where every chunk read from the pipe is valid UTF-8, the texts relayed
/// for them (what `relay_chunk` returns for such a chunk), concatenated in
/// delivery order, encode back to exactly the whole byte stream.
pub proof fn lemma_relayed_texts_rebuild_stream(chunks: Seq<Seq<u8>>)
    requires
        forall|i: int| 0 <= i < chunks.len() ==> valid_utf8(#[trigger] chunks[i]),
    ensures
        encode_utf8(joined_texts(chunks)) == joined_bytes(chunks),
    decreases chunks.len(),
{
    if chunks.len() > 0 {
        let rest = chunks.drop_last();
        assert forall|i: int| 0 <= i < rest.len() implies valid_utf8(#[trigger] rest[i]) by {
            assert(rest[i] == chunks[i]);
        }
        lemma_relayed_texts_rebuild_stream(rest);
        lemma_encode_concat(joined_texts(rest), decode_utf8(chunks.last()));
        assert(valid_utf8(chunks[chunks.len() - 1]));
        decode_utf8_encode_utf8(chunks.last());
    }
}

} // verus!
