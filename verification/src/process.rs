//! Helper programs: how one is invoked, and what its end means.
use vstd::prelude::*;

verus! {

/// A helper to run: its command line, what it reads, and the bounds on it.
#[derive(Debug, PartialEq, Eq)]
pub struct Call {
    pub program: String,
    pub args: Vec<String>,
    pub input: Option<Vec<u8>>,
    pub limit: usize,
    pub seconds: u64,
}

/// What a [`Call`] holds.
pub struct CallView {
    pub program: Seq<char>,
    pub args: Seq<Seq<char>>,
    pub input: Option<Seq<u8>>,
    pub limit: usize,
    pub seconds: u64,
}

impl View for Call {
    type V = CallView;

    open spec fn view(&self) -> CallView {
        CallView {
            program: self.program@,
            args: self.args.deep_view(),
            input: match self.input {
                Some(b) => Some(b@),
                None => None,
            },
            limit: self.limit,
            seconds: self.seconds,
        }
    }
}

/// How a helper ended.
pub enum Outcome {
    /// It could not be started.
    NotStarted,
    /// It did not end in time.
    TimedOut,
    /// Its input could not be written.
    InputFailed,
    /// Its output could not be read.
    OutputFailed,
    /// It could not be waited for, after this output.
    NotReaped(Vec<u8>),
    /// It ended with this output, successfully or not.
    Ended(Vec<u8>, bool),
}

/// What the bounds make of the end of a helper. An output over the limit counts
/// before the way in which the helper ended.
pub open spec fn result_of(outcome: Outcome, limit: usize) -> Result<Seq<u8>, Seq<char>> {
    match outcome {
        Outcome::NotStarted => Err(
            "Required helper unavailable; check ADB/Avahi/qrencode dependencies"@,
        ),
        Outcome::TimedOut => Err("Command timed out; unlock or reconnect the phone"@),
        Outcome::InputFailed => Err("Helper input failed"@),
        Outcome::OutputFailed => Err("Helper output failed"@),
        Outcome::NotReaped(b) => if b@.len() > limit {
            Err("Helper output exceeded its size limit"@)
        } else {
            Err("Cannot reap helper"@)
        },
        Outcome::Ended(b, success) => if b@.len() > limit {
            Err("Helper output exceeded its size limit"@)
        } else if !success {
            Err("Helper failed; check phone authorization and dependencies"@)
        } else {
            Ok(b@)
        },
    }
}

/// The output of a helper, or why there is none.
pub fn run(outcome: Outcome, limit: usize) -> (r: Result<Vec<u8>, &'static str>)
    ensures
        match r {
            Ok(b) => result_of(outcome, limit) == Ok::<Seq<u8>, Seq<char>>(b@),
            Err(e) => result_of(outcome, limit) == Err::<Seq<u8>, Seq<char>>(e@),
        },
{
    match outcome {
        Outcome::NotStarted => Err(
            "Required helper unavailable; check ADB/Avahi/qrencode dependencies",
        ),
        Outcome::TimedOut => Err("Command timed out; unlock or reconnect the phone"),
        Outcome::InputFailed => Err("Helper input failed"),
        Outcome::OutputFailed => Err("Helper output failed"),
        Outcome::NotReaped(b) => if b.len() > limit {
            Err("Helper output exceeded its size limit")
        } else {
            Err("Cannot reap helper")
        },
        Outcome::Ended(b, success) => if b.len() > limit {
            Err("Helper output exceeded its size limit")
        } else if !success {
            Err("Helper failed; check phone authorization and dependencies")
        } else {
            Ok(b)
        },
    }
}

/// An output that is taken is within its limit.
pub proof fn law_output_is_bounded(outcome: Outcome, limit: usize)
    ensures
        result_of(outcome, limit) matches Ok(b) ==> b.len() <= limit,
{
}

/// What a helper printed is taken exactly where it ended well and within its limit; any
/// other end is told apart, and too much output comes before the way it ended.
pub proof fn law_helpers_end(output: Vec<u8>, success: bool, limit: usize)
    ensures
        result_of(Outcome::Ended(output, success), limit) == if output@.len() > limit {
            Err::<Seq<u8>, Seq<char>>("Helper output exceeded its size limit"@)
        } else if success {
            Ok(output@)
        } else {
            Err("Helper failed; check phone authorization and dependencies"@)
        },
        result_of(Outcome::NotReaped(output), limit) == if output@.len() > limit {
            Err::<Seq<u8>, Seq<char>>("Helper output exceeded its size limit"@)
        } else {
            Err("Cannot reap helper"@)
        },
        result_of(Outcome::NotStarted, limit) == Err::<Seq<u8>, Seq<char>>(
            "Required helper unavailable; check ADB/Avahi/qrencode dependencies"@,
        ),
        result_of(Outcome::TimedOut, limit) == Err::<Seq<u8>, Seq<char>>(
            "Command timed out; unlock or reconnect the phone"@,
        ),
        result_of(Outcome::InputFailed, limit) == Err::<Seq<u8>, Seq<char>>(
            "Helper input failed"@,
        ),
        result_of(Outcome::OutputFailed, limit) == Err::<Seq<u8>, Seq<char>>(
            "Helper output failed"@,
        ),
{
}

} // verus!
