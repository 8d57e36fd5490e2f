//! What the calls into the worker answer their callers.

use vstd::prelude::*;

verus! {

/// Why a call that goes through the worker failed.
#[derive(PartialEq, Eq, Structural, Debug, Clone, Copy)]
pub enum CallError {
    /// The worker could not be reached or went away before it answered.
    WorkerGone,
    /// ZeroMQ refused the operation with this errno.
    Errno(i32),
    /// The socket was destroyed before the call.
    SocketDestroyed,
}

/// The answer to a call from the worker's reply: none when the worker dropped
/// the call, else ZeroMQ's result.
pub fn settle<T>(reply: Option<Result<T, i32>>) -> (answer: Result<T, CallError>)
    ensures
        match reply {
            None => answer == Err::<T, CallError>(CallError::WorkerGone),
            Some(Err(errno)) => answer == Err::<T, CallError>(CallError::Errno(errno)),
            Some(Ok(value)) => answer == Ok::<T, CallError>(value),
        },
{
    match reply {
        None => Err(CallError::WorkerGone),
        Some(Err(errno)) => Err(CallError::Errno(errno)),
        Some(Ok(value)) => Ok(value),
    }
}

/// Whether a write may be handed to the worker: not once the socket was destroyed.
pub fn write_admission(destroyed: bool) -> (admission: Result<(), CallError>)
    ensures
        admission == if destroyed { Err::<(), CallError>(CallError::SocketDestroyed) } else { Ok::<(), CallError>(()) },
{
    if destroyed {
        Err(CallError::SocketDestroyed)
    } else {
        Ok(())
    }
}

/// The largest message that the non-blocking write path takes.
pub const FAST_WRITE_LIMIT: usize = 65536;

/// The answer of a non-blocking write.
#[derive(PartialEq, Eq, Structural, Debug, Clone, Copy)]
pub enum FastWrite {
    /// The message was handed to the worker.
    Accepted,
    /// The message was not taken now; try the blocking path.
    WouldBlock,
    /// The socket was destroyed.
    Error,
}

/// Whether a non-blocking write is refused before anything is sent: on a
/// destroyed socket it fails, and a message over the limit would block.
/// `None` lets it go ahead.
pub fn fast_write_precheck(destroyed: bool, len: usize) -> (refusal: Option<FastWrite>)
    ensures
        destroyed ==> refusal == Some(FastWrite::Error),
        !destroyed && len > FAST_WRITE_LIMIT ==> refusal == Some(FastWrite::WouldBlock),
        !destroyed && len <= FAST_WRITE_LIMIT ==> refusal is None,
{
    if destroyed {
        Some(FastWrite::Error)
    } else if len > FAST_WRITE_LIMIT {
        Some(FastWrite::WouldBlock)
    } else {
        None
    }
}

/// The answer of a non-blocking write that went ahead: it was handed to the
/// worker, or the channel to it was busy or full.
pub fn fast_write_answer(handed_over: bool) -> (answer: FastWrite)
    ensures
        answer == if handed_over { FastWrite::Accepted } else { FastWrite::WouldBlock },
{
    if handed_over {
        FastWrite::Accepted
    } else {
        FastWrite::WouldBlock
    }
}

} // verus!
