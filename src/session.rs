//! The decisions of a tunnel session: whether a chunk of the tunnel client's
//! output says that the tunnel is ready, and what the system-wide termination
//! of the tunnel clients came to.

use vstd::prelude::*;
use vstd::string::StringSliceAdditionalSpecFns;

verus! {

/// What the tunnel client writes once the tunnel is up.
pub const READY_MARKER: &'static str = "Initialization Sequence Completed";

/// Whether `needle` occurs in `hay` as a contiguous run.
pub open spec fn occurs_in(hay: Seq<u8>, needle: Seq<u8>) -> bool {
    exists|i: int|
        0 <= i && i + needle.len() <= hay.len() && #[trigger] hay.subrange(i, i + needle.len())
            == needle
}

fn matches_at(hay: &[u8], needle: &[u8], i: usize) -> (r: bool)
    requires
        i + needle@.len() <= hay@.len(),
    ensures
        r == (hay@.subrange(i as int, i + needle@.len()) == needle@),
{
    let n = needle.len();
    let len = hay.len();
    let mut j: usize = 0;
    while j < n
        invariant
            n == needle@.len(),
            len == hay@.len(),
            i + n <= hay@.len(),
            j <= n,
            forall|m: int| 0 <= m < j ==> hay@[i + m] == needle@[m],
        decreases n - j,
    {
        if hay[i + j] != needle[j] {
            proof {
                assert(hay@.subrange(i as int, i + n)[j as int] != needle@[j as int]);
            }
            return false;
        }
        j = j + 1;
    }
    proof {
        assert(hay@.subrange(i as int, i + n) =~= needle@);
    }
    true
}

/// Whether `needle` occurs in `hay`.
pub fn contains_bytes(hay: &[u8], needle: &[u8]) -> (r: bool)
    ensures
        r == occurs_in(hay@, needle@),
{
    let n = needle.len();
    let len = hay.len();
    if n > len {
        return false;
    }
    if n == 0 {
        proof {
            assert(hay@.subrange(0, 0 + needle@.len() as int) =~= needle@);
        }
        return true;
    }
    let mut i: usize = 0;
    while i <= len - n
        invariant
            n == needle@.len(),
            len == hay@.len(),
            1 <= n <= hay@.len(),
            i <= hay@.len() - n + 1,
            forall|k: int| 0 <= k < i ==> #[trigger] hay@.subrange(k, k + n) != needle@,
        decreases hay@.len() - i,
    {
        if matches_at(hay, needle, i) {
            return true;
        }
        i = i + 1;
    }
    proof {
        assert forall|k: int| 0 <= k && k + n <= hay@.len() implies #[trigger] hay@.subrange(
            k,
            k + n,
        ) != needle@ by {
            assert(k < i);
        }
    }
    false
}

/// What to do with a chunk of the tunnel client's output. Either way the
/// chunk's bytes, unchanged, go to the session's log.
#[derive(Clone, Debug)]
pub enum ChunkVerdict {
    /// Append these bytes to the log and keep reading.
    Log(Vec<u8>),
    /// Append these bytes to the log: the tunnel is ready.
    Ready(Vec<u8>),
}

/// Reads a chunk of the tunnel client's output: the tunnel is ready exactly
/// when the chunk holds the bytes of the readiness marker.
pub fn scan_chunk(chunk: Vec<u8>) -> (r: ChunkVerdict)
    ensures
        (r is Ready) == occurs_in(chunk@, READY_MARKER.spec_bytes()),
        match r {
            ChunkVerdict::Log(bytes) => bytes@ == chunk@,
            ChunkVerdict::Ready(bytes) => bytes@ == chunk@,
        },
{
    if contains_bytes(chunk.as_slice(), READY_MARKER.as_bytes()) {
        ChunkVerdict::Ready(chunk)
    } else {
        ChunkVerdict::Log(chunk)
    }
}

/// Why the termination of the tunnel clients failed.
#[derive(Clone, Debug)]
pub enum ProcessError {
    /// The stop command could not be run; the text says why.
    Spawn(String),
    /// The stop command ran and reported failure, as it does when no tunnel
    /// client was running.
    Unsuccessful,
}

/// What running the system-wide stop command came to: `Ok` with whether it
/// reported success, or `Err` with why it could not run.
pub fn termination_outcome(run: Result<bool, String>) -> (r: Result<(), ProcessError>)
    ensures
        match run {
            Ok(true) => r is Ok,
            Ok(false) => r == Err::<(), ProcessError>(ProcessError::Unsuccessful),
            Err(why) => r == Err::<(), ProcessError>(ProcessError::Spawn(why)),
        },
{
    match run {
        Ok(success) => if success {
            Ok(())
        } else {
            Err(ProcessError::Unsuccessful)
        },
        Err(why) => Err(ProcessError::Spawn(why)),
    }
}

} // verus!
