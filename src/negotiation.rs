use crate::composition::{contains_protocol, texts};
use crate::protocol::StreamProtocol;
use vstd::prelude::*;

verus! {

/// Why a stream never reached the open state.
#[derive(PartialEq, Eq, Structural, Clone, Copy, Debug)]
pub enum NegotiationError {
    /// No proposed protocol was accepted by the other side.
    NegotiationFailed,
    /// The exchange took longer than the configured bound.
    NegotiationTimeout,
}

/// Proposal `idx` is the first of `proposals` that `local` accepts.
pub open spec fn first_accepted(local: Seq<Seq<char>>, proposals: Seq<Seq<char>>, idx: int) -> bool {
    &&& 0 <= idx < proposals.len()
    &&& local.contains(proposals[idx])
    &&& forall|m: int| 0 <= m < idx ==> !local.contains(#[trigger] proposals[m])
}

/// Negotiates an outbound stream: the single desired protocol is proposed to
/// a remote that supports `remote_supported`.
pub fn negotiate_outbound(desired: &StreamProtocol, remote_supported: &Vec<StreamProtocol>) -> (r: Result<
    StreamProtocol,
    NegotiationError,
>)
    ensures
        r is Ok <==> texts(remote_supported@).contains(desired@),
        r matches Ok(p) ==> p@ == desired@,
        r matches Err(e) ==> e == NegotiationError::NegotiationFailed,
{
    if contains_protocol(remote_supported, desired) {
        Ok(desired.clone())
    } else {
        Err(NegotiationError::NegotiationFailed)
    }
}

/// Negotiates an inbound stream: the remote's proposals are tried in order
/// against the protocols offered locally, and the first accepted one wins.
pub fn negotiate_inbound(local_offered: &Vec<StreamProtocol>, proposals: &Vec<StreamProtocol>) -> (r: Result<
    StreamProtocol,
    NegotiationError,
>)
    ensures
        r is Ok <==> exists|m: int|
            0 <= m < proposals@.len() && texts(local_offered@).contains(#[trigger] texts(proposals@)[m]),
        r matches Ok(p) ==> exists|idx: int|
            first_accepted(texts(local_offered@), texts(proposals@), idx) && p@ == #[trigger] proposals@[idx]@,
        r matches Err(e) ==> e == NegotiationError::NegotiationFailed,
{
    let ghost local = texts(local_offered@);
    let ghost props = texts(proposals@);
    let mut k: usize = 0;
    while k < proposals.len()
        invariant
            local == texts(local_offered@),
            props == texts(proposals@),
            k <= proposals@.len(),
            forall|m: int| 0 <= m < k ==> !local.contains(#[trigger] props[m]),
        decreases proposals@.len() - k,
    {
        if contains_protocol(local_offered, &proposals[k]) {
            assert(props[k as int] == proposals@[k as int]@);
            assert(first_accepted(local, props, k as int));
            return Ok(proposals[k].clone());
        }
        assert(props[k as int] == proposals@[k as int]@);
        k = k + 1;
    }
    Err(NegotiationError::NegotiationFailed)
}

} // verus!
