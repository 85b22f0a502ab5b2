//! One publish request: decode the frame, stamp the samples, hand a copy to
//! the histogram relay and the rest to the remote-write forwarder, and answer
//! from the forwarder's outcome alone.
//!
//! The two sinks run outside this module. [`prepare_publish`] decides what
//! each of them receives; [`conclude_publish`] decides the reply once they
//! have run.
use crate::enrich::{enriched, populate_labels};
use crate::frame::{decode_frame, frame_decoded, DecodeError};
use crate::peer::{ip_component, multiaddr_bytes, peer_multiaddr, PeerIdentity, PeerIp};
use crate::sample::{batch_view, duplicate_batch, Sample};
use multiaddr::Multiaddr;
use vstd::prelude::*;

verus! {

/// What a request brings besides its frame.
pub struct RequestContext {
    /// The name of the network this relay serves.
    pub network: String,
    /// The sender, as the transport verified it.
    pub peer: PeerIdentity,
    /// The address the sender connected from.
    pub remote_ip: PeerIp,
}

/// What the remote-write forwarder receives.
pub struct NodeMetric {
    pub data: Vec<Sample>,
    pub peer_addr: Multiaddr,
    pub public_key: Vec<u8>,
}

/// How the remote-write forwarder fared.
#[derive(Clone, Debug, PartialEq, Eq)]
pub enum RelayOutcome {
    /// The upstream store took the samples.
    Delivered,
    /// The samples could not be put in the upstream's format.
    ConversionError(String),
    /// The upstream store answered, and refused.
    UpstreamError(String),
    /// The upstream store could not be reached.
    TransportError(String),
}

/// How the histogram relay took its copy. It never changes the reply.
#[derive(Clone, Copy, Debug, PartialEq, Eq, Structural)]
pub enum Submission {
    Queued,
    Dropped,
}

/// The reply to a publish request.
#[derive(Clone, Copy, Debug, PartialEq, Eq, Structural)]
pub enum Reply {
    Created,
    MalformedFrame,
    ConversionFailed,
    UpstreamRejected,
    UpstreamUnavailable,
}

pub open spec fn reply_status(r: Reply) -> u16 {
    match r {
        Reply::Created => 201,
        Reply::MalformedFrame => 400,
        Reply::ConversionFailed => 500,
        Reply::UpstreamRejected => 502,
        Reply::UpstreamUnavailable => 503,
    }
}

pub open spec fn reply_body(r: Reply) -> Seq<char> {
    match r {
        Reply::Created => "created"@,
        Reply::MalformedFrame => "malformed metrics frame"@,
        Reply::ConversionFailed => "unable to convert metrics"@,
        Reply::UpstreamRejected => "upstream rejected metrics"@,
        Reply::UpstreamUnavailable => "upstream unavailable"@,
    }
}

impl Reply {
    /// The HTTP status of the reply.
    pub fn status(&self) -> (r: u16)
        ensures
            r == reply_status(*self),
    {
        match self {
            Reply::Created => 201,
            Reply::MalformedFrame => 400,
            Reply::ConversionFailed => 500,
            Reply::UpstreamRejected => 502,
            Reply::UpstreamUnavailable => 503,
        }
    }

    /// The short body of the reply. It never carries an upstream's detail.
    pub fn body(&self) -> (r: &'static str)
        ensures
            r@ == reply_body(*self),
    {
        match self {
            Reply::Created => "created",
            Reply::MalformedFrame => "malformed metrics frame",
            Reply::ConversionFailed => "unable to convert metrics",
            Reply::UpstreamRejected => "upstream rejected metrics",
            Reply::UpstreamUnavailable => "upstream unavailable",
        }
    }
}

/// The reply that the forwarder's outcome calls for.
pub open spec fn reply_for(o: RelayOutcome) -> Reply {
    match o {
        RelayOutcome::Delivered => Reply::Created,
        RelayOutcome::ConversionError(_) => Reply::ConversionFailed,
        RelayOutcome::UpstreamError(_) => Reply::UpstreamRejected,
        RelayOutcome::TransportError(_) => Reply::UpstreamUnavailable,
    }
}

/// The reply that the forwarder's outcome calls for.
pub fn respond(outcome: &RelayOutcome) -> (r: Reply)
    ensures
        r == reply_for(*outcome),
{
    match outcome {
        RelayOutcome::Delivered => Reply::Created,
        RelayOutcome::ConversionError(_) => Reply::ConversionFailed,
        RelayOutcome::UpstreamError(_) => Reply::UpstreamRejected,
        RelayOutcome::TransportError(_) => Reply::UpstreamUnavailable,
    }
}

/// What to do with a request once its frame is read.
pub enum Plan {
    /// The frame could not be decoded: answer at once, and call neither sink.
    Rejected { error: DecodeError, reply: Reply },
    /// Hand `relay_copy` to the histogram relay, and `metric` to the
    /// remote-write forwarder; the two share nothing.
    Fanout { relay_copy: Vec<Sample>, metric: NodeMetric },
}

/// Decides what a request leads to. A frame that does not decode is
/// rejected with [`Reply::MalformedFrame`]; otherwise both sinks receive the
/// decoded samples stamped with the sender's and the network's names, and the
/// forwarder also the sender's address and public key.
pub fn prepare_publish(frame: &[u8], declared_len: usize, ctx: &RequestContext) -> (r: Plan)
    ensures
        frame_decoded(frame@, declared_len as nat) is Err <==> r is Rejected,
        r matches Plan::Rejected { error, reply } ==> frame_decoded(frame@, declared_len as nat)
            == Err::<Seq<crate::sample::SampleView>, DecodeError>(error) && reply
            == Reply::MalformedFrame,
        r matches Plan::Fanout { relay_copy, metric } ==> {
            let b = frame_decoded(frame@, declared_len as nat)->Ok_0;
            let e = enriched(b, ctx.peer.name@, ctx.network@);
            &&& batch_view(relay_copy@) == e
            &&& batch_view(metric.data@) == e
            &&& multiaddr_bytes(metric.peer_addr) == ip_component(ctx.remote_ip)
            &&& metric.public_key@ == ctx.peer.public_key@
        },
{
    match decode_frame(frame, declared_len) {
        Err(error) => Plan::Rejected { error, reply: Reply::MalformedFrame },
        Ok(batch) => {
            let data = populate_labels(ctx.peer.name.as_str(), ctx.network.as_str(), &batch);
            let relay_copy = duplicate_batch(&data);
            let metric = NodeMetric {
                data,
                peer_addr: peer_multiaddr(&ctx.remote_ip),
                public_key: vstd::slice::slice_to_vec(ctx.peer.public_key.as_slice()),
            };
            Plan::Fanout { relay_copy, metric }
        },
    }
}

/// The reply to a request whose samples went to both sinks. It is the reply
/// that the forwarder's outcome calls for, whatever became of the histogram
/// relay's copy: that sink is advisory, and its failure is neither retried
/// nor reported.
pub fn conclude_publish(outcome: &RelayOutcome, _relay: Submission) -> (r: Reply)
    ensures
        r == reply_for(*outcome),
{
    respond(outcome)
}

} // verus!
