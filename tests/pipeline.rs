use metrics_relay::enrich::populate_labels;
use metrics_relay::frame::{decode_frame, decode_payload, encode_frame, encode_payload, DecodeError};
use metrics_relay::peer::{peer_multiaddr, PeerIdentity, PeerIp};
use metrics_relay::pipeline::{
    conclude_publish, prepare_publish, respond, Plan, RelayOutcome, Reply, RequestContext,
    Submission,
};
use metrics_relay::sample::{duplicate_batch, Label, Sample};
use multiaddr::Multiaddr;

fn label(n: &str, v: &str) -> Label {
    Label::new(n.to_string(), v.to_string())
}

fn sample(name: &str, labels: Vec<Label>, value: f64, ts: i64) -> Sample {
    Sample::new(name.to_string(), labels, value.to_bits(), ts)
}

fn three_samples() -> Vec<Sample> {
    vec![
        sample("cpu_seconds", vec![label("core", "0")], 1.5, 1_700_000_000_000),
        sample("mem_bytes", vec![], 4096.0, -1),
        sample(
            "requests",
            vec![label("route", "/publish"), label("peer", "spoofed"), label("network", "other")],
            -3.25,
            0,
        ),
    ]
}

fn context(peer: &str, network: &str) -> RequestContext {
    RequestContext {
        network: network.to_string(),
        peer: PeerIdentity { name: peer.to_string(), public_key: vec![9, 8, 7, 6] },
        remote_ip: PeerIp::V4([10, 0, 0, 7]),
    }
}

fn label_values(s: &Sample, name: &str) -> Vec<String> {
    s.labels.iter().filter(|l| l.name == name).map(|l| l.value.clone()).collect()
}

#[test]
fn frame_round_trip_keeps_batch() {
    let b = three_samples();
    let frame = encode_frame(&b);
    assert_eq!(decode_frame(&frame, frame.len()), Ok(b));
}

#[test]
fn frame_round_trip_of_empty_batch() {
    let b: Vec<Sample> = vec![];
    let frame = encode_frame(&b);
    assert_eq!(decode_frame(&frame, frame.len()), Ok(vec![]));
}

#[test]
fn frame_is_compressed_payload() {
    let b = three_samples();
    let payload = encode_payload(&b);
    let frame = encode_frame(&b);
    assert_ne!(frame, payload);
    assert_eq!(snap::raw::Decoder::new().decompress_vec(&frame).unwrap(), payload);
}

#[test]
fn payload_round_trip_with_unicode() {
    let b = vec![sample("temp_°c", vec![label("city", "Zürich ☃")], 21.0, 42)];
    assert_eq!(decode_payload(&encode_payload(&b)), Ok(b));
}

#[test]
fn payload_layout_is_exact() {
    let b = vec![Sample::new("a".to_string(), vec![label("k", "v")], 0x0102, -2)];
    let p = encode_payload(&b);
    let mut want: Vec<u8> = vec![];
    let body: Vec<u8> = [
        &[1u8, 0, 0, 0, b'a'][..],
        &[1, 0, 0, 0],
        &[1, 0, 0, 0, b'k', 1, 0, 0, 0, b'v'],
        &[2, 1, 0, 0, 0, 0, 0, 0],
        &[0xfe, 0xff, 0xff, 0xff, 0xff, 0xff, 0xff, 0xff],
    ]
    .concat();
    want.extend_from_slice(&(body.len() as u32).to_le_bytes());
    want.extend_from_slice(&body);
    assert_eq!(p, want);
}

#[test]
fn frame_shorter_than_declared_is_truncated() {
    let frame = encode_frame(&three_samples());
    assert_eq!(decode_frame(&frame[..frame.len() - 1], frame.len()), Err(DecodeError::Truncated));
}

#[test]
fn frame_longer_than_declared_is_oversized() {
    let frame = encode_frame(&three_samples());
    assert_eq!(decode_frame(&frame, frame.len() - 1), Err(DecodeError::Oversized));
}

#[test]
fn garbage_frame_fails_decompression() {
    let frame = vec![0xffu8, 0xff, 0xff, 0xff, 0xff, 0xff];
    assert_eq!(decode_frame(&frame, frame.len()), Err(DecodeError::Decompression));
    assert_eq!(decode_frame(&[], 0), Err(DecodeError::Decompression));
}

#[test]
fn payload_ending_inside_record_is_truncated() {
    let p = encode_payload(&three_samples());
    assert_eq!(decode_payload(&p[..p.len() - 3]), Err(DecodeError::Truncated));
    assert_eq!(decode_payload(&p[..2]), Err(DecodeError::Truncated));
}

#[test]
fn record_length_disagreeing_with_contents_is_malformed() {
    let mut p = encode_payload(&three_samples()[..1].to_vec());
    p[0] += 1;
    p.push(0);
    assert_eq!(decode_payload(&p), Err(DecodeError::Malformed));
    let mut q = encode_payload(&three_samples()[..1].to_vec());
    q[0] -= 1;
    q.pop();
    assert_eq!(decode_payload(&q), Err(DecodeError::Malformed));
}

#[test]
fn invalid_utf8_is_malformed() {
    let mut p = encode_payload(&vec![sample("ab", vec![], 1.0, 1)]);
    p[8] = 0xff;
    assert_eq!(decode_payload(&p), Err(DecodeError::Malformed));
}

#[test]
fn malformed_frame_in_compressed_envelope() {
    let mut p = encode_payload(&three_samples());
    p.truncate(p.len() - 1);
    let frame = snap::raw::Encoder::new().compress_vec(&p).unwrap();
    assert_eq!(decode_frame(&frame, frame.len()), Err(DecodeError::Truncated));
}

#[test]
fn enrichment_adds_authoritative_labels() {
    let b = three_samples();
    let e = populate_labels("node-7", "testnet", &b);
    assert_eq!(e.len(), b.len());
    for (src, out) in b.iter().zip(e.iter()) {
        assert_eq!(label_values(out, "peer"), vec!["node-7".to_string()]);
        assert_eq!(label_values(out, "network"), vec!["testnet".to_string()]);
        assert_eq!(out.name, src.name);
        assert_eq!(out.value_bits, src.value_bits);
        assert_eq!(out.timestamp_ms, src.timestamp_ms);
    }
    assert_eq!(
        e[0].labels,
        vec![label("core", "0"), label("peer", "node-7"), label("network", "testnet")]
    );
}

#[test]
fn enrichment_overwrites_spoofed_labels() {
    let b = three_samples();
    let e = populate_labels("node-7", "testnet", &b);
    assert_eq!(
        e[2].labels,
        vec![label("route", "/publish"), label("peer", "node-7"), label("network", "testnet")]
    );
    assert_eq!(b[2].labels.len(), 3);
}

#[test]
fn enrichment_of_empty_batch_is_empty() {
    assert!(populate_labels("p", "n", &vec![]).is_empty());
}

#[test]
fn duplicate_batch_is_equal() {
    let b = three_samples();
    assert_eq!(duplicate_batch(&b), b);
}

#[test]
fn ipv4_peer_multiaddr() {
    let m = peer_multiaddr(&PeerIp::V4([10, 0, 0, 7]));
    assert_eq!(m, "/ip4/10.0.0.7".parse::<Multiaddr>().unwrap());
    assert_eq!(m.to_vec(), vec![4, 10, 0, 0, 7]);
}

#[test]
fn ipv6_peer_multiaddr() {
    let octets = [0x20, 0x01, 0x0d, 0xb8, 0, 0, 0, 0, 0, 0, 0, 0, 0, 0, 0, 1];
    let m = peer_multiaddr(&PeerIp::V6(octets));
    assert_eq!(m, "/ip6/2001:db8::1".parse::<Multiaddr>().unwrap());
}

#[test]
fn reply_mapping() {
    assert_eq!(respond(&RelayOutcome::Delivered), Reply::Created);
    assert_eq!(respond(&RelayOutcome::ConversionError("x".into())), Reply::ConversionFailed);
    assert_eq!(respond(&RelayOutcome::UpstreamError("x".into())), Reply::UpstreamRejected);
    assert_eq!(respond(&RelayOutcome::TransportError("x".into())), Reply::UpstreamUnavailable);
    assert_eq!(Reply::Created.status(), 201);
    assert_eq!(Reply::Created.body(), "created");
    assert_eq!(Reply::MalformedFrame.status(), 400);
    assert_eq!(Reply::ConversionFailed.status(), 500);
    assert_eq!(Reply::UpstreamRejected.status(), 502);
    assert_eq!(Reply::UpstreamUnavailable.status(), 503);
}

#[test]
fn upstream_detail_is_not_leaked() {
    let r = respond(&RelayOutcome::UpstreamError("secret token xyz".into()));
    assert!(!r.body().contains("secret"));
}

#[test]
fn relay_drop_keeps_success_reply() {
    let ok_queued = conclude_publish(&RelayOutcome::Delivered, Submission::Queued);
    let ok_dropped = conclude_publish(&RelayOutcome::Delivered, Submission::Dropped);
    assert_eq!(ok_queued, Reply::Created);
    assert_eq!(ok_dropped, Reply::Created);
    assert_eq!(ok_dropped.status(), 201);
}

#[test]
fn transport_failure_is_service_unavailable() {
    for s in [Submission::Queued, Submission::Dropped] {
        let r = conclude_publish(&RelayOutcome::TransportError("connection refused".into()), s);
        assert_eq!(r, Reply::UpstreamUnavailable);
        assert_eq!(r.status(), 503);
    }
}

#[test]
fn malformed_frame_reaches_no_sink() {
    let ctx = context("node-7", "testnet");
    let frame = encode_frame(&three_samples());
    match prepare_publish(&frame[..frame.len() - 2], frame.len(), &ctx) {
        Plan::Rejected { error, reply } => {
            assert_eq!(error, DecodeError::Truncated);
            assert_eq!(reply, Reply::MalformedFrame);
            assert_eq!(reply.status(), 400);
        }
        Plan::Fanout { .. } => panic!("a truncated frame reached the sinks"),
    }
    let junk = vec![1u8, 2, 3];
    assert!(matches!(prepare_publish(&junk, 3, &ctx), Plan::Rejected { .. }));
}

#[test]
fn three_sample_frame_fans_out() {
    let ctx = context("node-7", "testnet");
    let frame = encode_frame(&three_samples());
    match prepare_publish(&frame, frame.len(), &ctx) {
        Plan::Rejected { .. } => panic!("a valid frame was rejected"),
        Plan::Fanout { relay_copy, metric } => {
            assert_eq!(relay_copy.len(), 3);
            assert_eq!(metric.data.len(), 3);
            assert_eq!(relay_copy, metric.data);
            for s in &metric.data {
                assert_eq!(label_values(s, "peer"), vec!["node-7".to_string()]);
                assert_eq!(label_values(s, "network"), vec!["testnet".to_string()]);
            }
            assert_eq!(metric.public_key, vec![9, 8, 7, 6]);
            assert_eq!(metric.peer_addr, "/ip4/10.0.0.7".parse::<Multiaddr>().unwrap());
            let r = conclude_publish(&RelayOutcome::Delivered, Submission::Queued);
            assert_eq!(r, Reply::Created);
        }
    }
}
