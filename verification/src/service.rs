//! Per-message serving logic shared by the two transports, split into
//! lock-sized steps. A transport loop first hands the raw bytes to a
//! receive/lookup step (one short exclusive hold on the shared counters
//! and, on the TLS path, the cache), then performs resolution on its own —
//! an awaitable network call no lock may span — and finally hands the
//! outcome to a synthesis step that builds, and on the TLS path stores,
//! the response. No step blocks, and none holds anything across I/O.

use vstd::prelude::*;
use crate::cache::{Cache, model_get, model_has, spec_put, spec_touch};
use crate::encoder::{
    Address, be16, be16_val, build_dns_response, name_ok, push_u16_be, response_wire,
};
use crate::metrics::{Metrics, sat_inc};
use crate::parser::{QType, Question, parse_query, parsed};
use crate::resolver::{apply_fallback, loopback_v6, with_fallback};

verus! {

/// Synthesizes the UDP answer to `raw` for the first question's `qname`:
/// the resolved address, or the fallback when resolution found nothing.
/// The question's type is not consulted on this path.
pub fn synthesize_udp(
    raw: &Vec<u8>,
    qname: &Vec<u8>,
    resolved: Option<Address>,
    ttl: u32,
) -> (r: Option<Vec<u8>>)
    requires
        raw@.len() >= 12,
    ensures
        name_ok(qname@) ==> (r matches Some(v)
            && v@ == response_wire(raw@, qname@, with_fallback(resolved), ttl)),
        !name_ok(qname@) ==> r is None,
{
    let addr = apply_fallback(resolved);
    match build_dns_response(raw, qname, &addr, ttl) {
        Ok(v) => Some(v),
        Err(_) => None,
    }
}

/// The address a TLS answer carries for a question type: the resolved
/// address (with fallback) for A, the fixed IPv6 loopback for AAAA, and
/// none at all for unsupported types.
pub open spec fn tls_chosen_address(qtype: QType, resolved: Option<Address>) -> Option<Address> {
    match qtype {
        QType::A => Some(with_fallback(resolved)),
        QType::Aaaa => Some(loopback_v6()),
        QType::Other => None,
    }
}

/// Synthesizes the TLS answer to `raw` for one question: answers A with
/// the resolved-or-fallback address, AAAA with the fixed IPv6 loopback,
/// and skips unsupported types.
pub fn synthesize_tls(
    raw: &Vec<u8>,
    qname: &Vec<u8>,
    qtype: QType,
    resolved: Option<Address>,
    ttl: u32,
) -> (r: Option<Vec<u8>>)
    requires
        raw@.len() >= 12,
    ensures
        tls_chosen_address(qtype, resolved) is None ==> r is None,
        tls_chosen_address(qtype, resolved) matches Some(ad) ==> if name_ok(qname@) {
            r matches Some(v) && v@ == response_wire(raw@, qname@, ad, ttl)
        } else {
            r is None
        },
{
    let addr = match qtype {
        QType::A => apply_fallback(resolved),
        QType::Aaaa => Address::V6([0, 0, 0, 0, 0, 0, 0, 0, 0, 0, 0, 0, 0, 0, 0, 1]),
        QType::Other => {
            return None;
        },
    };
    match build_dns_response(raw, qname, &addr, ttl) {
        Ok(v) => Some(v),
        Err(_) => None,
    }
}

/// First step of the UDP cycle: count the datagram and read its first
/// question out of the parsed packet. Unparseable bytes are counted as a
/// parse failure and yield nothing — no reply may be sent — and the step
/// is stateless, so the next datagram is handled as if this one never
/// came. The caller resolves the returned name, then synthesizes.
pub fn udp_receive(metrics: &mut Metrics, raw: &Vec<u8>) -> (r: Option<Question>)
    ensures
        final(metrics).total_queries == sat_inc(old(metrics).total_queries),
        final(metrics).failed_parses == if parsed(raw@) is None {
            sat_inc(old(metrics).failed_parses)
        } else {
            old(metrics).failed_parses
        },
        parsed(raw@) is None ==> r is None,
        parsed(raw@) matches Some(qs) ==> if qs.len() == 0 {
            r is None
        } else {
            (r matches Some(q) && q@ == qs[0])
        },
        r is Some ==> raw@.len() >= 12,
{
    metrics.record_query();
    let mut pq = match parse_query(raw) {
        None => {
            metrics.record_parse_failure();
            return None;
        },
        Some(p) => p,
    };
    if pq.questions.len() == 0 {
        return None;
    }
    proof {
        assert(pq@[0] == pq.questions@[0]@);
    }
    Some(pq.questions.remove(0))
}

/// What the TLS receive/lookup step found for one framed message.
pub enum TlsLookup {
    /// The bytes do not parse; the failure was counted, nothing is sent.
    ParseFailed,
    /// A well-formed packet with no question; nothing is sent.
    NoQuestion,
    /// The queried name was cached: the stored response bytes, verbatim —
    /// including the transaction id of the query they were first built
    /// for, a consequence of keying full responses by name alone.
    Cached(Vec<u8>),
    /// The name is not cached: the first question, for the caller to
    /// resolve and then answer.
    Miss(Question),
}

/// First step of the TLS cycle: count the message, parse it, and probe the
/// cache for the first question's name, refreshing its recency on a hit.
/// The cache is touched under this one call and nothing else; resolution
/// and synthesis happen afterwards, outside any lock.
pub fn tls_lookup(cache: &mut Cache, metrics: &mut Metrics, raw: &Vec<u8>) -> (r: TlsLookup)
    requires
        old(cache).wf(),
    ensures
        final(cache).wf(),
        final(cache).capacity() == old(cache).capacity(),
        final(metrics).total_queries == sat_inc(old(metrics).total_queries),
        final(metrics).failed_parses == if parsed(raw@) is None {
            sat_inc(old(metrics).failed_parses)
        } else {
            old(metrics).failed_parses
        },
        parsed(raw@) is None ==> r is ParseFailed && final(cache)@ == old(cache)@,
        parsed(raw@) matches Some(qs) ==> {
            &&& (qs.len() == 0 ==> r is NoQuestion && final(cache)@ == old(cache)@)
            &&& (qs.len() > 0 && model_has(old(cache)@, qs[0].qname) ==> (r matches TlsLookup::Cached(v)
                && model_get(old(cache)@, qs[0].qname) == Some(v@)
                && final(cache)@ == spec_touch(old(cache)@, qs[0].qname)))
            &&& (qs.len() > 0 && !model_has(old(cache)@, qs[0].qname) ==> (r matches TlsLookup::Miss(q)
                && q@ == qs[0] && final(cache)@ == old(cache)@))
        },
        r is Miss ==> raw@.len() >= 12,
{
    metrics.record_query();
    let mut pq = match parse_query(raw) {
        None => {
            metrics.record_parse_failure();
            return TlsLookup::ParseFailed;
        },
        Some(p) => p,
    };
    if pq.questions.len() == 0 {
        return TlsLookup::NoQuestion;
    }
    proof {
        assert(pq@[0] == pq.questions@[0]@);
    }
    let hit = cache.lookup(&pq.questions[0].qname);
    match hit {
        Some(cached) => TlsLookup::Cached(cached),
        None => TlsLookup::Miss(pq.questions.remove(0)),
    }
}

/// Second step of the TLS cycle, after the caller resolved the missed
/// question's name (for an A question; other types need no resolution):
/// synthesize the response and store it under the name at the most-recent
/// cache position. Unsupported types and rejected names produce nothing
/// and leave the cache unchanged.
pub fn tls_answer(
    cache: &mut Cache,
    raw: &Vec<u8>,
    q: &Question,
    resolved: Option<Address>,
    ttl: u32,
) -> (r: Option<Vec<u8>>)
    requires
        old(cache).wf(),
        raw@.len() >= 12,
    ensures
        final(cache).wf(),
        final(cache).capacity() == old(cache).capacity(),
        tls_chosen_address(q.qtype, resolved) is None ==> r is None
            && final(cache)@ == old(cache)@,
        tls_chosen_address(q.qtype, resolved) matches Some(ad) ==> if name_ok(q.qname@) {
            (r matches Some(v) && v@ == response_wire(raw@, q.qname@, ad, ttl)
                && final(cache)@ == spec_put(
                old(cache)@,
                old(cache).capacity(),
                q.qname@,
                v@,
            ))
        } else {
            r is None && final(cache)@ == old(cache)@
        },
{
    match synthesize_tls(raw, &q.qname, q.qtype, resolved, ttl) {
        Some(v) => {
            cache.insert(q.qname.clone(), v.clone());
            Some(v)
        },
        None => None,
    }
}

/// Length-prefixed framing for the TLS transport: two big-endian length
/// bytes, then the message itself. Fails when the message is longer than
/// the prefix can declare.
pub fn frame_message(msg: &Vec<u8>) -> (r: Option<Vec<u8>>)
    ensures
        msg@.len() > 65535 ==> r is None,
        msg@.len() <= 65535 ==> (r matches Some(v) && v@ == be16(msg@.len() as u16) + msg@),
{
    if msg.len() > 65535 {
        return None;
    }
    let mut out: Vec<u8> = Vec::new();
    push_u16_be(&mut out, msg.len() as u16);
    let ghost prefix = out@;
    let mut i: usize = 0;
    while i < msg.len()
        invariant
            i <= msg@.len(),
            out@ == prefix + msg@.take(i as int),
        decreases msg.len() - i,
    {
        out.push(msg[i]);
        proof {
            assert(msg@.take(i as int + 1) =~= msg@.take(i as int) + seq![msg@[i as int]]);
        }
        i += 1;
    }
    proof {
        assert(msg@.take(msg@.len() as int) =~= msg@);
    }
    Some(out)
}

/// The message length a two-byte big-endian frame prefix declares.
pub fn frame_length(b0: u8, b1: u8) -> (r: u16)
    ensures
        r as int == be16_val(b0, b1),
{
    (b0 as u16) * 256 + (b1 as u16)
}

} // verus!
