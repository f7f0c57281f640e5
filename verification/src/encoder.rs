//! Builds DNS response messages in exact wire format: length-prefixed name
//! labels, big-endian numeric fields, and a single answer record appended to
//! an echo of the original query's header and question section.

use vstd::prelude::*;

verus! {

/// A resolved network address: four bytes for IPv4, sixteen for IPv6.
#[derive(Clone, Copy, Debug)]
pub enum Address {
    V4([u8; 4]),
    V6([u8; 16]),
}

/// Why encoding a record can fail: a dot-separated label longer than the
/// 63 bytes a length octet can carry.
#[derive(Clone, Copy, Debug, PartialEq, Eq, Structural)]
pub enum EncodeError {
    LabelTooLong,
}

/// The two bytes of `x` in big-endian order.
pub open spec fn be16(x: u16) -> Seq<u8> {
    seq![(x / 256) as u8, (x % 256) as u8]
}

/// The four bytes of `x` in big-endian order.
pub open spec fn be32(x: u32) -> Seq<u8> {
    seq![
        (x / 0x1000000) as u8,
        ((x / 0x10000) % 256) as u8,
        ((x / 0x100) % 256) as u8,
        (x % 256) as u8,
    ]
}

/// Index of the first dot in `s`, or `s.len()` if there is none.
pub open spec fn first_dot(s: Seq<u8>) -> nat
    decreases s.len(),
{
    if s.len() == 0 {
        0
    } else if s[0] == 46 {
        0
    } else {
        1 + first_dot(s.skip(1))
    }
}

/// Wire form of a dot-separated name: each nonempty label preceded by its
/// length, closed by a zero octet. Empty labels (leading, trailing or doubled
/// dots) contribute nothing.
pub open spec fn name_wire(s: Seq<u8>) -> Seq<u8>
    decreases s.len(),
{
    if s.len() == 0 {
        seq![0u8]
    } else {
        let l = first_dot(s);
        if l >= s.len() {
            seq![s.len() as u8] + s + seq![0u8]
        } else if l == 0 {
            name_wire(s.skip(1))
        } else {
            seq![l as u8] + s.take(l as int) + name_wire(s.skip(l as int + 1))
        }
    }
}

/// Every nonempty label of `s` fits in a length octet (at most 63 bytes):
/// exactly the names the encoder accepts.
pub open spec fn name_ok(s: Seq<u8>) -> bool
    decreases s.len(),
{
    if s.len() == 0 {
        true
    } else {
        let l = first_dot(s);
        if l >= s.len() {
            s.len() <= 63
        } else if l == 0 {
            name_ok(s.skip(1))
        } else {
            l <= 63 && name_ok(s.skip(l as int + 1))
        }
    }
}

/// A strictly well-formed name: nonempty, and every label has 1 to 63 bytes
/// (no leading, trailing or doubled dots). Such names survive an
/// encode/decode round trip byte for byte.
pub open spec fn valid_name(s: Seq<u8>) -> bool
    decreases s.len(),
{
    if s.len() == 0 {
        false
    } else {
        let l = first_dot(s);
        if l >= s.len() {
            s.len() <= 63
        } else {
            1 <= l <= 63 && valid_name(s.skip(l as int + 1))
        }
    }
}

proof fn lemma_first_dot_at(s: Seq<u8>, k: int)
    requires
        0 <= k <= s.len(),
        forall|j: int| 0 <= j < k ==> s[j] != 46,
        k == s.len() || s[k] == 46,
    ensures
        first_dot(s) == k,
    decreases k,
{
    if k == 0 {
        if s.len() > 0 {
            assert(s[0] == 46);
        }
    } else {
        assert(s[0] != 46);
        let t = s.skip(1);
        assert forall|j: int| 0 <= j < k - 1 implies t[j] != 46 by {
            assert(t[j] == s[j + 1]);
        }
        if k < s.len() {
            assert(t[k - 1] == s[k]);
        }
        lemma_first_dot_at(t, k - 1);
    }
}

/// Appends the two bytes of `x`, most significant first.
pub fn push_u16_be(buf: &mut Vec<u8>, x: u16)
    ensures
        final(buf)@ == old(buf)@ + be16(x),
{
    buf.push((x / 256) as u8);
    buf.push((x % 256) as u8);
}

/// Appends the four bytes of `x`, most significant first.
pub fn push_u32_be(buf: &mut Vec<u8>, x: u32)
    ensures
        final(buf)@ == old(buf)@ + be32(x),
{
    buf.push((x / 0x1000000) as u8);
    buf.push(((x / 0x10000) % 256) as u8);
    buf.push(((x / 0x100) % 256) as u8);
    buf.push((x % 256) as u8);
}

/// Appends the wire form of `name` to `buf`: length-prefixed labels split on
/// dots, closed by a zero octet. On failure nothing at all is written.
pub fn serialize_name(name: &Vec<u8>, buf: &mut Vec<u8>) -> (r: Result<(), EncodeError>)
    ensures
        r is Ok <==> name_ok(name@),
        r is Ok ==> final(buf)@ == old(buf)@ + name_wire(name@),
        r is Err ==> final(buf)@ == old(buf)@,
{
    let mut out: Vec<u8> = Vec::new();
    let mut i: usize = 0;
    proof {
        assert(name@.skip(0) =~= name@);
    }
    while i < name.len()
        invariant
            i <= name.len(),
            name_ok(name@) <==> name_ok(name@.skip(i as int)),
            name_wire(name@) == out@ + name_wire(name@.skip(i as int)),
        decreases name.len() - i,
    {
        let start = i;
        while i < name.len() && name[i] != 46
            invariant
                start <= i <= name.len(),
                forall|j: int| start <= j < i ==> name@[j] != 46,
            decreases name.len() - i,
        {
            i += 1;
        }
        let ghost s0 = name@.skip(start as int);
        proof {
            assert forall|j: int| 0 <= j < i - start implies s0[j] != 46 by {
                assert(s0[j] == name@[start + j]);
            }
            if i < name.len() {
                assert(s0[i - start] == name@[i as int]);
            }
            lemma_first_dot_at(s0, i - start);
        }
        let l = i - start;
        if l > 63 {
            assert(!name_ok(s0));
            return Err(EncodeError::LabelTooLong);
        }
        let ghost out0 = out@;
        if l > 0 {
            out.push(l as u8);
            let mut j = start;
            while j < i
                invariant
                    start <= j <= i <= name.len(),
                    l == i - start,
                    l <= 63,
                    out@ == out0 + seq![l as u8] + name@.subrange(start as int, j as int),
                decreases i - j,
            {
                out.push(name[j]);
                proof {
                    assert(name@.subrange(start as int, j as int + 1)
                        =~= name@.subrange(start as int, j as int) + seq![name@[j as int]]);
                }
                j += 1;
            }
            assert(out@ == out0 + seq![l as u8] + name@.subrange(start as int, i as int));
        }
        if i < name.len() {
            proof {
                assert(name@.skip(start as int).take(l as int)
                    =~= name@.subrange(start as int, i as int));
                assert(name@.skip(start as int).skip(l as int + 1)
                    =~= name@.skip(i as int + 1));
            }
            i += 1;
        } else {
            proof {
                assert(name@.skip(start as int) =~= name@.subrange(start as int, i as int));
                assert(name@.skip(i as int) =~= Seq::<u8>::empty());
            }
        }
    }
    out.push(0);
    proof {
        assert(name@.skip(i as int) =~= Seq::<u8>::empty());
    }
    buf.append(&mut out);
    Ok(())
}

/// The TYPE code written for an address: 1 for an IPv4 record, 28 for IPv6.
pub open spec fn rr_type(a: Address) -> u16 {
    match a {
        Address::V4(_) => 1,
        Address::V6(_) => 28,
    }
}

/// The raw address bytes carried in the record data.
pub open spec fn addr_bytes(a: Address) -> Seq<u8> {
    match a {
        Address::V4(b) => b@,
        Address::V6(b) => b@,
    }
}

/// Wire form of one resource record: encoded name, TYPE, CLASS IN (1),
/// big-endian TTL, data length, then the address bytes.
pub open spec fn record_wire(n: Seq<u8>, a: Address, ttl: u32) -> Seq<u8> {
    name_wire(n) + be16(rr_type(a)) + be16(1) + be32(ttl)
        + be16(addr_bytes(a).len() as u16) + addr_bytes(a)
}

/// Appends one resource record for `addr` under `name` to `buf`. The record
/// data length field is reserved as a two-byte placeholder and backpatched
/// once the address bytes are in place. On failure nothing is written.
pub fn serialize_resource_record(
    name: &Vec<u8>,
    addr: &Address,
    ttl: u32,
    buf: &mut Vec<u8>,
) -> (r: Result<(), EncodeError>)
    ensures
        r is Ok <==> name_ok(name@),
        r is Ok ==> final(buf)@ == old(buf)@ + record_wire(name@, *addr, ttl),
        r is Err ==> final(buf)@ == old(buf)@,
{
    let mut out: Vec<u8> = Vec::new();
    match serialize_name(name, &mut out) {
        Err(e) => {
            return Err(e);
        },
        Ok(()) => {},
    }
    let rtype: u16 = match addr {
        Address::V4(_) => 1,
        Address::V6(_) => 28,
    };
    push_u16_be(&mut out, rtype);
    push_u16_be(&mut out, 1);
    push_u32_be(&mut out, ttl);
    let dlen_pos = out.len();
    out.push(0);
    out.push(0);
    let ghost before_data = out@;
    match addr {
        Address::V4(b) => {
            let mut k: usize = 0;
            while k < 4
                invariant
                    k <= 4,
                    *addr == Address::V4(*b),
                    out@ == before_data + b@.take(k as int),
                decreases 4 - k,
            {
                out.push(b[k]);
                proof {
                    assert(b@.take(k as int + 1) =~= b@.take(k as int) + seq![b@[k as int]]);
                }
                k += 1;
            }
            assert(b@.take(4) =~= b@);
        },
        Address::V6(b) => {
            let mut k: usize = 0;
            while k < 16
                invariant
                    k <= 16,
                    *addr == Address::V6(*b),
                    out@ == before_data + b@.take(k as int),
                decreases 16 - k,
            {
                out.push(b[k]);
                proof {
                    assert(b@.take(k as int + 1) =~= b@.take(k as int) + seq![b@[k as int]]);
                }
                k += 1;
            }
            assert(b@.take(16) =~= b@);
        },
    }
    let dlen = (out.len() - dlen_pos - 2) as u16;
    out.set(dlen_pos, (dlen / 256) as u8);
    out.set(dlen_pos + 1, (dlen % 256) as u8);
    proof {
        assert(out@ =~= record_wire(name@, *addr, ttl));
    }
    buf.append(&mut out);
    Ok(())
}

/// Builds the full response message for a query whose raw bytes are `query`:
/// transaction id and question count echoed, standard-response flags, answer
/// count one, the original question section copied verbatim, then one
/// resource record answering with `addr`.
pub open spec fn response_wire(q: Seq<u8>, n: Seq<u8>, a: Address, ttl: u32) -> Seq<u8> {
    q.subrange(0, 2) + seq![0x81u8, 0x80u8] + q.subrange(4, 6)
        + seq![0u8, 1u8, 0u8, 0u8, 0u8, 0u8] + q.skip(12) + record_wire(n, a, ttl)
}

/// Synthesizes the response bytes for the raw `query`, answering `qname`
/// with `addr`. Fails exactly when a label of `qname` is over 63 bytes, and
/// then returns no partial message.
pub fn build_dns_response(
    query: &Vec<u8>,
    qname: &Vec<u8>,
    addr: &Address,
    ttl: u32,
) -> (r: Result<Vec<u8>, EncodeError>)
    requires
        query@.len() >= 12,
    ensures
        r is Ok <==> name_ok(qname@),
        r matches Ok(v) ==> v@ == response_wire(query@, qname@, *addr, ttl),
{
    let mut response: Vec<u8> = Vec::new();
    response.push(query[0]);
    response.push(query[1]);
    response.push(0x81);
    response.push(0x80);
    response.push(query[4]);
    response.push(query[5]);
    response.push(0);
    response.push(1);
    response.push(0);
    response.push(0);
    response.push(0);
    response.push(0);
    let ghost header = response@;
    let mut i: usize = 12;
    while i < query.len()
        invariant
            12 <= i <= query@.len(),
            response@ == header + query@.subrange(12, i as int),
        decreases query.len() - i,
    {
        response.push(query[i]);
        proof {
            assert(query@.subrange(12, i as int + 1)
                =~= query@.subrange(12, i as int) + seq![query@[i as int]]);
        }
        i += 1;
    }
    match serialize_resource_record(qname, addr, ttl, &mut response) {
        Ok(()) => {
            proof {
                assert(response@ =~= response_wire(query@, qname@, *addr, ttl));
            }
            Ok(response)
        },
        Err(e) => Err(e),
    }
}

/// What a conformant decoder reads back from an encoded name: the dotted
/// name and the number of bytes consumed. Truncated input and length octets
/// over 63 (which in a full message mark compression pointers) are rejected.
pub open spec fn decode_name(w: Seq<u8>) -> Option<(Seq<u8>, int)>
    decreases w.len(),
{
    if w.len() == 0 {
        None
    } else if w[0] == 0 {
        Some((Seq::<u8>::empty(), 1))
    } else if w[0] > 63 || w.len() < 1 + w[0] {
        None
    } else {
        let l = w[0] as int;
        match decode_name(w.skip(1 + l)) {
            None => None,
            Some(p) => Some((
                if p.0.len() == 0 {
                    w.subrange(1, 1 + l)
                } else {
                    w.subrange(1, 1 + l) + seq![46u8] + p.0
                },
                1 + l + p.1,
            )),
        }
    }
}

/// The fields a decoder reads out of one resource record.
pub struct RecordView {
    pub name: Seq<u8>,
    pub rtype: u16,
    pub rclass: u16,
    pub ttl: u32,
    pub data: Seq<u8>,
}

/// The value of two bytes read big-endian.
pub open spec fn be16_val(b0: u8, b1: u8) -> int {
    b0 * 256 + b1
}

/// The value of four bytes read big-endian.
pub open spec fn be32_val(b0: u8, b1: u8, b2: u8, b3: u8) -> int {
    b0 * 0x1000000 + b1 * 0x10000 + b2 * 0x100 + b3
}

/// What a conformant decoder reads back from an encoded resource record:
/// the name, then TYPE, CLASS and TTL, then exactly as many data bytes as
/// the two-byte length field declares.
pub open spec fn decode_record(w: Seq<u8>) -> Option<RecordView> {
    match decode_name(w) {
        None => None,
        Some(p) => {
            let u = p.1;
            if w.len() < u + 10 {
                None
            } else {
                let dlen = be16_val(w[u + 8], w[u + 9]);
                if w.len() != u + 10 + dlen {
                    None
                } else {
                    Some(RecordView {
                        name: p.0,
                        rtype: be16_val(w[u], w[u + 1]) as u16,
                        rclass: be16_val(w[u + 2], w[u + 3]) as u16,
                        ttl: be32_val(w[u + 4], w[u + 5], w[u + 6], w[u + 7]) as u32,
                        data: w.skip(u + 10),
                    })
                }
            }
        },
    }
}

proof fn lemma_first_dot_props(s: Seq<u8>)
    ensures
        first_dot(s) <= s.len(),
        first_dot(s) < s.len() ==> s[first_dot(s) as int] == 46,
    decreases s.len(),
{
    if s.len() == 0 {
    } else if s[0] == 46 {
    } else {
        lemma_first_dot_props(s.skip(1));
    }
}

proof fn lemma_name_wire_len(s: Seq<u8>)
    requires
        valid_name(s),
    ensures
        name_wire(s).len() == s.len() + 2,
    decreases s.len(),
{
    lemma_first_dot_props(s);
    let l = first_dot(s);
    if l < s.len() {
        lemma_name_wire_len(s.skip(l as int + 1));
    }
}

proof fn lemma_name_wire_decode(s: Seq<u8>, suffix: Seq<u8>)
    requires
        valid_name(s),
    ensures
        decode_name(name_wire(s) + suffix) == Some((s, (s.len() + 2) as int)),
    decreases s.len(),
{
    lemma_first_dot_props(s);
    let l = first_dot(s);
    let w = name_wire(s) + suffix;
    if l >= s.len() {
        assert(name_wire(s) == seq![s.len() as u8] + s + seq![0u8]);
        assert(w[0] == s.len() as u8);
        assert(w.skip(1 + s.len() as int) =~= seq![0u8] + suffix);
        assert(decode_name(seq![0u8] + suffix) == Some((Seq::<u8>::empty(), 1int)));
        assert(w.subrange(1, 1 + s.len() as int) =~= s);
    } else {
        let rest = s.skip(l as int + 1);
        lemma_name_wire_decode(rest, suffix);
        assert(name_wire(s) == seq![l as u8] + s.take(l as int) + name_wire(s.skip(l as int + 1)));
        assert(w[0] == l as u8);
        assert(w.skip(1 + l as int) =~= name_wire(rest) + suffix);
        assert(rest.len() > 0);
        assert(w.subrange(1, 1 + l as int) =~= s.take(l as int));
        assert(w.subrange(1, 1 + l as int) + seq![46u8] + rest =~= s);
        assert(decode_name(w) == Some((s, (s.len() + 2) as int)));
    }
}

/// Law: encoding a well-formed name and reading it back as a conformant
/// decoder would yields the same dotted name, byte for byte, consuming the
/// whole encoding.
pub proof fn lemma_name_round_trip(s: Seq<u8>)
    requires
        valid_name(s),
    ensures
        decode_name(name_wire(s)) == Some((s, (s.len() + 2) as int)),
{
    lemma_name_wire_decode(s, Seq::<u8>::empty());
    assert(name_wire(s) + Seq::<u8>::empty() =~= name_wire(s));
}

/// Law: a resource record encoded for a well-formed name, an address and a
/// TTL decodes to that same name, the TYPE code of the address family,
/// class IN, the same TTL, and exactly the address bytes.
///
/// `valid_name` excludes name texts with empty labels (leading, trailing
/// or doubled dots): the encoder drops empty labels, so such a text would
/// decode to a different spelling of the same name. Names read out of
/// real packets never contain empty labels.
pub proof fn lemma_record_round_trip(n: Seq<u8>, a: Address, ttl: u32)
    requires
        valid_name(n),
    ensures
        decode_record(record_wire(n, a, ttl)) == Some(RecordView {
            name: n,
            rtype: rr_type(a),
            rclass: 1,
            ttl: ttl,
            data: addr_bytes(a),
        }),
{
    let rt = rr_type(a);
    let dl = addr_bytes(a).len() as u16;
    let tail = be16(rt) + be16(1) + be32(ttl) + be16(dl) + addr_bytes(a);
    let w = record_wire(n, a, ttl);
    lemma_name_wire_decode(n, tail);
    lemma_name_wire_len(n);
    assert(w =~= name_wire(n) + tail);
    let u = (n.len() + 2) as int;
    assert(decode_name(w) == Some((n, u)));
    assert forall|k: int| 0 <= k < tail.len() implies w[u + k] == tail[k] by {}
    vstd::arithmetic::div_mod::lemma_fundamental_div_mod(rt as int, 256);
    assert(be16_val(tail[0], tail[1]) == rt as int);
    assert(be16_val(tail[2], tail[3]) == 1);
    vstd::arithmetic::div_mod::lemma_fundamental_div_mod(ttl as int, 256);
    vstd::arithmetic::div_mod::lemma_fundamental_div_mod(ttl as int / 256, 256);
    vstd::arithmetic::div_mod::lemma_fundamental_div_mod(ttl as int / 65536, 256);
    vstd::arithmetic::div_mod::lemma_div_denominator(ttl as int, 256, 256);
    vstd::arithmetic::div_mod::lemma_div_denominator(ttl as int, 65536, 256);
    assert(be32_val(tail[4], tail[5], tail[6], tail[7]) == ttl as int);
    vstd::arithmetic::div_mod::lemma_fundamental_div_mod(dl as int, 256);
    assert(be16_val(tail[8], tail[9]) == dl as int);
    assert(w.len() == u + 10 + dl);
    assert(w.skip(u + 10) =~= addr_bytes(a));
}

} // verus!
