//! The TFTP wire codec: the five RFC 1350 packet kinds plus the RFC 2347
//! option acknowledgement, with a byte-exact encoding and a decoder that is
//! proved to accept exactly the encodings of well-formed packets.

use vstd::prelude::*;

verus! {

/// Opcode of a read request.
pub const OP_RRQ: u16 = 1;

/// Opcode of a write request.
pub const OP_WRQ: u16 = 2;

/// Opcode of a data block.
pub const OP_DATA: u16 = 3;

/// Opcode of an acknowledgement.
pub const OP_ACK: u16 = 4;

/// Opcode of an error report.
pub const OP_ERROR: u16 = 5;

/// Opcode of an option acknowledgement.
pub const OP_OACK: u16 = 6;

/// Mathematical model of a packet: every string field is a byte sequence.
pub ghost enum PacketModel {
    Rrq { filename: Seq<u8>, mode: Seq<u8>, options: Seq<(Seq<u8>, Seq<u8>)> },
    Wrq { filename: Seq<u8>, mode: Seq<u8>, options: Seq<(Seq<u8>, Seq<u8>)> },
    Data { block: u16, payload: Seq<u8> },
    Ack { block: u16 },
    Error { code: u16, message: Seq<u8> },
    Oack { options: Seq<(Seq<u8>, Seq<u8>)> },
}

/// A decoded TFTP packet. Strings are kept as the raw bytes received;
/// they are interpreted (lowercased, parsed as decimals) only during
/// option negotiation, so that encoding a decoded packet restores the
/// original datagram byte for byte.
#[derive(Debug, PartialEq, Eq)]
pub enum Packet {
    Rrq { filename: Vec<u8>, mode: Vec<u8>, options: Vec<(Vec<u8>, Vec<u8>)> },
    Wrq { filename: Vec<u8>, mode: Vec<u8>, options: Vec<(Vec<u8>, Vec<u8>)> },
    Data { block: u16, payload: Vec<u8> },
    Ack { block: u16 },
    Error { code: u16, message: Vec<u8> },
    Oack { options: Vec<(Vec<u8>, Vec<u8>)> },
}

/// The sequence of (name, value) byte pairs held by an option list.
pub open spec fn opts_view(opts: Vec<(Vec<u8>, Vec<u8>)>) -> Seq<(Seq<u8>, Seq<u8>)> {
    Seq::new(opts@.len(), |i: int| (opts@[i].0@, opts@[i].1@))
}

impl View for Packet {
    type V = PacketModel;

    open spec fn view(&self) -> PacketModel {
        match self {
            Packet::Rrq { filename, mode, options } => PacketModel::Rrq {
                filename: filename@,
                mode: mode@,
                options: opts_view(*options),
            },
            Packet::Wrq { filename, mode, options } => PacketModel::Wrq {
                filename: filename@,
                mode: mode@,
                options: opts_view(*options),
            },
            Packet::Data { block, payload } => PacketModel::Data {
                block: *block,
                payload: payload@,
            },
            Packet::Ack { block } => PacketModel::Ack { block: *block },
            Packet::Error { code, message } => PacketModel::Error {
                code: *code,
                message: message@,
            },
            Packet::Oack { options } => PacketModel::Oack { options: opts_view(*options) },
        }
    }
}

/// True of a string field that can be carried NUL-terminated on the wire.
pub open spec fn nul_free(s: Seq<u8>) -> bool {
    forall|i: int| 0 <= i < s.len() ==> s[i] != 0u8
}

/// True of an option list whose names and values can all be carried.
pub open spec fn wf_opts(opts: Seq<(Seq<u8>, Seq<u8>)>) -> bool {
    forall|i: int|
        0 <= i < opts.len() ==> nul_free(#[trigger] opts[i].0) && nul_free(opts[i].1)
}

/// A packet the codec can carry: string fields hold no NUL byte, and a
/// request names a non-empty file.
pub open spec fn wf_model(m: PacketModel) -> bool {
    match m {
        PacketModel::Rrq { filename, mode, options } => filename.len() > 0 && nul_free(
            filename,
        ) && nul_free(mode) && wf_opts(options),
        PacketModel::Wrq { filename, mode, options } => filename.len() > 0 && nul_free(
            filename,
        ) && nul_free(mode) && wf_opts(options),
        PacketModel::Data { .. } => true,
        PacketModel::Ack { .. } => true,
        PacketModel::Error { code, message } => nul_free(message),
        PacketModel::Oack { options } => wf_opts(options),
    }
}

/// Big-endian bytes of a 16-bit field.
pub open spec fn enc_u16(x: u16) -> Seq<u8> {
    seq![(x / 256) as u8, (x % 256) as u8]
}

/// A string field followed by its NUL terminator.
pub open spec fn enc_cstr(s: Seq<u8>) -> Seq<u8> {
    s + seq![0u8]
}

/// The wire form of an option list: each name and value NUL-terminated,
/// in order.
pub open spec fn enc_opts(opts: Seq<(Seq<u8>, Seq<u8>)>) -> Seq<u8>
    decreases opts.len(),
{
    if opts.len() == 0 {
        Seq::<u8>::empty()
    } else {
        enc_cstr(opts[0].0) + enc_cstr(opts[0].1) + enc_opts(opts.drop_first())
    }
}

/// The wire form of a packet.
pub open spec fn spec_encode(m: PacketModel) -> Seq<u8> {
    match m {
        PacketModel::Rrq { filename, mode, options } => enc_u16(OP_RRQ) + enc_cstr(filename)
            + enc_cstr(mode) + enc_opts(options),
        PacketModel::Wrq { filename, mode, options } => enc_u16(OP_WRQ) + enc_cstr(filename)
            + enc_cstr(mode) + enc_opts(options),
        PacketModel::Data { block, payload } => enc_u16(OP_DATA) + enc_u16(block) + payload,
        PacketModel::Ack { block } => enc_u16(OP_ACK) + enc_u16(block),
        PacketModel::Error { code, message } => enc_u16(OP_ERROR) + enc_u16(code) + enc_cstr(
            message,
        ),
        PacketModel::Oack { options } => enc_u16(OP_OACK) + enc_opts(options),
    }
}

/// Splits a byte sequence at its first NUL: the string before it and the
/// remainder after it. `None` when no NUL terminator is present.
pub open spec fn split_cstr(s: Seq<u8>) -> Option<(Seq<u8>, Seq<u8>)>
    decreases s.len(),
{
    if s.len() == 0 {
        None
    } else if s[0] == 0u8 {
        Some((Seq::<u8>::empty(), s.drop_first()))
    } else {
        match split_cstr(s.drop_first()) {
            None => None,
            Some(p) => Some((seq![s[0]] + p.0, p.1)),
        }
    }
}

/// A split consumes the string, its terminator, and nothing more.
pub proof fn lemma_split_cstr_len(s: Seq<u8>)
    ensures
        split_cstr(s) matches Some(p) ==> p.0.len() + 1 + p.1.len() == s.len(),
    decreases s.len(),
{
    if s.len() > 0 && s[0] != 0u8 {
        lemma_split_cstr_len(s.drop_first());
    }
}

/// Parses a run of NUL-terminated (name, value) pairs filling the whole
/// sequence. `None` when a terminator is missing or a trailing fragment
/// remains.
pub open spec fn parse_opts(s: Seq<u8>) -> Option<Seq<(Seq<u8>, Seq<u8>)>>
    decreases s.len(),
    via parse_opts_decreases
{
    if s.len() == 0 {
        Some(Seq::<(Seq<u8>, Seq<u8>)>::empty())
    } else {
        match split_cstr(s) {
            None => None,
            Some(p1) => match split_cstr(p1.1) {
                None => None,
                Some(p2) => match parse_opts(p2.1) {
                    None => None,
                    Some(rest) => Some(seq![(p1.0, p2.0)] + rest),
                },
            },
        }
    }
}

#[via_fn]
proof fn parse_opts_decreases(s: Seq<u8>) {
    lemma_split_cstr_len(s);
    match split_cstr(s) {
        Some(p1) => lemma_split_cstr_len(p1.1),
        None => (),
    }
}

/// The 16-bit big-endian value held by the first two bytes.
pub open spec fn parse_u16(s: Seq<u8>) -> u16
    recommends
        s.len() >= 2,
{
    (s[0] as int * 256 + s[1] as int) as u16
}

/// The packet a datagram holds, if it is a well-formed encoding.
pub open spec fn spec_parse(s: Seq<u8>) -> Option<PacketModel> {
    if s.len() < 2 {
        None
    } else {
        let op = parse_u16(s);
        let rest = s.skip(2);
        if op == OP_RRQ || op == OP_WRQ {
            match split_cstr(rest) {
                None => None,
                Some(pf) => if pf.0.len() == 0 {
                    None
                } else {
                    match split_cstr(pf.1) {
                        None => None,
                        Some(pm) => match parse_opts(pm.1) {
                            None => None,
                            Some(opts) => Some(
                                if op == OP_RRQ {
                                    PacketModel::Rrq {
                                        filename: pf.0,
                                        mode: pm.0,
                                        options: opts,
                                    }
                                } else {
                                    PacketModel::Wrq {
                                        filename: pf.0,
                                        mode: pm.0,
                                        options: opts,
                                    }
                                },
                            ),
                        },
                    }
                },
            }
        } else if op == OP_DATA {
            if s.len() >= 4 {
                Some(PacketModel::Data { block: parse_u16(rest), payload: s.skip(4) })
            } else {
                None
            }
        } else if op == OP_ACK {
            if s.len() == 4 {
                Some(PacketModel::Ack { block: parse_u16(rest) })
            } else {
                None
            }
        } else if op == OP_ERROR {
            if s.len() < 4 {
                None
            } else {
                match split_cstr(s.skip(4)) {
                    None => None,
                    Some(pm) => if pm.1.len() == 0 {
                        Some(PacketModel::Error { code: parse_u16(rest), message: pm.0 })
                    } else {
                        None
                    },
                }
            }
        } else if op == OP_OACK {
            match parse_opts(rest) {
                None => None,
                Some(opts) => Some(PacketModel::Oack { options: opts }),
            }
        } else {
            None
        }
    }
}

/// A successful split returns the bytes before the first NUL and the bytes
/// after it.
pub proof fn lemma_split_cstr_sound(s: Seq<u8>)
    ensures
        split_cstr(s) matches Some(p) ==> nul_free(p.0) && s == p.0 + seq![0u8] + p.1,
    decreases s.len(),
{
    if s.len() > 0 {
        if s[0] == 0u8 {
            assert(Seq::<u8>::empty() + seq![0u8] + s.drop_first() =~= s);
        } else {
            lemma_split_cstr_sound(s.drop_first());
            match split_cstr(s.drop_first()) {
                Some(p) => {
                    let a = seq![s[0]] + p.0;
                    assert forall|i: int| 0 <= i < a.len() implies a[i] != 0u8 by {
                        if i > 0 {
                            assert(a[i] == p.0[i - 1]);
                        }
                    }
                    assert(s =~= seq![s[0]] + s.drop_first());
                    assert(a + seq![0u8] + p.1 =~= seq![s[0]] + (p.0 + seq![0u8] + p.1));
                    assert(a + seq![0u8] + p.1 == s);
                },
                None => (),
            }
        }
    }
}

/// Splitting a NUL-terminated string recovers it exactly.
pub proof fn lemma_split_cstr_complete(a: Seq<u8>, b: Seq<u8>)
    requires
        nul_free(a),
    ensures
        split_cstr(a + seq![0u8] + b) == Some((a, b)),
    decreases a.len(),
{
    let s = a + seq![0u8] + b;
    if a.len() == 0 {
        assert(s[0] == 0u8);
        assert(s.drop_first() =~= b);
        assert(a =~= Seq::<u8>::empty());
    } else {
        assert(s[0] == a[0]);
        lemma_split_cstr_complete(a.drop_first(), b);
        assert(s.drop_first() =~= a.drop_first() + seq![0u8] + b);
        assert(seq![s[0]] + a.drop_first() =~= a);
    }
}

/// The split of a sequence whose first NUL stands at index `k`.
pub proof fn lemma_split_cstr_at(s: Seq<u8>, k: int)
    requires
        0 <= k < s.len(),
        s[k] == 0u8,
        forall|i: int| 0 <= i < k ==> s[i] != 0u8,
    ensures
        split_cstr(s) == Some((s.take(k), s.skip(k + 1))),
    decreases k,
{
    if k == 0 {
        assert(s.take(0) =~= Seq::<u8>::empty());
        assert(s.skip(1) =~= s.drop_first());
    } else {
        lemma_split_cstr_at(s.drop_first(), k - 1);
        assert(seq![s[0]] + s.drop_first().take(k - 1) =~= s.take(k));
        assert(s.drop_first().skip(k) =~= s.skip(k + 1));
    }
}

/// A sequence without a NUL cannot be split.
pub proof fn lemma_split_cstr_none(s: Seq<u8>)
    requires
        nul_free(s),
    ensures
        split_cstr(s) is None,
    decreases s.len(),
{
    if s.len() > 0 {
        lemma_split_cstr_none(s.drop_first());
    }
}

/// Option lists encode piecewise: the wire form of a concatenation is the
/// concatenation of the wire forms.
pub proof fn lemma_enc_opts_app(a: Seq<(Seq<u8>, Seq<u8>)>, b: Seq<(Seq<u8>, Seq<u8>)>)
    ensures
        enc_opts(a + b) == enc_opts(a) + enc_opts(b),
    decreases a.len(),
{
    if a.len() == 0 {
        assert(a + b =~= b);
        assert(enc_opts(a) + enc_opts(b) =~= enc_opts(b));
    } else {
        lemma_enc_opts_app(a.drop_first(), b);
        assert((a + b).drop_first() =~= a.drop_first() + b);
        assert((a + b)[0] == a[0]);
        assert(enc_cstr(a[0].0) + enc_cstr(a[0].1) + (enc_opts(a.drop_first()) + enc_opts(b))
            =~= (enc_cstr(a[0].0) + enc_cstr(a[0].1) + enc_opts(a.drop_first())) + enc_opts(b));
    }
}

/// A parsed option list is well formed and re-encodes to its input.
pub proof fn lemma_parse_opts_sound(s: Seq<u8>)
    ensures
        parse_opts(s) matches Some(o) ==> wf_opts(o) && enc_opts(o) == s,
    decreases s.len(),
{
    if s.len() > 0 {
        lemma_split_cstr_len(s);
        lemma_split_cstr_sound(s);
        match split_cstr(s) {
            Some(p1) => {
                lemma_split_cstr_len(p1.1);
                lemma_split_cstr_sound(p1.1);
                match split_cstr(p1.1) {
                    Some(p2) => {
                        lemma_parse_opts_sound(p2.1);
                        match parse_opts(p2.1) {
                            Some(rest) => {
                                let o = seq![(p1.0, p2.0)] + rest;
                                assert forall|i: int| 0 <= i < o.len() implies nul_free(
                                    #[trigger] o[i].0,
                                ) && nul_free(o[i].1) by {
                                    if i > 0 {
                                        assert(o[i] == rest[i - 1]);
                                    }
                                }
                                assert(o.drop_first() =~= rest);
                                assert(o[0] == (p1.0, p2.0));
                                assert(enc_cstr(p1.0) + enc_cstr(p2.0) + enc_opts(rest) =~= s);
                            },
                            None => (),
                        }
                    },
                    None => (),
                }
            },
            None => (),
        }
    }
}

/// Every well-formed option list parses back from its encoding.
pub proof fn lemma_parse_opts_complete(o: Seq<(Seq<u8>, Seq<u8>)>)
    requires
        wf_opts(o),
    ensures
        parse_opts(enc_opts(o)) == Some(o),
    decreases o.len(),
{
    if o.len() > 0 {
        let s = enc_opts(o);
        let tail1 = o[0].1 + seq![0u8] + enc_opts(o.drop_first());
        assert(s =~= o[0].0 + seq![0u8] + tail1);
        lemma_split_cstr_complete(o[0].0, tail1);
        lemma_split_cstr_complete(o[0].1, enc_opts(o.drop_first()));
        assert forall|i: int| 0 <= i < o.drop_first().len() implies nul_free(
            #[trigger] o.drop_first()[i].0,
        ) && nul_free(o.drop_first()[i].1) by {
            assert(o.drop_first()[i] == o[i + 1]);
        }
        lemma_parse_opts_complete(o.drop_first());
        assert(s.len() > 0);
        assert(seq![(o[0].0, o[0].1)] + o.drop_first() =~= o);
    }
}

/// The big-endian bytes of a 16-bit value read back as that value.
pub proof fn lemma_u16_round_trip(a: u8, b: u8)
    ensures
        enc_u16((a as int * 256 + b as int) as u16) == seq![a, b],
        parse_u16(seq![a, b]) == (a as int * 256 + b as int) as u16,
{
    let x = (a as int * 256 + b as int) as u16;
    assert(x as int == a as int * 256 + b as int);
    assert(x / 256 == a as int && x % 256 == b as int) by {
        assert(x as int / 256 == a as int && x as int % 256 == b as int) by (nonlinear_arith)
            requires
                x as int == a as int * 256 + b as int,
                0 <= (a as int) && (a as int) < 256,
                0 <= (b as int) && (b as int) < 256,
        ;
    }
    assert(enc_u16(x) =~= seq![a, b]);
}

/// Soundness of the decoder: every datagram it accepts is the encoding of
/// the well-formed packet it returns, so encoding a decoded packet restores
/// the datagram byte for byte.
pub proof fn lemma_parse_encode_round_trip(s: Seq<u8>)
    ensures
        spec_parse(s) matches Some(m) ==> wf_model(m) && spec_encode(m) == s,
{
    if s.len() >= 2 {
        let op = parse_u16(s);
        let rest = s.skip(2);
        lemma_u16_round_trip(s[0], s[1]);
        assert(enc_u16(op) + rest =~= s);
        if op == OP_RRQ || op == OP_WRQ {
            lemma_split_cstr_sound(rest);
            match split_cstr(rest) {
                Some(pf) => {
                    lemma_split_cstr_sound(pf.1);
                    match split_cstr(pf.1) {
                        Some(pm) => {
                            lemma_parse_opts_sound(pm.1);
                            match parse_opts(pm.1) {
                                Some(opts) => {
                                    assert(enc_u16(op) + enc_cstr(pf.0) + enc_cstr(pm.0)
                                        + enc_opts(opts) =~= s);
                                },
                                None => (),
                            }
                        },
                        None => (),
                    }
                },
                None => (),
            }
        } else if op == OP_DATA {
            if s.len() >= 4 {
                lemma_u16_round_trip(s[2], s[3]);
                assert(seq![s[2], s[3]] =~= rest.take(2));
                assert(parse_u16(rest) == (s[2] as int * 256 + s[3] as int) as u16);
                assert(enc_u16(OP_DATA) + enc_u16(parse_u16(rest)) + s.skip(4) =~= s);
            }
        } else if op == OP_ACK {
            if s.len() == 4 {
                lemma_u16_round_trip(s[2], s[3]);
                assert(enc_u16(OP_ACK) + enc_u16(parse_u16(rest)) =~= s);
            }
        } else if op == OP_ERROR {
            if s.len() >= 4 {
                lemma_u16_round_trip(s[2], s[3]);
                lemma_split_cstr_sound(s.skip(4));
                match split_cstr(s.skip(4)) {
                    Some(pm) => {
                        if pm.1.len() == 0 {
                            assert(pm.0 + seq![0u8] + pm.1 =~= pm.0 + seq![0u8]);
                            assert(enc_u16(OP_ERROR) + enc_u16(parse_u16(rest)) + enc_cstr(pm.0)
                                =~= s);
                        }
                    },
                    None => (),
                }
            }
        } else if op == OP_OACK {
            lemma_parse_opts_sound(rest);
            match parse_opts(rest) {
                Some(opts) => {
                    assert(enc_u16(OP_OACK) + enc_opts(opts) =~= s);
                },
                None => (),
            }
        }
    }
}

/// Completeness of the decoder: every well-formed packet is recovered from
/// its own encoding.
pub proof fn lemma_encode_parse_round_trip(m: PacketModel)
    requires
        wf_model(m),
    ensures
        spec_parse(spec_encode(m)) == Some(m),
{
    let s = spec_encode(m);
    match m {
        PacketModel::Rrq { filename, mode, options } | PacketModel::Wrq {
            filename,
            mode,
            options,
        } => {
            let op: u16 = if m is Rrq {
                OP_RRQ
            } else {
                OP_WRQ
            };
            let tail_mode = mode + seq![0u8] + enc_opts(options);
            lemma_u16_round_trip((op / 256) as u8, (op % 256) as u8);
            assert(s.len() >= 2);
            assert(parse_u16(s) == op);
            assert(s.skip(2) =~= filename + seq![0u8] + tail_mode);
            lemma_split_cstr_complete(filename, tail_mode);
            lemma_split_cstr_complete(mode, enc_opts(options));
            lemma_parse_opts_complete(options);
        },
        PacketModel::Data { block, payload } => {
            lemma_u16_round_trip((OP_DATA / 256) as u8, (OP_DATA % 256) as u8);
            lemma_u16_round_trip((block / 256) as u8, (block % 256) as u8);
            assert(s.len() >= 4);
            assert(parse_u16(s) == OP_DATA);
            assert(parse_u16(s.skip(2)) == block);
            assert(s.skip(4) =~= payload);
        },
        PacketModel::Ack { block } => {
            lemma_u16_round_trip((OP_ACK / 256) as u8, (OP_ACK % 256) as u8);
            lemma_u16_round_trip((block / 256) as u8, (block % 256) as u8);
            assert(s.len() == 4);
            assert(parse_u16(s) == OP_ACK);
            assert(parse_u16(s.skip(2)) == block);
        },
        PacketModel::Error { code, message } => {
            lemma_u16_round_trip((OP_ERROR / 256) as u8, (OP_ERROR % 256) as u8);
            lemma_u16_round_trip((code / 256) as u8, (code % 256) as u8);
            assert(s.len() >= 4);
            assert(parse_u16(s) == OP_ERROR);
            assert(parse_u16(s.skip(2)) == code);
            assert(s.skip(4) =~= message + seq![0u8] + Seq::<u8>::empty());
            lemma_split_cstr_complete(message, Seq::<u8>::empty());
        },
        PacketModel::Oack { options } => {
            lemma_u16_round_trip((OP_OACK / 256) as u8, (OP_OACK % 256) as u8);
            assert(s.len() >= 2);
            assert(parse_u16(s) == OP_OACK);
            assert(s.skip(2) =~= enc_opts(options));
            lemma_parse_opts_complete(options);
        },
    }
}

pub(crate) fn push_all(out: &mut Vec<u8>, v: &[u8])
    ensures
        final(out)@ == old(out)@ + v@,
{
    let mut i: usize = 0;
    while i < v.len()
        invariant
            i <= v@.len(),
            out@ == old(out)@ + v@.take(i as int),
        decreases v@.len() - i,
    {
        out.push(v[i]);
        proof {
            assert(out@ =~= old(out)@ + v@.take(i as int + 1));
        }
        i += 1;
    }
    proof {
        assert(v@.take(v@.len() as int) =~= v@);
    }
}

fn push_u16(out: &mut Vec<u8>, x: u16)
    ensures
        final(out)@ == old(out)@ + enc_u16(x),
{
    out.push((x / 256) as u8);
    out.push((x % 256) as u8);
    proof {
        assert(out@ =~= old(out)@ + enc_u16(x));
    }
}

fn push_cstr(out: &mut Vec<u8>, s: &[u8])
    ensures
        final(out)@ == old(out)@ + enc_cstr(s@),
{
    push_all(out, s);
    out.push(0u8);
    proof {
        assert(out@ =~= old(out)@ + enc_cstr(s@));
    }
}

fn push_opts(out: &mut Vec<u8>, opts: &Vec<(Vec<u8>, Vec<u8>)>)
    ensures
        final(out)@ == old(out)@ + enc_opts(opts_view(*opts)),
{
    let ghost ov = opts_view(*opts);
    let mut i: usize = 0;
    while i < opts.len()
        invariant
            i <= opts@.len(),
            ov == opts_view(*opts),
            out@ == old(out)@ + enc_opts(ov.take(i as int)),
        decreases opts@.len() - i,
    {
        push_cstr(out, opts[i].0.as_slice());
        push_cstr(out, opts[i].1.as_slice());
        proof {
            let single = seq![ov[i as int]];
            lemma_enc_opts_app(ov.take(i as int), single);
            assert(ov.take(i as int) + single =~= ov.take(i as int + 1));
            assert(single.drop_first() =~= Seq::<(Seq<u8>, Seq<u8>)>::empty());
            assert(single.len() == 1 && single[0] == ov[i as int]);
            assert(enc_opts(single) == enc_cstr(ov[i as int].0) + enc_cstr(ov[i as int].1)
                + enc_opts(Seq::<(Seq<u8>, Seq<u8>)>::empty()));
            assert(enc_opts(single) =~= enc_cstr(ov[i as int].0) + enc_cstr(ov[i as int].1));
            assert(out@ =~= old(out)@ + enc_opts(ov.take(i as int + 1)));
        }
        i += 1;
    }
    proof {
        assert(ov.take(opts@.len() as int) =~= ov);
    }
}

/// Writes the wire form of a packet. Encoding never fails: the result is
/// exactly the byte-level encoding of the packet.
pub fn encode(p: &Packet) -> (r: Vec<u8>)
    ensures
        r@ == spec_encode(p@),
{
    let mut out: Vec<u8> = Vec::new();
    match p {
        Packet::Rrq { filename, mode, options } => {
            push_u16(&mut out, OP_RRQ);
            push_cstr(&mut out, filename.as_slice());
            push_cstr(&mut out, mode.as_slice());
            push_opts(&mut out, options);
        },
        Packet::Wrq { filename, mode, options } => {
            push_u16(&mut out, OP_WRQ);
            push_cstr(&mut out, filename.as_slice());
            push_cstr(&mut out, mode.as_slice());
            push_opts(&mut out, options);
        },
        Packet::Data { block, payload } => {
            push_u16(&mut out, OP_DATA);
            push_u16(&mut out, *block);
            push_all(&mut out, payload.as_slice());
        },
        Packet::Ack { block } => {
            push_u16(&mut out, OP_ACK);
            push_u16(&mut out, *block);
        },
        Packet::Error { code, message } => {
            push_u16(&mut out, OP_ERROR);
            push_u16(&mut out, *code);
            push_cstr(&mut out, message.as_slice());
        },
        Packet::Oack { options } => {
            push_u16(&mut out, OP_OACK);
            push_opts(&mut out, options);
        },
    }
    out
}

fn find_nul(v: &[u8], from: usize) -> (r: Option<usize>)
    requires
        from <= v@.len(),
    ensures
        r matches Some(k) ==> from <= k < v@.len() && v@[k as int] == 0u8 && forall|i: int|
            from <= i < k ==> v@[i] != 0u8,
        r is None ==> forall|i: int| from <= i < v@.len() ==> v@[i] != 0u8,
{
    let mut i: usize = from;
    while i < v.len()
        invariant
            from <= i <= v@.len(),
            forall|j: int| from <= j < i ==> v@[j] != 0u8,
        decreases v@.len() - i,
    {
        if v[i] == 0u8 {
            return Some(i);
        }
        i += 1;
    }
    None
}

pub(crate) fn copy_range(v: &[u8], i: usize, j: usize) -> (r: Vec<u8>)
    requires
        i <= j <= v@.len(),
    ensures
        r@ == v@.subrange(i as int, j as int),
{
    let mut out: Vec<u8> = Vec::new();
    let mut k: usize = i;
    while k < j
        invariant
            i <= k <= j <= v@.len(),
            out@ == v@.subrange(i as int, k as int),
        decreases j - k,
    {
        out.push(v[k]);
        proof {
            assert(out@ =~= v@.subrange(i as int, k as int + 1));
        }
        k += 1;
    }
    out
}

fn parse_opts_region(v: &[u8], start: usize) -> (r: Option<Vec<(Vec<u8>, Vec<u8>)>>)
    requires
        start <= v@.len(),
    ensures
        r is Some <==> parse_opts(v@.skip(start as int)) is Some,
        r matches Some(o) ==> parse_opts(v@.skip(start as int)) == Some(opts_view(o)),
    decreases v@.len() - start,
{
    let ghost s = v@.skip(start as int);
    if start == v.len() {
        proof {
            assert(s =~= Seq::<u8>::empty());
        }
        return Some(Vec::new());
    }
    match find_nul(v, start) {
        None => {
            proof {
                assert forall|i: int| 0 <= i < s.len() implies s[i] != 0u8 by {
                    assert(s[i] == v@[start + i]);
                }
                lemma_split_cstr_none(s);
            }
            None
        },
        Some(k1) => {
            proof {
                assert forall|i: int| 0 <= i < k1 - start implies s[i] != 0u8 by {
                    assert(s[i] == v@[start + i]);
                }
                assert(s[k1 - start] == 0u8);
                lemma_split_cstr_at(s, k1 - start as int);
                assert(s.take(k1 - start as int) =~= v@.subrange(start as int, k1 as int));
                assert(s.skip(k1 - start as int + 1) =~= v@.skip(k1 as int + 1));
            }
            let ghost s1 = v@.skip(k1 as int + 1);
            match find_nul(v, k1 + 1) {
                None => {
                    proof {
                        assert forall|i: int| 0 <= i < s1.len() implies s1[i] != 0u8 by {
                            assert(s1[i] == v@[k1 + 1 + i]);
                        }
                        lemma_split_cstr_none(s1);
                    }
                    None
                },
                Some(k2) => {
                    proof {
                        assert forall|i: int| 0 <= i < k2 - k1 - 1 implies s1[i] != 0u8 by {
                            assert(s1[i] == v@[k1 + 1 + i]);
                        }
                        assert(s1[k2 - k1 - 1] == 0u8);
                        lemma_split_cstr_at(s1, k2 - k1 - 1);
                        assert(s1.take(k2 - k1 - 1) =~= v@.subrange(k1 as int + 1, k2 as int));
                        assert(s1.skip(k2 - k1 - 1 + 1) =~= v@.skip(k2 as int + 1));
                    }
                    let name = copy_range(v, start, k1);
                    let val = copy_range(v, k1 + 1, k2);
                    match parse_opts_region(v, k2 + 1) {
                        None => None,
                        Some(mut rest) => {
                            let ghost tail = opts_view(rest);
                            rest.insert(0, (name, val));
                            proof {
                                assert(opts_view(rest) =~= seq![(name@, val@)] + tail);
                            }
                            Some(rest)
                        },
                    }
                },
            }
        },
    }
}

/// Reads a datagram. Returns the packet it encodes, or `None` exactly when
/// the bytes are not a well-formed encoding: a terminator is missing, the
/// fixed header is short, a trailing fragment remains, or a request names
/// an empty file.
pub fn decode(buf: &[u8]) -> (r: Option<Packet>)
    ensures
        r is Some <==> spec_parse(buf@) is Some,
        r matches Some(p) ==> spec_parse(buf@) == Some(p@),
{
    let ghost s = buf@;
    if buf.len() < 2 {
        return None;
    }
    let op: u16 = (buf[0] as u16) * 256 + (buf[1] as u16);
    proof {
        assert(op == parse_u16(s));
    }
    if op == OP_RRQ || op == OP_WRQ {
        let ghost rest = s.skip(2);
        match find_nul(buf, 2) {
            None => {
                proof {
                    assert forall|i: int| 0 <= i < rest.len() implies rest[i] != 0u8 by {
                        assert(rest[i] == s[2 + i]);
                    }
                    lemma_split_cstr_none(rest);
                }
                None
            },
            Some(k1) => {
                proof {
                    assert forall|i: int| 0 <= i < k1 - 2 implies rest[i] != 0u8 by {
                        assert(rest[i] == s[2 + i]);
                    }
                    assert(rest[k1 - 2] == 0u8);
                    lemma_split_cstr_at(rest, k1 - 2);
                    assert(rest.take(k1 - 2) =~= s.subrange(2, k1 as int));
                    assert(rest.skip(k1 - 2 + 1) =~= s.skip(k1 as int + 1));
                }
                if k1 == 2 {
                    return None;
                }
                let ghost r1 = s.skip(k1 as int + 1);
                match find_nul(buf, k1 + 1) {
                    None => {
                        proof {
                            assert forall|i: int| 0 <= i < r1.len() implies r1[i] != 0u8 by {
                                assert(r1[i] == s[k1 + 1 + i]);
                            }
                            lemma_split_cstr_none(r1);
                        }
                        None
                    },
                    Some(k2) => {
                        proof {
                            assert forall|i: int| 0 <= i < k2 - k1 - 1 implies r1[i] != 0u8 by {
                                assert(r1[i] == s[k1 + 1 + i]);
                            }
                            assert(r1[k2 - k1 - 1] == 0u8);
                            lemma_split_cstr_at(r1, k2 - k1 - 1);
                            assert(r1.take(k2 - k1 - 1) =~= s.subrange(k1 as int + 1, k2 as int));
                            assert(r1.skip(k2 - k1 - 1 + 1) =~= s.skip(k2 as int + 1));
                        }
                        let filename = copy_range(buf, 2, k1);
                        let mode = copy_range(buf, k1 + 1, k2);
                        match parse_opts_region(buf, k2 + 1) {
                            None => None,
                            Some(options) => {
                                if op == OP_RRQ {
                                    Some(Packet::Rrq { filename, mode, options })
                                } else {
                                    Some(Packet::Wrq { filename, mode, options })
                                }
                            },
                        }
                    },
                }
            },
        }
    } else if op == OP_DATA {
        if buf.len() < 4 {
            return None;
        }
        let block: u16 = (buf[2] as u16) * 256 + (buf[3] as u16);
        let payload = copy_range(buf, 4, buf.len());
        proof {
            assert(block == parse_u16(s.skip(2))) by {
                assert(s.skip(2)[0] == s[2] && s.skip(2)[1] == s[3]);
            }
            assert(payload@ =~= s.skip(4));
        }
        Some(Packet::Data { block, payload })
    } else if op == OP_ACK {
        if buf.len() != 4 {
            return None;
        }
        let block: u16 = (buf[2] as u16) * 256 + (buf[3] as u16);
        proof {
            assert(block == parse_u16(s.skip(2))) by {
                assert(s.skip(2)[0] == s[2] && s.skip(2)[1] == s[3]);
            }
        }
        Some(Packet::Ack { block })
    } else if op == OP_ERROR {
        if buf.len() < 4 {
            return None;
        }
        let code: u16 = (buf[2] as u16) * 256 + (buf[3] as u16);
        proof {
            assert(code == parse_u16(s.skip(2))) by {
                assert(s.skip(2)[0] == s[2] && s.skip(2)[1] == s[3]);
            }
        }
        let ghost tail = s.skip(4);
        match find_nul(buf, 4) {
            None => {
                proof {
                    assert forall|i: int| 0 <= i < tail.len() implies tail[i] != 0u8 by {
                        assert(tail[i] == s[4 + i]);
                    }
                    lemma_split_cstr_none(tail);
                }
                None
            },
            Some(k) => {
                proof {
                    assert forall|i: int| 0 <= i < k - 4 implies tail[i] != 0u8 by {
                        assert(tail[i] == s[4 + i]);
                    }
                    assert(tail[k - 4] == 0u8);
                    lemma_split_cstr_at(tail, k - 4);
                    assert(tail.take(k - 4) =~= s.subrange(4, k as int));
                    assert(tail.skip(k - 4 + 1) =~= s.skip(k as int + 1));
                }
                if k + 1 != buf.len() {
                    return None;
                }
                let message = copy_range(buf, 4, k);
                Some(Packet::Error { code, message })
            },
        }
    } else if op == OP_OACK {
        match parse_opts_region(buf, 2) {
            None => None,
            Some(options) => Some(Packet::Oack { options }),
        }
    } else {
        None
    }
}

} // verus!
