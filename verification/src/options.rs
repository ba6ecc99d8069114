//! Negotiation of the RFC 2347/2348/2349 request options. Recognized
//! option names (`blksize`, `timeout`, `tsize`) are matched
//! case-insensitively, their decimal values are clamped to the legal
//! range, and the accepted options are echoed back, lowercased and in the
//! client's order; unrecognized or unreadable options are dropped
//! silently.

use vstd::prelude::*;
use crate::packet::opts_view;

verus! {

/// Block size used when the client asks for none (RFC 1350).
pub const DEFAULT_BLKSIZE: u16 = 512;

/// Retransmission timeout used when the client asks for none, in seconds.
pub const DEFAULT_TIMEOUT_SECS: u8 = 5;

/// True of an ASCII decimal digit.
pub open spec fn is_digit(b: u8) -> bool {
    48 <= b <= 57
}

/// True of a non-empty run of decimal digits.
pub open spec fn all_digits(s: Seq<u8>) -> bool {
    forall|i: int| 0 <= i < s.len() ==> is_digit(#[trigger] s[i])
}

/// The number a run of decimal digits denotes.
pub open spec fn dec_value(s: Seq<u8>) -> nat
    recommends
        all_digits(s),
    decreases s.len(),
{
    if s.len() == 0 {
        0
    } else {
        (dec_value(s.drop_last()) * 10 + (s.last() - 48)) as nat
    }
}

/// The canonical decimal digits of a number.
pub open spec fn dec_repr(n: nat) -> Seq<u8>
    decreases n,
{
    if n < 10 {
        seq![(48 + n) as u8]
    } else {
        dec_repr(n / 10) + seq![(48 + n % 10) as u8]
    }
}

/// A digit appended to a decimal numeral never shrinks its value.
proof fn lemma_dec_value_prefix(s: Seq<u8>, i: int)
    requires
        0 <= i <= s.len(),
        all_digits(s),
    ensures
        dec_value(s.take(i)) <= dec_value(s),
    decreases s.len() - i,
{
    if i < s.len() {
        assert(s.take(i + 1).drop_last() =~= s.take(i));
        assert(s.take(i + 1).last() == s[i]);
        lemma_dec_value_prefix(s, i + 1);
    } else {
        assert(s.take(i) =~= s);
    }
}

/// Reads a decimal numeral. Returns its value exactly when the bytes are
/// a non-empty digit run whose value fits; anything else is refused.
pub fn parse_decimal(s: &[u8]) -> (r: Option<u64>)
    ensures
        r matches Some(v) ==> s@.len() > 0 && all_digits(s@) && v == dec_value(s@),
        r is None <==> (s@.len() == 0 || !all_digits(s@) || dec_value(s@) > u64::MAX),
{
    if s.len() == 0 {
        return None;
    }
    let mut acc: u64 = 0;
    let mut i: usize = 0;
    while i < s.len()
        invariant
            0 <= i <= s@.len(),
            all_digits(s@.take(i as int)),
            acc == dec_value(s@.take(i as int)),
        decreases s@.len() - i,
    {
        let b = s[i];
        if b < 48 || b > 57 {
            return None;
        }
        let d: u64 = (b - 48) as u64;
        if acc > (u64::MAX - d) / 10 {
            proof {
                assert(s@.take(i as int + 1).drop_last() =~= s@.take(i as int));
                assert(dec_value(s@.take(i as int + 1)) > u64::MAX);
                if all_digits(s@) {
                    lemma_dec_value_prefix(s@, i as int + 1);
                }
            }
            return None;
        }
        proof {
            assert(s@.take(i as int + 1).drop_last() =~= s@.take(i as int));
            assert(s@.take(i as int + 1).last() == s@[i as int]);
        }
        acc = acc * 10 + d;
        i += 1;
    }
    proof {
        assert(s@.take(s@.len() as int) =~= s@);
    }
    Some(acc)
}

/// Writes the canonical decimal numeral of a number.
pub fn format_decimal(n: u64) -> (r: Vec<u8>)
    ensures
        r@ == dec_repr(n as nat),
    decreases n,
{
    if n < 10 {
        let mut v: Vec<u8> = Vec::new();
        v.push(48 + n as u8);
        proof {
            assert(v@ =~= dec_repr(n as nat));
        }
        v
    } else {
        let mut v = format_decimal(n / 10);
        v.push(48 + (n % 10) as u8);
        proof {
            assert(v@ =~= dec_repr(n as nat));
        }
        v
    }
}

/// The lowercase form of an ASCII letter; other bytes are untouched.
pub open spec fn ascii_lower(b: u8) -> u8 {
    if 65 <= b <= 90 {
        (b + 32) as u8
    } else {
        b
    }
}

/// A byte string with its ASCII letters lowercased.
pub open spec fn lower_seq(s: Seq<u8>) -> Seq<u8> {
    s.map_values(|b: u8| ascii_lower(b))
}

/// Lowercases the ASCII letters of a byte string.
pub fn to_lower(s: &[u8]) -> (r: Vec<u8>)
    ensures
        r@ == lower_seq(s@),
{
    let mut out: Vec<u8> = Vec::new();
    let mut i: usize = 0;
    while i < s.len()
        invariant
            0 <= i <= s@.len(),
            out@ == lower_seq(s@.take(i as int)),
        decreases s@.len() - i,
    {
        let b = s[i];
        if 65 <= b && b <= 90 {
            out.push(b + 32);
        } else {
            out.push(b);
        }
        proof {
            assert(out@ =~= lower_seq(s@.take(i as int + 1)));
        }
        i += 1;
    }
    proof {
        assert(s@.take(s@.len() as int) =~= s@);
    }
    out
}

/// True when two byte strings hold the same bytes.
pub fn bytes_eq(a: &[u8], b: &[u8]) -> (r: bool)
    ensures
        r == (a@ == b@),
{
    if a.len() != b.len() {
        return false;
    }
    let mut i: usize = 0;
    while i < a.len()
        invariant
            0 <= i <= a@.len(),
            a@.len() == b@.len(),
            forall|j: int| 0 <= j < i ==> a@[j] == b@[j],
        decreases a@.len() - i,
    {
        if a[i] != b[i] {
            return false;
        }
        i += 1;
    }
    proof {
        assert(a@ =~= b@);
    }
    true
}

/// The bytes of the option name `blksize`.
pub open spec fn blksize_name() -> Seq<u8> {
    seq![98u8, 108u8, 107u8, 115u8, 105u8, 122u8, 101u8]
}

/// The bytes of the option name `timeout`.
pub open spec fn timeout_name() -> Seq<u8> {
    seq![116u8, 105u8, 109u8, 101u8, 111u8, 117u8, 116u8]
}

/// The bytes of the option name `tsize`.
pub open spec fn tsize_name() -> Seq<u8> {
    seq![116u8, 115u8, 105u8, 122u8, 101u8]
}

fn blksize_name_exec() -> (r: Vec<u8>)
    ensures
        r@ == blksize_name(),
{
    let mut v: Vec<u8> = Vec::new();
    v.push(98u8);
    v.push(108u8);
    v.push(107u8);
    v.push(115u8);
    v.push(105u8);
    v.push(122u8);
    v.push(101u8);
    proof {
        assert(v@ =~= blksize_name());
    }
    v
}

fn timeout_name_exec() -> (r: Vec<u8>)
    ensures
        r@ == timeout_name(),
{
    let mut v: Vec<u8> = Vec::new();
    v.push(116u8);
    v.push(105u8);
    v.push(109u8);
    v.push(101u8);
    v.push(111u8);
    v.push(117u8);
    v.push(116u8);
    proof {
        assert(v@ =~= timeout_name());
    }
    v
}

fn tsize_name_exec() -> (r: Vec<u8>)
    ensures
        r@ == tsize_name(),
{
    let mut v: Vec<u8> = Vec::new();
    v.push(116u8);
    v.push(115u8);
    v.push(105u8);
    v.push(122u8);
    v.push(101u8);
    proof {
        assert(v@ =~= tsize_name());
    }
    v
}

/// The outcome of negotiating one request's options.
pub ghost struct NegotiationModel {
    /// Negotiated data block size.
    pub blksize: u16,
    /// Negotiated per-packet retransmission timeout, in seconds.
    pub timeout_secs: u8,
    /// The options to acknowledge, lowercased, clamped, in request order.
    pub reply: Seq<(Seq<u8>, Seq<u8>)>,
}

/// A value clamped into an inclusive range.
pub open spec fn clamped(v: nat, lo: nat, hi: nat) -> nat {
    if v < lo {
        lo
    } else if v > hi {
        hi
    } else {
        v
    }
}

/// True of a readable option value: a non-empty digit run that fits the
/// machine word the server computes with.
pub open spec fn readable_value(v: Seq<u8>) -> bool {
    v.len() > 0 && all_digits(v) && dec_value(v) <= u64::MAX
}

/// How one option changes the negotiation outcome. `tsize_reply` carries
/// the size the server reports on a read request; on a write request it is
/// absent and the client's announced size is echoed.
pub open spec fn spec_negotiate_step(
    m: NegotiationModel,
    name: Seq<u8>,
    value: Seq<u8>,
    tsize_reply: Option<u64>,
) -> NegotiationModel {
    let lname = lower_seq(name);
    if lname == blksize_name() {
        if readable_value(value) {
            let b = clamped(dec_value(value), crate::engine::MIN_BLKSIZE as nat, crate::engine::MAX_BLKSIZE as nat) as u16;
            NegotiationModel {
                blksize: b,
                timeout_secs: m.timeout_secs,
                reply: m.reply + seq![(lname, dec_repr(b as nat))],
            }
        } else {
            m
        }
    } else if lname == timeout_name() {
        if readable_value(value) {
            let t = clamped(dec_value(value), 1, 255) as u8;
            NegotiationModel {
                blksize: m.blksize,
                timeout_secs: t,
                reply: m.reply + seq![(lname, dec_repr(t as nat))],
            }
        } else {
            m
        }
    } else if lname == tsize_name() {
        if readable_value(value) {
            let reported: nat = match tsize_reply {
                Some(len) => len as nat,
                None => dec_value(value),
            };
            NegotiationModel {
                blksize: m.blksize,
                timeout_secs: m.timeout_secs,
                reply: m.reply + seq![(lname, dec_repr(reported))],
            }
        } else {
            m
        }
    } else {
        m
    }
}

/// The outcome of negotiating a whole option list, in request order,
/// starting from the protocol defaults.
pub open spec fn spec_negotiate(
    opts: Seq<(Seq<u8>, Seq<u8>)>,
    tsize_reply: Option<u64>,
) -> NegotiationModel
    decreases opts.len(),
{
    if opts.len() == 0 {
        NegotiationModel {
            blksize: DEFAULT_BLKSIZE,
            timeout_secs: DEFAULT_TIMEOUT_SECS,
            reply: Seq::<(Seq<u8>, Seq<u8>)>::empty(),
        }
    } else {
        spec_negotiate_step(
            spec_negotiate(opts.drop_last(), tsize_reply),
            opts.last().0,
            opts.last().1,
            tsize_reply,
        )
    }
}

/// The negotiated block size and timeout always lie in their legal
/// ranges, whatever the client offered.
pub proof fn lemma_negotiate_ranges(opts: Seq<(Seq<u8>, Seq<u8>)>, tsize_reply: Option<u64>)
    ensures
        crate::engine::MIN_BLKSIZE <= spec_negotiate(opts, tsize_reply).blksize
            <= crate::engine::MAX_BLKSIZE,
        1 <= spec_negotiate(opts, tsize_reply).timeout_secs,
    decreases opts.len(),
{
    if opts.len() > 0 {
        lemma_negotiate_ranges(opts.drop_last(), tsize_reply);
    }
}

/// A canonical decimal numeral is a non-empty run of digits.
pub proof fn lemma_dec_repr_digits(n: nat)
    ensures
        dec_repr(n).len() > 0,
        all_digits(dec_repr(n)),
    decreases n,
{
    if n < 10 {
    } else {
        lemma_dec_repr_digits(n / 10);
        let s = dec_repr(n);
        let p = dec_repr(n / 10);
        assert forall|i: int| 0 <= i < s.len() implies is_digit(#[trigger] s[i]) by {
            if i < p.len() {
                assert(s[i] == p[i]);
            } else {
                assert(s[i] == (48 + n % 10) as u8);
            }
        }
    }
}

/// The options a negotiation echoes can always be carried on the wire:
/// every name and value in the reply is free of NUL bytes, so the option
/// acknowledgement built from them is a well-formed packet.
pub proof fn lemma_negotiate_reply_carriable(
    opts: Seq<(Seq<u8>, Seq<u8>)>,
    tsize_reply: Option<u64>,
)
    ensures
        crate::packet::wf_opts(spec_negotiate(opts, tsize_reply).reply),
    decreases opts.len(),
{
    if opts.len() > 0 {
        lemma_negotiate_reply_carriable(opts.drop_last(), tsize_reply);
        let prev = spec_negotiate(opts.drop_last(), tsize_reply).reply;
        let m = spec_negotiate(opts, tsize_reply);
        let value = opts.last().1;
        let lname = lower_seq(opts.last().0);
        let named = lname == blksize_name() || lname == timeout_name() || lname == tsize_name();
        if named && readable_value(value) {
            let x: nat = if lname == blksize_name() {
                clamped(
                    dec_value(value),
                    crate::engine::MIN_BLKSIZE as nat,
                    crate::engine::MAX_BLKSIZE as nat,
                )
            } else if lname == timeout_name() {
                clamped(dec_value(value), 1, 255)
            } else {
                match tsize_reply {
                    Some(len) => len as nat,
                    None => dec_value(value),
                }
            };
            lemma_dec_repr_digits(x);
            assert(m.reply == prev + seq![(lname, dec_repr(x))]);
            assert(crate::packet::nul_free(lname));
            assert forall|i: int| 0 <= i < dec_repr(x).len() implies #[trigger] dec_repr(x)[i]
                != 0u8 by {
                assert(is_digit(dec_repr(x)[i]));
            }
            assert forall|i: int|
                0 <= i < m.reply.len() implies crate::packet::nul_free(#[trigger] m.reply[i].0)
                && crate::packet::nul_free(m.reply[i].1) by {
                if i < prev.len() {
                    assert(m.reply[i] == prev[i]);
                } else {
                    assert(m.reply[i] == (lname, dec_repr(x)));
                }
            }
        } else {
            assert(m.reply == prev);
        }
    }
}

/// The negotiated options of one request.
pub struct Negotiated {
    /// Negotiated data block size.
    pub blksize: u16,
    /// Negotiated per-packet retransmission timeout, in seconds.
    pub timeout_secs: u8,
    /// The options to acknowledge; when empty, no option reply is sent.
    pub reply: Vec<(Vec<u8>, Vec<u8>)>,
}

/// Negotiates a request's options: recognized names are lowercased and
/// echoed with their clamped values, in the client's order; the rest are
/// dropped. On a read request `tsize_reply` carries the file's size,
/// which replaces the client's announced `tsize`.
pub fn negotiate(options: &Vec<(Vec<u8>, Vec<u8>)>, tsize_reply: Option<u64>) -> (r: Negotiated)
    ensures
        r.blksize == spec_negotiate(opts_view(*options), tsize_reply).blksize,
        r.timeout_secs == spec_negotiate(opts_view(*options), tsize_reply).timeout_secs,
        opts_view(r.reply) == spec_negotiate(opts_view(*options), tsize_reply).reply,
        crate::engine::MIN_BLKSIZE <= r.blksize <= crate::engine::MAX_BLKSIZE,
        1 <= r.timeout_secs,
{
    let ghost ov = opts_view(*options);
    let mut blksize: u16 = DEFAULT_BLKSIZE;
    let mut timeout_secs: u8 = DEFAULT_TIMEOUT_SECS;
    let mut reply: Vec<(Vec<u8>, Vec<u8>)> = Vec::new();
    let mut i: usize = 0;
    while i < options.len()
        invariant
            0 <= i <= options@.len(),
            ov == opts_view(*options),
            blksize == spec_negotiate(ov.take(i as int), tsize_reply).blksize,
            timeout_secs == spec_negotiate(ov.take(i as int), tsize_reply).timeout_secs,
            opts_view(reply) == spec_negotiate(ov.take(i as int), tsize_reply).reply,
        decreases options@.len() - i,
    {
        let ghost prev = spec_negotiate(ov.take(i as int), tsize_reply);
        proof {
            assert(ov.take(i as int + 1).drop_last() =~= ov.take(i as int));
            assert(ov.take(i as int + 1).last() == ov[i as int]);
        }
        let lname = to_lower(options[i].0.as_slice());
        let value = options[i].1.as_slice();
        if bytes_eq(lname.as_slice(), blksize_name_exec().as_slice()) {
            match parse_decimal(value) {
                Some(v) => {
                    let b: u16 = if v < crate::engine::MIN_BLKSIZE as u64 {
                        crate::engine::MIN_BLKSIZE
                    } else if v > crate::engine::MAX_BLKSIZE as u64 {
                        crate::engine::MAX_BLKSIZE
                    } else {
                        v as u16
                    };
                    blksize = b;
                    let ghost old_reply = opts_view(reply);
                    reply.push((lname, format_decimal(b as u64)));
                    proof {
                        assert(opts_view(reply) =~= old_reply + seq![
                            (lower_seq(ov[i as int].0), dec_repr(b as nat)),
                        ]);
                    }
                },
                None => (),
            }
        } else if bytes_eq(lname.as_slice(), timeout_name_exec().as_slice()) {
            match parse_decimal(value) {
                Some(v) => {
                    let t: u8 = if v < 1 {
                        1
                    } else if v > 255 {
                        255
                    } else {
                        v as u8
                    };
                    timeout_secs = t;
                    let ghost old_reply = opts_view(reply);
                    reply.push((lname, format_decimal(t as u64)));
                    proof {
                        assert(opts_view(reply) =~= old_reply + seq![
                            (lower_seq(ov[i as int].0), dec_repr(t as nat)),
                        ]);
                    }
                },
                None => (),
            }
        } else if bytes_eq(lname.as_slice(), tsize_name_exec().as_slice()) {
            match parse_decimal(value) {
                Some(v) => {
                    let reported: u64 = match tsize_reply {
                        Some(len) => len,
                        None => v,
                    };
                    let ghost old_reply = opts_view(reply);
                    reply.push((lname, format_decimal(reported)));
                    proof {
                        assert(opts_view(reply) =~= old_reply + seq![
                            (lower_seq(ov[i as int].0), dec_repr(reported as nat)),
                        ]);
                    }
                },
                None => (),
            }
        }
        i += 1;
    }
    proof {
        assert(ov.take(options@.len() as int) =~= ov);
        lemma_negotiate_ranges(ov, tsize_reply);
    }
    Negotiated { blksize, timeout_secs, reply }
}

} // verus!
