//! Per-request dispatch: classifying the initial datagram under the
//! configured access policy, turning the outcome of the file open into the
//! error the peer sees, and preparing a transfer session from a request's
//! negotiated options.

use vstd::prelude::*;
use vstd::string::StringSliceAdditionalSpecFns;
use crate::engine::msg_bytes;
use crate::engine::RrqTransfer;
use crate::engine::WrqTransfer;
use crate::options::bytes_eq;
use crate::options::lemma_negotiate_reply_carriable;
use crate::options::negotiate;
use crate::options::spec_negotiate;
use crate::options::to_lower;
use crate::options::lower_seq;
use crate::packet::decode;
use crate::packet::opts_view;
use crate::packet::parse_u16;
use crate::packet::spec_parse;
use crate::packet::wf_model;
use crate::packet::Packet;
use crate::packet::PacketModel;

verus! {

/// Which directions of transfer the server allows.
#[derive(Clone, Copy)]
pub enum AccessPolicy {
    /// Both read and write requests are served.
    ReadWrite,
    /// Write requests are rejected with error code 4.
    ReadOnly,
    /// Read requests are rejected with error code 4.
    WriteOnly,
}

/// What to do with an initial datagram.
#[derive(Debug, PartialEq, Eq)]
pub enum Disposition {
    /// Serve the file: a read transfer.
    Read { filename: Vec<u8>, options: Vec<(Vec<u8>, Vec<u8>)> },
    /// Accept the file: a write transfer.
    Write { filename: Vec<u8>, options: Vec<(Vec<u8>, Vec<u8>)> },
    /// Send this error report and close.
    Reply { code: u16, message: Vec<u8> },
    /// The peer reported an error; close without replying.
    CloseSilent,
}

/// The bytes of the only supported transfer mode, `octet`.
pub open spec fn octet_mode() -> Seq<u8> {
    seq![111u8, 99u8, 116u8, 101u8, 116u8]
}

fn octet_mode_exec() -> (r: Vec<u8>)
    ensures
        r@ == octet_mode(),
{
    let mut v: Vec<u8> = Vec::new();
    v.push(111u8);
    v.push(99u8);
    v.push(116u8);
    v.push(101u8);
    v.push(116u8);
    proof {
        assert(v@ =~= octet_mode());
    }
    v
}

/// Whether a byte string is well-formed UTF-8: a function of the bytes
/// alone, as `str::from_utf8` computes it.
pub uninterp spec fn valid_utf8(s: Seq<u8>) -> bool;

/// Relies on str::from_utf8: it accepts a byte string exactly when the
/// bytes are well-formed UTF-8, and that depends on the bytes alone.
#[verifier::external_body]
fn utf8_ok(v: &[u8]) -> (r: bool)
    ensures
        r == valid_utf8(v@),
{
    core::str::from_utf8(v).is_ok()
}

/// Classifies an initial datagram. A well-formed read or write request in
/// `octet` mode that the policy allows is handed on with its filename and
/// options; a request the policy forbids, a filename or mode that is not
/// UTF-8, a mode other than `octet`, a malformed datagram, and any opcode
/// other than a request are answered with the error report the protocol
/// calls for; a peer error report is dropped silently.
pub fn classify(buf: &[u8], policy: AccessPolicy) -> (r: Disposition)
    ensures
        spec_parse(buf@) is None ==> (r matches Disposition::Reply { code, message } && code == 4
            && message@ == (if buf@.len() >= 2 && !(1 <= parse_u16(buf@) <= 6) {
            "Unexpected opcode".spec_bytes()
        } else {
            "Malformed packet".spec_bytes()
        })),
        spec_parse(buf@) matches Some(m) ==> match m {
            PacketModel::Rrq { filename, mode, options } => {
                if policy is WriteOnly {
                    (r matches Disposition::Reply { code, message } && code == 4 && message@
                        == "reading not allowed".spec_bytes())
                } else if !valid_utf8(filename) || !valid_utf8(mode) {
                    (r matches Disposition::Reply { code, message } && code == 4 && message@
                        == "Malformed packet".spec_bytes())
                } else if lower_seq(mode) != octet_mode() {
                    (r matches Disposition::Reply { code, message } && code == 0 && message@
                        == "Unsupported mode".spec_bytes())
                } else {
                    (r matches Disposition::Read { filename: f, options: o } && f@ == filename
                        && opts_view(o) == options)
                }
            },
            PacketModel::Wrq { filename, mode, options } => {
                if policy is ReadOnly {
                    (r matches Disposition::Reply { code, message } && code == 4 && message@
                        == "writing not allowed".spec_bytes())
                } else if !valid_utf8(filename) || !valid_utf8(mode) {
                    (r matches Disposition::Reply { code, message } && code == 4 && message@
                        == "Malformed packet".spec_bytes())
                } else if lower_seq(mode) != octet_mode() {
                    (r matches Disposition::Reply { code, message } && code == 0 && message@
                        == "Unsupported mode".spec_bytes())
                } else {
                    (r matches Disposition::Write { filename: f, options: o } && f@ == filename
                        && opts_view(o) == options)
                }
            },
            PacketModel::Error { .. } => r is CloseSilent,
            _ => (r matches Disposition::Reply { code, message } && code == 4 && message@
                == "Unexpected opcode".spec_bytes()),
        },
{
    match decode(buf) {
        None => {
            // An opcode outside the protocol is called out as such; a known
            // opcode whose body does not parse is a malformed packet.
            if buf.len() >= 2 && (buf[0] != 0 || buf[1] == 0 || buf[1] > 6) {
                Disposition::Reply { code: 4, message: msg_bytes("Unexpected opcode") }
            } else {
                Disposition::Reply { code: 4, message: msg_bytes("Malformed packet") }
            }
        },
        Some(p) => match p {
            Packet::Rrq { filename, mode, options } => {
                match policy {
                    AccessPolicy::WriteOnly => Disposition::Reply {
                        code: 4,
                        message: msg_bytes("reading not allowed"),
                    },
                    _ => {
                        if !utf8_ok(filename.as_slice()) || !utf8_ok(mode.as_slice()) {
                            return Disposition::Reply {
                                code: 4,
                                message: msg_bytes("Malformed packet"),
                            };
                        }
                        let lmode = to_lower(mode.as_slice());
                        if bytes_eq(lmode.as_slice(), octet_mode_exec().as_slice()) {
                            Disposition::Read { filename, options }
                        } else {
                            Disposition::Reply {
                                code: 0,
                                message: msg_bytes("Unsupported mode"),
                            }
                        }
                    },
                }
            },
            Packet::Wrq { filename, mode, options } => {
                match policy {
                    AccessPolicy::ReadOnly => Disposition::Reply {
                        code: 4,
                        message: msg_bytes("writing not allowed"),
                    },
                    _ => {
                        if !utf8_ok(filename.as_slice()) || !utf8_ok(mode.as_slice()) {
                            return Disposition::Reply {
                                code: 4,
                                message: msg_bytes("Malformed packet"),
                            };
                        }
                        let lmode = to_lower(mode.as_slice());
                        if bytes_eq(lmode.as_slice(), octet_mode_exec().as_slice()) {
                            Disposition::Write { filename, options }
                        } else {
                            Disposition::Reply {
                                code: 0,
                                message: msg_bytes("Unsupported mode"),
                            }
                        }
                    },
                }
            },
            Packet::Error { .. } => Disposition::CloseSilent,
            _ => Disposition::Reply { code: 4, message: msg_bytes("Unexpected opcode") },
        },
    }
}

/// The error report sent when the path guard refuses a request's filename.
pub fn path_refused_reply() -> (r: (u16, Vec<u8>))
    ensures
        r.0 == 2,
        r.1@ == "Permission denied".spec_bytes(),
{
    (2, msg_bytes("Permission denied"))
}

/// How opening a file for a read request can fail.
pub enum ReadOpenError {
    /// No such file.
    NotFound,
    /// The path names a directory or a special file.
    NotRegular,
    /// The file cannot be read.
    Denied,
}

/// The error report a failed read-request open earns: code 1 for a
/// missing or non-regular file, code 2 otherwise.
pub fn read_open_reply(e: &ReadOpenError) -> (r: (u16, Vec<u8>))
    ensures
        r.0 == match e {
            ReadOpenError::NotFound => 1u16,
            ReadOpenError::NotRegular => 1u16,
            ReadOpenError::Denied => 2u16,
        },
        r.1@ == match e {
            ReadOpenError::NotFound => "File not found".spec_bytes(),
            ReadOpenError::NotRegular => "File not found".spec_bytes(),
            ReadOpenError::Denied => "Permission denied".spec_bytes(),
        },
{
    match e {
        ReadOpenError::NotFound => (1, msg_bytes("File not found")),
        ReadOpenError::NotRegular => (1, msg_bytes("File not found")),
        ReadOpenError::Denied => (2, msg_bytes("Permission denied")),
    }
}

/// How creating the destination of a write request can fail.
pub enum WriteOpenError {
    /// The destination already exists; it is left untouched.
    AlreadyExists,
    /// The destination cannot be created.
    Denied,
}

/// The error report a failed write-request open earns: code 6 when the
/// file already exists, code 2 otherwise.
pub fn write_open_reply(e: &WriteOpenError) -> (r: (u16, Vec<u8>))
    ensures
        r.0 == match e {
            WriteOpenError::AlreadyExists => 6u16,
            WriteOpenError::Denied => 2u16,
        },
        r.1@ == match e {
            WriteOpenError::AlreadyExists => "File already exists".spec_bytes(),
            WriteOpenError::Denied => "Permission denied".spec_bytes(),
        },
{
    match e {
        WriteOpenError::AlreadyExists => (6, msg_bytes("File already exists")),
        WriteOpenError::Denied => (2, msg_bytes("Permission denied")),
    }
}

/// Prepares a read transfer: negotiates the request's options, reporting
/// the file's size where `tsize` was asked, and returns the session, the
/// socket timeout to set, and the option reply to send first — present
/// exactly when an option was accepted, in which case the session waits
/// for its acknowledgement before the first block.
pub fn prepare_read(data: Vec<u8>, options: &Vec<(Vec<u8>, Vec<u8>)>) -> (r: (
    RrqTransfer,
    u8,
    Option<Packet>,
))
    ensures
        ({
            let m = spec_negotiate(opts_view(*options), Some(data@.len() as u64));
            &&& r.0.wf()
            &&& r.0.data_spec() == data@
            &&& r.0.blksize_spec() == m.blksize
            &&& r.0.index_spec() == 0
            &&& r.0.retries_spec() == 0
            &&& r.1 == m.timeout_secs
            &&& (r.2 is Some <==> m.reply.len() > 0)
            &&& (r.2 matches Some(p) ==> p@ == (PacketModel::Oack { options: m.reply })
                && wf_model(p@))
            &&& (m.reply.len() > 0 ==> r.0.phase_spec() is AwaitingAckOfOack)
            &&& (m.reply.len() == 0 ==> r.0.phase_spec() is AwaitingAck)
        }),
{
    let len64: u64 = data.len() as u64;
    proof {
        lemma_negotiate_reply_carriable(opts_view(*options), Some(len64));
    }
    let neg = negotiate(options, Some(len64));
    let negotiated = neg.reply.len() > 0;
    let transfer = RrqTransfer::begin(data, neg.blksize, negotiated);
    let reply = if negotiated {
        Some(Packet::Oack { options: neg.reply })
    } else {
        None
    };
    (transfer, neg.timeout_secs, reply)
}

/// Prepares a write transfer: negotiates the request's options (the
/// client's announced `tsize` is echoed) and returns the session, the
/// socket timeout to set, and the request acknowledgement to send: the
/// option reply when an option was accepted, the plain ACK of block 0
/// otherwise.
pub fn prepare_write(options: &Vec<(Vec<u8>, Vec<u8>)>) -> (r: (WrqTransfer, u8, Packet))
    ensures
        ({
            let m = spec_negotiate(opts_view(*options), None);
            &&& r.0.wf()
            &&& r.0.blksize_spec() == m.blksize
            &&& r.0.index_spec() == 0
            &&& r.0.retries_spec() == 0
            &&& r.0.received_spec() == Seq::<u8>::empty()
            &&& r.0.phase_spec() is Receiving
            &&& r.1 == m.timeout_secs
            &&& r.2@ == (if m.reply.len() > 0 {
                PacketModel::Oack { options: m.reply }
            } else {
                PacketModel::Ack { block: 0 }
            })
            &&& wf_model(r.2@)
        }),
{
    proof {
        lemma_negotiate_reply_carriable(opts_view(*options), None);
    }
    let neg = negotiate(options, None);
    let transfer = WrqTransfer::begin(neg.blksize);
    let reply = if neg.reply.len() > 0 {
        Packet::Oack { options: neg.reply }
    } else {
        Packet::Ack { block: 0 }
    };
    (transfer, neg.timeout_secs, reply)
}

} // verus!
