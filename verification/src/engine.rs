//! The lockstep transfer engine: one state machine per direction, stepped by
//! the datagrams and timeouts the embedding program observes on the
//! session's socket. The machines decide every reply and every state change;
//! the program only performs the sends, file reads and file writes that the
//! returned actions call for.

use vstd::prelude::*;
use vstd::string::StrSliceExecFns;
use vstd::string::StringSliceAdditionalSpecFns;
use crate::packet::copy_range;

verus! {

/// Retransmissions allowed for one outstanding packet; with the initial
/// send, at most five copies of a datagram leave before the session aborts.
pub const MAX_RETRANSMITS: u8 = 4;

/// Smallest negotiable block size (RFC 2348).
pub const MIN_BLKSIZE: u16 = 8;

/// Largest negotiable block size (RFC 2348).
pub const MAX_BLKSIZE: u16 = 65464;

/// Number of blocks a transfer of `len` bytes takes with block size `bs`:
/// one full block per `bs` bytes, then one short (possibly empty) block
/// that marks the end of the transfer.
pub open spec fn num_blocks(len: nat, bs: nat) -> nat
    recommends
        bs > 0,
{
    len / bs + 1
}

/// The payload of the block with 0-based index `i`.
pub open spec fn block_payload(data: Seq<u8>, bs: nat, i: nat) -> Seq<u8>
    recommends
        bs > 0,
        i * bs <= data.len(),
{
    if i * bs + bs <= data.len() {
        data.subrange((i * bs) as int, (i * bs + bs) as int)
    } else {
        data.subrange((i * bs) as int, data.len() as int)
    }
}

/// True of the block that ends the transfer: the one whose payload falls
/// short of a full block.
pub open spec fn is_final_block(len: nat, bs: nat, i: nat) -> bool {
    len < i * bs + bs
}

/// The wire block number of the block with 0-based index `i`: numbering
/// starts at 1 and wraps modulo 2^16.
pub open spec fn block_nr_of(i: nat) -> u16 {
    (((i + 1) % 0x10000) as u16)
}

/// The block number a receiver last acknowledged after accepting `i`
/// blocks: 0 before the first block (the request acknowledgement), then
/// the number of block `i - 1`.
pub open spec fn last_ack_nr(i: nat) -> u16 {
    ((i % 0x10000) as u16)
}

/// What a session step asks the embedding program to do on its socket and
/// file. Whether the session is over is read off the machine afterwards.
#[derive(Debug, PartialEq, Eq)]
pub enum Action {
    /// Transmit this data block.
    SendData { block: u16, payload: Vec<u8> },
    /// The offered payload was accepted: append it to the file, then
    /// acknowledge this block.
    SendAck { block: u16 },
    /// The offered payload repeats a block already written: acknowledge it
    /// again, write nothing.
    RepeatAck { block: u16 },
    /// Report this error to the peer; the session is over unless it stays
    /// active (a foreign-sender report, code 5, leaves it running).
    SendError { code: u16, message: Vec<u8> },
    /// Send the previous datagram once more.
    Retransmit,
    /// The transfer completed; close the session.
    Finish,
    /// Drop the datagram and keep waiting.
    Ignore,
    /// The peer reported an error; close the session without replying.
    CloseSilent,
}

/// Where a reading (server-to-client) session stands.
pub enum RrqPhase {
    /// Options were acknowledged; waiting for ACK 0 before the first block.
    AwaitingAckOfOack,
    /// A data block is outstanding; waiting for its acknowledgement.
    AwaitingAck,
    /// The final block was acknowledged.
    Complete,
    /// The session aborted.
    Failed,
}

/// The server side of a read request: sends `data` block by block, in
/// lockstep with the peer's acknowledgements.
pub struct RrqTransfer {
    data: Vec<u8>,
    blksize: u16,
    index: u64,
    retries: u8,
    phase: RrqPhase,
}

impl RrqTransfer {
    /// The bytes being served.
    pub closed spec fn data_spec(&self) -> Seq<u8> {
        self.data@
    }

    /// The negotiated block size.
    pub closed spec fn blksize_spec(&self) -> u16 {
        self.blksize
    }

    /// The 0-based index of the outstanding block.
    pub closed spec fn index_spec(&self) -> nat {
        self.index as nat
    }

    /// Retransmissions already spent on the outstanding packet.
    pub closed spec fn retries_spec(&self) -> nat {
        self.retries as nat
    }

    /// The phase the session is in.
    pub closed spec fn phase_spec(&self) -> RrqPhase {
        self.phase
    }

    /// Internal consistency: a legal block size, the retransmission budget
    /// respected, and the outstanding block within the file.
    pub closed spec fn wf(&self) -> bool {
        &&& MIN_BLKSIZE <= self.blksize <= MAX_BLKSIZE
        &&& self.retries <= MAX_RETRANSMITS
        &&& self.index as nat * self.blksize as nat <= self.data@.len()
        &&& self.phase is AwaitingAckOfOack ==> self.index == 0
    }

    /// True while the session still exchanges datagrams.
    pub closed spec fn active(&self) -> bool {
        self.phase is AwaitingAckOfOack || self.phase is AwaitingAck
    }

    /// Starts a read session over `data`. When options were negotiated the
    /// session first awaits the acknowledgement of the option reply (block
    /// number 0); otherwise the first data block may be sent at once.
    pub fn begin(data: Vec<u8>, blksize: u16, negotiated: bool) -> (t: Self)
        requires
            MIN_BLKSIZE <= blksize <= MAX_BLKSIZE,
        ensures
            t.wf(),
            t.data_spec() == data@,
            t.blksize_spec() == blksize,
            t.index_spec() == 0,
            t.retries_spec() == 0,
            t.phase_spec() == (if negotiated {
                RrqPhase::AwaitingAckOfOack
            } else {
                RrqPhase::AwaitingAck
            }),
    {
        RrqTransfer {
            data,
            blksize,
            index: 0,
            retries: 0,
            phase: if negotiated {
                RrqPhase::AwaitingAckOfOack
            } else {
                RrqPhase::AwaitingAck
            },
        }
    }

    /// The data packet for the outstanding block: its wire number and its
    /// payload, read out of the file bytes.
    pub fn current_data(&self) -> (r: (u16, Vec<u8>))
        requires
            self.wf(),
        ensures
            r.0 == block_nr_of(self.index_spec()),
            r.1@ == block_payload(self.data_spec(), self.blksize_spec() as nat, self.index_spec()),
    {
        let n: usize = self.data.len();
        proof {
            assert(self.index as nat * 8 <= self.index as nat * self.blksize as nat)
                by (nonlinear_arith)
                requires
                    8 <= self.blksize,
            ;
        }
        let bs: usize = self.blksize as usize;
        let offset: usize = (self.index as usize) * bs;
        let rem: usize = n - offset;
        let take: usize = if rem < bs {
            rem
        } else {
            bs
        };
        let payload = copy_range(self.data.as_slice(), offset, offset + take);
        let block: u16 = ((self.index + 1) % 0x10000) as u16;
        (block, payload)
    }

    /// Steps the session on an acknowledgement. The expected block number
    /// advances the transfer (or completes it, when the outstanding block
    /// was the final one); any other number is a duplicate and is ignored.
    pub fn on_ack(&mut self, block: u16) -> (r: Action)
        requires
            old(self).wf(),
        ensures
            final(self).wf(),
            final(self).data_spec() == old(self).data_spec(),
            final(self).blksize_spec() == old(self).blksize_spec(),
            old(self).phase_spec() is AwaitingAckOfOack ==> (if block == 0 {
                &&& final(self).phase_spec() is AwaitingAck
                &&& final(self).index_spec() == 0
                &&& final(self).retries_spec() == 0
                &&& (r matches Action::SendData { block: b, payload } && b == block_nr_of(0)
                    && payload@ == block_payload(
                    old(self).data_spec(),
                    old(self).blksize_spec() as nat,
                    0,
                ))
            } else {
                r is Ignore && *final(self) == *old(self)
            }),
            old(self).phase_spec() is AwaitingAck ==> (if block == block_nr_of(
                old(self).index_spec(),
            ) {
                if is_final_block(
                    old(self).data_spec().len(),
                    old(self).blksize_spec() as nat,
                    old(self).index_spec(),
                ) {
                    final(self).phase_spec() is Complete && r is Finish
                } else {
                    &&& final(self).phase_spec() is AwaitingAck
                    &&& final(self).index_spec() == old(self).index_spec() + 1
                    &&& final(self).retries_spec() == 0
                    &&& (r matches Action::SendData { block: b, payload } && b == block_nr_of(
                        old(self).index_spec() + 1,
                    ) && payload@ == block_payload(
                        old(self).data_spec(),
                        old(self).blksize_spec() as nat,
                        old(self).index_spec() + 1,
                    ))
                }
            } else {
                r is Ignore && *final(self) == *old(self)
            }),
            (old(self).phase_spec() is Complete || old(self).phase_spec() is Failed) ==> r
                is Ignore && *final(self) == *old(self),
    {
        match self.phase {
            RrqPhase::AwaitingAckOfOack => {
                if block == 0 {
                    self.phase = RrqPhase::AwaitingAck;
                    self.retries = 0;
                    let (b, payload) = self.current_data();
                    Action::SendData { block: b, payload }
                } else {
                    Action::Ignore
                }
            },
            RrqPhase::AwaitingAck => {
                let n: usize = self.data.len();
                proof {
                    assert(self.index as nat * 8 <= self.index as nat * self.blksize as nat)
                        by (nonlinear_arith)
                        requires
                            8 <= self.blksize,
                    ;
                }
                let expected: u16 = ((self.index + 1) % 0x10000) as u16;
                if block != expected {
                    return Action::Ignore;
                }
                let bs: usize = self.blksize as usize;
                let offset: usize = (self.index as usize) * bs;
                let rem: usize = n - offset;
                if rem < bs {
                    self.phase = RrqPhase::Complete;
                    Action::Finish
                } else {
                    proof {
                        assert((self.index as nat + 1) * self.blksize as nat == self.index as nat
                            * self.blksize as nat + self.blksize as nat) by (nonlinear_arith);
                    }
                    self.index = self.index + 1;
                    self.retries = 0;
                    let (b, payload) = self.current_data();
                    Action::SendData { block: b, payload }
                }
            },
            RrqPhase::Complete => Action::Ignore,
            RrqPhase::Failed => Action::Ignore,
        }
    }

    /// Steps the session on a receive timeout: the outstanding datagram is
    /// sent again until the retransmission budget is spent, then the
    /// session aborts with error code 0.
    pub fn on_timeout(&mut self) -> (r: Action)
        requires
            old(self).wf(),
        ensures
            final(self).wf(),
            final(self).data_spec() == old(self).data_spec(),
            final(self).blksize_spec() == old(self).blksize_spec(),
            final(self).index_spec() == old(self).index_spec(),
            old(self).active() ==> (if old(self).retries_spec() < MAX_RETRANSMITS as nat {
                &&& r is Retransmit
                &&& final(self).retries_spec() == old(self).retries_spec() + 1
                &&& final(self).phase_spec() == old(self).phase_spec()
            } else {
                r matches Action::SendError { code, message } && code == 0 && message@
                    == "timed out".spec_bytes() && final(self).phase_spec() is Failed
            }),
            !old(self).active() ==> r is Ignore && *final(self) == *old(self),
    {
        match self.phase {
            RrqPhase::AwaitingAckOfOack | RrqPhase::AwaitingAck => {
                if self.retries < MAX_RETRANSMITS {
                    self.retries = self.retries + 1;
                    Action::Retransmit
                } else {
                    self.phase = RrqPhase::Failed;
                    Action::SendError { code: 0, message: msg_bytes("timed out") }
                }
            },
            RrqPhase::Complete => Action::Ignore,
            RrqPhase::Failed => Action::Ignore,
        }
    }

    /// Steps the session on an error report from the peer: the session
    /// closes without a reply.
    pub fn on_peer_error(&mut self) -> (r: Action)
        requires
            old(self).wf(),
        ensures
            final(self).wf(),
            final(self).phase_spec() is Failed,
            r is CloseSilent,
    {
        self.phase = RrqPhase::Failed;
        Action::CloseSilent
    }

    /// Answers a datagram whose sender is not the session's peer: it is
    /// rejected with error code 5 and the session continues unchanged.
    pub fn on_foreign_sender(&self) -> (r: Action)
        ensures
            r matches Action::SendError { code, message } && code == 5 && message@
                == "Unknown transfer ID".spec_bytes(),
    {
        Action::SendError { code: 5, message: msg_bytes("Unknown transfer ID") }
    }

    /// True once the transfer completed cleanly.
    pub fn finished(&self) -> (r: bool)
        ensures
            r == (self.phase_spec() is Complete),
    {
        match self.phase {
            RrqPhase::Complete => true,
            _ => false,
        }
    }

    /// True once the session aborted.
    pub fn failed(&self) -> (r: bool)
        ensures
            r == (self.phase_spec() is Failed),
    {
        match self.phase {
            RrqPhase::Failed => true,
            _ => false,
        }
    }
}

/// The bytes of a fixed protocol message.
pub(crate) fn msg_bytes(s: &str) -> (r: Vec<u8>)
    ensures
        r@ == s.spec_bytes(),
{
    s.as_bytes_vec()
}

/// A successful read transfer sends exactly `num_blocks` data packets:
/// ⌈L/B⌉ for a file of length L not a multiple of the block size B, and
/// L/B + 1 when B divides L; the transfer ends exactly at the block whose
/// payload falls short of B.
pub proof fn lemma_transfer_block_count(len: nat, bs: nat)
    requires
        bs > 0,
    ensures
        len % bs != 0 ==> num_blocks(len, bs) as int == (len + bs - 1) / (bs as int),
        len % bs == 0 ==> num_blocks(len, bs) == len / bs + 1,
        forall|i: nat| i * bs <= len ==> (is_final_block(len, bs, i) <==> i == len / bs),
{
    vstd::arithmetic::div_mod::lemma_fundamental_div_mod(len as int, bs as int);
    vstd::arithmetic::div_mod::lemma_mod_division_less_than_divisor(len as int, bs as int);
    if len % bs != 0 {
        assert((len as int / bs as int + 1) * bs == bs * (len as int / bs as int) + bs)
            by (nonlinear_arith);
        vstd::arithmetic::div_mod::lemma_fundamental_div_mod_converse(
            len as int + bs - 1,
            bs as int,
            len as int / bs as int + 1,
            len as int % bs as int - 1,
        );
    }
    assert forall|i: nat| i * bs <= len implies (is_final_block(len, bs, i) <==> i == len
        / bs) by {
        if len < i * bs + bs {
            vstd::arithmetic::div_mod::lemma_fundamental_div_mod_converse(
                len as int,
                bs as int,
                i as int,
                len - i * bs,
            );
        }
        if i == len / bs {
            assert(len < i * bs + bs) by (nonlinear_arith)
                requires
                    bs > 0,
                    len as int == bs as int * (len as int / bs as int) + len as int % bs as int,
                    (len as int % bs as int) < (bs as int),
                    i == len as int / bs as int,
            ;
        }
    }
}

/// The length of each block's payload: a full block everywhere before the
/// final block, and the remainder, strictly short of a full block, at the
/// final one.
pub proof fn lemma_block_payload_len(data: Seq<u8>, bs: nat, i: nat)
    requires
        bs > 0,
        i * bs <= data.len(),
    ensures
        !is_final_block(data.len(), bs, i) ==> block_payload(data, bs, i).len() == bs,
        is_final_block(data.len(), bs, i) ==> block_payload(data, bs, i).len() == data.len() - i
            * bs < bs,
{
}

/// Block numbers within one session are contiguous: each block carries
/// the successor of the number before it, wrapping from 0xFFFF to 0, and
/// a receiver's acknowledgement number is the number of the block it last
/// accepted.
pub proof fn lemma_block_numbers_contiguous(i: nat)
    ensures
        block_nr_of(i + 1) == (if block_nr_of(i) == 0xFFFF {
            0u16
        } else {
            (block_nr_of(i) + 1) as u16
        }),
        last_ack_nr(i + 1) == block_nr_of(i),
{
    vstd::arithmetic::div_mod::lemma_add_mod_noop(i as int + 1, 1, 0x10000);
    vstd::arithmetic::div_mod::lemma_mod_division_less_than_divisor(i as int + 1, 0x10000);
    if (i + 1) % 0x10000 == 0xFFFF {
        assert((0xFFFF + 1) % 0x10000 == 0);
    } else {
        vstd::arithmetic::div_mod::lemma_small_mod(((i + 1) % 0x10000 + 1) as nat, 0x10000);
    }
}

/// The blocks of `data` with indices below `n`, concatenated in order.
pub open spec fn concat_blocks(data: Seq<u8>, bs: nat, n: nat) -> Seq<u8>
    decreases n,
{
    if n == 0 {
        Seq::<u8>::empty()
    } else {
        concat_blocks(data, bs, (n - 1) as nat) + block_payload(data, bs, (n - 1) as nat)
    }
}

proof fn lemma_concat_blocks_prefix(data: Seq<u8>, bs: nat, n: nat)
    requires
        bs > 0,
        n == 0 || (n - 1) * bs <= data.len(),
    ensures
        concat_blocks(data, bs, n) == (if n * bs <= data.len() {
            data.take((n * bs) as int)
        } else {
            data
        }),
    decreases n,
{
    if n > 0 {
        let m = (n - 1) as nat;
        assert(m == 0 || (m - 1) * bs <= m * bs) by (nonlinear_arith);
        lemma_concat_blocks_prefix(data, bs, m);
        assert(m * bs + bs == n * bs) by (nonlinear_arith)
            requires
                n == m + 1,
        ;
        if n * bs <= data.len() {
            assert(data.take((m * bs) as int) + data.subrange((m * bs) as int, (n * bs) as int)
                =~= data.take((n * bs) as int));
        } else {
            assert(data.take((m * bs) as int) + data.subrange((m * bs) as int, data.len() as int)
                =~= data);
        }
    }
}

/// Reassembly: the payloads of every block of `data`, concatenated in the
/// order the blocks are numbered, give back `data` itself. A file served
/// over a read request and accepted in order by a write request is
/// recovered byte for byte.
pub proof fn lemma_blocks_reassemble(data: Seq<u8>, bs: nat)
    requires
        bs > 0,
    ensures
        concat_blocks(data, bs, num_blocks(data.len(), bs)) == data,
{
    let len = data.len();
    let n = num_blocks(len, bs);
    vstd::arithmetic::div_mod::lemma_fundamental_div_mod(len as int, bs as int);
    vstd::arithmetic::div_mod::lemma_mod_division_less_than_divisor(len as int, bs as int);
    assert((n - 1) * bs <= len && len < n * bs) by (nonlinear_arith)
        requires
            bs > 0,
            n == len / bs + 1,
            len as int == bs as int * (len as int / bs as int) + len as int % bs as int,
            0 <= len as int % bs as int,
            (len as int % bs as int) < (bs as int),
    ;
    lemma_concat_blocks_prefix(data, bs, n);
}

/// Where a writing (client-to-server) session stands.
pub enum WrqPhase {
    /// Waiting for the next data block.
    Receiving,
    /// The final short block was accepted and acknowledged.
    Complete,
    /// The session aborted.
    Failed,
}

/// The server side of a write request: accepts blocks in lockstep,
/// acknowledging each, until a block falls short of the negotiated size.
/// The machine records what it accepted; the embedding program appends
/// each accepted payload to the destination file.
pub struct WrqTransfer {
    blksize: u16,
    last_ack: u16,
    retries: u8,
    phase: WrqPhase,
    index: Ghost<nat>,
    received: Ghost<Seq<u8>>,
}

impl WrqTransfer {
    /// The negotiated block size.
    pub closed spec fn blksize_spec(&self) -> u16 {
        self.blksize
    }

    /// Blocks accepted so far.
    pub closed spec fn index_spec(&self) -> nat {
        self.index@
    }

    /// Retransmissions already spent on the outstanding acknowledgement.
    pub closed spec fn retries_spec(&self) -> nat {
        self.retries as nat
    }

    /// The phase the session is in.
    pub closed spec fn phase_spec(&self) -> WrqPhase {
        self.phase
    }

    /// Every byte accepted so far, in order: the contents of the file
    /// being written.
    pub closed spec fn received_spec(&self) -> Seq<u8> {
        self.received@
    }

    /// Internal consistency: a legal block size, the retransmission budget
    /// respected, the last acknowledged number tracking the block count,
    /// and, while receiving, only full blocks accepted so far.
    pub closed spec fn wf(&self) -> bool {
        &&& MIN_BLKSIZE <= self.blksize <= MAX_BLKSIZE
        &&& self.retries <= MAX_RETRANSMITS
        &&& self.last_ack == last_ack_nr(self.index@)
        &&& self.phase is Receiving ==> self.received@.len() == self.index@
            * self.blksize as nat
    }

    /// True while the session still exchanges datagrams.
    pub closed spec fn active(&self) -> bool {
        self.phase is Receiving
    }

    /// Starts a write session. The request acknowledgement (ACK 0 or the
    /// option reply) is sent by the dispatcher; the machine then expects
    /// block 1.
    pub fn begin(blksize: u16) -> (t: Self)
        requires
            MIN_BLKSIZE <= blksize <= MAX_BLKSIZE,
        ensures
            t.wf(),
            t.blksize_spec() == blksize,
            t.index_spec() == 0,
            t.retries_spec() == 0,
            t.received_spec() == Seq::<u8>::empty(),
            t.phase_spec() is Receiving,
    {
        WrqTransfer {
            blksize,
            last_ack: 0,
            retries: 0,
            phase: WrqPhase::Receiving,
            index: Ghost(0),
            received: Ghost(Seq::<u8>::empty()),
        }
    }

    /// Steps the session on a received data block. The expected block
    /// number with a payload of at most the block size is accepted: the
    /// program writes the payload and sends the acknowledgement; a short
    /// payload completes the transfer. The previously acknowledged number
    /// is a duplicate and is acknowledged again without writing. Anything
    /// else is ignored.
    pub fn on_data(&mut self, block: u16, payload: &[u8]) -> (r: Action)
        requires
            old(self).wf(),
        ensures
            final(self).wf(),
            final(self).blksize_spec() == old(self).blksize_spec(),
            old(self).phase_spec() is Receiving ==> (if block == block_nr_of(
                old(self).index_spec(),
            ) && payload@.len() <= old(self).blksize_spec() as nat {
                &&& final(self).received_spec() == old(self).received_spec() + payload@
                &&& final(self).index_spec() == old(self).index_spec() + 1
                &&& final(self).retries_spec() == 0
                &&& (r matches Action::SendAck { block: b } && b == block)
                &&& final(self).phase_spec() == (if payload@.len() < old(
                    self,
                ).blksize_spec() as nat {
                    WrqPhase::Complete
                } else {
                    WrqPhase::Receiving
                })
            } else if block == last_ack_nr(old(self).index_spec()) {
                (r matches Action::RepeatAck { block: b } && b == block) && *final(self) == *old(
                    self,
                )
            } else {
                r is Ignore && *final(self) == *old(self)
            }),
            !(old(self).phase_spec() is Receiving) ==> r is Ignore && *final(self) == *old(self),
    {
        match self.phase {
            WrqPhase::Receiving => {
                let expected: u16 = (((self.last_ack as u32) + 1) % 0x10000) as u16;
                proof {
                    vstd::arithmetic::div_mod::lemma_add_mod_noop(
                        self.index@ as int,
                        1,
                        0x10000,
                    );
                    assert(expected == block_nr_of(self.index@));
                }
                if block == expected && payload.len() <= self.blksize as usize {
                    proof {
                        assert((self.index@ + 1) * self.blksize as nat == self.index@
                            * self.blksize as nat + self.blksize as nat) by (nonlinear_arith);
                    }
                    self.received = Ghost(self.received@ + payload@);
                    self.index = Ghost(self.index@ + 1);
                    self.last_ack = expected;
                    self.retries = 0;
                    if payload.len() < self.blksize as usize {
                        self.phase = WrqPhase::Complete;
                    }
                    Action::SendAck { block }
                } else if block == self.last_ack {
                    Action::RepeatAck { block }
                } else {
                    Action::Ignore
                }
            },
            WrqPhase::Complete => Action::Ignore,
            WrqPhase::Failed => Action::Ignore,
        }
    }

    /// Steps the session on a receive timeout: the last acknowledgement is
    /// sent again until the retransmission budget is spent, then the
    /// session aborts with error code 0.
    pub fn on_timeout(&mut self) -> (r: Action)
        requires
            old(self).wf(),
        ensures
            final(self).wf(),
            final(self).blksize_spec() == old(self).blksize_spec(),
            final(self).index_spec() == old(self).index_spec(),
            final(self).received_spec() == old(self).received_spec(),
            old(self).active() ==> (if old(self).retries_spec() < MAX_RETRANSMITS as nat {
                &&& r is Retransmit
                &&& final(self).retries_spec() == old(self).retries_spec() + 1
                &&& final(self).phase_spec() == old(self).phase_spec()
            } else {
                r matches Action::SendError { code, message } && code == 0 && message@
                    == "timed out".spec_bytes() && final(self).phase_spec() is Failed
            }),
            !old(self).active() ==> r is Ignore && *final(self) == *old(self),
    {
        match self.phase {
            WrqPhase::Receiving => {
                if self.retries < MAX_RETRANSMITS {
                    self.retries = self.retries + 1;
                    Action::Retransmit
                } else {
                    self.phase = WrqPhase::Failed;
                    Action::SendError { code: 0, message: msg_bytes("timed out") }
                }
            },
            WrqPhase::Complete => Action::Ignore,
            WrqPhase::Failed => Action::Ignore,
        }
    }

    /// Steps the session on an error report from the peer: the session
    /// closes without a reply.
    pub fn on_peer_error(&mut self) -> (r: Action)
        requires
            old(self).wf(),
        ensures
            final(self).wf(),
            final(self).phase_spec() is Failed,
            final(self).received_spec() == old(self).received_spec(),
            r is CloseSilent,
    {
        self.phase = WrqPhase::Failed;
        Action::CloseSilent
    }

    /// Answers a datagram whose sender is not the session's peer: it is
    /// rejected with error code 5 and the session continues unchanged.
    pub fn on_foreign_sender(&self) -> (r: Action)
        ensures
            r matches Action::SendError { code, message } && code == 5 && message@
                == "Unknown transfer ID".spec_bytes(),
    {
        Action::SendError { code: 5, message: msg_bytes("Unknown transfer ID") }
    }

    /// True once the transfer completed cleanly.
    pub fn finished(&self) -> (r: bool)
        ensures
            r == (self.phase_spec() is Complete),
    {
        match self.phase {
            WrqPhase::Complete => true,
            _ => false,
        }
    }

    /// True once the session aborted.
    pub fn failed(&self) -> (r: bool)
        ensures
            r == (self.phase_spec() is Failed),
    {
        match self.phase {
            WrqPhase::Failed => true,
            _ => false,
        }
    }
}

} // verus!
