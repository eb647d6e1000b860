use vstd::prelude::*;

verus! {

/// Largest number of bytes handed to one call of the zero-copy primitive.
pub const CHUNK_SIZE: u64 = 1_048_576;

/// What one call of the zero-copy primitive reported.
#[derive(Clone, Copy, Debug, PartialEq, Eq, Structural)]
pub enum SendOutcome {
    /// That many bytes went from the file to the socket; zero means that the
    /// peer closed the connection.
    Sent(u64),
    /// The socket's send buffer is full: nothing was copied.
    WouldBlock,
    /// Any other error.
    Failed,
}

/// Where a transfer stands.
#[derive(Clone, Copy, Debug, PartialEq, Eq, Structural)]
pub enum TransferStatus {
    /// Bytes remain to be sent.
    Running,
    /// Every byte of the range was sent.
    Complete,
    /// The peer closed the connection before the end of the range.
    PeerClosed,
    /// The primitive failed; the rest of the range is not delivered.
    Aborted,
}

/// What the caller does after reporting an outcome.
#[derive(Clone, Copy, Debug, PartialEq, Eq, Structural)]
pub enum Reaction {
    /// Ask for the next chunk and send it.
    Continue,
    /// Suspend until the socket is writable, then send the same chunk again.
    WaitWritable,
    /// The transfer is over; its status says how it ended.
    Stop,
}

/// One call of the zero-copy primitive to make: `count` bytes of the file
/// from position `offset`.
#[derive(Clone, Copy, Debug, PartialEq, Eq, Structural)]
pub struct Chunk {
    pub offset: u64,
    pub count: u64,
}

/// The state of one response body's delivery: the bytes `[start, end)` of a
/// file, of which `[start, cursor)` have been sent.
#[derive(Clone, Copy, Debug, PartialEq, Eq, Structural)]
pub struct TransferSession {
    pub start: u64,
    pub cursor: u64,
    pub end: u64,
    pub status: TransferStatus,
}

pub open spec fn min(a: int, b: int) -> int {
    if a <= b { a } else { b }
}

impl TransferSession {
    pub open spec fn wf(self) -> bool {
        &&& self.start <= self.cursor <= self.end
        &&& (self.status == TransferStatus::Running) == (self.cursor < self.end
            && self.status != TransferStatus::PeerClosed && self.status != TransferStatus::Aborted)
    }

    /// The session before any byte of `[start, end)` is sent.
    pub open spec fn initial(start: u64, end: u64) -> Self {
        TransferSession {
            start,
            cursor: start,
            end,
            status: if start < end { TransferStatus::Running } else { TransferStatus::Complete },
        }
    }

    /// The size of the next call: at most `CHUNK_SIZE`, and no more than remains.
    pub open spec fn chunk_len(self) -> int {
        min(CHUNK_SIZE as int, self.end - self.cursor)
    }

    /// The chunk to send next, while the transfer runs.
    pub open spec fn spec_next_chunk(self) -> Option<Chunk> {
        if self.status == TransferStatus::Running {
            Some(Chunk { offset: self.cursor, count: self.chunk_len() as u64 })
        } else {
            None
        }
    }

    /// The session after the primitive reported `o` for the chunk it was handed.
    pub open spec fn after(self, o: SendOutcome) -> Self {
        if self.status != TransferStatus::Running {
            self
        } else {
            match o {
                SendOutcome::Sent(n) => {
                    if n == 0 {
                        TransferSession { status: TransferStatus::PeerClosed, ..self }
                    } else if n > self.chunk_len() {
                        TransferSession { status: TransferStatus::Aborted, ..self }
                    } else {
                        let c = (self.cursor + n) as u64;
                        TransferSession {
                            cursor: c,
                            status: if c == self.end {
                                TransferStatus::Complete
                            } else {
                                TransferStatus::Running
                            },
                            ..self
                        }
                    }
                },
                SendOutcome::WouldBlock => self,
                SendOutcome::Failed => TransferSession { status: TransferStatus::Aborted, ..self },
            }
        }
    }

    /// What the caller does after the primitive reported `o`.
    pub open spec fn reaction(self, o: SendOutcome) -> Reaction {
        if self.status == TransferStatus::Running && o == SendOutcome::WouldBlock {
            Reaction::WaitWritable
        } else if self.after(o).status == TransferStatus::Running {
            Reaction::Continue
        } else {
            Reaction::Stop
        }
    }

    /// A session that delivers the bytes `[start, end)` of a file.
    pub fn new(start: u64, end: u64) -> (r: Self)
        requires
            start <= end,
        ensures
            r == Self::initial(start, end),
            r.wf(),
    {
        TransferSession {
            start,
            cursor: start,
            end,
            status: if start < end { TransferStatus::Running } else { TransferStatus::Complete },
        }
    }

    /// The number of bytes of the range not sent yet.
    pub fn remaining(&self) -> (r: u64)
        requires
            self.wf(),
        ensures
            r == self.end - self.cursor,
    {
        self.end - self.cursor
    }

    /// The call of the primitive to make next, or `None` once the transfer is over.
    pub fn next_chunk(&self) -> (r: Option<Chunk>)
        requires
            self.wf(),
        ensures
            r == self.spec_next_chunk(),
    {
        if self.status == TransferStatus::Running {
            let left = self.end - self.cursor;
            let count = if CHUNK_SIZE <= left { CHUNK_SIZE } else { left };
            Some(Chunk { offset: self.cursor, count })
        } else {
            None
        }
    }

    /// Records what the primitive reported for the chunk that `next_chunk`
    /// handed out, and says what to do next. A would-block report changes
    /// nothing, so the same chunk is sent again once the socket is writable.
    pub fn record(&mut self, o: SendOutcome) -> (r: Reaction)
        requires
            old(self).wf(),
        ensures
            *final(self) == old(self).after(o),
            final(self).wf(),
            r == old(self).reaction(o),
    {
        if self.status != TransferStatus::Running {
            return Reaction::Stop;
        }
        let left = self.end - self.cursor;
        let count = if CHUNK_SIZE <= left { CHUNK_SIZE } else { left };
        match o {
            SendOutcome::Sent(n) => {
                if n == 0 {
                    self.status = TransferStatus::PeerClosed;
                    Reaction::Stop
                } else if n > count {
                    self.status = TransferStatus::Aborted;
                    Reaction::Stop
                } else {
                    self.cursor = self.cursor + n;
                    if self.cursor == self.end {
                        self.status = TransferStatus::Complete;
                        Reaction::Stop
                    } else {
                        Reaction::Continue
                    }
                }
            },
            SendOutcome::WouldBlock => Reaction::WaitWritable,
            SendOutcome::Failed => {
                self.status = TransferStatus::Aborted;
                Reaction::Stop
            },
        }
    }
}

/// The session after the primitive reported each of `outs` in turn.
pub open spec fn run(s: TransferSession, outs: Seq<SendOutcome>) -> TransferSession
    decreases outs.len(),
{
    if outs.len() == 0 {
        s
    } else {
        run(s, outs.drop_last()).after(outs.last())
    }
}

/// The bytes of `file` that reach the peer when the primitive reports `o`
/// for the chunk that session `s` handed out: a report of `n` bytes for a
/// chunk at `offset` means that `file[offset .. offset + n]` was copied.
pub open spec fn step_bytes(file: Seq<u8>, s: TransferSession, o: SendOutcome) -> Seq<u8> {
    match (s.spec_next_chunk(), o) {
        (Some(c), SendOutcome::Sent(n)) => if 0 < n <= c.count {
            file.subrange(c.offset as int, c.offset + n)
        } else {
            Seq::empty()
        },
        _ => Seq::empty(),
    }
}

/// The bytes of `file` that reach the peer while the primitive reports
/// `outs` in turn.
pub open spec fn delivered(file: Seq<u8>, s: TransferSession, outs: Seq<SendOutcome>) -> Seq<u8>
    decreases outs.len(),
{
    if outs.len() == 0 {
        Seq::empty()
    } else {
        delivered(file, s, outs.drop_last()) + step_bytes(file, run(s, outs.drop_last()), outs.last())
    }
}

/// `n` would-block reports in a row.
pub open spec fn would_blocks(n: nat) -> Seq<SendOutcome> {
    Seq::new(n, |i: int| SendOutcome::WouldBlock)
}

/// Every step keeps a session well formed, its range fixed, and its cursor
/// moving forward only.
pub proof fn lemma_run_keeps_wf(s: TransferSession, outs: Seq<SendOutcome>)
    requires
        s.wf(),
    ensures
        run(s, outs).wf(),
        run(s, outs).start == s.start,
        run(s, outs).end == s.end,
        s.cursor <= run(s, outs).cursor,
    decreases outs.len(),
{
    if outs.len() > 0 {
        lemma_run_keeps_wf(s, outs.drop_last());
    }
}

/// Backpressure: any number of would-block reports leave the session as it
/// was, so no byte is skipped or sent twice while the peer does not read.
pub proof fn lemma_waiting_changes_nothing(s: TransferSession, n: nat)
    ensures
        run(s, would_blocks(n)) == s,
    decreases n,
{
    if n > 0 {
        assert(would_blocks(n).drop_last() =~= would_blocks((n - 1) as nat));
        lemma_waiting_changes_nothing(s, (n - 1) as nat);
    }
}

/// Retrying after any number of would-block reports ends where a first
/// successful call would have: same session, same bytes delivered.
pub proof fn lemma_retries_then_outcome(file: Seq<u8>, s: TransferSession, n: nat, o: SendOutcome)
    ensures
        run(s, would_blocks(n).push(o)) == s.after(o),
        delivered(file, s, would_blocks(n).push(o)) == delivered(file, s, seq![o]),
{
    lemma_waiting_changes_nothing(s, n);
    assert(would_blocks(n).push(o).drop_last() =~= would_blocks(n));
    assert(seq![o].drop_last() =~= Seq::<SendOutcome>::empty());
    assert(would_blocks(n).push(o).last() == o);
    assert(seq![o].last() == o);
    lemma_no_bytes_while_waiting(file, s, n);
    assert(delivered(file, s, Seq::empty()) == Seq::<u8>::empty());
    assert(run(s, Seq::empty()) == s);
    assert(delivered(file, s, would_blocks(n).push(o)) =~= step_bytes(file, s, o));
    assert(delivered(file, s, seq![o]) =~= step_bytes(file, s, o));
}

proof fn lemma_no_bytes_while_waiting(file: Seq<u8>, s: TransferSession, n: nat)
    ensures
        delivered(file, s, would_blocks(n)) == Seq::<u8>::empty(),
    decreases n,
{
    if n > 0 {
        assert(would_blocks(n).drop_last() =~= would_blocks((n - 1) as nat));
        lemma_waiting_changes_nothing(s, (n - 1) as nat);
        lemma_no_bytes_while_waiting(file, s, (n - 1) as nat);
        assert(delivered(file, s, would_blocks(n)) =~= Seq::<u8>::empty());
    }
}

/// Cursor continuity: whatever the primitive reports, the bytes delivered
/// are exactly the file's bytes from where the session stood to where its
/// cursor now stands, in order, none skipped and none repeated.
pub proof fn lemma_delivery_is_contiguous(file: Seq<u8>, s: TransferSession, outs: Seq<SendOutcome>)
    requires
        s.wf(),
        s.end <= file.len(),
    ensures
        delivered(file, s, outs) == file.subrange(s.cursor as int, run(s, outs).cursor as int),
    decreases outs.len(),
{
    if outs.len() == 0 {
        assert(file.subrange(s.cursor as int, s.cursor as int) =~= Seq::<u8>::empty());
    } else {
        let pre = outs.drop_last();
        lemma_delivery_is_contiguous(file, s, pre);
        lemma_run_keeps_wf(s, pre);
        lemma_run_keeps_wf(s, outs);
        let before = run(s, pre);
        assert(file.subrange(s.cursor as int, before.cursor as int) + file.subrange(
            before.cursor as int,
            run(s, outs).cursor as int,
        ) =~= file.subrange(s.cursor as int, run(s, outs).cursor as int));
        if before.cursor == run(s, outs).cursor {
            assert(file.subrange(before.cursor as int, before.cursor as int) =~= Seq::<u8>::empty());
        }
    }
}

/// A transfer that completes has delivered exactly the bytes `[start, end)`
/// of the file: `end - start` of them, the announced content length.
pub proof fn lemma_complete_delivers_range(file: Seq<u8>, start: u64, end: u64, outs: Seq<SendOutcome>)
    requires
        start <= end,
        end <= file.len(),
        run(TransferSession::initial(start, end), outs).status == TransferStatus::Complete,
    ensures
        delivered(file, TransferSession::initial(start, end), outs) == file.subrange(start as int, end as int),
        delivered(file, TransferSession::initial(start, end), outs).len() == end - start,
{
    let s = TransferSession::initial(start, end);
    lemma_run_keeps_wf(s, outs);
    lemma_delivery_is_contiguous(file, s, outs);
}

/// Two transfers of one range of an unchanged file that both complete
/// deliver identical bytes, however the primitive split or delayed them.
pub proof fn lemma_complete_transfers_agree(
    file: Seq<u8>,
    start: u64,
    end: u64,
    outs1: Seq<SendOutcome>,
    outs2: Seq<SendOutcome>,
)
    requires
        start <= end,
        end <= file.len(),
        run(TransferSession::initial(start, end), outs1).status == TransferStatus::Complete,
        run(TransferSession::initial(start, end), outs2).status == TransferStatus::Complete,
    ensures
        delivered(file, TransferSession::initial(start, end), outs1) == delivered(
            file,
            TransferSession::initial(start, end),
            outs2,
        ),
{
    lemma_complete_delivers_range(file, start, end, outs1);
    lemma_complete_delivers_range(file, start, end, outs2);
}

} // verus!
