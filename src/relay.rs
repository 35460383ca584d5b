use vstd::prelude::*;

verus! {

/// Most bytes asked of one kernel transfer call.
pub const CHUNK: usize = 8192;

/// What one kernel transfer call reported.
#[derive(PartialEq, Eq, Structural, Clone, Copy, Debug)]
pub enum Splice {
    Moved(usize),
    WouldBlock,
    Failed,
}

/// How a transfer from one socket to another ended.
#[derive(PartialEq, Eq, Structural, Clone, Copy, Debug)]
pub enum Transfer {
    /// This many bytes reached the destination, more than none.
    Moved(u64),
    /// Nothing could be moved now.
    WouldBlock,
    /// An end of stream, with nothing moved before it.
    Eof,
    Failed,
}

/// The next call that a transfer asks for, or its end.
#[derive(PartialEq, Eq, Structural, Clone, Copy, Debug)]
pub enum Step {
    /// Move up to `CHUNK` bytes from the source into the conduit.
    Fill,
    /// Move what the conduit holds into the destination.
    Drain,
    Done(Transfer),
}

/// One transfer in progress: the bytes that reached the destination, and
/// those that wait in the conduit between the two sockets. The conduit
/// outlives a transfer, so what waits in it is carried to the next one.
#[derive(PartialEq, Eq, Structural, Clone, Copy, Debug)]
pub struct Relay {
    pub moved: u64,
    pub pending: usize,
}

/// How a transfer ends when the source or destination has nothing more now.
pub open spec fn pause(moved: u64) -> Transfer {
    if moved > 0 {
        Transfer::Moved(moved)
    } else {
        Transfer::WouldBlock
    }
}

/// The first call of a transfer: drain what waits in the conduit, else fill it.
pub open spec fn first_step(pending: usize) -> Step {
    if pending > 0 {
        Step::Drain
    } else {
        Step::Fill
    }
}

/// The relay and the next step after a fill call reported `s`.
pub open spec fn after_fill(r: Relay, s: Splice) -> (Relay, Step) {
    match s {
        Splice::Moved(n) => if n == 0 {
            (r, Step::Done(if r.moved > 0 { Transfer::Moved(r.moved) } else { Transfer::Eof }))
        } else {
            (Relay { moved: r.moved, pending: n }, Step::Drain)
        },
        Splice::WouldBlock => (r, Step::Done(pause(r.moved))),
        Splice::Failed => (r, Step::Done(Transfer::Failed)),
    }
}

/// The relay and the next step after a drain call reported `s`. A transfer
/// also ends once its count comes within `CHUNK` of the largest `u64`.
pub open spec fn after_drain(r: Relay, s: Splice) -> (Relay, Step) {
    match s {
        Splice::Moved(n) => if n == 0 {
            (r, Step::Done(Transfer::Eof))
        } else {
            let q = Relay { moved: (r.moved + n) as u64, pending: (r.pending - n) as usize };
            if q.moved > u64::MAX - CHUNK {
                (q, Step::Done(Transfer::Moved(q.moved)))
            } else {
                (q, first_step(q.pending))
            }
        },
        Splice::WouldBlock => (r, Step::Done(pause(r.moved))),
        Splice::Failed => (r, Step::Done(Transfer::Failed)),
    }
}

impl Relay {
    /// A transfer that starts with `pending` bytes in the conduit.
    pub fn start(pending: usize) -> (r: (Relay, Step))
        ensures
            r.0 == (Relay { moved: 0, pending }),
            r.1 == first_step(pending),
    {
        let step = if pending > 0 {
            Step::Drain
        } else {
            Step::Fill
        };
        (Relay { moved: 0, pending }, step)
    }

    /// Takes the report of a fill call, which the conduit's size bounds by `CHUNK`.
    pub fn on_fill(&mut self, s: Splice) -> (r: Step)
        requires
            old(self).pending == 0,
            old(self).moved <= u64::MAX - CHUNK,
            s matches Splice::Moved(n) ==> n <= CHUNK,
        ensures
            (*final(self), r) == after_fill(*old(self), s),
    {
        match s {
            Splice::Moved(n) => {
                if n == 0 {
                    if self.moved > 0 {
                        Step::Done(Transfer::Moved(self.moved))
                    } else {
                        Step::Done(Transfer::Eof)
                    }
                } else {
                    self.pending = n;
                    Step::Drain
                }
            },
            Splice::WouldBlock => {
                if self.moved > 0 {
                    Step::Done(Transfer::Moved(self.moved))
                } else {
                    Step::Done(Transfer::WouldBlock)
                }
            },
            Splice::Failed => Step::Done(Transfer::Failed),
        }
    }

    /// Takes the report of a drain call, which moves no more than the conduit holds.
    pub fn on_drain(&mut self, s: Splice) -> (r: Step)
        requires
            old(self).pending > 0,
            old(self).pending <= CHUNK,
            old(self).moved <= u64::MAX - CHUNK,
            s matches Splice::Moved(n) ==> n <= old(self).pending,
        ensures
            (*final(self), r) == after_drain(*old(self), s),
    {
        match s {
            Splice::Moved(n) => {
                if n == 0 {
                    Step::Done(Transfer::Eof)
                } else {
                    self.moved = self.moved + n as u64;
                    self.pending = self.pending - n;
                    if self.moved > u64::MAX - CHUNK as u64 {
                        Step::Done(Transfer::Moved(self.moved))
                    } else if self.pending > 0 {
                        Step::Drain
                    } else {
                        Step::Fill
                    }
                }
            },
            Splice::WouldBlock => {
                if self.moved > 0 {
                    Step::Done(Transfer::Moved(self.moved))
                } else {
                    Step::Done(Transfer::WouldBlock)
                }
            },
            Splice::Failed => Step::Done(Transfer::Failed),
        }
    }
}

/// A transfer that meets would-block after moving bytes reports them as moved,
/// and what waits in the conduit is left for the next transfer, which starts by
/// draining it: nothing is dropped or sent twice.
pub proof fn lemma_would_block_keeps_progress(r: Relay)
    requires
        r.moved > 0,
    ensures
        after_fill(r, Splice::WouldBlock) == (r, Step::Done(Transfer::Moved(r.moved))),
        after_drain(r, Splice::WouldBlock) == (r, Step::Done(Transfer::Moved(r.moved))),
        r.pending > 0 ==> first_step(after_drain(r, Splice::WouldBlock).0.pending) == Step::Drain,
{
}

/// Every byte taken from the source either reached the destination or still
/// waits in the conduit: a fill adds to the conduit, a drain moves from it.
pub proof fn lemma_bytes_conserved(r: Relay, n: usize)
    requires
        r.pending == 0,
        0 < n <= CHUNK,
        r.moved <= u64::MAX - CHUNK,
    ensures
        after_fill(r, Splice::Moved(n)).0.moved + after_fill(r, Splice::Moved(n)).0.pending
            == r.moved + n,
        forall|k: usize|
            0 < k <= n ==> #[trigger] after_drain(after_fill(r, Splice::Moved(n)).0, Splice::Moved(k)).0.moved
                + after_drain(after_fill(r, Splice::Moved(n)).0, Splice::Moved(k)).0.pending == r.moved + n,
{
}

} // verus!
