//! Snapshot-driven recovery.
//!
//! The manager owns a book and remembers the sequence number of the last
//! snapshot applied. Incremental updates whose sequence number does not
//! exceed that snapshot's are already reflected in it and are rejected as
//! stale, leaving the book untouched.

use vstd::prelude::*;
use crate::book_builder::{
    spec_apply_rel, spec_book_wf, spec_snapshot_applied, BookError, BookView, OrderBook,
};
use crate::decoder::{spec_sequence_of, MessageRef, MessageView};

verus! {

/// Why the recovery manager rejected a message.
#[derive(Debug, Clone, Copy, PartialEq, Eq, Structural)]
pub enum RecoveryError {
    /// `apply_snapshot` was handed a message that is not a snapshot.
    NotSnapshot,
    /// An update's sequence number does not exceed the last snapshot's.
    StaleUpdate,
    /// The book itself rejected the update.
    Book(BookError),
}

/// True when, with `last` as the last snapshot sequence number, a
/// message carrying `m`'s sequence number is already covered by the
/// snapshot.
pub open spec fn spec_is_stale(last: Option<u32>, m: MessageView) -> bool {
    match last {
        Some(ls) => spec_sequence_of(m) <= ls,
        None => false,
    }
}

/// Abstract state of a recovery manager.
pub struct RecoveryView {
    pub last_snapshot_seq: Option<u32>,
    pub book: BookView,
}

/// Gates a book behind snapshot recovery.
#[derive(Debug, Clone)]
pub struct RecoveryManager {
    last_snapshot_seq: Option<u32>,
    book: OrderBook,
}

impl View for RecoveryManager {
    type V = RecoveryView;

    closed spec fn view(&self) -> RecoveryView {
        RecoveryView { last_snapshot_seq: self.last_snapshot_seq, book: self.book@ }
    }
}

impl RecoveryManager {
    /// A well-formed manager owns a well-formed book.
    pub open spec fn wf(&self) -> bool {
        spec_book_wf(self@.book)
    }

    /// A fresh manager: empty book, no snapshot seen.
    pub fn new() -> (r: Self)
        ensures
            r.wf(),
            r@.last_snapshot_seq is None,
            r@.book.bids == Seq::<(u64, u32)>::empty(),
            r@.book.asks == Seq::<(u64, u32)>::empty(),
            r@.book.orders == Seq::<crate::book_builder::Order>::empty(),
    {
        RecoveryManager { last_snapshot_seq: None, book: OrderBook::new() }
    }

    /// Reset the book from a snapshot message and remember its sequence
    /// number; any other message kind is rejected untouched.
    pub fn apply_snapshot(&mut self, msg: &MessageRef) -> (r: Result<u32, RecoveryError>)
        requires
            old(self).wf(),
        ensures
            final(self).wf(),
            (match msg@ {
                MessageView::Snapshot(sv) => {
                    &&& r == Ok::<u32, RecoveryError>(sv.header.header.sequence)
                    &&& final(self)@.last_snapshot_seq == Some(sv.header.header.sequence)
                    &&& spec_snapshot_applied(final(self)@.book, sv)
                },
                _ => r == Err::<u32, RecoveryError>(RecoveryError::NotSnapshot)
                    && final(self)@ == old(self)@,
            }),
    {
        match msg {
            MessageRef::Snapshot(_) => {
                let seq_num = msg.sequence();
                let applied = self.book.apply_message(msg);
                proof {
                    assert(applied is Ok);
                }
                self.last_snapshot_seq = Some(seq_num);
                Ok(seq_num)
            },
            _ => Err(RecoveryError::NotSnapshot),
        }
    }

    /// Apply an incremental update, unless it is stale.
    ///
    /// With a last snapshot at sequence `ls`, a message whose sequence
    /// number is at most `ls` is rejected as `StaleUpdate` and the book
    /// is untouched; otherwise the book applies the message under its own
    /// contract, and a book rejection is passed on.
    pub fn apply_update(&mut self, msg: &MessageRef) -> (r: Result<(), RecoveryError>)
        requires
            old(self).wf(),
        ensures
            final(self).wf(),
            final(self)@.last_snapshot_seq == old(self)@.last_snapshot_seq,
            (if spec_is_stale(old(self)@.last_snapshot_seq, msg@) {
                r == Err::<(), RecoveryError>(RecoveryError::StaleUpdate) && final(self)@
                    == old(self)@
            } else {
                match r {
                    Ok(u) => spec_apply_rel(
                        old(self)@.book,
                        final(self)@.book,
                        msg@,
                        Ok(u),
                    ),
                    Err(e) => e matches RecoveryError::Book(be) && spec_apply_rel(
                        old(self)@.book,
                        final(self)@.book,
                        msg@,
                        Err(be),
                    ),
                }
            }),
    {
        let seq_num = msg.sequence();
        if let Some(last_snap) = self.last_snapshot_seq {
            if seq_num <= last_snap {
                return Err(RecoveryError::StaleUpdate);
            }
        }
        match self.book.apply_message(msg) {
            Ok(u) => Ok(u),
            Err(e) => Err(RecoveryError::Book(e)),
        }
    }

    /// Sequence number of the last snapshot applied, if any.
    pub fn last_snapshot_sequence(&self) -> (r: Option<u32>)
        ensures
            r == self@.last_snapshot_seq,
    {
        self.last_snapshot_seq
    }

    /// The managed book.
    pub fn book(&self) -> (r: &OrderBook)
        ensures
            r@ == self@.book,
            r.wf() == self.wf(),
    {
        &self.book
    }

    /// Mutable access to the managed book.
    pub fn book_mut(&mut self) -> (r: &mut OrderBook)
        ensures
            r@ == old(self)@.book,
            final(self)@.book == final(r)@,
            final(self)@.last_snapshot_seq == old(self)@.last_snapshot_seq,
    {
        &mut self.book
    }

    /// Forget the snapshot and empty the book.
    pub fn reset(&mut self)
        ensures
            final(self).wf(),
            final(self)@.last_snapshot_seq is None,
            final(self)@.book.bids == Seq::<(u64, u32)>::empty(),
            final(self)@.book.asks == Seq::<(u64, u32)>::empty(),
            final(self)@.book.orders == Seq::<crate::book_builder::Order>::empty(),
    {
        self.last_snapshot_seq = None;
        self.book = OrderBook::new();
    }

    /// True until the first snapshot has been applied.
    pub fn needs_recovery(&self) -> (r: bool)
        ensures
            r == (self@.last_snapshot_seq is None),
    {
        self.last_snapshot_seq.is_none()
    }
}

impl Default for RecoveryManager {
    /// Same as `new`: empty book, no snapshot seen.
    fn default() -> (r: Self)
        ensures
            r.wf(),
            r@.last_snapshot_seq is None,
    {
        Self::new()
    }
}

/// Snapshot gating: once a snapshot with sequence number `s` has been
/// applied, every update carrying a sequence number at most `s` is
/// rejected as stale with the book unchanged — exactly what the
/// contracts of `apply_snapshot` and `apply_update` compose to.
pub proof fn lemma_snapshot_gates_stale_updates(
    after_snapshot: RecoveryView,
    s: u32,
    u: MessageView,
)
    requires
        after_snapshot.last_snapshot_seq == Some(s),
        spec_sequence_of(u) <= s,

    ensures
        forall|post: RecoveryView, r: Result<(), RecoveryError>|
            spec_update_rel(after_snapshot, post, u, r) ==> r == Err::<(), RecoveryError>(
                RecoveryError::StaleUpdate,
            ) && post == after_snapshot,
{
}

/// The update-gating relation of `apply_update`, written over views.
pub open spec fn spec_update_rel(
    pre: RecoveryView,
    post: RecoveryView,
    m: MessageView,
    r: Result<(), RecoveryError>,
) -> bool {
    &&& post.last_snapshot_seq == pre.last_snapshot_seq
    &&& (if spec_is_stale(pre.last_snapshot_seq, m) {
        r == Err::<(), RecoveryError>(RecoveryError::StaleUpdate) && post == pre
    } else {
        match r {
            Ok(u) => spec_apply_rel(pre.book, post.book, m, Ok(u)),
            Err(e) => e matches RecoveryError::Book(be) && spec_apply_rel(
                pre.book,
                post.book,
                m,
                Err(be),
            ),
        }
    })
}

} // verus!
