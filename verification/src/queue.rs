//! The bounded channel that idle lanes wait in.

use tokio::sync::mpsc;
use vstd::prelude::*;

verus! {

/// The sending half of a `tokio` bounded channel, as an opaque value.
#[verifier::external_type_specification]
#[verifier::external_body]
#[verifier::reject_recursive_types(T)]
pub struct ExSender<T>(mpsc::Sender<T>);

/// The receiving half of a `tokio` bounded channel, as an opaque value.
#[verifier::external_type_specification]
#[verifier::external_body]
#[verifier::reject_recursive_types(T)]
pub struct ExReceiver<T>(mpsc::Receiver<T>);

/// Both halves of one bounded channel. No other handle to the channel exists, so
/// its contents change only through `put` and `take`.
#[verifier::reject_recursive_types(T)]
pub struct LaneQueue<T> {
    tx: mpsc::Sender<T>,
    rx: mpsc::Receiver<T>,
    /// What the channel holds, in the order in which it will be received.
    items: Ghost<Seq<T>>,
    /// The number of items the channel was made for.
    bound: Ghost<nat>,
}

impl<T> LaneQueue<T> {
    /// What the channel holds, in the order in which it will be received.
    pub closed spec fn items(self) -> Seq<T> {
        self.items@
    }

    /// The number of items the channel was made for.
    pub closed spec fn bound(self) -> nat {
        self.bound@
    }

    /// Calls `tokio::sync::mpsc::channel`, which makes an empty channel for `bound`
    /// items. It panics on 0, and on more than `Semaphore::MAX_PERMITS`, which is
    /// `usize::MAX >> 3`.
    #[verifier::external_body]
    pub(crate) fn open(bound: usize) -> (queue: LaneQueue<T>)
        requires
            0 < bound <= usize::MAX / 8,
        ensures
            queue.items() == Seq::<T>::empty(),
            queue.bound() == bound,
    {
        let (tx, rx) = mpsc::channel(bound);
        LaneQueue { tx, rx, items: Ghost(Seq::empty()), bound: Ghost(bound as nat) }
    }

    /// Calls `tokio::sync::mpsc::Sender::try_send`. It appends the item while the
    /// channel holds fewer than it was made for, and otherwise hands the item back
    /// and leaves the channel as it was. The receiver lives as long as the sender,
    /// so the channel is never closed. It does not unwind.
    #[verifier::external_body]
    pub(crate) fn put(&mut self, item: T) -> (sent: Result<(), T>)
        ensures
            final(self).bound() == old(self).bound(),
            old(self).items().len() < old(self).bound() ==> sent is Ok && final(self).items()
                == old(self).items().push(item),
            old(self).items().len() >= old(self).bound() ==> sent is Err && sent->Err_0 == item
                && final(self).items() == old(self).items(),
        no_unwind
    {
        match self.tx.try_send(item) {
            Ok(()) => Ok(()),
            Err(mpsc::error::TrySendError::Full(back)) => Err(back),
            Err(mpsc::error::TrySendError::Closed(back)) => Err(back),
        }
    }

    /// Calls `tokio::sync::mpsc::Receiver::try_recv`. It takes the item that was sent
    /// first, and fails exactly when the channel is empty. It does not unwind.
    #[verifier::external_body]
    pub(crate) fn take(&mut self) -> (item: Option<T>)
        ensures
            final(self).bound() == old(self).bound(),
            old(self).items().len() > 0 ==> item == Some(old(self).items()[0])
                && final(self).items() == old(self).items().drop_first(),
            old(self).items().len() == 0 ==> item is None && final(self).items()
                == old(self).items(),
        no_unwind
    {
        self.rx.try_recv().ok()
    }
}

} // verus!
