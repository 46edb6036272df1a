//! The queue handle, and the stream adapter over it.
use vstd::prelude::*;
use crate::name::{incoming_name, incoming_of, is_plain, item_name, item_name_string};

verus! {

/// Why a handle could not name a new item.
#[derive(PartialEq, Eq, Structural, Clone, Copy, Debug)]
pub enum NameError {
    /// The counter has reached its largest value.
    CounterExhausted,
    /// The nonce generator failed.
    NonceUnavailable,
    /// The nonce held a character that a visible name cannot hold.
    BadNonce,
}

/// The two names of a new item: the one it is written under, and the one
/// that publishes it.
pub struct ItemNames {
    pub incoming: String,
    pub visible: String,
}

/// A handle on a spool directory. It holds the directory's path and the
/// counter that orders the names of the items it writes; the counter starts
/// at zero with each handle and is never stored.
pub struct Queue<T> {
    path: String,
    seq: u64,
    marker: std::marker::PhantomData<T>,
}

/// Relies on textnonce::TextNonce::sized_urlsafe(32): a fresh nonce of 32
/// URL-safe base64 characters, or an error where the clock reads before the
/// Unix epoch.
#[verifier::external_body]
fn fresh_nonce() -> (r: Option<String>)
    ensures
        r matches Some(s) ==> s@.len() == 32,
{
    match textnonce::TextNonce::sized_urlsafe(32) {
        Ok(n) => Some(n.into_string()),
        Err(_) => None,
    }
}

impl<T> Queue<T> {
    /// The path of the spool directory.
    pub closed spec fn spool_path(&self) -> Seq<char> {
        self.path@
    }

    /// The counter value that the next item will carry.
    pub closed spec fn counter(&self) -> u64 {
        self.seq
    }

    /// A handle on the spool directory at `path`, with its counter at zero.
    /// The directory itself is made by the caller.
    pub fn new(path: &str) -> (r: Queue<T>)
        ensures
            r.spool_path() == path@,
            r.counter() == 0,
    {
        Queue { path: String::from_str(path), seq: 0, marker: std::marker::PhantomData }
    }

    /// The path of the spool directory.
    pub fn path(&self) -> (r: &str)
        ensures
            r@ == self.spool_path(),
    {
        self.path.as_str()
    }

    /// The counter value that the next item will carry.
    pub fn seq(&self) -> (r: u64)
        ensures
            r == self.counter(),
    {
        self.seq
    }

    /// Names the next item with the given nonce and advances the counter.
    /// Fails, changing nothing, where the counter is exhausted or the nonce is
    /// not a plain name.
    pub fn next_names(&mut self, nonce: &str) -> (r: Result<ItemNames, NameError>)
        ensures
            final(self).spool_path() == old(self).spool_path(),
            old(self).counter() == u64::MAX ==> r == Err::<ItemNames, NameError>(
                NameError::CounterExhausted,
            ),
            old(self).counter() < u64::MAX && !is_plain(nonce@) ==> r == Err::<ItemNames, NameError>(
                NameError::BadNonce,
            ),
            r is Err ==> final(self).counter() == old(self).counter(),
            old(self).counter() < u64::MAX && is_plain(nonce@) ==> {
                &&& r matches Ok(names)
                &&& names.visible@ == item_name(old(self).counter(), nonce@)
                &&& names.incoming@ == incoming_of(names.visible@)
                &&& final(self).counter() == old(self).counter() + 1
            },
    {
        if self.seq == u64::MAX {
            return Err(NameError::CounterExhausted);
        }
        match item_name_string(self.seq, nonce) {
            None => Err(NameError::BadNonce),
            Some(visible) => {
                let incoming = incoming_name(visible.as_str());
                self.seq = self.seq + 1;
                Ok(ItemNames { incoming, visible })
            },
        }
    }

    /// Names the next item with a fresh nonce and advances the counter. On
    /// success the visible name is the current counter value's order key, a
    /// dash and the nonce; on failure nothing changes.
    pub fn push_names(&mut self) -> (r: Result<ItemNames, NameError>)
        ensures
            final(self).spool_path() == old(self).spool_path(),
            r is Err ==> final(self).counter() == old(self).counter(),
            old(self).counter() == u64::MAX <==> r == Err::<ItemNames, NameError>(
                NameError::CounterExhausted,
            ),
            r matches Ok(names) ==> {
                &&& final(self).counter() == old(self).counter() + 1
                &&& names.incoming@ == incoming_of(names.visible@)
                &&& exists|k: Seq<char>|
                    k.len() == 32 && is_plain(k) && names.visible@ == item_name(old(self).counter(), k)
            },
    {
        if self.seq == u64::MAX {
            return Err(NameError::CounterExhausted);
        }
        match fresh_nonce() {
            None => Err(NameError::NonceUnavailable),
            Some(k) => self.next_names(k.as_str()),
        }
    }
}

/// What one poll of a queue stream yields.
pub enum StreamPoll<T, E> {
    /// An item was taken.
    Ready(T),
    /// Nothing is visible yet; poll again later.
    NotReady,
    /// Taking an item failed.
    Failed(E),
}

/// The step of a queue stream for the outcome of one pop: an item is
/// yielded, an empty spool means "not ready yet", an error is passed on. The
/// stream never ends by itself.
pub fn stream_step<T, E>(popped: Result<Option<T>, E>) -> (r: StreamPoll<T, E>)
    ensures
        match popped {
            Ok(Some(t)) => r == StreamPoll::<T, E>::Ready(t),
            Ok(None) => r == StreamPoll::<T, E>::NotReady,
            Err(e) => r == StreamPoll::<T, E>::Failed(e),
        },
{
    match popped {
        Ok(Some(t)) => StreamPoll::Ready(t),
        Ok(None) => StreamPoll::NotReady,
        Err(e) => StreamPoll::Failed(e),
    }
}

/// A queue seen as a lazily produced sequence of items.
pub struct QueueStream<T> {
    queue: Queue<T>,
}

impl<T> QueueStream<T> {
    /// The queue that the stream takes its items from.
    pub closed spec fn inner(&self) -> Queue<T> {
        self.queue
    }

    /// A stream over `q`.
    pub fn new(q: Queue<T>) -> (r: QueueStream<T>)
        ensures
            r.inner() == q,
    {
        QueueStream { queue: q }
    }

    /// The underlying queue.
    pub fn queue(&self) -> (r: &Queue<T>)
        ensures
            *r == self.inner(),
    {
        &self.queue
    }

    /// The underlying queue, to push to it or change it.
    pub fn mut_queue(&mut self) -> (r: &mut Queue<T>)
        ensures
            *r == old(self).inner(),
            final(self).inner() == *final(r),
    {
        &mut self.queue
    }
}

} // verus!
