//! The store that every connection shares: the keys with their values, and
//! the channels with their broadcast senders.

use crate::frame::bytes_contents;
use bytes::Bytes;
use tokio::sync::broadcast::{Receiver, Sender};
use vstd::prelude::*;
use vstd::utf8::*;

verus! {

/// The sending half of tokio's broadcast channel, carried through as an opaque value.
#[verifier::external_type_specification]
#[verifier::external_body]
#[verifier::reject_recursive_types(T)]
pub struct ExSender<T>(Sender<T>);

/// `tokio::sync::broadcast::channel`: a new channel that keeps up to
/// `capacity` messages for receivers that lag. The call panics on a capacity
/// of zero or above half the address space, which the precondition leaves out.
#[verifier::external_body]
fn broadcast_channel(capacity: usize) -> (r: (Sender<Bytes>, Receiver<Bytes>))
    requires
        0 < capacity <= 0x3fff_ffff,
{
    tokio::sync::broadcast::channel(capacity)
}

/// `Sender::subscribe`: one more receiver on the sender's channel, which sees
/// the messages sent after this call. Nothing is claimed of the receiver. The
/// call panics only on a channel that already has a quarter of the address
/// space in receivers, more than memory holds.
#[verifier::external_body]
fn sender_subscribe(tx: &Sender<Bytes>) -> (r: Receiver<Bytes>) {
    tx.subscribe()
}

/// `Sender::send`: how many receivers the message was queued for, or nothing
/// where the channel has no receiver.
#[verifier::external_body]
fn sender_send(tx: &Sender<Bytes>, value: Bytes) -> (r: Option<usize>) {
    tx.send(value).ok()
}

/// How many messages a channel keeps for receivers that lag; a receiver that
/// falls further behind misses messages, and no publisher waits for it.
pub const CHANNEL_CAPACITY: usize = 1028;

/// Whether two texts are the same.
pub fn same_text(a: &str, b: &str) -> (r: bool)
    ensures
        r == (a@ == b@),
{
    broadcast use {encode_utf8_decode_utf8, encode_utf8_valid_utf8};

    let x = a.as_bytes();
    let y = b.as_bytes();
    if x.len() != y.len() {
        return false;
    }
    let mut i: usize = 0;
    while i < x.len()
        invariant
            i <= x@.len(),
            x@.len() == y@.len(),
            x@ == encode_utf8(a@),
            y@ == encode_utf8(b@),
            forall|j: int| 0 <= j < i ==> x@[j] == y@[j],
        decreases x@.len() - i,
    {
        if x[i] != y[i] {
            return false;
        }
        i = i + 1;
    }
    assert(x@ =~= y@);
    assert(decode_utf8(encode_utf8(a@)) == a@);
    assert(decode_utf8(encode_utf8(b@)) == b@);
    true
}

/// No name occurs twice among the entries.
pub open spec fn names_distinct<V>(entries: Seq<(String, V)>) -> bool {
    forall|i: int, j: int|
        0 <= i < j < entries.len() ==> (#[trigger] entries[i]).0@ != (#[trigger] entries[j]).0@
}

/// Some entry goes by `name`.
pub open spec fn has_name<V>(entries: Seq<(String, V)>, name: Seq<char>) -> bool {
    exists|i: int| 0 <= i < entries.len() && (#[trigger] entries[i]).0@ == name
}

/// The place of the entry that goes by `name`.
pub open spec fn place_of<V>(entries: Seq<(String, V)>, name: Seq<char>) -> int {
    choose|i: int| 0 <= i < entries.len() && (#[trigger] entries[i]).0@ == name
}

/// The place of the entry that goes by `name`, if there is one.
pub fn find<V>(entries: &Vec<(String, V)>, name: &str) -> (r: Option<usize>)
    requires
        names_distinct(entries@),
    ensures
        match r {
            Some(i) => i < entries@.len() && entries@[i as int].0@ == name@ && has_name(entries@, name@) && place_of(entries@, name@) == i,
            None => !has_name(entries@, name@),
        },
{
    let mut i: usize = 0;
    while i < entries.len()
        invariant
            i <= entries@.len(),
            names_distinct(entries@),
            forall|j: int| 0 <= j < i ==> (#[trigger] entries@[j]).0@ != name@,
        decreases entries@.len() - i,
    {
        if same_text(entries[i].0.as_str(), name) {
            return Some(i);
        }
        i = i + 1;
    }
    None
}

/// The keys with their values and the channels with their senders.
pub struct Shared {
    data: Vec<(String, Bytes)>,
    pub_sub: Vec<(String, Sender<Bytes>)>,
}

/// Two writes to one key, in either order: a read that follows sees the whole
/// value of the write that came last, never a mix, and every other key is as
/// it was. The store changes only through `&mut`, so no read falls between
/// the halves of a write.
pub proof fn lemma_last_write_wins(
    m: Map<Seq<char>, Seq<u8>>,
    key: Seq<char>,
    v1: Seq<u8>,
    v2: Seq<u8>,
)
    ensures
        m.insert(key, v1).insert(key, v2).contains_key(key),
        m.insert(key, v1).insert(key, v2)[key] == v2,
        m.insert(key, v2).insert(key, v1)[key] == v1,
        m.insert(key, v1).insert(key, v2) == m.insert(key, v2),
        forall|other: Seq<char>|
            other != key ==> m.insert(key, v1).insert(key, v2).contains_key(other)
                == m.contains_key(other),
{
    assert(m.insert(key, v1).insert(key, v2) =~= m.insert(key, v2));
}

/// How many receivers took a message, given what the channel said of the send.
pub fn delivered(sent: Option<usize>) -> (r: usize)
    ensures
        r == match sent {
            Some(n) => n,
            None => 0,
        },
{
    match sent {
        Some(n) => n,
        None => 0,
    }
}

impl Shared {
    /// No key and no channel name occurs twice.
    pub closed spec fn wf(&self) -> bool {
        names_distinct(self.data@) && names_distinct(self.pub_sub@)
    }

    /// The store as a mapping from keys to values.
    pub closed spec fn view(&self) -> Map<Seq<char>, Seq<u8>> {
        Map::new(
            |k: Seq<char>| has_name(self.data@, k),
            |k: Seq<char>| bytes_contents(self.data@[place_of(self.data@, k)].1),
        )
    }

    /// The names of the channels that have a sender.
    pub closed spec fn channels(&self) -> Set<Seq<char>> {
        Set::new(|k: Seq<char>| has_name(self.pub_sub@, k))
    }

    /// The sender of the channel that goes by `name`.
    pub closed spec fn sender_of(&self, name: Seq<char>) -> Sender<Bytes> {
        self.pub_sub@[place_of(self.pub_sub@, name)].1
    }

    /// Every channel of `self` has in `after` the sender that it has in
    /// `self`: receivers handed out earlier stay on their channel.
    pub open spec fn senders_kept_in(&self, after: Shared) -> bool {
        forall|n: Seq<char>| #[trigger]
            self.channels().contains(n) ==> after.sender_of(n) == self.sender_of(n)
    }

    /// A store without keys and without channels.
    pub fn new() -> (r: Shared)
        ensures
            r.wf(),
            r@ == Map::<Seq<char>, Seq<u8>>::empty(),
            r.channels() == Set::<Seq<char>>::empty(),
    {
        let r = Shared { data: Vec::new(), pub_sub: Vec::new() };
        assert(r@ =~= Map::<Seq<char>, Seq<u8>>::empty());
        assert(r.channels() =~= Set::<Seq<char>>::empty());
        r
    }

    /// A copy of the value under `key`, if the key is present.
    pub fn get(&self, key: &str) -> (r: Option<Bytes>)
        requires
            self.wf(),
        ensures
            match r {
                Some(b) => self@.contains_key(key@) && bytes_contents(b) == self@[key@],
                None => !self@.contains_key(key@),
            },
    {
        match find(&self.data, key) {
            Some(i) => Some(self.data[i].1.clone()),
            None => None,
        }
    }

    /// Puts `value` under `key`, in place of what was there. The expiry, in
    /// milliseconds, is accepted and not enforced: no key ever expires.
    pub fn set(&mut self, key: String, value: Bytes, expire: Option<u64>)
        requires
            old(self).wf(),
        ensures
            final(self).wf(),
            final(self)@ == old(self)@.insert(key@, bytes_contents(value)),
            final(self).channels() == old(self).channels(),
            old(self).senders_kept_in(*final(self)),
    {
        let ghost k = key@;
        let ghost before = self.data@;
        match find(&self.data, key.as_str()) {
            Some(i) => {
                self.data[i] = (key, value);
                proof {
                    let after = self.data@;
                    assert forall|n: Seq<char>| has_name(after, n) == has_name(before, n) by {
                        if has_name(before, n) {
                            let j = place_of(before, n);
                            assert(after[j].0@ == n);
                        }
                        if has_name(after, n) {
                            let j = place_of(after, n);
                            assert(before[j].0@ == n);
                        }
                    }
                    assert forall|n: Seq<char>| has_name(after, n) implies bytes_contents(
                        after[place_of(after, n)].1,
                    ) == (if n == k {
                        bytes_contents(value)
                    } else {
                        bytes_contents(before[place_of(before, n)].1)
                    }) by {
                        let j = place_of(after, n);
                        let j0 = place_of(before, n);
                        assert(before[j].0@ == n);
                        assert(before[j0].0@ == n);
                        assert(j == j0);
                    }
                }
            },
            None => {
                self.data.push((key, value));
                proof {
                    let after = self.data@;
                    let last = before.len() as int;
                    assert(after[last].0@ == k);
                    assert forall|n: Seq<char>| has_name(after, n) == (n == k || has_name(before, n)) by {
                        if has_name(before, n) {
                            let j = place_of(before, n);
                            assert(after[j].0@ == n);
                        }
                        if has_name(after, n) && n != k {
                            let j = place_of(after, n);
                            assert(before[j].0@ == n);
                        }
                    }
                    assert forall|n: Seq<char>| has_name(after, n) implies bytes_contents(
                        after[place_of(after, n)].1,
                    ) == (if n == k {
                        bytes_contents(value)
                    } else {
                        bytes_contents(before[place_of(before, n)].1)
                    }) by {
                        let j = place_of(after, n);
                        if n != k {
                            let j0 = place_of(before, n);
                            assert(after[j0].0@ == n);
                            assert(j == j0);
                        } else {
                            assert(j == last);
                        }
                    }
                }
            },
        }
        assert(self@ =~= old(self)@.insert(k, bytes_contents(value)));
    }

    /// A new receiver on `channel`, whose sender is made on the first call
    /// for that name and kept from then on: every channel that was there,
    /// this one too, keeps the sender that it had.
    pub fn subscribe(&mut self, channel: String) -> (r: Receiver<Bytes>)
        requires
            old(self).wf(),
        ensures
            final(self).wf(),
            final(self).channels() == old(self).channels().insert(channel@),
            old(self).senders_kept_in(*final(self)),
            final(self)@ == old(self)@,
    {
        let ghost k = channel@;
        let ghost before = self.pub_sub@;
        match find(&self.pub_sub, channel.as_str()) {
            Some(i) => {
                assert(self.channels() =~= old(self).channels().insert(k));
                sender_subscribe(&self.pub_sub[i].1)
            },
            None => {
                let (tx, rx) = broadcast_channel(CHANNEL_CAPACITY);
                self.pub_sub.push((channel, tx));
                proof {
                    let after = self.pub_sub@;
                    let last = before.len() as int;
                    assert(after[last].0@ == k);
                    assert forall|n: Seq<char>| has_name(after, n) == (n == k || has_name(before, n)) by {
                        if has_name(before, n) {
                            let j = place_of(before, n);
                            assert(after[j].0@ == n);
                        }
                        if has_name(after, n) && n != k {
                            let j = place_of(after, n);
                            assert(before[j].0@ == n);
                        }
                    }
                    assert(self.channels() =~= old(self).channels().insert(k));
                    assert forall|n: Seq<char>| has_name(before, n) implies after[place_of(
                        after,
                        n,
                    )].1 == before[place_of(before, n)].1 by {
                        let j = place_of(after, n);
                        let j0 = place_of(before, n);
                        assert(after[j0].0@ == n);
                        assert(j == j0);
                    }
                }
                rx
            },
        }
    }

    /// Sends `value` to the receivers of `channel` and says how many took it:
    /// none where the channel has no sender or no receiver is left.
    pub fn publish(&self, channel: &str, value: Bytes) -> (r: usize)
        requires
            self.wf(),
        ensures
            !self.channels().contains(channel@) ==> r == 0,
    {
        match find(&self.pub_sub, channel) {
            Some(i) => delivered(sender_send(&self.pub_sub[i].1, value)),
            None => 0,
        }
    }
}

} // verus!
