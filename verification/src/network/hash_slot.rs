//! Hash slots: which of the 16384 slots of a cluster a key belongs to.

use vstd::prelude::*;
use crate::resp::text::{find_byte, index_of, lemma_find_byte, lemma_find_byte_is};
use crate::resp::wire::no_byte;

verus! {

/// Number of slots of a cluster.
pub const SLOT_COUNT: u16 = 16384;

/// The byte `{`, which opens a hash tag.
pub const OPEN_BRACE: u8 = 123;

/// The byte `}`, which closes a hash tag.
pub const CLOSE_BRACE: u8 = 125;

/// The CRC16 checksum of a message in its XMODEM variant.
pub uninterp spec fn crc16_xmodem(msg: Seq<u8>) -> u16;

/// `crc16::State::<crc16::XMODEM>::calculate`: the XMODEM checksum of the
/// message, a function of its bytes alone.
#[verifier::external_body]
pub(crate) fn crc16(msg: &[u8]) -> (r: u16)
    ensures
        r == crc16_xmodem(msg@),
{
    crc16::State::<crc16::XMODEM>::calculate(msg)
}

/// A short list of keys, kept inline up to ten: a `smallvec::SmallVec` of
/// byte strings. Nothing is known of what is inside but what `key_list`
/// names.
#[verifier::external_body]
#[derive(Debug, PartialEq, Eq)]
pub struct KeyList {
    inner: smallvec::SmallVec<[Vec<u8>; 10]>,
}

/// The keys that the `SmallVec` of a key list holds, in order.
pub uninterp spec fn key_list(keys: KeyList) -> Seq<Seq<u8>>;

/// A short list of slots, kept inline up to ten: a `smallvec::SmallVec` of
/// slots. Nothing is known of what is inside but what `slot_list` names.
#[verifier::external_body]
#[derive(Debug, PartialEq, Eq)]
pub struct SlotList {
    inner: smallvec::SmallVec<[u16; 10]>,
}

/// The slots that the `SmallVec` of a slot list holds, in order.
pub uninterp spec fn slot_list(slots: SlotList) -> Seq<u16>;

/// `SmallVec::new`: a list that holds nothing.
#[verifier::external_body]
pub(crate) fn key_list_new() -> (r: KeyList)
    ensures
        key_list(r) == Seq::<Seq<u8>>::empty(),
{
    KeyList { inner: smallvec::SmallVec::new() }
}

/// `SmallVec::push`: the list holds one more key, at its end.
#[verifier::external_body]
pub(crate) fn key_list_push(keys: &mut KeyList, key: Vec<u8>)
    ensures
        key_list(*final(keys)) == key_list(*old(keys)).push(key@),
{
    keys.inner.push(key)
}

/// `SmallVec::len`: the number of keys that the list holds.
#[verifier::external_body]
pub(crate) fn key_list_len(keys: &KeyList) -> (n: usize)
    ensures
        n == key_list(*keys).len(),
{
    keys.inner.len()
}

/// `Index::index` of `SmallVec`: the key at `index`. It panics where the
/// list holds no such key.
#[verifier::external_body]
pub(crate) fn key_list_get(keys: &KeyList, index: usize) -> (key: &Vec<u8>)
    requires
        index < key_list(*keys).len(),
    ensures
        key@ == key_list(*keys)[index as int],
{
    &keys.inner[index]
}

/// `SmallVec::new`: a list that holds nothing.
#[verifier::external_body]
pub(crate) fn slot_list_new() -> (r: SlotList)
    ensures
        slot_list(r) == Seq::<u16>::empty(),
{
    SlotList { inner: smallvec::SmallVec::new() }
}

/// `SmallVec::push`: the list holds one more slot, at its end.
#[verifier::external_body]
pub(crate) fn slot_list_push(slots: &mut SlotList, slot: u16)
    ensures
        slot_list(*final(slots)) == slot_list(*old(slots)).push(slot),
{
    slots.inner.push(slot)
}

/// `SmallVec::len`: the number of slots that the list holds.
#[verifier::external_body]
pub(crate) fn slot_list_len(slots: &SlotList) -> (n: usize)
    ensures
        n == slot_list(*slots).len(),
{
    slots.inner.len()
}

/// `Index::index` of `SmallVec`: the slot at `index`. It panics where the
/// list holds no such slot.
#[verifier::external_body]
pub(crate) fn slot_list_get(slots: &SlotList, index: usize) -> (slot: u16)
    requires
        index < slot_list(*slots).len(),
    ensures
        slot == slot_list(*slots)[index as int],
{
    slots.inner[index]
}

impl KeyList {
    /// A list that holds nothing.
    pub fn new() -> (r: KeyList)
        ensures
            key_list(r) == Seq::<Seq<u8>>::empty(),
    {
        key_list_new()
    }

    /// Appends a key.
    pub fn push(&mut self, key: Vec<u8>)
        ensures
            key_list(*final(self)) == key_list(*old(self)).push(key@),
    {
        key_list_push(self, key)
    }

    /// The number of keys.
    pub fn len(&self) -> (n: usize)
        ensures
            n == key_list(*self).len(),
    {
        key_list_len(self)
    }

    /// The key at `index`, or `None` where there is none.
    pub fn get(&self, index: usize) -> (r: Option<&Vec<u8>>)
        ensures
            match r {
                Some(key) => index < key_list(*self).len() && key@ == key_list(*self)[index as int],
                None => index >= key_list(*self).len(),
            },
    {
        if index < key_list_len(self) {
            Some(key_list_get(self, index))
        } else {
            None
        }
    }

    /// The list that holds the given keys, in order.
    pub fn from_vec(keys: Vec<Vec<u8>>) -> (r: KeyList)
        ensures
            key_list(r) == crate::resp::command::byte_strings(keys@),
    {
        let mut out = key_list_new();
        let mut i: usize = 0;
        while i < keys.len()
            invariant
                i <= keys.len(),
                key_list(out) == crate::resp::command::byte_strings(keys@.take(i as int)),
            decreases keys.len() - i,
        {
            key_list_push(&mut out, crate::resp::text::copy_bytes(keys[i].as_slice()));
            proof {
                assert(keys@.take(i + 1) =~= keys@.take(i as int).push(keys@[i as int]));
                crate::resp::command::lemma_byte_strings_push(
                    keys@.take(i as int),
                    keys@[i as int],
                );
            }
            i = i + 1;
        }
        assert(keys@.take(keys.len() as int) =~= keys@);
        out
    }

    /// The keys of the list, in order.
    pub fn to_vec(&self) -> (r: Vec<Vec<u8>>)
        ensures
            crate::resp::command::byte_strings(r@) == key_list(*self),
    {
        let mut out: Vec<Vec<u8>> = Vec::new();
        let n = key_list_len(self);
        let mut i: usize = 0;
        assert(crate::resp::command::byte_strings(out@) =~= key_list(*self).take(0));
        while i < n
            invariant
                i <= n,
                n == key_list(*self).len(),
                crate::resp::command::byte_strings(out@) == key_list(*self).take(i as int),
            decreases n - i,
        {
            let key = crate::resp::text::copy_bytes(key_list_get(self, i).as_slice());
            proof {
                crate::resp::command::lemma_byte_strings_push(out@, key);
                assert(key_list(*self).take(i + 1) =~= key_list(*self).take(i as int).push(
                    key_list(*self)[i as int],
                ));
            }
            out.push(key);
            i = i + 1;
        }
        assert(key_list(*self).take(n as int) =~= key_list(*self));
        out
    }

    /// A copy of the list.
    pub fn duplicate(&self) -> (r: KeyList)
        ensures
            key_list(r) == key_list(*self),
    {
        let mut out = key_list_new();
        let n = key_list_len(self);
        let mut i: usize = 0;
        assert(key_list(out) =~= key_list(*self).take(0));
        while i < n
            invariant
                i <= n,
                n == key_list(*self).len(),
                key_list(out) == key_list(*self).take(i as int),
            decreases n - i,
        {
            key_list_push(&mut out, crate::resp::text::copy_bytes(key_list_get(self, i).as_slice()));
            assert(key_list(*self).take(i + 1) =~= key_list(*self).take(i as int).push(
                key_list(*self)[i as int],
            ));
            i = i + 1;
        }
        assert(key_list(*self).take(n as int) =~= key_list(*self));
        out
    }
}

impl Clone for KeyList {
    fn clone(&self) -> (r: KeyList)
        ensures
            key_list(r) == key_list(*self),
    {
        self.duplicate()
    }
}

impl SlotList {
    /// The number of slots.
    pub fn len(&self) -> (n: usize)
        ensures
            n == slot_list(*self).len(),
    {
        slot_list_len(self)
    }

    /// The slot at `index`, or `None` where there is none.
    pub fn get(&self, index: usize) -> (r: Option<u16>)
        ensures
            match r {
                Some(slot) => index < slot_list(*self).len() && slot == slot_list(*self)[index as int],
                None => index >= slot_list(*self).len(),
            },
    {
        if index < slot_list_len(self) {
            Some(slot_list_get(self, index))
        } else {
            None
        }
    }
}

/// The part of a key that is hashed: what stands between the first `{` and
/// the next `}` where that is not empty, else the whole key.
pub open spec fn hash_tag(key: Seq<u8>) -> Seq<u8> {
    let open = find_byte(key, OPEN_BRACE, 0);
    let close = find_byte(key, CLOSE_BRACE, open + 1);
    if open < key.len() && close < key.len() && close > open + 1 {
        key.subrange(open + 1, close)
    } else {
        key
    }
}

/// The slot of a key.
pub open spec fn slot_of(key: Seq<u8>) -> u16 {
    crc16_xmodem(hash_tag(key)) % SLOT_COUNT
}

/// The slots of keys, key by key.
pub open spec fn slots_of(keys: Seq<Seq<u8>>) -> Seq<u16> {
    keys.map_values(|k: Seq<u8>| slot_of(k))
}

/// The slot of a key.
pub fn hash_slot(key: &[u8]) -> (slot: u16)
    ensures
        slot == slot_of(key@),
        slot < SLOT_COUNT,
{
    let open = index_of(key, OPEN_BRACE, 0);
    proof {
        lemma_find_byte(key@, OPEN_BRACE, 0);
    }
    if open < key.len() {
        let close = index_of(key, CLOSE_BRACE, open + 1);
        proof {
            lemma_find_byte(key@, CLOSE_BRACE, open + 1);
        }
        if close < key.len() && close > open + 1 {
            let tag = vstd::slice::slice_subrange(key, open + 1, close);
            return crc16(tag) % SLOT_COUNT;
        }
    }
    crc16(key) % SLOT_COUNT
}

/// The slots of the keys, key by key.
pub fn hash_slots(keys: &KeyList) -> (slots: SlotList)
    ensures
        slot_list(slots) == slots_of(key_list(*keys)),
{
    let mut slots = slot_list_new();
    let n = key_list_len(keys);
    let mut i: usize = 0;
    assert(slot_list(slots) =~= slots_of(key_list(*keys)).take(0));
    while i < n
        invariant
            i <= n,
            n == key_list(*keys).len(),
            slot_list(slots) == slots_of(key_list(*keys)).take(i as int),
        decreases n - i,
    {
        slot_list_push(&mut slots, hash_slot(key_list_get(keys, i).as_slice()));
        assert(slots_of(key_list(*keys)).take(i + 1) =~= slots_of(key_list(*keys)).take(
            i as int,
        ).push(slot_of(key_list(*keys)[i as int])));
        i = i + 1;
    }
    assert(slots_of(key_list(*keys)).take(n as int) =~= slots_of(key_list(*keys)));
    slots
}

/// A key without `{` is hashed whole.
pub proof fn lemma_slot_without_brace(key: Seq<u8>)
    requires
        no_byte(key, OPEN_BRACE),
    ensures
        slot_of(key) == crc16_xmodem(key) % SLOT_COUNT,
{
    lemma_find_byte(key, OPEN_BRACE, 0);
}

/// A key whose first `{` is followed at once by `}` is hashed whole.
pub proof fn lemma_slot_with_empty_tag(prefix: Seq<u8>, suffix: Seq<u8>)
    requires
        no_byte(prefix, OPEN_BRACE),
    ensures
        slot_of(prefix + seq![OPEN_BRACE, CLOSE_BRACE] + suffix) == crc16_xmodem(
            prefix + seq![OPEN_BRACE, CLOSE_BRACE] + suffix,
        ) % SLOT_COUNT,
{
    let key = prefix + seq![OPEN_BRACE, CLOSE_BRACE] + suffix;
    let open = prefix.len() as int;
    assert(key[open] == OPEN_BRACE);
    assert(key[open + 1] == CLOSE_BRACE);
    assert forall|i: int| 0 <= i < open implies key[i] != OPEN_BRACE by {
        assert(key[i] == prefix[i]);
    }
    lemma_find_byte_is(key, OPEN_BRACE, 0, open);
    lemma_find_byte_is(key, CLOSE_BRACE, open + 1, open + 1);
}

/// A key `prefix{tag}suffix`, where `{` is the first of the key, `}` the
/// next after it and the tag is not empty, has the slot of its tag.
pub proof fn lemma_slot_of_tagged_key(prefix: Seq<u8>, tag: Seq<u8>, suffix: Seq<u8>)
    requires
        tag.len() > 0,
        no_byte(prefix, OPEN_BRACE),
        no_byte(tag, CLOSE_BRACE),
    ensures
        slot_of(prefix + seq![OPEN_BRACE] + tag + seq![CLOSE_BRACE] + suffix) == slot_of(tag),
        slot_of(tag) == crc16_xmodem(tag) % SLOT_COUNT,
{
    let key = prefix + seq![OPEN_BRACE] + tag + seq![CLOSE_BRACE] + suffix;
    let open = prefix.len() as int;
    let close = open + 1 + tag.len();
    assert(key[open] == OPEN_BRACE);
    assert(key[close] == CLOSE_BRACE);
    assert forall|i: int| 0 <= i < open implies key[i] != OPEN_BRACE by {
        assert(key[i] == prefix[i]);
    }
    lemma_find_byte_is(key, OPEN_BRACE, 0, open);
    assert forall|i: int| open + 1 <= i < close implies key[i] != CLOSE_BRACE by {
        assert(key[i] == tag[i - open - 1]);
    }
    lemma_find_byte_is(key, CLOSE_BRACE, open + 1, close);
    assert(key.subrange(open + 1, close) =~= tag);
    lemma_hash_tag_without_close(tag);
}

/// A key without `}` is hashed whole.
pub proof fn lemma_hash_tag_without_close(key: Seq<u8>)
    requires
        no_byte(key, CLOSE_BRACE),
    ensures
        hash_tag(key) == key,
{
    let open = find_byte(key, OPEN_BRACE, 0);
    lemma_find_byte(key, OPEN_BRACE, 0);
    if open < key.len() {
        lemma_find_byte(key, CLOSE_BRACE, open + 1);
    }
}

} // verus!
