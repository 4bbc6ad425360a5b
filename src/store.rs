use crate::keys::{
    decodes_to_channel_id, decodes_to_message_key, encode_channel_id, encode_message_key,
    is_channel_id_encoding, lemma_channel_id_order, lemma_channel_id_round_trip, lemma_lex_eq, lemma_lex_trans,
    lemma_message_key_canonical, lemma_message_key_order, lex_cmp, slice_range, ChannelId,
    MessageKey, CHANNEL_ID_LEN, MESSAGE_KEY_LEN,
};
use vstd::prelude::*;
use vstd::slice::slice_to_vec;

verus! {

#[verifier::external_type_specification]
#[verifier::external_body]
pub struct ExDb(sled::Db);

#[verifier::external_type_specification]
#[verifier::external_body]
pub struct ExTree(sled::Tree);

#[verifier::external_type_specification]
#[verifier::external_body]
pub struct ExIter(sled::Iter);

#[verifier::external_type_specification]
#[verifier::external_body]
pub struct ExError(sled::Error);

#[verifier::external_type_specification]
#[verifier::external_body]
pub struct ExIVec(sled::IVec);

/// Relies on sled::Db's Clone: another handle on the same database.
pub assume_specification[ <sled::Db as core::clone::Clone>::clone ](db: &sled::Db) -> sled::Db;

/// Relies on sled::Tree's Clone: another handle on the same partition.
pub assume_specification[ <sled::Tree as core::clone::Clone>::clone ](tree: &sled::Tree) -> (r:
    sled::Tree)
    ensures
        partition_name(r) == partition_name(*tree),
;

/// The name of the partition that a tree handle opens (sled's `Tree::name`).
pub uninterp spec fn partition_name(t: sled::Tree) -> Seq<char>;

/// The name of the partition that a scan walks (the tree an `Iter` holds).
pub uninterp spec fn scan_partition(i: sled::Iter) -> Seq<char>;

/// The key a scan last yielded, below which it yields nothing more: `Some`
/// where sled's `Iter` holds the excluded lower bound that `next` leaves.
pub uninterp spec fn scan_floor(i: sled::Iter) -> Option<Seq<u8>>;

/// What `String::from_utf8_lossy` makes of a byte string.
pub uninterp spec fn utf8_lossy_of(b: Seq<u8>) -> Seq<char>;

/// What `std::str::from_utf8` makes of a byte string: the text, or `None`
/// where the bytes are not UTF-8.
pub uninterp spec fn utf8_decoded(b: Seq<u8>) -> Option<Seq<char>>;

/// Relies on sled::open: opens (or creates) the database stored under `path`.
#[verifier::external_body]
fn engine_open(path: &str) -> (r: Result<sled::Db, sled::Error>) {
    sled::open(path)
}

/// Relies on sled::Db::open_tree: opens (or creates) the partition `name`.
#[verifier::external_body]
fn engine_open_tree(db: &sled::Db, name: &str) -> (r: Result<sled::Tree, sled::Error>)
    ensures
        r matches Ok(t) ==> partition_name(t) == name@,
{
    db.open_tree(name)
}

/// Relies on sled::Db::generate_id: a fresh ordinal, above all earlier ones.
#[verifier::external_body]
fn engine_generate_id(db: &sled::Db) -> (r: Result<u64, sled::Error>) {
    db.generate_id()
}

/// Relies on sled::Tree::get: the value stored under `key`, if any.
#[verifier::external_body]
fn tree_get(tree: &sled::Tree, key: &[u8]) -> (r: Result<Option<Vec<u8>>, sled::Error>) {
    tree.get(key).map(|found| found.map(|v| v.to_vec()))
}

/// Relies on sled::Tree::insert: stores `value` under `key`, replacing any earlier value.
#[verifier::external_body]
fn tree_insert(tree: &sled::Tree, key: &[u8], value: &[u8]) -> (r: Result<(), sled::Error>) {
    tree.insert(key, value).map(|_previous| ())
}

/// Relies on sled::Tree::iter: all entries of the partition, in ascending key
/// order; the scan starts with an inclusive lower bound.
#[verifier::external_body]
fn tree_iter(tree: &sled::Tree) -> (r: sled::Iter)
    ensures
        scan_partition(r) == partition_name(*tree),
        scan_floor(r) is None,
{
    tree.iter()
}

/// Relies on sled::Tree::scan_prefix: the entries whose key starts with
/// `prefix`, in ascending key order.
#[verifier::external_body]
fn tree_scan_prefix(tree: &sled::Tree, prefix: &[u8]) -> (r: sled::Iter)
    ensures
        scan_partition(r) == partition_name(*tree),
        scan_floor(r) is None,
{
    tree.scan_prefix(prefix)
}

/// Relies on sled::Iter::next: the next raw entry, or an engine error for it.
/// An entry is the successor of the excluded lower bound, which then becomes
/// that entry's key; the scanned tree never changes.
#[verifier::external_body]
fn iter_next(iter: &mut sled::Iter) -> (r: Option<Result<(Vec<u8>, Vec<u8>), sled::Error>>)
    ensures
        scan_partition(*final(iter)) == scan_partition(*old(iter)),
        r matches Some(Ok((k, v))) ==> (scan_floor(*old(iter)) matches Some(lo) ==> lex_cmp(
            lo,
            k@,
        ) == -1) && scan_floor(*final(iter)) == Some(k@),
{
    iter.next().map(|entry| entry.map(|(k, v)| (k.to_vec(), v.to_vec())))
}

/// Relies on String::from_utf8_lossy: the text, with each invalid sequence replaced.
#[verifier::external_body]
fn lossy_text(bytes: &[u8]) -> (r: String)
    ensures
        r@ == utf8_lossy_of(bytes@),
        bytes@.len() == 0 ==> r@.len() == 0,
        utf8_decoded(bytes@) matches Some(t) ==> r@ == t,
{
    String::from_utf8_lossy(bytes).to_string()
}

/// Relies on std::str::from_utf8: the text, or `None` where the bytes are not UTF-8.
#[verifier::external_body]
fn strict_text(bytes: &[u8]) -> (r: Option<String>)
    ensures
        r is Some <==> utf8_decoded(bytes@) is Some,
        r matches Some(s) ==> utf8_decoded(bytes@) == Some(s@),
{
    std::str::from_utf8(bytes).ok().map(|s| s.to_string())
}

/// Partition of channel metadata, keyed by encoded channel identifier.
pub const CHANNELS_TREE: &'static str = "gurk-channels";

/// Partition of messages, keyed by encoded message key.
pub const MESSAGES_TREE: &'static str = "gurk-messages";

/// Partition of display names, keyed by the 16 bytes of a user's UUID.
pub const NAMES_TREE: &'static str = "gurk-names";

/// Partition holding the pending input under a single key.
pub const INPUT_TREE: &'static str = "gurk-input";

/// The one key of the input partition.
pub const INPUT_KEY: &'static str = "input";

/// The most raw entries that one step of a scan examines; no store holds as many.
pub const SCAN_LIMIT: u64 = 0xffff_ffff_ffff_ffff;

/// One stored message: the key it was filed under and its encoded payload.
#[derive(Clone, Debug, PartialEq, Eq)]
pub struct StoredMessage {
    pub key: MessageKey,
    pub payload: Vec<u8>,
}

/// A channel as read back: its identifier, its encoded metadata, and the
/// messages filed under it in ascending key order.
#[derive(Clone, Debug, PartialEq, Eq)]
pub struct ChannelRecord {
    pub id: ChannelId,
    pub metadata: Vec<u8>,
    pub messages: Vec<StoredMessage>,
}

/// The pending input that a stored value stands for: empty where none is stored.
pub open spec fn input_text_of(stored: Option<Vec<u8>>) -> Seq<char> {
    match stored {
        Some(b) => utf8_lossy_of(b@),
        None => Seq::empty(),
    }
}

/// `a` and `b` hold the same bytes.
pub fn bytes_equal(a: &[u8], b: &[u8]) -> (r: bool)
    ensures
        r == (a@ == b@),
{
    if a.len() != b.len() {
        return false;
    }
    let mut i: usize = 0;
    while i < a.len()
        invariant
            i <= a@.len(),
            a@.len() == b@.len(),
            forall|j: int| 0 <= j < i ==> a@[j] == b@[j],
        decreases a@.len() - i,
    {
        if a[i] != b[i] {
            return false;
        }
        i = i + 1;
    }
    assert(a@ =~= b@);
    true
}

/// The text of the pending input, from what the input partition holds.
pub fn input_text(stored: Option<Vec<u8>>) -> (r: String)
    ensures
        r@ == input_text_of(stored),
{
    match stored {
        Some(b) => lossy_text(b.as_slice()),
        None => String::new(),
    }
}

/// Reads one raw entry of the names partition: a 16-byte UUID key and a UTF-8
/// name; `None` for an entry of another shape.
pub fn decode_name_entry(key: &[u8], value: &[u8]) -> (r: Option<([u8; 16], String)>)
    ensures
        r is Some <==> (key@.len() == 16 && utf8_decoded(value@) is Some),
        r matches Some((id, name)) ==> id@ == key@ && utf8_decoded(value@) == Some(name@),
{
    if key.len() != 16 {
        return None;
    }
    let mut id: [u8; 16] = [0u8; 16];
    let mut i: usize = 0;
    while i < 16
        invariant
            i <= 16,
            key@.len() == 16,
            id@.len() == 16,
            forall|j: int| 0 <= j < i ==> id@[j] == key@[j],
        decreases 16 - i,
    {
        id[i] = key[i];
        i = i + 1;
    }
    assert(id@ =~= key@);
    match strict_text(value) {
        Some(name) => Some((id, name)),
        None => None,
    }
}

/// Reads one raw entry of the channel partition; `None` where the key is not
/// an encoded channel identifier. The message list is left empty.
pub fn decode_channel_entry(key: &[u8], value: &[u8]) -> (r: Option<ChannelRecord>)
    ensures
        r is Some <==> is_channel_id_encoding(key@),
        r matches Some(rec) ==> decodes_to_channel_id(key@, rec.id) && rec.metadata@ == value@
            && rec.messages@.len() == 0,
{
    match ChannelId::from_bytes(key) {
        Some(id) => Some(ChannelRecord { id, metadata: slice_to_vec(value), messages: Vec::new() }),
        None => None,
    }
}

/// Reads one raw entry of the message partition for `channel`; `None` unless
/// the key is a message key whose first 33 bytes encode `channel`.
pub fn decode_message_entry(channel: &ChannelId, key: &[u8], value: &[u8]) -> (r: Option<
    StoredMessage,
>)
    ensures
        r is Some <==> (key@.len() == MESSAGE_KEY_LEN && key@.subrange(0, 33) == encode_channel_id(
            *channel,
        )),
        r matches Some(m) ==> decodes_to_message_key(key@, m.key) && m.key.channel_id == *channel
            && m.payload@ == value@,
{
    if key.len() != MESSAGE_KEY_LEN {
        return None;
    }
    let head = slice_range(key, 0, CHANNEL_ID_LEN);
    let prefix = channel.to_bytes();
    if !bytes_equal(head.as_slice(), prefix.as_slice()) {
        return None;
    }
    proof {
        lemma_channel_id_round_trip(*channel);
    }
    match MessageKey::from_bytes(key) {
        Some(k) => Some(StoredMessage { key: k, payload: slice_to_vec(value) }),
        None => None,
    }
}

/// The store: four partitions of one embedded database.
#[derive(Clone)]
pub struct SledStore {
    db: sled::Db,
    channels: sled::Tree,
    messages: sled::Tree,
    names: sled::Tree,
    input: sled::Tree,
}

impl SledStore {
    /// Each handle opens the partition that its field is for.
    pub closed spec fn wf(&self) -> bool {
        &&& partition_name(self.channels) == CHANNELS_TREE@
        &&& partition_name(self.messages) == MESSAGES_TREE@
        &&& partition_name(self.names) == NAMES_TREE@
        &&& partition_name(self.input) == INPUT_TREE@
    }

    /// Opens the database under `path` and its four partitions.
    pub fn open(path: &str) -> (r: Result<SledStore, sled::Error>)
        ensures
            r matches Ok(s) ==> s.wf(),
    {
        let db = engine_open(path)?;
        SledStore::with_db(db)
    }

    /// Opens the four partitions of an already open database.
    pub fn with_db(db: sled::Db) -> (r: Result<SledStore, sled::Error>)
        ensures
            r matches Ok(s) ==> s.wf(),
    {
        let channels = engine_open_tree(&db, CHANNELS_TREE)?;
        let messages = engine_open_tree(&db, MESSAGES_TREE)?;
        let names = engine_open_tree(&db, NAMES_TREE)?;
        let input = engine_open_tree(&db, INPUT_TREE)?;
        Ok(SledStore { db, channels, messages, names, input })
    }

    /// All channels, each with its messages, in ascending key order.
    pub fn channels(&self) -> (r: SledChannelIter)
        requires
            self.wf(),
        ensures
            r.wf(),
            r.position() is None,
    {
        SledChannelIter { messages: self.messages.clone(), iter: tree_iter(&self.channels) }
    }

    /// The messages of one channel, in ascending ordinal order.
    pub fn channel_messages(&self, channel_id: ChannelId) -> (r: SledMessageIter)
        requires
            self.wf(),
        ensures
            r.scanned_channel() == channel_id,
            r.wf(),
            r.position() is None,
    {
        messages_of(&self.messages, channel_id)
    }

    /// All stored display names, in ascending UUID order.
    pub fn names(&self) -> (r: SledNameIter)
        requires
            self.wf(),
        ensures
            r.wf(),
            r.position() is None,
    {
        SledNameIter { iter: tree_iter(&self.names) }
    }

    /// The pending input; empty where none was set.
    pub fn input(&self) -> (r: Result<String, sled::Error>)
        ensures
            r matches Ok(s) ==> exists|stored: Option<Vec<u8>>| s@ == input_text_of(stored),
    {
        let stored = tree_get(&self.input, INPUT_KEY.as_bytes())?;
        Ok(input_text(stored))
    }

    /// Stores a channel's encoded metadata under its identifier, replacing any
    /// earlier metadata of that channel.
    pub fn push_channel(&self, id: &ChannelId, metadata: &[u8]) -> (r: Result<(), sled::Error>) {
        let k = id.to_bytes();
        tree_insert(&self.channels, k.as_slice(), metadata)
    }

    /// Stores a message of `channel_id` under a freshly generated ordinal and
    /// returns the key it was filed under.
    pub fn push_message(&self, channel_id: ChannelId, payload: &[u8]) -> (r: Result<
        MessageKey,
        sled::Error,
    >)
        ensures
            r matches Ok(k) ==> k.channel_id == channel_id,
    {
        let message_id = engine_generate_id(&self.db)?;
        let key = MessageKey { channel_id, message_id };
        let k = key.to_bytes();
        tree_insert(&self.messages, k.as_slice(), payload)?;
        Ok(key)
    }

    /// Stores the display name of the user with UUID bytes `id`.
    pub fn push_name(&self, id: &[u8; 16], name: &str) -> (r: Result<(), sled::Error>) {
        tree_insert(&self.names, id.as_slice(), name.as_bytes())
    }

    /// Replaces the pending input.
    pub fn set_input(&self, input: &str) -> (r: Result<(), sled::Error>) {
        tree_insert(&self.input, INPUT_KEY.as_bytes(), input.as_bytes())
    }
}

/// A prefix scan over `messages` for the messages of `channel_id`.
fn messages_of(messages: &sled::Tree, channel_id: ChannelId) -> (r: SledMessageIter)
    requires
        partition_name(*messages) == MESSAGES_TREE@,
    ensures
        r.scanned_channel() == channel_id,
        r.wf(),
        r.position() is None,
{
    let prefix = channel_id.to_bytes();
    SledMessageIter { channel: channel_id, iter: tree_scan_prefix(messages, prefix.as_slice()) }
}

/// Scan over the channel partition that attaches to each channel its messages.
/// The scan ends at the first engine error.
pub struct SledChannelIter {
    messages: sled::Tree,
    iter: sled::Iter,
}

impl SledChannelIter {
    /// It walks the channel partition and reads messages from the message partition.
    pub closed spec fn wf(&self) -> bool {
        &&& scan_partition(self.iter) == CHANNELS_TREE@
        &&& partition_name(self.messages) == MESSAGES_TREE@
    }

    /// The raw key of the channel last yielded.
    pub closed spec fn position(&self) -> Option<Seq<u8>> {
        scan_floor(self.iter)
    }

    /// The next channel whose key decodes, with all its messages in ascending
    /// ordinal order; entries that fail to decode are skipped. Its raw key
    /// lies above that of the channel yielded before.
    pub fn next(&mut self) -> (r: Option<(ChannelId, ChannelRecord)>)
        requires
            old(self).wf(),
        ensures
            final(self).wf(),
            r matches Some((id, rec)) ==> {
                &&& rec.id == id
                &&& final(self).position() matches Some(k) && decodes_to_channel_id(k, id) && (
                old(self).position() matches Some(lo) ==> lex_cmp(lo, k) == -1)
                &&& forall|i: int|
                    0 <= i < rec.messages@.len() ==> (#[trigger] rec.messages@[i]).key.channel_id
                        == id
                &&& forall|i: int, j: int|
                    0 <= i < j < rec.messages@.len() ==> rec.messages@[i].key.message_id
                        < rec.messages@[j].key.message_id
            },
    {
        let mut budget: u64 = SCAN_LIMIT;
        while budget > 0
            invariant
                self.wf(),
                old(self).position() matches Some(lo) ==> (self.position() matches Some(cur) && (
                cur == lo || lex_cmp(lo, cur) == -1)),
            decreases budget,
        {
            budget = budget - 1;
            let ghost before = self.position();
            match iter_next(&mut self.iter) {
                None => return None,
                Some(Err(_)) => return None,
                Some(Ok((k, v))) => {
                    proof {
                        if let Some(lo) = old(self).position() {
                            let cur = before->Some_0;
                            if cur != lo {
                                lemma_lex_trans(lo, cur, k@);
                            }
                        }
                    }
                    if let Some(mut rec) = decode_channel_entry(k.as_slice(), v.as_slice()) {
                        let id = rec.id;
                        let mut scan = messages_of(&self.messages, id);
                        rec.messages = scan.collect();
                        return Some((id, rec));
                    }
                },
            }
        }
        None
    }
}

/// Prefix scan over the message partition for one channel. The scan ends at
/// the first engine error.
pub struct SledMessageIter {
    channel: ChannelId,
    iter: sled::Iter,
}

impl SledMessageIter {
    /// The channel whose messages this scan yields.
    pub closed spec fn scanned_channel(&self) -> ChannelId {
        self.channel
    }

    /// It walks the message partition.
    pub closed spec fn wf(&self) -> bool {
        scan_partition(self.iter) == MESSAGES_TREE@
    }

    /// The raw key of the message last yielded.
    pub closed spec fn position(&self) -> Option<Seq<u8>> {
        scan_floor(self.iter)
    }

    /// The next message of the channel; entries that fail to decode are
    /// skipped. Its key is the one it was filed under, above that of the
    /// message yielded before.
    pub fn next(&mut self) -> (r: Option<StoredMessage>)
        requires
            old(self).wf(),
        ensures
            final(self).wf(),
            final(self).scanned_channel() == old(self).scanned_channel(),
            r matches Some(m) ==> {
                &&& m.key.channel_id == old(self).scanned_channel()
                &&& final(self).position() == Some(encode_message_key(m.key))
                &&& old(self).position() matches Some(lo) ==> lex_cmp(lo, encode_message_key(m.key))
                    == -1
            },
    {
        let mut budget: u64 = SCAN_LIMIT;
        while budget > 0
            invariant
                self.wf(),
                self.channel == old(self).channel,
                old(self).position() matches Some(lo) ==> (self.position() matches Some(cur) && (
                cur == lo || lex_cmp(lo, cur) == -1)),
            decreases budget,
        {
            budget = budget - 1;
            let ghost before = self.position();
            match iter_next(&mut self.iter) {
                None => return None,
                Some(Err(_)) => return None,
                Some(Ok((k, v))) => {
                    proof {
                        if let Some(lo) = old(self).position() {
                            let cur = before->Some_0;
                            if cur != lo {
                                lemma_lex_trans(lo, cur, k@);
                            }
                        }
                    }
                    if let Some(m) = decode_message_entry(&self.channel, k.as_slice(), v.as_slice()) {
                        proof {
                            lemma_message_key_canonical(k@, m.key);
                        }
                        return Some(m);
                    }
                },
            }
        }
        None
    }

    /// Drains the scan: the remaining messages, in ascending ordinal order.
    pub fn collect(&mut self) -> (r: Vec<StoredMessage>)
        requires
            old(self).wf(),
        ensures
            final(self).wf(),
            final(self).scanned_channel() == old(self).scanned_channel(),
            forall|i: int|
                0 <= i < r@.len() ==> (#[trigger] r@[i]).key.channel_id == old(self).scanned_channel(),
            forall|i: int, j: int|
                0 <= i < j < r@.len() ==> r@[i].key.message_id < r@[j].key.message_id,
    {
        let mut out: Vec<StoredMessage> = Vec::new();
        let mut budget: u64 = SCAN_LIMIT;
        while budget > 0
            invariant
                self.wf(),
                self.channel == old(self).channel,
                forall|i: int|
                    0 <= i < out@.len() ==> (#[trigger] out@[i]).key.channel_id == old(self).channel,
                forall|i: int, j: int|
                    0 <= i < j < out@.len() ==> out@[i].key.message_id < out@[j].key.message_id,
                out@.len() > 0 ==> self.position() == Some(encode_message_key(out@.last().key)),
            decreases budget,
        {
            budget = budget - 1;
            let ghost prev = out@;
            match self.next() {
                Some(m) => {
                    proof {
                        if prev.len() > 0 {
                            let last = prev.last().key;
                            lemma_message_key_order(last, m.key);
                            lemma_channel_id_order(last.channel_id, m.key.channel_id);
                            lemma_lex_eq(
                                encode_channel_id(last.channel_id),
                                encode_channel_id(m.key.channel_id),
                            );
                        }
                    }
                    out.push(m);
                },
                None => return out,
            }
        }
        out
    }
}

/// Scan over the names partition. The scan ends at the first engine error.
pub struct SledNameIter {
    iter: sled::Iter,
}

impl SledNameIter {
    /// It walks the names partition.
    pub closed spec fn wf(&self) -> bool {
        scan_partition(self.iter) == NAMES_TREE@
    }

    /// The raw key of the entry last yielded.
    pub closed spec fn position(&self) -> Option<Seq<u8>> {
        scan_floor(self.iter)
    }

    /// The next entry with a 16-byte key and a UTF-8 name; others are skipped.
    /// The id is the raw key, above that of the entry yielded before.
    pub fn next(&mut self) -> (r: Option<([u8; 16], String)>)
        requires
            old(self).wf(),
        ensures
            final(self).wf(),
            r matches Some((id, name)) ==> {
                &&& final(self).position() == Some(id@)
                &&& old(self).position() matches Some(lo) ==> lex_cmp(lo, id@) == -1
                &&& exists|v: Seq<u8>| utf8_decoded(v) == Some(name@)
            },
    {
        let mut budget: u64 = SCAN_LIMIT;
        while budget > 0
            invariant
                self.wf(),
                old(self).position() matches Some(lo) ==> (self.position() matches Some(cur) && (
                cur == lo || lex_cmp(lo, cur) == -1)),
            decreases budget,
        {
            budget = budget - 1;
            let ghost before = self.position();
            match iter_next(&mut self.iter) {
                None => return None,
                Some(Err(_)) => return None,
                Some(Ok((k, v))) => {
                    proof {
                        if let Some(lo) = old(self).position() {
                            let cur = before->Some_0;
                            if cur != lo {
                                lemma_lex_trans(lo, cur, k@);
                            }
                        }
                    }
                    if let Some(entry) = decode_name_entry(k.as_slice(), v.as_slice()) {
                        return Some(entry);
                    }
                },
            }
        }
        None
    }
}

} // verus!
