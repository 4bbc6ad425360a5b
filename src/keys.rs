use vstd::prelude::*;

verus! {

/// Width of an encoded channel identifier: one tag byte and 32 payload bytes.
pub const CHANNEL_ID_LEN: usize = 33;

/// Width of an encoded message key: a channel identifier and a big-endian `u64`.
pub const MESSAGE_KEY_LEN: usize = 41;

/// Identifies a conversation: a user (by the 16 bytes of its UUID) or a group
/// (by its 32-byte master key).
#[derive(Clone, Copy, Debug, PartialEq, Eq, PartialOrd, Ord, Hash)]
pub enum ChannelId {
    User([u8; 16]),
    Group([u8; 32]),
}

/// Addresses one message: its channel and the ordinal the store assigned to it.
#[derive(Clone, Copy, Debug, PartialEq, Eq, PartialOrd, Ord, Hash)]
pub struct MessageKey {
    pub channel_id: ChannelId,
    pub message_id: u64,
}

/// Three-way lexicographic comparison of byte strings: -1, 0 or 1.
pub open spec fn lex_cmp(a: Seq<u8>, b: Seq<u8>) -> int
    decreases a.len(),
{
    if a.len() == 0 {
        if b.len() == 0 { 0 } else { -1 }
    } else if b.len() == 0 {
        1
    } else if a[0] < b[0] {
        -1
    } else if a[0] > b[0] {
        1
    } else {
        lex_cmp(a.drop_first(), b.drop_first())
    }
}

/// Three-way comparison of integers: -1, 0 or 1.
pub open spec fn int_cmp(a: int, b: int) -> int {
    if a < b { -1 } else if a > b { 1 } else { 0 }
}

/// The natural order of channel identifiers: users before groups, then the
/// payload bytes lexicographically.
pub open spec fn channel_id_cmp(a: ChannelId, b: ChannelId) -> int {
    match (a, b) {
        (ChannelId::User(x), ChannelId::User(y)) => lex_cmp(x@, y@),
        (ChannelId::User(_), ChannelId::Group(_)) => -1,
        (ChannelId::Group(_), ChannelId::User(_)) => 1,
        (ChannelId::Group(x), ChannelId::Group(y)) => lex_cmp(x@, y@),
    }
}

/// The natural order of message keys: by channel, then by ordinal.
pub open spec fn message_key_cmp(a: MessageKey, b: MessageKey) -> int {
    if channel_id_cmp(a.channel_id, b.channel_id) != 0 {
        channel_id_cmp(a.channel_id, b.channel_id)
    } else {
        int_cmp(a.message_id as int, b.message_id as int)
    }
}

pub open spec fn zeros(n: nat) -> Seq<u8> {
    Seq::new(n, |i: int| 0u8)
}

/// The 33-byte encoding of a channel identifier: tag 0 and the UUID followed by
/// 16 zero bytes, or tag 1 and the master key.
pub open spec fn encode_channel_id(c: ChannelId) -> Seq<u8> {
    match c {
        ChannelId::User(u) => seq![0u8] + u@ + zeros(16),
        ChannelId::Group(k) => seq![1u8] + k@,
    }
}

/// `s` is a well-formed encoding: the right width and a known tag.
pub open spec fn is_channel_id_encoding(s: Seq<u8>) -> bool {
    s.len() == CHANNEL_ID_LEN && (s[0] == 0 || s[0] == 1)
}

/// `s` decodes to `c`: the tag selects the variant and the payload is read
/// from the bytes after it (a user's unused tail is ignored).
pub open spec fn decodes_to_channel_id(s: Seq<u8>, c: ChannelId) -> bool {
    s.len() == CHANNEL_ID_LEN && match c {
        ChannelId::User(u) => s[0] == 0 && u@ == s.subrange(1, 17),
        ChannelId::Group(k) => s[0] == 1 && k@ == s.subrange(1, 33),
    }
}

/// The eight big-endian bytes of `n`.
pub open spec fn u64_be(n: u64) -> Seq<u8> {
    seq![
        (n >> 56u64) as u8,
        (n >> 48u64) as u8,
        (n >> 40u64) as u8,
        (n >> 32u64) as u8,
        (n >> 24u64) as u8,
        (n >> 16u64) as u8,
        (n >> 8u64) as u8,
        n as u8,
    ]
}

/// The number that eight big-endian bytes stand for.
pub open spec fn u64_from_be(s: Seq<u8>) -> u64
    recommends
        s.len() == 8,
{
    ((s[0] as u64) << 56u64) | ((s[1] as u64) << 48u64) | ((s[2] as u64) << 40u64) | ((
    s[3] as u64) << 32u64) | ((s[4] as u64) << 24u64) | ((s[5] as u64) << 16u64) | ((
    s[6] as u64) << 8u64) | (s[7] as u64)
}

/// The 41-byte encoding of a message key.
pub open spec fn encode_message_key(k: MessageKey) -> Seq<u8> {
    encode_channel_id(k.channel_id) + u64_be(k.message_id)
}

/// `s` is a well-formed message-key encoding.
pub open spec fn is_message_key_encoding(s: Seq<u8>) -> bool {
    s.len() == MESSAGE_KEY_LEN && is_channel_id_encoding(s.subrange(0, 33))
}

/// `s` decodes to the message key `k`.
pub open spec fn decodes_to_message_key(s: Seq<u8>, k: MessageKey) -> bool {
    s.len() == MESSAGE_KEY_LEN && decodes_to_channel_id(s.subrange(0, 33), k.channel_id)
        && k.message_id == u64_from_be(s.subrange(33, 41))
}

impl ChannelId {
    /// Encodes the identifier in 33 bytes whose byte order is the identifiers' order.
    pub fn to_bytes(&self) -> (r: Vec<u8>)
        ensures
            r@ == encode_channel_id(*self),
    {
        let mut bytes: Vec<u8> = Vec::new();
        match self {
            ChannelId::User(uuid) => {
                bytes.push(0u8);
                let mut i: usize = 0;
                while i < 16
                    invariant
                        i <= 16,
                        uuid@.len() == 16,
                        bytes@ == seq![0u8] + uuid@.subrange(0, i as int),
                    decreases 16 - i,
                {
                    bytes.push(uuid[i]);
                    i = i + 1;
                    assert(bytes@ =~= seq![0u8] + uuid@.subrange(0, i as int));
                }
                let mut j: usize = 0;
                while j < 16
                    invariant
                        j <= 16,
                        uuid@.len() == 16,
                        bytes@ == seq![0u8] + uuid@ + zeros(j as nat),
                    decreases 16 - j,
                {
                    bytes.push(0u8);
                    j = j + 1;
                    assert(bytes@ =~= seq![0u8] + uuid@ + zeros(j as nat));
                }
            },
            ChannelId::Group(key) => {
                bytes.push(1u8);
                let mut i: usize = 0;
                while i < 32
                    invariant
                        i <= 32,
                        key@.len() == 32,
                        bytes@ == seq![1u8] + key@.subrange(0, i as int),
                    decreases 32 - i,
                {
                    bytes.push(key[i]);
                    i = i + 1;
                    assert(bytes@ =~= seq![1u8] + key@.subrange(0, i as int));
                }
                assert(key@.subrange(0, 32) =~= key@);
            },
        }
        bytes
    }

    /// Decodes 33 bytes written by `to_bytes`; `None` for a foreign width or tag.
    pub fn from_bytes(bytes: &[u8]) -> (r: Option<ChannelId>)
        ensures
            r is Some <==> is_channel_id_encoding(bytes@),
            r matches Some(c) ==> decodes_to_channel_id(bytes@, c),
    {
        if bytes.len() != CHANNEL_ID_LEN {
            return None;
        }
        if bytes[0] == 0 {
            let mut uuid: [u8; 16] = [0u8; 16];
            let mut i: usize = 0;
            while i < 16
                invariant
                    i <= 16,
                    bytes@.len() == 33,
                    forall|j: int| 0 <= j < i ==> uuid@[j] == bytes@[j + 1],
                    uuid@.len() == 16,
                decreases 16 - i,
            {
                uuid[i] = bytes[i + 1];
                i = i + 1;
            }
            assert(uuid@ =~= bytes@.subrange(1, 17));
            Some(ChannelId::User(uuid))
        } else if bytes[0] == 1 {
            let mut key: [u8; 32] = [0u8; 32];
            let mut i: usize = 0;
            while i < 32
                invariant
                    i <= 32,
                    bytes@.len() == 33,
                    forall|j: int| 0 <= j < i ==> key@[j] == bytes@[j + 1],
                    key@.len() == 32,
                decreases 32 - i,
            {
                key[i] = bytes[i + 1];
                i = i + 1;
            }
            assert(key@ =~= bytes@.subrange(1, 33));
            Some(ChannelId::Group(key))
        } else {
            None
        }
    }
}

/// The eight big-endian bytes of `n`.
pub fn u64_to_be_bytes(n: u64) -> (r: Vec<u8>)
    ensures
        r@ == u64_be(n),
{
    let mut v: Vec<u8> = Vec::new();
    v.push((n >> 56u64) as u8);
    v.push((n >> 48u64) as u8);
    v.push((n >> 40u64) as u8);
    v.push((n >> 32u64) as u8);
    v.push((n >> 24u64) as u8);
    v.push((n >> 16u64) as u8);
    v.push((n >> 8u64) as u8);
    v.push(n as u8);
    assert(v@ =~= u64_be(n));
    v
}

/// The number that eight big-endian bytes stand for.
pub fn u64_from_be_bytes(s: &[u8]) -> (r: u64)
    requires
        s@.len() == 8,
    ensures
        r == u64_from_be(s@),
{
    ((s[0] as u64) << 56u64) | ((s[1] as u64) << 48u64) | ((s[2] as u64) << 40u64) | ((
    s[3] as u64) << 32u64) | ((s[4] as u64) << 24u64) | ((s[5] as u64) << 16u64) | ((
    s[6] as u64) << 8u64) | (s[7] as u64)
}

impl MessageKey {
    /// Encodes the key in 41 bytes: the channel identifier, then the ordinal big-endian.
    pub fn to_bytes(&self) -> (r: Vec<u8>)
        ensures
            r@ == encode_message_key(*self),
    {
        let mut bytes = self.channel_id.to_bytes();
        let mut tail = u64_to_be_bytes(self.message_id);
        bytes.append(&mut tail);
        bytes
    }

    /// Decodes 41 bytes written by `to_bytes`; `None` for anything else.
    pub fn from_bytes(bytes: &[u8]) -> (r: Option<MessageKey>)
        ensures
            r is Some <==> is_message_key_encoding(bytes@),
            r matches Some(k) ==> decodes_to_message_key(bytes@, k),
    {
        if bytes.len() != MESSAGE_KEY_LEN {
            return None;
        }
        let head = slice_range(bytes, 0, CHANNEL_ID_LEN);
        let tail = slice_range(bytes, CHANNEL_ID_LEN, MESSAGE_KEY_LEN);
        match ChannelId::from_bytes(head.as_slice()) {
            Some(channel_id) => {
                let message_id = u64_from_be_bytes(tail.as_slice());
                Some(MessageKey { channel_id, message_id })
            },
            None => None,
        }
    }
}

/// Copies `s[lo..hi]` into a new vector.
pub fn slice_range(s: &[u8], lo: usize, hi: usize) -> (r: Vec<u8>)
    requires
        lo <= hi <= s@.len(),
    ensures
        r@ == s@.subrange(lo as int, hi as int),
{
    let mut r: Vec<u8> = Vec::new();
    let mut i: usize = lo;
    while i < hi
        invariant
            lo <= i <= hi,
            hi <= s@.len(),
            r@ == s@.subrange(lo as int, i as int),
        decreases hi - i,
    {
        r.push(s[i]);
        i = i + 1;
        assert(r@ =~= s@.subrange(lo as int, i as int));
    }
    r
}

/// Lexicographic comparison is 0 exactly on equal byte strings.
pub proof fn lemma_lex_eq(a: Seq<u8>, b: Seq<u8>)
    ensures
        (lex_cmp(a, b) == 0) <==> (a == b),
        -1 <= lex_cmp(a, b) <= 1,
    decreases a.len(),
{
    if a.len() > 0 && b.len() > 0 {
        lemma_lex_eq(a.drop_first(), b.drop_first());
        if a[0] == b[0] && a.drop_first() == b.drop_first() {
            assert(a =~= seq![a[0]] + a.drop_first());
            assert(b =~= seq![b[0]] + b.drop_first());
        }
        if a == b {
            assert(a.drop_first() == b.drop_first());
        }
    } else if a.len() == 0 && b.len() == 0 {
        assert(a =~= b);
    }
}

proof fn lemma_lex_concat(a1: Seq<u8>, a2: Seq<u8>, b1: Seq<u8>, b2: Seq<u8>)
    requires
        a1.len() == b1.len(),
    ensures
        lex_cmp(a1 + a2, b1 + b2) == if lex_cmp(a1, b1) != 0 {
            lex_cmp(a1, b1)
        } else {
            lex_cmp(a2, b2)
        },
    decreases a1.len(),
{
    if a1.len() == 0 {
        assert(a1 + a2 =~= a2);
        assert(b1 + b2 =~= b2);
    } else {
        assert((a1 + a2).drop_first() =~= a1.drop_first() + a2);
        assert((b1 + b2).drop_first() =~= b1.drop_first() + b2);
        lemma_lex_concat(a1.drop_first(), a2, b1.drop_first(), b2);
    }
}

proof fn lemma_u64_be_round_trip(n: u64)
    ensures
        u64_from_be(u64_be(n)) == n,
{
    assert(((((n >> 56u64) as u8) as u64) << 56u64) | ((((n >> 48u64) as u8) as u64) << 48u64)
        | ((((n >> 40u64) as u8) as u64) << 40u64) | ((((n >> 32u64) as u8) as u64) << 32u64)
        | ((((n >> 24u64) as u8) as u64) << 24u64) | ((((n >> 16u64) as u8) as u64) << 16u64)
        | ((((n >> 8u64) as u8) as u64) << 8u64) | ((n as u8) as u64) == n) by (bit_vector);
}

proof fn lemma_u64_be_lt(a: u64, b: u64)
    requires
        a < b,
    ensures
        lex_cmp(u64_be(a), u64_be(b)) == -1,
{
    assert((a >> 56u64) < (b >> 56u64) ==> ((a >> 56u64) as u8) < ((b >> 56u64) as u8)) by (bit_vector);
    assert((a >> 56u64) == (b >> 56u64) ==> ((a >> 56u64) as u8) == ((b >> 56u64) as u8)) by (bit_vector);
    assert((a >> 48u64) < (b >> 48u64) ==> (a >> 56u64) < (b >> 56u64) || ((a >> 56u64) == (b >> 56u64)
        && ((a >> 48u64) as u8) < ((b >> 48u64) as u8))) by (bit_vector);
    assert((a >> 48u64) == (b >> 48u64) ==> (a >> 56u64) == (b >> 56u64) && ((a >> 48u64) as u8) == ((b >> 48u64) as u8))
        by (bit_vector);
    assert((a >> 40u64) < (b >> 40u64) ==> (a >> 48u64) < (b >> 48u64) || ((a >> 48u64) == (b >> 48u64)
        && ((a >> 40u64) as u8) < ((b >> 40u64) as u8))) by (bit_vector);
    assert((a >> 40u64) == (b >> 40u64) ==> (a >> 48u64) == (b >> 48u64) && ((a >> 40u64) as u8) == ((b >> 40u64) as u8))
        by (bit_vector);
    assert((a >> 32u64) < (b >> 32u64) ==> (a >> 40u64) < (b >> 40u64) || ((a >> 40u64) == (b >> 40u64)
        && ((a >> 32u64) as u8) < ((b >> 32u64) as u8))) by (bit_vector);
    assert((a >> 32u64) == (b >> 32u64) ==> (a >> 40u64) == (b >> 40u64) && ((a >> 32u64) as u8) == ((b >> 32u64) as u8))
        by (bit_vector);
    assert((a >> 24u64) < (b >> 24u64) ==> (a >> 32u64) < (b >> 32u64) || ((a >> 32u64) == (b >> 32u64)
        && ((a >> 24u64) as u8) < ((b >> 24u64) as u8))) by (bit_vector);
    assert((a >> 24u64) == (b >> 24u64) ==> (a >> 32u64) == (b >> 32u64) && ((a >> 24u64) as u8) == ((b >> 24u64) as u8))
        by (bit_vector);
    assert((a >> 16u64) < (b >> 16u64) ==> (a >> 24u64) < (b >> 24u64) || ((a >> 24u64) == (b >> 24u64)
        && ((a >> 16u64) as u8) < ((b >> 16u64) as u8))) by (bit_vector);
    assert((a >> 16u64) == (b >> 16u64) ==> (a >> 24u64) == (b >> 24u64) && ((a >> 16u64) as u8) == ((b >> 16u64) as u8))
        by (bit_vector);
    assert((a >> 8u64) < (b >> 8u64) ==> (a >> 16u64) < (b >> 16u64) || ((a >> 16u64) == (b >> 16u64)
        && ((a >> 8u64) as u8) < ((b >> 8u64) as u8))) by (bit_vector);
    assert((a >> 8u64) == (b >> 8u64) ==> (a >> 16u64) == (b >> 16u64) && ((a >> 8u64) as u8) == ((b >> 8u64) as u8))
        by (bit_vector);
    assert(a < b ==> (a >> 8u64) < (b >> 8u64) || ((a >> 8u64) == (b >> 8u64)
        && (a as u8) < (b as u8))) by (bit_vector);
    assert(a == b ==> (a >> 8u64) == (b >> 8u64) && (a as u8) == (b as u8))
        by (bit_vector);
    reveal_with_fuel(lex_cmp, 9);
}

proof fn lemma_u64_be_order(a: u64, b: u64)
    ensures
        lex_cmp(u64_be(a), u64_be(b)) == int_cmp(a as int, b as int),
{
    if a < b {
        lemma_u64_be_lt(a, b);
    } else if b < a {
        lemma_u64_be_lt(b, a);
        lemma_lex_antisym(u64_be(a), u64_be(b));
    } else {
        lemma_lex_eq(u64_be(a), u64_be(b));
    }
}

proof fn lemma_lex_antisym(a: Seq<u8>, b: Seq<u8>)
    ensures
        lex_cmp(a, b) == -lex_cmp(b, a),
    decreases a.len(),
{
    if a.len() > 0 && b.len() > 0 {
        lemma_lex_antisym(a.drop_first(), b.drop_first());
    }
}

/// Decoding an encoded channel identifier gives it back, and nothing else.
pub proof fn lemma_channel_id_round_trip(c: ChannelId)
    ensures
        is_channel_id_encoding(encode_channel_id(c)),
        decodes_to_channel_id(encode_channel_id(c), c),
        forall|d: ChannelId| decodes_to_channel_id(encode_channel_id(c), d) ==> d == c,
{
    let s = encode_channel_id(c);
    match c {
        ChannelId::User(u) => {
            assert(s.subrange(1, 17) =~= u@);
            assert forall|d: ChannelId| decodes_to_channel_id(s, d) implies d == c by {
                if let ChannelId::User(v) = d {
                    assert(v =~= u);
                }
            }
        },
        ChannelId::Group(k) => {
            assert(s.subrange(1, 33) =~= k@);
            assert forall|d: ChannelId| decodes_to_channel_id(s, d) implies d == c by {
                if let ChannelId::Group(v) = d {
                    assert(v =~= k);
                }
            }
        },
    }
}

/// Comparing two encoded channel identifiers byte by byte orders them as the
/// identifiers themselves are ordered.
pub proof fn lemma_channel_id_order(a: ChannelId, b: ChannelId)
    ensures
        lex_cmp(encode_channel_id(a), encode_channel_id(b)) == channel_id_cmp(a, b),
{
    let ta: Seq<u8> = seq![encode_channel_id(a)[0]];
    let tb: Seq<u8> = seq![encode_channel_id(b)[0]];
    let ra = encode_channel_id(a).drop_first();
    let rb = encode_channel_id(b).drop_first();
    assert(encode_channel_id(a) =~= ta + ra);
    assert(encode_channel_id(b) =~= tb + rb);
    lemma_lex_concat(ta, ra, tb, rb);
    reveal_with_fuel(lex_cmp, 2);
    match (a, b) {
        (ChannelId::User(x), ChannelId::User(y)) => {
            assert(ra =~= x@ + zeros(16));
            assert(rb =~= y@ + zeros(16));
            lemma_lex_concat(x@, zeros(16), y@, zeros(16));
            lemma_lex_eq(zeros(16), zeros(16));
        },
        (ChannelId::Group(x), ChannelId::Group(y)) => {
            assert(ra =~= x@);
            assert(rb =~= y@);
        },
        _ => {},
    }
}

/// Decoding an encoded message key gives it back, and nothing else.
pub proof fn lemma_message_key_round_trip(k: MessageKey)
    ensures
        is_message_key_encoding(encode_message_key(k)),
        decodes_to_message_key(encode_message_key(k), k),
        forall|d: MessageKey| decodes_to_message_key(encode_message_key(k), d) ==> d == k,
{
    let s = encode_message_key(k);
    assert(s.subrange(0, 33) =~= encode_channel_id(k.channel_id));
    assert(s.subrange(33, 41) =~= u64_be(k.message_id));
    lemma_channel_id_round_trip(k.channel_id);
    lemma_u64_be_round_trip(k.message_id);
}

/// Comparing two encoded message keys byte by byte orders them as the keys
/// themselves are ordered: by channel, then by ordinal.
pub proof fn lemma_message_key_order(a: MessageKey, b: MessageKey)
    ensures
        lex_cmp(encode_message_key(a), encode_message_key(b)) == message_key_cmp(a, b),
{
    lemma_lex_concat(
        encode_channel_id(a.channel_id),
        u64_be(a.message_id),
        encode_channel_id(b.channel_id),
        u64_be(b.message_id),
    );
    lemma_channel_id_order(a.channel_id, b.channel_id);
    lemma_u64_be_order(a.message_id, b.message_id);
}

/// A message key's encoding starts with the encoding of a channel identifier
/// only when the key belongs to that channel: a prefix scan never mixes channels.
pub proof fn lemma_prefix_identifies_channel(k: MessageKey, c: ChannelId)
    ensures
        (encode_message_key(k).subrange(0, 33) == encode_channel_id(c)) <==> (k.channel_id == c),
{
    let s = encode_message_key(k);
    assert(s.subrange(0, 33) =~= encode_channel_id(k.channel_id));
    lemma_channel_id_round_trip(k.channel_id);
    lemma_channel_id_round_trip(c);
}

/// Lexicographic order on byte strings is transitive.
pub proof fn lemma_lex_trans(a: Seq<u8>, b: Seq<u8>, c: Seq<u8>)
    requires
        lex_cmp(a, b) == -1,
        lex_cmp(b, c) == -1,
    ensures
        lex_cmp(a, c) == -1,
    decreases a.len(),
{
    if a.len() > 0 && b.len() > 0 && c.len() > 0 && a[0] == b[0] && b[0] == c[0] {
        lemma_lex_trans(a.drop_first(), b.drop_first(), c.drop_first());
    }
}

proof fn lemma_u64_be_of_bytes(s: Seq<u8>)
    requires
        s.len() == 8,
    ensures
        u64_be(u64_from_be(s)) == s,
{
    let (b0, b1, b2, b3, b4, b5, b6, b7) = (s[0], s[1], s[2], s[3], s[4], s[5], s[6], s[7]);
    let n = u64_from_be(s);
    assert(n == ((b0 as u64) << 56u64) | ((b1 as u64) << 48u64) | ((b2 as u64) << 40u64) | ((
    b3 as u64) << 32u64) | ((b4 as u64) << 24u64) | ((b5 as u64) << 16u64) | ((b6 as u64) << 8u64)
        | (b7 as u64));
    assert(((n >> 56u64) as u8) == b0 && ((n >> 48u64) as u8) == b1 && ((n >> 40u64) as u8) == b2
        && ((n >> 32u64) as u8) == b3) by (bit_vector)
        requires
            n == ((b0 as u64) << 56u64) | ((b1 as u64) << 48u64) | ((b2 as u64) << 40u64) | ((
            b3 as u64) << 32u64) | ((b4 as u64) << 24u64) | ((b5 as u64) << 16u64) | ((
            b6 as u64) << 8u64) | (b7 as u64),
    ;
    assert(((n >> 24u64) as u8) == b4 && ((n >> 16u64) as u8) == b5 && ((n >> 8u64) as u8) == b6
        && (n as u8) == b7) by (bit_vector)
        requires
            n == ((b0 as u64) << 56u64) | ((b1 as u64) << 48u64) | ((b2 as u64) << 40u64) | ((
            b3 as u64) << 32u64) | ((b4 as u64) << 24u64) | ((b5 as u64) << 16u64) | ((
            b6 as u64) << 8u64) | (b7 as u64),
    ;
    assert(u64_be(n) =~= s);
}

/// A 41-byte key that starts with the encoding of the channel it decodes to
/// is exactly the encoding of the message key it decodes to.
pub proof fn lemma_message_key_canonical(s: Seq<u8>, k: MessageKey)
    requires
        decodes_to_message_key(s, k),
        s.subrange(0, 33) == encode_channel_id(k.channel_id),
    ensures
        s == encode_message_key(k),
{
    lemma_u64_be_of_bytes(s.subrange(33, 41));
    assert(s =~= s.subrange(0, 33) + s.subrange(33, 41));
}

/// Raw keys in ascending byte order decode to channel identifiers that never
/// descend; where the keys are the identifiers' own encodings, the identifiers
/// strictly ascend.
pub proof fn lemma_channel_key_order(k1: Seq<u8>, k2: Seq<u8>, a: ChannelId, b: ChannelId)
    requires
        decodes_to_channel_id(k1, a),
        decodes_to_channel_id(k2, b),
        lex_cmp(k1, k2) == -1,
    ensures
        channel_id_cmp(a, b) <= 0,
        k1 == encode_channel_id(a) && k2 == encode_channel_id(b) ==> channel_id_cmp(a, b) == -1,
{
    lemma_channel_id_order(a, b);
    let r1 = k1.drop_first();
    let r2 = k2.drop_first();
    assert(k1 =~= seq![k1[0]] + r1);
    assert(k2 =~= seq![k2[0]] + r2);
    lemma_lex_concat(seq![k1[0]], r1, seq![k2[0]], r2);
    reveal_with_fuel(lex_cmp, 2);
    match (a, b) {
        (ChannelId::User(x), ChannelId::User(y)) => {
            assert(r1 =~= x@ + r1.subrange(16, 32));
            assert(r2 =~= y@ + r2.subrange(16, 32));
            lemma_lex_concat(x@, r1.subrange(16, 32), y@, r2.subrange(16, 32));
            lemma_lex_eq(x@, y@);
        },
        (ChannelId::Group(x), ChannelId::Group(y)) => {
            assert(r1 =~= x@);
            assert(r2 =~= y@);
        },
        _ => {},
    }
}

} // verus!
