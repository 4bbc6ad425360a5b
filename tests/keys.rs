use gurk::keys::{u64_from_be_bytes, u64_to_be_bytes, ChannelId, MessageKey};

fn user(seed: u8) -> ChannelId {
    let mut uuid = [0u8; 16];
    for (i, b) in uuid.iter_mut().enumerate() {
        *b = seed.wrapping_mul(31).wrapping_add(i as u8);
    }
    ChannelId::User(uuid)
}

fn group(seed: u8) -> ChannelId {
    let mut key = [0u8; 32];
    for (i, b) in key.iter_mut().enumerate() {
        *b = seed.wrapping_mul(17).wrapping_add(3 * i as u8);
    }
    ChannelId::Group(key)
}

fn samples() -> Vec<ChannelId> {
    vec![
        user(0),
        user(1),
        user(255),
        ChannelId::User([0u8; 16]),
        ChannelId::User([255u8; 16]),
        group(0),
        group(7),
        ChannelId::Group([0u8; 32]),
        ChannelId::Group([255u8; 32]),
    ]
}

#[test]
fn channel_id_encoding_layout() {
    let uuid: [u8; 16] = [9, 8, 7, 6, 5, 4, 3, 2, 1, 0, 10, 11, 12, 13, 14, 15];
    let bytes = ChannelId::User(uuid).to_bytes();
    assert_eq!(bytes.len(), 33);
    assert_eq!(bytes[0], 0);
    assert_eq!(&bytes[1..17], &uuid[..]);
    assert!(bytes[17..].iter().all(|b| *b == 0));

    let key = [0xabu8; 32];
    let bytes = ChannelId::Group(key).to_bytes();
    assert_eq!(bytes.len(), 33);
    assert_eq!(bytes[0], 1);
    assert_eq!(&bytes[1..], &key[..]);
}

#[test]
fn channel_id_round_trip() {
    for c in samples() {
        assert_eq!(ChannelId::from_bytes(&c.to_bytes()), Some(c));
    }
}

#[test]
fn channel_id_byte_order_matches_value_order() {
    for a in samples() {
        for b in samples() {
            assert_eq!(a.cmp(&b), a.to_bytes().cmp(&b.to_bytes()));
        }
    }
}

#[test]
fn channel_id_rejects_foreign_bytes() {
    let mut bytes = user(3).to_bytes();
    bytes[0] = 2;
    assert_eq!(ChannelId::from_bytes(&bytes), None);
    assert_eq!(ChannelId::from_bytes(&[0u8; 32]), None);
    assert_eq!(ChannelId::from_bytes(&[1u8; 34]), None);
    assert_eq!(ChannelId::from_bytes(&[]), None);
}

#[test]
fn channel_id_user_tail_is_ignored() {
    let mut bytes = ChannelId::User([5u8; 16]).to_bytes();
    bytes[20] = 99;
    assert_eq!(ChannelId::from_bytes(&bytes), Some(ChannelId::User([5u8; 16])));
}

#[test]
fn u64_big_endian_bytes() {
    assert_eq!(u64_to_be_bytes(0x0102030405060708), vec![1, 2, 3, 4, 5, 6, 7, 8]);
    assert_eq!(u64_from_be_bytes(&[1, 2, 3, 4, 5, 6, 7, 8]), 0x0102030405060708);
    assert_eq!(u64_to_be_bytes(u64::MAX), vec![255; 8]);
    assert_eq!(u64_from_be_bytes(&[0; 8]), 0);
}

#[test]
fn message_key_layout_and_round_trip() {
    let k = MessageKey { channel_id: group(4), message_id: 258 };
    let bytes = k.to_bytes();
    assert_eq!(bytes.len(), 41);
    assert_eq!(&bytes[..33], &group(4).to_bytes()[..]);
    assert_eq!(&bytes[33..], &[0, 0, 0, 0, 0, 0, 1, 2]);
    assert_eq!(MessageKey::from_bytes(&bytes), Some(k));
    assert_eq!(MessageKey::from_bytes(&bytes[..40]), None);
}

#[test]
fn message_key_byte_order_matches_value_order() {
    let ids = [0u64, 1, 255, 256, 1 << 40, u64::MAX - 1, u64::MAX];
    let mut keys = Vec::new();
    for c in samples() {
        for id in ids {
            keys.push(MessageKey { channel_id: c, message_id: id });
        }
    }
    for a in &keys {
        for b in &keys {
            assert_eq!(a.cmp(b), a.to_bytes().cmp(&b.to_bytes()));
        }
    }
}
