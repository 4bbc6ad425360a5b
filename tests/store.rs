use gurk::environment::SignalManagerMock;
use gurk::keys::{ChannelId, MessageKey};
use gurk::storage::{JsonStorage, StorageMock};
use gurk::store::{
    bytes_equal, decode_channel_entry, decode_message_entry, decode_name_entry, input_text,
    ChannelRecord, SledStore,
};

fn temp_store() -> SledStore {
    let db = sled::Config::new().temporary(true).open().unwrap();
    SledStore::with_db(db).unwrap()
}

fn all_channels(store: &SledStore) -> Vec<(ChannelId, ChannelRecord)> {
    let mut it = store.channels();
    let mut out = Vec::new();
    while let Some(entry) = it.next() {
        out.push(entry);
    }
    out
}

fn payloads(rec: &ChannelRecord) -> Vec<Vec<u8>> {
    rec.messages.iter().map(|m| m.payload.clone()).collect()
}

#[test]
fn input_is_empty_then_last_written() {
    let store = temp_store();
    assert_eq!(store.input().unwrap(), "");
    store.set_input("draft").unwrap();
    assert_eq!(store.input().unwrap(), "draft");
    store.set_input("final").unwrap();
    assert_eq!(store.input().unwrap(), "final");
}

#[test]
fn pushed_channel_reads_back() {
    let store = temp_store();
    let id = ChannelId::User([7u8; 16]);
    store.push_channel(&id, b"{\"name\":\"alice\"}").unwrap();
    let channels = all_channels(&store);
    assert_eq!(channels.len(), 1);
    assert_eq!(channels[0].0, id);
    assert_eq!(channels[0].1.id, id);
    assert_eq!(channels[0].1.metadata, b"{\"name\":\"alice\"}".to_vec());
    assert!(channels[0].1.messages.is_empty());
}

#[test]
fn channel_overwrite_keeps_latest() {
    let store = temp_store();
    let id = ChannelId::Group([3u8; 32]);
    store.push_channel(&id, b"first").unwrap();
    store.push_channel(&id, b"second").unwrap();
    let channels = all_channels(&store);
    assert_eq!(channels.len(), 1);
    assert_eq!(channels[0].1.metadata, b"second".to_vec());
}

#[test]
fn messages_come_back_in_call_order() {
    let store = temp_store();
    let id = ChannelId::User([1u8; 16]);
    for i in 0..20u8 {
        store.push_message(id, &[i]).unwrap();
    }
    let mut it = store.channel_messages(id);
    let got = it.collect();
    assert_eq!(got.len(), 20);
    for (i, m) in got.iter().enumerate() {
        assert_eq!(m.payload, vec![i as u8]);
        assert_eq!(m.key.channel_id, id);
    }
    for w in got.windows(2) {
        assert!(w[0].key.message_id < w[1].key.message_id);
    }
}

#[test]
fn two_channels_with_their_messages() {
    let store = temp_store();
    let a = ChannelId::User([0xaau8; 16]);
    let b = ChannelId::Group([0xbbu8; 32]);
    store.push_channel(&a, b"A").unwrap();
    store.push_message(a, b"a1").unwrap();
    store.push_message(a, b"a2").unwrap();
    store.push_message(a, b"a3").unwrap();
    store.push_channel(&b, b"B").unwrap();
    store.push_message(b, b"b1").unwrap();

    let channels = all_channels(&store);
    assert_eq!(channels.len(), 2);
    assert_eq!(channels[0].0, a);
    assert_eq!(payloads(&channels[0].1), vec![b"a1".to_vec(), b"a2".to_vec(), b"a3".to_vec()]);
    assert_eq!(channels[1].0, b);
    assert_eq!(payloads(&channels[1].1), vec![b"b1".to_vec()]);

    let only_a = store.channel_messages(a).collect();
    assert_eq!(only_a.len(), 3);
    assert!(only_a.iter().all(|m| m.payload != b"b1".to_vec()));
}

#[test]
fn names_read_back() {
    let store = temp_store();
    store.push_name(&[4u8; 16], "Bob").unwrap();
    store.push_name(&[2u8; 16], "Ann").unwrap();
    store.push_name(&[4u8; 16], "Robert").unwrap();
    let mut it = store.names();
    let mut got = Vec::new();
    while let Some(entry) = it.next() {
        got.push(entry);
    }
    assert_eq!(got, vec![([2u8; 16], "Ann".to_string()), ([4u8; 16], "Robert".to_string())]);
}

#[test]
fn reopened_store_keeps_data_and_ordinals_grow() {
    let db = sled::Config::new().temporary(true).open().unwrap();
    let id = ChannelId::User([9u8; 16]);
    {
        let store = SledStore::with_db(db.clone()).unwrap();
        store.push_message(id, b"x").unwrap();
    }
    let store = SledStore::with_db(db).unwrap();
    store.push_message(id, b"y").unwrap();
    let got = store.channel_messages(id).collect();
    assert_eq!(got.len(), 2);
    assert!(got[0].key.message_id < got[1].key.message_id);
}

#[test]
fn input_text_decodes_stored_bytes() {
    assert_eq!(input_text(None), "");
    assert_eq!(input_text(Some(b"hello".to_vec())), "hello");
    assert_eq!(input_text(Some(vec![b'a', 0xff, b'b'])), "a\u{fffd}b");
}

#[test]
fn name_entry_decoding() {
    assert_eq!(decode_name_entry(&[1u8; 16], b"Eve"), Some(([1u8; 16], "Eve".to_string())));
    assert_eq!(decode_name_entry(&[1u8; 15], b"Eve"), None);
    assert_eq!(decode_name_entry(&[1u8; 16], &[0xff, 0xfe]), None);
}

#[test]
fn channel_entry_decoding() {
    let id = ChannelId::Group([6u8; 32]);
    let rec = decode_channel_entry(&id.to_bytes(), b"meta").unwrap();
    assert_eq!(rec.id, id);
    assert_eq!(rec.metadata, b"meta".to_vec());
    assert!(rec.messages.is_empty());
    assert!(decode_channel_entry(&[7u8; 33], b"meta").is_none());
}

#[test]
fn message_entry_decoding() {
    let a = ChannelId::User([1u8; 16]);
    let b = ChannelId::User([2u8; 16]);
    let k = MessageKey { channel_id: a, message_id: 42 };
    let m = decode_message_entry(&a, &k.to_bytes(), b"hi").unwrap();
    assert_eq!(m.key, k);
    assert_eq!(m.payload, b"hi".to_vec());
    assert!(decode_message_entry(&b, &k.to_bytes(), b"hi").is_none());
    assert!(decode_message_entry(&a, &a.to_bytes(), b"hi").is_none());
}

#[test]
fn bytes_equal_compares_contents() {
    assert!(bytes_equal(b"abc", b"abc"));
    assert!(!bytes_equal(b"abc", b"abd"));
    assert!(!bytes_equal(b"abc", b"ab"));
    assert!(bytes_equal(b"", b""));
}

#[test]
fn constructors() {
    let _ = StorageMock::new();
    let _ = SignalManagerMock::new();
    let s = JsonStorage::new("data.json".to_string());
    assert_eq!(s.path(), "data.json");
}

#[test]
fn push_message_returns_its_key() {
    let store = temp_store();
    let id = ChannelId::Group([8u8; 32]);
    let first = store.push_message(id, b"one").unwrap();
    let second = store.push_message(id, b"two").unwrap();
    assert_eq!(first.channel_id, id);
    assert_eq!(second.channel_id, id);
    assert!(first.message_id < second.message_id);
    let got = store.channel_messages(id).collect();
    assert_eq!(got[0].key, first);
    assert_eq!(got[1].key, second);
}

#[test]
fn channels_come_out_in_ascending_order() {
    let store = temp_store();
    let ids = vec![
        ChannelId::Group([2u8; 32]),
        ChannelId::User([9u8; 16]),
        ChannelId::Group([1u8; 32]),
        ChannelId::User([0u8; 16]),
        ChannelId::User([200u8; 16]),
    ];
    for id in &ids {
        store.push_channel(id, b"m").unwrap();
        store.push_message(*id, b"x").unwrap();
    }
    let channels = all_channels(&store);
    let got: Vec<ChannelId> = channels.iter().map(|(id, _)| *id).collect();
    let mut expected = ids.clone();
    expected.sort();
    assert_eq!(got, expected);
    for (id, rec) in &channels {
        assert_eq!(rec.messages.len(), 1);
        assert_eq!(rec.messages[0].key.channel_id, *id);
    }
}
