use indexd::events::{cursor_after, cursor_from_fields, cursor_from_json, ObjectsCursor};
use indexd::object::{SealedObject, Sector, Slab};
use indexd::sealed::{SealedObjectJson, SectorJson, SlabJson};
use indexd::timestamp::{
    epoch_ms_to_system_time, system_time_to_epoch_ms, Timestamp, MAX_MILLIS, MIN_MILLIS,
};

fn slab() -> Slab {
    Slab {
        encryption_key: [255; 32],
        min_shards: 1,
        sectors: vec![
            Sector { root: [0xab; 32], host_key: [0x01; 32] },
            Sector { root: [0x10; 32], host_key: [0xfe; 32] },
        ],
        offset: 5,
        length: 1000,
    }
}

fn slab_json() -> SlabJson {
    SlabJson::from_indexd(slab())
}

fn sealed() -> SealedObject {
    SealedObject {
        encrypted_data_key: vec![1, 2, 3],
        encrypted_metadata_key: vec![4, 5],
        slabs: vec![slab(), slab()],
        encrypted_metadata: vec![6],
        data_signature: [8; 64],
        metadata_signature: [9; 64],
        created_at: Timestamp { secs: 1_700_000_000, nanos: 123_456_789 },
        updated_at: Timestamp { secs: -1, nanos: 999_999_999 },
    }
}

#[test]
fn slab_in_json() {
    let json = slab_json();
    assert_eq!(json.encryption_key, "//////////////////////////////////////////8=");
    assert_eq!(json.min_shards, 1);
    assert_eq!(json.sectors[0].root, "ab".repeat(32));
    assert_eq!(json.sectors[0].host_key, format!("ed25519:{}", "01".repeat(32)));
    assert_eq!(json.sectors[1].root, "10".repeat(32));
    assert_eq!((json.offset, json.length), (5, 1000));
}

#[test]
fn slab_is_read_back() {
    assert_eq!(slab_json().to_indexd(), Ok(slab()));
}

#[test]
fn hashes_may_have_a_prefix_and_either_case() {
    let mut json = slab_json();
    json.sectors[0].root = format!("h:{}", "AB".repeat(32));
    assert_eq!(json.to_indexd(), Ok(slab()));
}

#[test]
fn faults_in_a_slab() {
    let fault = |change: fn(&mut SlabJson)| {
        let mut json = slab_json();
        change(&mut json);
        json.to_indexd().unwrap_err()
    };
    assert_eq!(fault(|j| j.encryption_key = "AAAA".to_string()), "invalid key length");
    assert_eq!(fault(|j| j.encryption_key = "AA".to_string()), "Invalid padding");
    assert_eq!(fault(|j| j.encryption_key = "AB==".to_string()), "Invalid last symbol 66, offset 1.");
    assert_eq!(fault(|j| j.encryption_key = "A A=".to_string()), "Invalid symbol 32, offset 1.");
    assert_eq!(fault(|j| j.sectors[1].root = "ab".to_string()), "Unexpected length");
    assert_eq!(
        fault(|j| j.sectors[1].root = "zz".repeat(32)),
        "Hex error: Invalid character 'z' at position 0"
    );
    assert_eq!(fault(|j| j.sectors[1].host_key = "ab".repeat(32)), "Missing prefix");
    assert_eq!(
        fault(|j| j.sectors[1].host_key = "ed25519:ab".to_string()),
        "Hex error: Invalid string length"
    );
    // the key is read before the sectors, the first sector before the second, the root before
    // the host key
    assert_eq!(
        fault(|j| {
            j.encryption_key = String::new();
            j.sectors[0].root = String::new();
        }),
        "invalid key length"
    );
    assert_eq!(
        fault(|j| {
            j.sectors[0].host_key = String::new();
            j.sectors[1].root = String::new();
        }),
        "Missing prefix"
    );
    assert_eq!(
        fault(|j| {
            j.sectors[0].host_key = String::new();
            j.sectors[0].root = String::new();
        }),
        "Unexpected length"
    );
}

#[test]
fn sector_is_read() {
    let json = SectorJson {
        root: "00".repeat(32),
        host_key: format!("ed25519:{}", "0f".repeat(32)),
    };
    assert_eq!(json.to_indexd(), Ok(Sector { root: [0; 32], host_key: [15; 32] }));
}

#[test]
fn sealed_object_in_json() {
    let json = SealedObjectJson::from_indexd(sealed(), &[0xcd; 32]);
    assert_eq!(json.id, "cd".repeat(32));
    assert_eq!(json.encrypted_data_key, "AQID");
    assert_eq!(json.encrypted_metadata_key, "BAU=");
    assert_eq!(json.encrypted_metadata, "Bg==");
    assert_eq!(json.slabs.len(), 2);
    assert_eq!(json.data_signature.len(), 88);
    assert_eq!(json.created_at, 1_700_000_000_123);
    assert_eq!(json.updated_at, 0);
}

#[test]
fn sealed_object_is_read_back() {
    let back = SealedObjectJson::from_indexd(sealed(), &[0; 32]).to_indexd().ok().unwrap();
    let sealed = sealed();
    assert_eq!(back.encrypted_data_key, sealed.encrypted_data_key);
    assert_eq!(back.encrypted_metadata_key, sealed.encrypted_metadata_key);
    assert_eq!(back.slabs, sealed.slabs);
    assert_eq!(back.encrypted_metadata, sealed.encrypted_metadata);
    assert_eq!(back.data_signature, sealed.data_signature);
    assert_eq!(back.metadata_signature, sealed.metadata_signature);
    assert_eq!(back.created_at, Timestamp { secs: 1_700_000_000, nanos: 123_000_000 });
    assert_eq!(back.updated_at, Timestamp { secs: 0, nanos: 0 });
}

#[test]
fn faults_in_a_sealed_object() {
    let fault = |change: fn(&mut SealedObjectJson)| {
        let mut json = SealedObjectJson::from_indexd(sealed(), &[0; 32]);
        change(&mut json);
        json.to_indexd().err().unwrap()
    };
    assert_eq!(fault(|j| j.data_signature = "AAAA".to_string()), "Invalid length");
    assert_eq!(fault(|j| j.metadata_signature = "AAAA".to_string()), "Invalid length");
    assert_eq!(fault(|j| j.data_signature = "AAA".to_string()), "Invalid padding");
    assert_eq!(fault(|j| j.metadata_signature = "AAA".to_string()), "Invalid padding");
    assert_eq!(fault(|j| j.encrypted_data_key = "AAA".to_string()), "Invalid padding");
    assert_eq!(fault(|j| j.encrypted_metadata_key = "AAA".to_string()), "Invalid padding");
    assert_eq!(fault(|j| j.encrypted_metadata = "AAA".to_string()), "Invalid padding");
    assert_eq!(fault(|j| j.slabs[1].encryption_key = String::new()), "invalid key length");
    // a bad slab is found before a signature of the wrong length
    assert_eq!(
        fault(|j| {
            j.data_signature = String::new();
            j.slabs[0].encryption_key = String::new();
        }),
        "invalid key length"
    );
    // the ID is not read
    let mut json = SealedObjectJson::from_indexd(sealed(), &[0; 32]);
    json.id = "?".to_string();
    assert!(json.to_indexd().is_ok());
}

#[test]
fn times_and_milliseconds() {
    let t = epoch_ms_to_system_time(1_700_000_000_123);
    assert_eq!(t, Timestamp { secs: 1_700_000_000, nanos: 123_000_000 });
    assert_eq!(system_time_to_epoch_ms(t), 1_700_000_000_123);
    let before = Timestamp { secs: -2, nanos: 500_000_000 };
    assert_eq!(system_time_to_epoch_ms(before), 0);
    assert_eq!(before.timestamp_millis(), -1500);
    assert_eq!(
        system_time_to_epoch_ms(Timestamp { secs: 5, nanos: 999_999 }),
        5000
    );
}

#[test]
fn times_beyond_the_calendar_convert() {
    for ms in [MAX_MILLIS as u64 + 1, 1 << 53, u64::MAX] {
        assert_eq!(system_time_to_epoch_ms(epoch_ms_to_system_time(ms)), ms);
    }
    assert_eq!(system_time_to_epoch_ms(Timestamp { secs: i64::MIN, nanos: 0 }), 0);
}

fn id_text() -> Option<String> {
    Some("0A".repeat(32))
}

#[test]
fn cursor_of_fields() {
    assert_eq!(
        cursor_from_fields(id_text(), Some(-1)),
        Ok(ObjectsCursor {
            id: [10; 32],
            after: Timestamp { secs: -1, nanos: 999_000_000 }
        })
    );
    assert_eq!(cursor_from_fields(None, None), Err("cursor missing 'id'".to_string()));
    assert_eq!(
        cursor_from_fields(Some(String::new()), None),
        Err("cursor missing 'after'".to_string())
    );
    assert_eq!(
        cursor_from_fields(Some(String::new()), Some(i64::MAX)),
        Err("Unexpected length".to_string())
    );
}

#[test]
fn cursor_times_end_with_the_calendar() {
    let error = Err("invalid 'after' timestamp".to_string());
    assert!(cursor_from_fields(id_text(), Some(MAX_MILLIS)).is_ok());
    assert_eq!(cursor_from_fields(id_text(), Some(MAX_MILLIS + 1)), error);
    assert!(cursor_from_fields(id_text(), Some(MIN_MILLIS)).is_ok());
    assert_eq!(cursor_from_fields(id_text(), Some(MIN_MILLIS - 1)), error);
    let last = cursor_from_fields(id_text(), Some(MAX_MILLIS)).unwrap().after;
    assert_eq!(last.timestamp_millis(), MAX_MILLIS);
    assert_eq!(system_time_to_epoch_ms(last), MAX_MILLIS as u64);
}

#[test]
fn cursor_of_json() {
    let json = |id: &str, after: &str| format!("{{\"id\": {}, \"after\": {}}}", id, after);
    let id = format!("\"{}\"", "0a".repeat(32));
    assert_eq!(
        cursor_from_json(&json(&id, "1500")),
        Ok(ObjectsCursor { id: [10; 32], after: Timestamp { secs: 1, nanos: 500_000_000 } })
    );
    let missing_id = Err("cursor missing 'id'".to_string());
    let missing_after = Err("cursor missing 'after'".to_string());
    assert_eq!(cursor_from_json(&json("7", "1500")), missing_id);
    assert_eq!(cursor_from_json("[]"), missing_id);
    assert_eq!(cursor_from_json(&json(&id, "1.5")), missing_after);
    assert_eq!(cursor_from_json(&json(&id, "null")), missing_after);
    assert!(cursor_from_json("{").is_err());
}

#[test]
fn cursor_of_an_event() {
    let updated_at = Timestamp { secs: 77, nanos: 123_456_789 };
    let cursor = cursor_from_fields(id_text(), Some(updated_at.timestamp_millis())).unwrap();
    assert_eq!(cursor.after, Timestamp { secs: 77, nanos: 123_000_000 });
    assert_eq!(cursor_after(&id_text().unwrap(), 77_123), Ok(cursor));
    assert_eq!(cursor_after("", 0), Err("Unexpected length".to_string()));
}
