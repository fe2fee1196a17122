use indexd::account::{Account, AccountApp};
use indexd::chunked::{ChunkError, ChunkSessions, IdCounter};
use indexd::download::{plan_download, DownloadOptions};
use indexd::node::objects::{NativeObjectEvent, NativePinnedObject};
use indexd::node::options::{NativeDownloadOptions, NativeUploadOptions};
use indexd::node::sdk::NativeSDK;
use indexd::object::{clone_slab, Object, Sector, Slab};
use indexd::progress::Progress;
use indexd::sealed::SlabJson;
use indexd::signing::AppKey;
use indexd::timestamp::Timestamp;
use indexd::wasm::objects::{event_row, EventRow, PinnedObject};
use indexd::wasm::options::UploadOptions;
use indexd::wasm::sdk::{MAX_SIZE, SDK};
use indexd::wasm::streaming::StreamingReaders;

const NOW: Timestamp = Timestamp { secs: 1000, nanos: 5_000_000 };

fn slab(offset: u32, length: u32) -> Slab {
    Slab {
        encryption_key: [3; 32],
        min_shards: 2,
        sectors: vec![Sector { root: [1; 32], host_key: [2; 32] }; 3],
        offset,
        length,
    }
}

fn object() -> Object {
    Object {
        encryption_key: [9; 32],
        slabs: vec![slab(7, 100), slab(8, 200), slab(9, 300)],
        metadata: vec![1, 2],
        created_at: NOW,
        updated_at: Timestamp { secs: -5, nanos: 0 },
    }
}

fn native() -> NativeSDK {
    NativeSDK::new(AppKey::new(&[4; 32]).unwrap())
}

fn browser() -> SDK {
    SDK::new(AppKey::new(&[4; 32]).unwrap())
}

const NONE: NativeUploadOptions =
    NativeUploadOptions { data_shards: None, parity_shards: None, max_inflight: None };

const ANY: NativeDownloadOptions = NativeDownloadOptions { max_inflight: None };

#[test]
fn sdks_know_their_key() {
    let key = AppKey::new(&[4; 32]).unwrap().export();
    assert_eq!(native().app_key().export(), key);
    assert_eq!(browser().app_key().export(), key);
}

#[test]
fn native_object_shows_its_fields() {
    let mut pinned = NativePinnedObject::from_object(object());
    assert_eq!(pinned.size(), 600);
    assert_eq!(pinned.slab_count(), 3);
    assert_eq!(pinned.slab_lengths(), vec![100, 200, 300]);
    assert_eq!(pinned.metadata(), vec![1, 2]);
    assert_eq!(pinned.created_at(), 1_000_005);
    assert_eq!(pinned.updated_at(), 0);
    let slabs = pinned.slabs();
    assert_eq!(slabs.len(), 3);
    assert_eq!(slabs[2].to_indexd(), Ok(slab(9, 300)));
    pinned.update_metadata(&[5]);
    assert_eq!(pinned.metadata(), vec![5]);
    assert_eq!(pinned.size(), 600);
}

#[test]
fn native_event_shows_its_fields() {
    let event = NativeObjectEvent::new(
        &[0xee; 32],
        false,
        NOW,
        Some(NativePinnedObject::from_object(object())),
    );
    assert_eq!(event.id(), "ee".repeat(32));
    assert!(!event.deleted());
    assert_eq!(event.updated_at(), 1_000_005);
    assert_eq!(event.object().unwrap().size(), 600);
    let gone = NativeObjectEvent::new(&[0; 32], true, NOW, None);
    assert!(gone.deleted());
    assert!(gone.object().is_none());
}

#[test]
fn browser_object_shows_its_fields() {
    let mut pinned = PinnedObject::from_object(object());
    assert_eq!(pinned.size(), 600);
    assert_eq!(pinned.slab_count(), 3);
    assert_eq!(pinned.slab_lengths(), vec![100, 200, 300]);
    let layout = pinned.slabs();
    assert_eq!(layout.len(), 3);
    assert_eq!((layout[1].offset, layout[1].length, layout[1].min_shards), (8, 200, 2));
    assert_eq!(layout[1].host_keys, vec![format!("ed25519:{}", "02".repeat(32)); 3]);
    pinned.update_metadata(&[5, 6]);
    assert_eq!(pinned.metadata(), vec![5, 6]);
}

#[test]
fn browser_event_shows_its_fields() {
    let row = event_row(&[0xee; 32], true, Timestamp { secs: -1, nanos: 500_000_000 });
    assert_eq!(row, EventRow { id: "ee".repeat(32), deleted: true, updated_at: -500 });
}

#[test]
fn slabs_are_copied() {
    assert_eq!(clone_slab(&slab(1, 2)), slab(1, 2));
}

#[test]
fn native_uploads_are_prepared() {
    let (options, mut progress) = native().upload(&NONE);
    assert_eq!((options.data_shards, options.parity_shards, options.max_inflight), (10, 20, 10));
    assert_eq!(progress.advance(), (4_194_304, 30 * 4_194_304));
    let (key, options, progress) = native().upload_slab(&[6; 32], &NONE).unwrap();
    assert_eq!(key, [6; 32]);
    assert_eq!(options.data_shards, 10);
    assert_eq!(progress, Progress { count: 0, total: 30 });
    assert_eq!(
        native().upload_slab(&[6; 31], &NONE).err(),
        Some("invalid key length".to_string())
    );
    let (_, progress, mut upload) = native().streaming_upload(&NONE);
    assert_eq!(progress.total_shards, 30);
    assert_eq!(upload.push_chunk(Some(vec![1])), Ok(Some(vec![1])));
    assert_eq!(native().upload_packed(&NONE).remaining(), 41_943_040);
    assert_eq!(native().slab_data_size(10), 41_943_040);
    assert_eq!(native().generate_data_key().len(), 32);
}

#[test]
fn native_chunked_upload() {
    let sdk = native();
    let mut ids = IdCounter::new();
    let mut sessions = ChunkSessions::new();
    let id = sdk.start_chunked_upload(&mut sessions, &mut ids, 3);
    assert_eq!(sessions.upload_chunk(id, &[1, 2, 3]), Ok(3));
    let (data, options, progress) =
        sdk.finalize_chunked_upload(&mut sessions, id, &NONE).ok().unwrap();
    assert_eq!(data, vec![1, 2, 3]);
    assert_eq!(options.parity_shards, 20);
    assert_eq!(progress.sectors, 0);
    assert_eq!(
        sdk.finalize_chunked_upload(&mut sessions, id, &NONE).err(),
        Some(ChunkError::NotOpen)
    );
}

#[test]
fn native_downloads_are_prepared() {
    let pinned = NativePinnedObject::from_object(object());
    let whole = DownloadOptions { max_inflight: 10, offset: 0, length: None };
    let (options, progress) = native().download(&pinned, &ANY);
    assert_eq!(options, whole);
    assert_eq!(progress, Progress { count: 0, total: 3 });
    let (options, progress) = native().download_streaming(&pinned, &ANY);
    assert_eq!(options, whole);
    assert_eq!(progress, Progress { count: 0, total: 3 });
    let options = native().download_range(5, 6, &ANY);
    assert_eq!(options, DownloadOptions { max_inflight: 10, offset: 5, length: Some(6) });
    let options = native().download_slab_by_index(&pinned.inner.slabs, 1, &ANY).unwrap();
    assert_eq!(options, DownloadOptions { max_inflight: 10, offset: 100, length: Some(200) });
    let ranges = plan_download(&pinned.inner.slabs, &options);
    assert_eq!(ranges.len(), 1);
    assert_eq!((ranges[0].slab_index, ranges[0].slab_offset, ranges[0].slab_length), (1, 8, 200));
    assert_eq!(
        native().download_slab_by_index(&pinned.inner.slabs, 3, &ANY),
        Err("slab index 3 out of range".to_string())
    );
}

#[test]
fn native_keys_and_cursors() {
    let sdk = native();
    assert_eq!(sdk.object(&"11".repeat(32)), Ok([0x11; 32]));
    assert_eq!(sdk.delete_object("11"), Err("Unexpected length".to_string()));
    assert_eq!(sdk.object_events(None), Ok(None));
    let cursor = sdk.object_events(Some(("22".repeat(32), 2500))).unwrap().unwrap();
    assert_eq!(cursor.id, [0x22; 32]);
    assert_eq!(cursor.after, Timestamp { secs: 2, nanos: 500_000_000 });
    assert_eq!(
        sdk.object_events(Some((String::new(), 0))),
        Err("Unexpected length".to_string())
    );
    assert_eq!(sdk.share_object("https://a/b"), "sia://a/b");
    assert_eq!(sdk.shared_object("sia://a/b"), Ok("https://a/b".to_string()));
}

#[test]
fn native_object_is_assembled() {
    let sdk = native();
    let json = || vec![SlabJson::from_indexd(slab(0, 5)), SlabJson::from_indexd(slab(0, 6))];
    let pinned = sdk.assemble_object(&[1; 32], Ok(json()), NOW).ok().unwrap();
    assert_eq!(pinned.inner.encryption_key, [1; 32]);
    assert_eq!(pinned.inner.slabs, vec![slab(0, 5), slab(0, 6)]);
    assert_eq!(pinned.metadata(), Vec::<u8>::new());
    assert_eq!(pinned.created_at(), 1_000_005);
    let error = |key: &[u8], slabs| sdk.assemble_object(key, slabs, NOW).err().unwrap();
    assert_eq!(error(&[1; 3], Err("bad json".to_string())), "invalid key length");
    assert_eq!(error(&[1; 32], Err("bad json".to_string())), "bad json");
    let mut bad = json();
    bad[1].sectors[0].root = String::new();
    assert_eq!(error(&[1; 32], Ok(bad)), "Unexpected length");
}

fn options() -> UploadOptions {
    UploadOptions::new(10, 20, 6)
}

fn eight() -> indexd::wasm::options::DownloadOptions {
    indexd::wasm::options::DownloadOptions::new()
}

#[test]
fn browser_options() {
    assert_eq!(options().total_shards_per_slab(), 30);
    assert_eq!(UploadOptions::new(255, 255, 1).total_shards_per_slab(), 510);
    assert_eq!(options().slab_data_size(), 41_943_040);
    assert_eq!(options().js_clone(), options());
    assert_eq!(eight().max_inflight, 8);
    assert_eq!(eight().js_clone(), eight());
    assert_eq!(
        eight().into_indexd_ranged(3, 4),
        DownloadOptions { max_inflight: 8, offset: 3, length: Some(4) }
    );
}

#[test]
fn browser_uploads_are_prepared() {
    let sdk = browser();
    assert_eq!(sdk.upload(41_943_041, &options()), Progress { count: 0, total: 60 });
    assert_eq!(sdk.upload(0, &options()), Progress { count: 0, total: 0 });
    let (key, progress) = sdk.upload_slab(&[6; 32], &options()).unwrap();
    assert_eq!((key, progress.total), ([6; 32], 30));
    assert_eq!(
        sdk.upload_slab(&[6; 33], &options()).err(),
        Some("invalid data key: invalid key length".to_string())
    );
    assert_eq!(sdk.slab_data_size(&options()), 41_943_040);
    assert_eq!(sdk.generate_data_key().len(), 32);
    let mut ids = IdCounter::new();
    let mut readers = StreamingReaders::new();
    let (upload, progress) = sdk.streaming_upload(&mut readers, &mut ids, "queue", 1, &options());
    assert_eq!(upload.reader(&readers), Ok(&"queue"));
    assert_eq!(progress, Progress { count: 0, total: 30 });
    let (second, _) = sdk.streaming_upload(&mut readers, &mut ids, "other", 0, &options());
    assert_ne!(upload, second);
}

#[test]
fn browser_chunked_upload_is_bounded() {
    let sdk = browser();
    let mut ids = IdCounter::new();
    let mut sessions = ChunkSessions::new();
    assert_eq!(MAX_SIZE, 1536 * 1024 * 1024);
    assert_eq!(sdk.start_chunked_upload(&mut sessions, &mut ids, MAX_SIZE + 1), None);
    // the refused file used up an ID
    assert_eq!(sdk.start_chunked_upload(&mut sessions, &mut ids, 2), Some(2));
    assert_eq!(sessions.upload_chunk(1, &[]), Err(ChunkError::UnknownSession));
    assert_eq!(sessions.upload_chunk(2, &[7, 8]), Ok(2));
    let (data, progress) =
        sdk.finalize_chunked_upload(&mut sessions, 2, &options()).ok().unwrap();
    assert_eq!(data, vec![7, 8]);
    assert_eq!(progress, Progress { count: 0, total: 30 });
    assert_eq!(
        sdk.finalize_chunked_upload(&mut sessions, 2, &options()).err(),
        Some(ChunkError::NotOpen)
    );
}

#[test]
fn browser_downloads_are_prepared() {
    let sdk = browser();
    let pinned = PinnedObject::from_object(object());
    let whole = DownloadOptions { max_inflight: 8, offset: 0, length: None };
    assert_eq!(sdk.download(&pinned, eight()), (whole, 600, Progress { count: 0, total: 3 }));
    assert_eq!(
        sdk.download_streaming(&pinned, eight()),
        (whole, Progress { count: 0, total: 3 })
    );
    assert_eq!(
        sdk.download_range(5, 6, eight()),
        (DownloadOptions { max_inflight: 8, offset: 5, length: Some(6) }, 6)
    );
}

#[test]
fn browser_slab_by_index_is_that_slab() {
    let sdk = browser();
    let slabs = object().slabs;
    let options = sdk.download_slab_by_index(&slabs, 2, eight()).unwrap();
    assert_eq!(options, DownloadOptions { max_inflight: 8, offset: 300, length: Some(300) });
    let ranges = plan_download(&slabs, &options);
    assert_eq!(ranges.len(), 1);
    assert_eq!((ranges[0].slab_index, ranges[0].slab_offset, ranges[0].slab_length), (2, 9, 300));
    assert_eq!(
        sdk.download_slab_by_index(&slabs, 3, eight()),
        Err("slab index 3 out of range (object has 3 slabs)".to_string())
    );
}

#[test]
fn browser_keys_cursors_and_urls() {
    let sdk = browser();
    assert_eq!(sdk.object(&"11".repeat(32)), Ok([0x11; 32]));
    assert_eq!(sdk.delete_object("11"), Err("Unexpected length".to_string()));
    assert_eq!(sdk.object_events(None), Ok(None));
    let json = format!("{{\"after\": 2500, \"id\": \"{}\"}}", "22".repeat(32));
    let cursor = sdk.object_events(Some(json)).unwrap().unwrap();
    assert_eq!(cursor.id, [0x22; 32]);
    assert_eq!(cursor.after, Timestamp { secs: 2, nanos: 500_000_000 });
    assert_eq!(
        sdk.object_events(Some("{}".to_string())),
        Err("cursor missing 'id'".to_string())
    );
    assert_eq!(sdk.share_object("https://a/b"), "sia://a/b");
    assert_eq!(sdk.shared_object("sia://a/b"), "https://a/b");
}

#[test]
fn browser_object_is_assembled() {
    let sdk = browser();
    let pinned = sdk.assemble_object(&[1; 32], Ok(vec![slab(0, 5)]), NOW).ok().unwrap();
    assert_eq!(pinned.inner.slabs, vec![slab(0, 5)]);
    assert_eq!(pinned.metadata(), Vec::<u8>::new());
    let error = |key: &[u8]| {
        sdk.assemble_object(key, Err("bad json".to_string()), NOW).err().unwrap()
    };
    assert_eq!(error(&[1; 3]), "invalid data key: invalid key length");
    assert_eq!(error(&[1; 32]), "bad json");
}

fn account() -> Account {
    Account {
        account_key: [0x0a; 32],
        connect_key: "connect".to_string(),
        max_pinned_data: 10,
        pinned_data: 3,
        app: AccountApp {
            id: [0x0b; 32],
            description: "An app".to_string(),
            service_url: Some("https://a/".to_string()),
            logo_url: None,
        },
        last_used: Timestamp { secs: -1, nanos: 500_000_000 },
    }
}

#[test]
fn accounts_are_shown() {
    let json = native().account(account());
    assert_eq!(json.account_key, format!("ed25519:{}", "0a".repeat(32)));
    assert_eq!(json.connect_key, "connect");
    assert_eq!((json.max_pinned_data, json.pinned_data), (10, 3));
    assert_eq!(json.app.id, "0b".repeat(32));
    assert_eq!(json.app.description, "An app");
    assert_eq!(json.app.service_url, Some("https://a/".to_string()));
    assert_eq!(json.app.logo_url, None);
    assert_eq!(json.last_used, 0);
    assert_eq!(browser().account(account()).last_used, -500);
}
