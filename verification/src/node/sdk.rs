//! The parts of the Node.js SDK that need no service.

use vstd::prelude::*;
use vstd::string::*;

use crate::account::{account_json, shows_account, Account, AccountJson};
use crate::bytes::encryption_key;
use crate::chunked::{
    finalize_error, id_after, ChunkError, ChunkSessions, IdCounter, SessionView,
};
use crate::download::DownloadOptions;
use crate::events::{cursor_after, ObjectsCursor};
use crate::ids::{hash_error, hash_text, hash_value, key_text, parse_hash};
use crate::node::objects::NativePinnedObject;
use crate::node::options::{
    or_default, NativeDownloadOptions, NativeUploadOptions, ResolvedUploadOptions,
};
use crate::node::packed::{NativePackedUpload, PackedUploadView};
use crate::node::streaming::{NativeStreamingUpload, StreamingUploadView};
use crate::object::{
    object_size, slab_start, slab_views, stream_pos, Object, Slab, SlabView,
};
use crate::progress::{slab_data_bytes, slab_data_size, Progress, UploadProgress};
use crate::sealed::{reads_slab, slab_json_views, slabs_to_indexd, slabs_value, SlabJson};
use crate::signing::AppKey;
use crate::text::{decimal, decimal_text};
use crate::timestamp::{at_millis, epoch_ms, system_time_to_epoch_ms, Timestamp};
use crate::urls::{
    fetch_form, parse_shared_object_url, share_form, share_object_url, url_value,
};

verus! {

/// The key that an app signs with.
pub type NativeAppKey = AppKey;

/// A connection of an app with its indexer.
pub struct NativeSDK {
    app_key: NativeAppKey,
}

/// The progress of an upload of which nothing is stored.
pub open spec fn fresh_progress(options: ResolvedUploadOptions) -> UploadProgress {
    UploadProgress {
        sectors: 0,
        total_shards: (options.data_shards + options.parity_shards) as u64,
    }
}

/// What an object with too few slabs is refused with.
pub open spec fn slab_out_of_range(index: u32) -> Seq<char> {
    "slab index "@ + decimal(index as nat) + " out of range"@
}

/// The error of an assembly, if there is one: a bad data key, text that is no slab list, or the
/// first bad slab.
pub open spec fn assembly_error(
    data_key: Seq<u8>,
    slabs: Result<Vec<SlabJson>, String>,
) -> Option<Seq<char>> {
    if data_key.len() != 32 {
        Some("invalid key length"@)
    } else {
        match slabs {
            Err(e) => Some(e@),
            Ok(json) => match slabs_value(slab_json_views(json@)) {
                Err(e) => Some(e),
                Ok(_) => None,
            },
        }
    }
}

impl NativeSDK {
    /// The key of the app.
    pub closed spec fn key(self) -> NativeAppKey {
        self.app_key
    }

    /// The connection of the app that has this key.
    pub fn new(app_key: NativeAppKey) -> (sdk: NativeSDK)
        ensures
            sdk.key() == app_key,
    {
        NativeSDK { app_key }
    }

    /// The key of the app.
    pub fn app_key(&self) -> (key: NativeAppKey)
        ensures
            key@ == self.key()@,
    {
        self.app_key.clone()
    }

    /// Reads the cursor from which object events are wanted.
    pub fn object_events(&self, cursor: Option<(String, u64)>) -> (result: Result<
        Option<ObjectsCursor>,
        String,
    >)
        ensures
            match cursor {
                None => result == Ok::<Option<ObjectsCursor>, String>(None),
                Some((id, after)) => {
                    &&& result is Ok <==> hash_value(id@) is Some
                    &&& result matches Ok(cursor) ==> {
                        &&& cursor is Some
                        &&& hash_value(id@) == Some(cursor->0.id@)
                        &&& cursor->0.after == at_millis(after as int)
                        &&& cursor->0.after.secs * 1000 + cursor->0.after.nanos as int / 1_000_000
                            == after
                        &&& cursor->0.after.nanos < 1_000_000_000
                        &&& cursor->0.after.nanos % 1_000_000 == 0
                    }
                    &&& result matches Err(e) ==> e@ == hash_error(id@)
                },
            },
    {
        match cursor {
            None => Ok(None),
            Some((id, after)) => match cursor_after(id.as_str(), after) {
                Ok(cursor) => Ok(Some(cursor)),
                Err(e) => Err(e),
            },
        }
    }

    /// Reads the key of an object that is to be fetched.
    pub fn object(&self, key: &str) -> (result: Result<[u8; 32], String>)
        ensures
            result is Ok <==> hash_value(key@) is Some,
            result matches Ok(hash) ==> hash_value(key@) == Some(hash@),
            result matches Err(e) ==> e@ == hash_error(key@),
    {
        parse_hash(key)
    }

    /// Reads the key of an object that is to be deleted.
    pub fn delete_object(&self, key: &str) -> (result: Result<[u8; 32], String>)
        ensures
            result is Ok <==> hash_value(key@) is Some,
            result matches Ok(hash) ==> hash_value(key@) == Some(hash@),
            result matches Err(e) ==> e@ == hash_error(key@),
    {
        parse_hash(key)
    }

    /// Begins a packed upload.
    pub fn upload_packed(&self, options: &NativeUploadOptions) -> (upload: NativePackedUpload)
        ensures
            upload@ == (PackedUploadView {
                slab_size: slab_data_bytes(options.resolved().data_shards) as u64,
                length: 0,
                closed: false,
            }),
            options.data_shards matches Some(n) ==> upload@.slab_size == n % 256 * 4194304,
            options.data_shards is None ==> upload@.slab_size == 10 * 4194304,
    {
        NativePackedUpload::new(options)
    }

    /// Prepares an upload: its options, and the progress to report.
    pub fn upload(&self, options: &NativeUploadOptions) -> (prepared: (
        ResolvedUploadOptions,
        UploadProgress,
    ))
        ensures
            prepared.0 == options.resolved(),
            prepared.1 == fresh_progress(options.resolved()),
            prepared.1.sectors == 0,
            prepared.1.total_shards == prepared.0.data_shards + prepared.0.parity_shards,
    {
        let resolved = options.resolve();
        (resolved, UploadProgress::new(resolved.data_shards, resolved.parity_shards))
    }

    /// Prepares the upload of one slab: its key, its options, and the progress to report, in
    /// shards.
    pub fn upload_slab(&self, data_key: &[u8], options: &NativeUploadOptions) -> (result: Result<
        ([u8; 32], ResolvedUploadOptions, Progress),
        String,
    >)
        ensures
            result is Ok <==> data_key@.len() == 32,
            result matches Ok((key, resolved, progress)) ==> {
                &&& key@ == data_key@
                &&& resolved == options.resolved()
                &&& progress == (Progress {
                    count: 0,
                    total: (resolved.data_shards + resolved.parity_shards) as u64,
                })
            },
            result matches Err(e) ==> e@ == "invalid key length"@,
    {
        let resolved = options.resolve();
        match encryption_key(data_key) {
            Ok(key) => {
                let total: u64 = resolved.data_shards as u64 + resolved.parity_shards as u64;
                Ok((key, resolved, Progress::new(total)))
            },
            Err(e) => Err(e),
        }
    }

    /// Prepares the download of an object: its options, and the progress to report, in slabs.
    pub fn download(&self, object: &NativePinnedObject, options: &NativeDownloadOptions) -> (
    prepared: (DownloadOptions, Progress))
        ensures
            prepared.0 == (DownloadOptions {
                max_inflight: or_default(options.max_inflight, 10) as usize,
                offset: 0,
                length: None,
            }),
            prepared.1 == (Progress {
                count: 0,
                total: (object.inner.slabs@.len() % 0x1_0000_0000) as u64,
            }),
    {
        (options.whole(), Progress::new(object.slab_count() as u64))
    }

    /// Prepares the download of `length` bytes from `offset` of an object.
    pub fn download_range(
        &self,
        offset: u64,
        length: u64,
        options: &NativeDownloadOptions,
    ) -> (download: DownloadOptions)
        ensures
            download == (DownloadOptions {
                max_inflight: or_default(options.max_inflight, 10) as usize,
                offset,
                length: Some(length),
            }),
    {
        options.ranged(offset, length)
    }

    /// Prepares the download of an object whose bytes are handed over as they come.
    pub fn download_streaming(
        &self,
        object: &NativePinnedObject,
        options: &NativeDownloadOptions,
    ) -> (prepared: (DownloadOptions, Progress))
        ensures
            prepared.0 == (DownloadOptions {
                max_inflight: or_default(options.max_inflight, 10) as usize,
                offset: 0,
                length: None,
            }),
            prepared.1 == (Progress {
                count: 0,
                total: (object.inner.slabs@.len() % 0x1_0000_0000) as u64,
            }),
    {
        self.download(object, options)
    }

    /// The download of a single slab by index: as many bytes as the slab holds, from the position
    /// in the object at which it begins.
    pub fn download_slab_by_index(
        &self,
        slabs: &Vec<Slab>,
        index: u32,
        options: &NativeDownloadOptions,
    ) -> (result: Result<DownloadOptions, String>)
        requires
            object_size(slabs@) <= u64::MAX,
        ensures
            result is Ok <==> index < slabs@.len(),
            result matches Ok(download) ==> download == (DownloadOptions {
                max_inflight: or_default(options.max_inflight, 10) as usize,
                offset: stream_pos(slabs@, index as int) as u64,
                length: Some(slabs@[index as int].length as u64),
            }),
            result matches Err(e) ==> e@ == slab_out_of_range(index),
            result matches Err(e) ==> e@ == "slab index "@ + decimal(index as nat)
                + " out of range"@,
            result matches Ok(download) ==> {
                &&& options.max_inflight matches Some(n) ==> download.max_inflight == n
                &&& options.max_inflight is None ==> download.max_inflight == 10
            },
    {
        if index as usize >= slabs.len() {
            let mut message: String = "slab index ".to_string();
            message.append(decimal_text(index as u64).as_str());
            message.append(" out of range");
            return Err(message);
        }
        let offset: u64 = slab_start(slabs, index as usize);
        Ok(options.ranged(offset, slabs[index as usize].length as u64))
    }

    /// Generates a random data key.
    pub fn generate_data_key(&self) -> (key: Vec<u8>)
        ensures
            key@.len() == 32,
    {
        crate::random::generate_data_key()
    }

    /// Assembles an object from its data key and its slabs. `slabs` is the list as it was read,
    /// or what is wrong with it; `now` is the time of the assembly.
    pub fn assemble_object(
        &self,
        data_key: &[u8],
        slabs: Result<Vec<SlabJson>, String>,
        now: Timestamp,
    ) -> (result: Result<NativePinnedObject, String>)
        ensures
            result is Ok <==> assembly_error(data_key@, slabs) is None,
            result matches Ok(pinned) ==> {
                &&& pinned.inner.encryption_key@ == data_key@
                &&& slabs_value(slab_json_views(slabs->Ok_0@)) == Ok::<Seq<SlabView>, Seq<char>>(
                    slab_views(pinned.inner.slabs@),
                )
                &&& pinned.inner.metadata@ == Seq::<u8>::empty()
                &&& pinned.inner.created_at == now
                &&& pinned.inner.updated_at == now
            },
            result matches Err(e) ==> assembly_error(data_key@, slabs) == Some(e@),
            result matches Ok(pinned) ==> {
                &&& data_key@.len() == 32
                &&& slabs is Ok
                &&& pinned.inner.slabs@.len() == slabs->Ok_0@.len()
                &&& forall|k: int|
                    0 <= k < slabs->Ok_0@.len() ==> reads_slab(
                        #[trigger] slabs->Ok_0@[k],
                        pinned.inner.slabs@[k],
                    )
            },
            result matches Err(e) ==> if data_key@.len() != 32 {
                e@ == "invalid key length"@
            } else if slabs is Err {
                e@ == slabs->Err_0@
            } else {
                slabs_value(slab_json_views(slabs->Ok_0@)) == Err::<Seq<SlabView>, Seq<char>>(e@)
            },
    {
        let key = match encryption_key(data_key) {
            Ok(key) => key,
            Err(e) => {
                return Err(e);
            },
        };
        let json = match slabs {
            Ok(json) => json,
            Err(e) => {
                return Err(e);
            },
        };
        match slabs_to_indexd(&json) {
            Ok(slabs) => Ok(
                NativePinnedObject::from_object(
                    Object {
                        encryption_key: key,
                        slabs,
                        metadata: Vec::new(),
                        created_at: now,
                        updated_at: now,
                    },
                ),
            ),
            Err(e) => Err(e),
        }
    }

    /// Turns the share URL of an object into the form in which it is handed out.
    pub fn share_object(&self, url: &str) -> (shared: String)
        ensures
            shared@ == share_form(url@),
            forall|rest: Seq<char>|
                url@ == #[trigger] ("https://"@ + rest) ==> shared@ == "sia://"@ + rest,
            (forall|rest: Seq<char>| url@ != #[trigger] ("https://"@ + rest)) ==> shared@ == url@,
    {
        share_object_url(url)
    }

    /// Reads the share URL of an object that is to be fetched.
    pub fn shared_object(&self, url: &str) -> (result: Result<String, String>)
        ensures
            result is Ok <==> url_value(fetch_form(url@)) is Ok,
            result matches Ok(parsed) ==> url_value(fetch_form(url@))->Ok_0 == parsed@,
            result matches Err(e) ==> url_value(fetch_form(url@))->Err_0 == e@,
    {
        parse_shared_object_url(url)
    }

    /// Opens a session for a file of `total_size` bytes that arrives in chunks.
    pub fn start_chunked_upload(
        &self,
        sessions: &mut ChunkSessions,
        ids: &mut IdCounter,
        total_size: usize,
    ) -> (id: u64)
        requires
            old(sessions).inv(),
        ensures
            final(sessions).inv(),
            id == old(ids).upcoming(),
            final(ids).upcoming() == id_after(old(ids).upcoming()),
            final(sessions)@ == old(sessions)@.insert(
                id,
                SessionView { total: total_size as nat, written: Seq::empty() },
            ),
    {
        sessions.start_chunked_upload(ids, total_size)
    }

    /// Closes a session and prepares the upload of its bytes: the options, and the progress to
    /// report.
    pub fn finalize_chunked_upload(
        &self,
        sessions: &mut ChunkSessions,
        session_id: u64,
        options: &NativeUploadOptions,
    ) -> (result: Result<(Vec<u8>, ResolvedUploadOptions, UploadProgress), ChunkError>)
        requires
            old(sessions).inv(),
        ensures
            final(sessions).inv(),
            final(sessions)@ == old(sessions)@.remove(session_id),
            result matches Ok((data, resolved, progress)) ==> {
                &&& finalize_error(old(sessions)@, session_id) is None
                &&& data@ == old(sessions)@[session_id].written
                &&& resolved == options.resolved()
                &&& progress == fresh_progress(resolved)
            },
            result matches Err(e) ==> finalize_error(old(sessions)@, session_id) == Some(e),
            result matches Ok((data, resolved, progress)) ==> {
                &&& progress.sectors == 0
                &&& progress.total_shards == resolved.data_shards + resolved.parity_shards
            },
            ({
                let open = old(sessions)@;
                let s = open[session_id];
                if !open.contains_key(session_id) {
                    result is Err && result->Err_0 is NotOpen
                } else if s.written.len() != s.total {
                    &&& result is Err
                    &&& result->Err_0 is Incomplete
                    &&& result->Err_0->expected == s.total
                    &&& result->Err_0->got == s.written.len()
                } else {
                    result is Ok && result->Ok_0.0@ == s.written
                }
            }),
    {
        match sessions.finalize_chunked_upload(session_id) {
            Ok(data) => {
                let (resolved, progress) = self.upload(options);
                Ok((data, resolved, progress))
            },
            Err(e) => Err(e),
        }
    }

    /// Begins a streaming upload: its options, the progress to report, and the state of the
    /// pushing side.
    pub fn streaming_upload(&self, options: &NativeUploadOptions) -> (prepared: (
        ResolvedUploadOptions,
        UploadProgress,
        NativeStreamingUpload,
    ))
        ensures
            prepared.0 == options.resolved(),
            prepared.1 == fresh_progress(options.resolved()),
            prepared.1.sectors == 0,
            prepared.1.total_shards == prepared.0.data_shards + prepared.0.parity_shards,
            prepared.2@ == (StreamingUploadView { open: true, awaited: false }),
    {
        let (resolved, progress) = self.upload(options);
        (resolved, progress, NativeStreamingUpload::new())
    }

    /// Shows the account of the app. A time before the Unix epoch counts as the epoch.
    pub fn account(&self, account: Account) -> (json: AccountJson)
        requires
            account.last_used.valid(),
        ensures
            shows_account(json, account, epoch_ms(account.last_used)),
            json.account_key@ == key_text(account.account_key@),
            json.connect_key@ == account.connect_key@,
            json.max_pinned_data == account.max_pinned_data,
            json.pinned_data == account.pinned_data,
            json.app.id@ == hash_text(account.app.id@),
            json.app.description@ == account.app.description@,
            json.app.service_url == account.app.service_url,
            json.app.logo_url == account.app.logo_url,
            account.last_used.secs < 0 ==> json.last_used == 0,
            account.last_used.secs >= 0 ==> json.last_used == account.last_used.secs * 1000
                + account.last_used.nanos as int / 1_000_000,
    {
        let last_used: u64 = system_time_to_epoch_ms(account.last_used);
        account_json(account, last_used as i64)
    }

    /// Size in bytes of data per slab, with `data_shards` data shards.
    pub fn slab_data_size(&self, data_shards: u8) -> (size: usize)
        ensures
            size == slab_data_bytes(data_shards),
            size == data_shards * 4194304,
    {
        slab_data_size(data_shards)
    }
}

} // verus!
