//! The parts of the browser SDK that need no service.

use vstd::prelude::*;
use vstd::string::*;

use crate::account::{account_json, shows_account, Account, AccountJson};
use crate::bytes::encryption_key;
use crate::chunked::{
    finalize_error, id_after, ChunkError, ChunkSessions, IdCounter, SessionView,
};
use crate::events::{cursor_from_json, cursor_json_value, json_fields, ObjectsCursor};
use crate::ids::{hash_error, hash_text, hash_value, key_text, parse_hash};
use crate::object::{object_size, slab_start, stream_pos, Object, Slab};
use crate::progress::{slab_data_bytes, Progress};
use crate::signing::AppKey;
use crate::text::{decimal, decimal_text, labelled};
use crate::timestamp::Timestamp;
use crate::urls::{fetch_form, share_form, share_object_url, shared_object_url};
use crate::wasm::objects::PinnedObject;
use crate::wasm::options::{DownloadOptions, UploadOptions};
use crate::wasm::streaming::{StreamingReaders, StreamingUpload};

verus! {

/// Bytes that a chunked upload may have at most: memory is short in a browser.
pub const MAX_SIZE: usize = 1610612736;

/// A connection of an app with its indexer.
pub struct SDK {
    app_key: AppKey,
}

/// What an object with too few slabs is refused with.
pub open spec fn slab_out_of_range(index: nat, count: nat) -> Seq<char> {
    "slab index "@ + decimal(index) + " out of range (object has "@ + decimal(count) + " slabs)"@
}

impl SDK {
    /// The key of the app.
    pub closed spec fn key(self) -> AppKey {
        self.app_key
    }

    /// The connection of the app that has this key.
    pub fn new(app_key: AppKey) -> (sdk: SDK)
        ensures
            sdk.key() == app_key,
    {
        SDK { app_key }
    }

    /// Returns the app key used by this SDK instance.
    pub fn app_key(&self) -> (key: AppKey)
        ensures
            key@ == self.key()@,
    {
        self.app_key.clone()
    }

    /// Prepares the upload of `size` bytes: the progress to report, in shards.
    pub fn upload(&self, size: usize, options: &UploadOptions) -> (progress: Progress)
        requires
            size > 0 ==> options.data_shards > 0,
            options.shards_for(size as int) <= u32::MAX,
        ensures
            progress == (Progress { count: 0, total: options.shards_for(size as int) as u64 }),
            size == 0 ==> progress.total == 0,
            size > 0 ==> {
                let slabs = progress.total as int / (options.data_shards + options.parity_shards);
                &&& progress.total == slabs * (options.data_shards + options.parity_shards)
                &&& size <= slabs * (options.data_shards * 4194304)
                &&& (slabs - 1) * (options.data_shards * 4194304) < size
            },
    {
        Progress::new(options.total_shards(size) as u64)
    }

    /// Prepares the download of an object: its options, the size of the buffer for its bytes,
    /// and the progress to report, in slabs.
    pub fn download(&self, object: &PinnedObject, options: DownloadOptions) -> (prepared: (
        crate::download::DownloadOptions,
        usize,
        Progress,
    ))
        requires
            object_size(object.inner.slabs@) <= usize::MAX,
        ensures
            prepared.0 == (crate::download::DownloadOptions {
                max_inflight: options.max_inflight,
                offset: 0,
                length: None,
            }),
            prepared.1 == object_size(object.inner.slabs@),
            prepared.2 == (Progress {
                count: 0,
                total: (object.inner.slabs@.len() % 0x1_0000_0000) as u64,
            }),
    {
        let size: usize = object.size() as usize;
        let progress = Progress::new(object.slab_count() as u64);
        (options.into_indexd(), size, progress)
    }

    /// Prepares the download of `length` bytes from `offset`: its options, and the size of the
    /// buffer for them.
    pub fn download_range(&self, offset: u64, length: u64, options: DownloadOptions) -> (prepared: (
        crate::download::DownloadOptions,
        usize,
    ))
        requires
            length <= usize::MAX,
        ensures
            prepared.0 == (crate::download::DownloadOptions {
                max_inflight: options.max_inflight,
                offset,
                length: Some(length),
            }),
            prepared.1 == length,
    {
        (options.into_indexd_ranged(offset, length), length as usize)
    }

    /// Prepares the download of an object whose bytes are handed over as they come: its options,
    /// and the progress to report, in slabs.
    pub fn download_streaming(&self, object: &PinnedObject, options: DownloadOptions) -> (prepared:
        (crate::download::DownloadOptions, Progress))
        ensures
            prepared.0 == (crate::download::DownloadOptions {
                max_inflight: options.max_inflight,
                offset: 0,
                length: None,
            }),
            prepared.1 == (Progress {
                count: 0,
                total: (object.inner.slabs@.len() % 0x1_0000_0000) as u64,
            }),
    {
        (options.into_indexd(), Progress::new(object.slab_count() as u64))
    }

    /// Closes a session and prepares the upload of its bytes: the progress to report, in shards.
    pub fn finalize_chunked_upload(
        &self,
        sessions: &mut ChunkSessions,
        session_id: u64,
        options: &UploadOptions,
    ) -> (result: Result<(Vec<u8>, Progress), ChunkError>)
        requires
            old(sessions).inv(),
            finalize_error(old(sessions)@, session_id) is None ==> {
                let size = old(sessions)@[session_id].total;
                &&& size > 0 ==> options.data_shards > 0
                &&& options.shards_for(size as int) <= u32::MAX
            },
        ensures
            final(sessions).inv(),
            final(sessions)@ == old(sessions)@.remove(session_id),
            result matches Ok((data, progress)) ==> {
                &&& finalize_error(old(sessions)@, session_id) is None
                &&& data@ == old(sessions)@[session_id].written
                &&& progress == (Progress {
                    count: 0,
                    total: options.shards_for(data@.len() as int) as u64,
                })
            },
            result matches Err(e) ==> finalize_error(old(sessions)@, session_id) == Some(e),
            result matches Ok((data, progress)) ==> {
                let slabs = progress.total as int / (options.data_shards + options.parity_shards);
                &&& progress.count == 0
                &&& data@.len() == 0 ==> progress.total == 0
                &&& data@.len() > 0 ==> {
                    &&& progress.total == slabs * (options.data_shards + options.parity_shards)
                    &&& data@.len() <= slabs * (options.data_shards * 4194304)
                    &&& (slabs - 1) * (options.data_shards * 4194304) < data@.len()
                }
            },
            ({
                let open = old(sessions)@;
                let s = open[session_id];
                if !open.contains_key(session_id) {
                    result is Err && result->Err_0 is NotOpen
                } else if s.written.len() != s.total {
                    &&& result is Err
                    &&& result->Err_0 is Incomplete
                    &&& result->Err_0->expected == s.total
                    &&& result->Err_0->got == s.written.len()
                } else {
                    result is Ok && result->Ok_0.0@ == s.written
                }
            }),
    {
        match sessions.finalize_chunked_upload(session_id) {
            Ok(data) => {
                let progress = self.upload(data.len(), options);
                Ok((data, progress))
            },
            Err(e) => Err(e),
        }
    }

    /// Begins a streaming upload of `total_size` bytes: registers the queue that feeds it.
    /// Returns the handle for pushing, and the progress to report, in shards.
    pub fn streaming_upload<T>(
        &self,
        readers: &mut StreamingReaders<T>,
        ids: &mut IdCounter,
        reader: T,
        total_size: usize,
        options: &UploadOptions,
    ) -> (prepared: (StreamingUpload, Progress))
        requires
            total_size > 0 ==> options.data_shards > 0,
            options.shards_for(total_size as int) <= u32::MAX,
        ensures
            prepared.0.reader_id == old(ids).upcoming(),
            final(ids).upcoming() == id_after(old(ids).upcoming()),
            final(readers)@ == old(readers)@.insert(prepared.0.reader_id, reader),
            prepared.1 == (Progress {
                count: 0,
                total: options.shards_for(total_size as int) as u64,
            }),
            total_size == 0 ==> prepared.1.total == 0,
            total_size > 0 ==> {
                let slabs = prepared.1.total as int / (options.data_shards
                    + options.parity_shards);
                &&& prepared.1.total == slabs * (options.data_shards + options.parity_shards)
                &&& total_size <= slabs * (options.data_shards * 4194304)
                &&& (slabs - 1) * (options.data_shards * 4194304) < total_size
            },
    {
        let reader_id: u64 = readers.register(ids, reader);
        (StreamingUpload { reader_id }, self.upload(total_size, options))
    }

    /// Turns the share URL of an object into the form in which it is handed out.
    pub fn share_object(&self, url: &str) -> (shared: String)
        ensures
            shared@ == share_form(url@),
            forall|rest: Seq<char>|
                url@ == #[trigger] ("https://"@ + rest) ==> shared@ == "sia://"@ + rest,
            (forall|rest: Seq<char>| url@ != #[trigger] ("https://"@ + rest)) ==> shared@ == url@,
    {
        share_object_url(url)
    }

    /// Turns a signed share URL into the form in which it is fetched. Accepts both `https://` and
    /// `sia://` schemes.
    pub fn shared_object(&self, share_url: &str) -> (url: String)
        ensures
            url@ == fetch_form(share_url@),
            forall|rest: Seq<char>|
                share_url@ == #[trigger] ("sia://"@ + rest) ==> url@ == "https://"@ + rest,
            (forall|rest: Seq<char>| share_url@ != #[trigger] ("sia://"@ + rest)) ==> url@
                == share_url@,
    {
        shared_object_url(share_url)
    }

    /// The download of a single slab by index.
    pub fn download_slab_by_index(
        &self,
        slabs: &Vec<Slab>,
        slab_index: u32,
        options: DownloadOptions,
    ) -> (result: Result<crate::download::DownloadOptions, String>)
        requires
            object_size(slabs@) <= u64::MAX,
        ensures
            result is Ok <==> slab_index < slabs@.len(),
            result matches Ok(download) ==> download == (crate::download::DownloadOptions {
                max_inflight: options.max_inflight,
                offset: stream_pos(slabs@, slab_index as int) as u64,
                length: Some(slabs@[slab_index as int].length as u64),
            }),
            result matches Err(e) ==> e@ == slab_out_of_range(
                slab_index as nat,
                slabs@.len(),
            ),
            result matches Err(e) ==> e@ == "slab index "@ + decimal(slab_index as nat)
                + " out of range (object has "@ + decimal(slabs@.len()) + " slabs)"@,
    {
        let index: usize = slab_index as usize;
        if index >= slabs.len() {
            let mut message: String = "slab index ".to_string();
            message.append(decimal_text(index as u64).as_str());
            message.append(" out of range (object has ");
            message.append(decimal_text(slabs.len() as u64).as_str());
            message.append(" slabs)");
            return Err(message);
        }
        let offset: u64 = slab_start(slabs, index);
        let length: u64 = slabs[index].length as u64;
        Ok(options.into_indexd_ranged(offset, length))
    }

    /// Shows the account of the app.
    pub fn account(&self, account: Account) -> (json: AccountJson)
        requires
            account.last_used.valid(),
        ensures
            shows_account(json, account, account.last_used.millis()),
            json.account_key@ == key_text(account.account_key@),
            json.connect_key@ == account.connect_key@,
            json.max_pinned_data == account.max_pinned_data,
            json.pinned_data == account.pinned_data,
            json.app.id@ == hash_text(account.app.id@),
            json.app.description@ == account.app.description@,
            json.app.service_url == account.app.service_url,
            json.app.logo_url == account.app.logo_url,
            json.last_used == account.last_used.secs * 1000 + account.last_used.nanos as int
                / 1_000_000,
    {
        let last_used: i64 = account.last_used.timestamp_millis();
        account_json(account, last_used)
    }

    /// Returns the slab data size for the given options.
    pub fn slab_data_size(&self, defaults: &UploadOptions) -> (size: usize)
        ensures
            size == slab_data_bytes(defaults.data_shards),
            size == defaults.data_shards * 4194304,
    {
        defaults.slab_data_size()
    }

    /// Generates a random 32-byte encryption key for object-level encryption.
    pub fn generate_data_key(&self) -> (key: Vec<u8>)
        ensures
            key@.len() == 32,
    {
        crate::random::generate_data_key()
    }

    /// Reads a data key.
    fn data_key(&self, data_key: &[u8]) -> (result: Result<[u8; 32], String>)
        ensures
            result is Ok <==> data_key@.len() == 32,
            result matches Ok(key) ==> key@ == data_key@,
            result matches Err(e) ==> e@ == "invalid data key: "@ + "invalid key length"@,
    {
        match encryption_key(data_key) {
            Ok(key) => Ok(key),
            Err(e) => Err(labelled("invalid data key: ", e.as_str())),
        }
    }

    /// Prepares the upload of one slab: its data key, and the progress to report, in shards.
    pub fn upload_slab(&self, data_key: &[u8], options: &UploadOptions) -> (result: Result<
        ([u8; 32], Progress),
        String,
    >)
        ensures
            result is Ok <==> data_key@.len() == 32,
            result matches Ok((key, progress)) ==> {
                &&& key@ == data_key@
                &&& progress == (Progress {
                    count: 0,
                    total: (options.data_shards + options.parity_shards) as u64,
                })
            },
            result matches Err(e) ==> e@ == "invalid data key: "@ + "invalid key length"@,
    {
        match self.data_key(data_key) {
            Ok(key) => Ok((key, Progress::new(options.total_shards_per_slab() as u64))),
            Err(e) => Err(e),
        }
    }

    /// Assembles an object from its data key and its slabs. `slabs` is the list as it was read,
    /// or what is wrong with it; `now` is the time of the assembly.
    pub fn assemble_object(
        &self,
        data_key: &[u8],
        slabs: Result<Vec<Slab>, String>,
        now: Timestamp,
    ) -> (result: Result<PinnedObject, String>)
        ensures
            result is Ok <==> data_key@.len() == 32 && slabs is Ok,
            result matches Ok(pinned) ==> {
                &&& pinned.inner.encryption_key@ == data_key@
                &&& pinned.inner.slabs == slabs->Ok_0
                &&& pinned.inner.metadata@ == Seq::<u8>::empty()
                &&& pinned.inner.created_at == now
                &&& pinned.inner.updated_at == now
            },
            result matches Err(e) ==> if data_key@.len() != 32 {
                e@ == "invalid data key: "@ + "invalid key length"@
            } else {
                e == slabs->Err_0
            },
    {
        let encryption_key = match self.data_key(data_key) {
            Ok(key) => key,
            Err(e) => {
                return Err(e);
            },
        };
        match slabs {
            Ok(slabs) => Ok(
                PinnedObject::from_object(
                    Object {
                        encryption_key,
                        slabs,
                        metadata: Vec::new(),
                        created_at: now,
                        updated_at: now,
                    },
                ),
            ),
            Err(e) => Err(e),
        }
    }

    /// Starts a new chunked upload session with the total file size, and returns its ID. A file
    /// that is too large is refused; an ID is used up for it all the same.
    pub fn start_chunked_upload(
        &self,
        sessions: &mut ChunkSessions,
        ids: &mut IdCounter,
        total_size: usize,
    ) -> (session: Option<u64>)
        requires
            old(sessions).inv(),
        ensures
            final(sessions).inv(),
            final(ids).upcoming() == id_after(old(ids).upcoming()),
            session is Some <==> total_size <= MAX_SIZE,
            session is Some <==> total_size <= 1610612736,
            session matches Some(id) ==> {
                &&& id == old(ids).upcoming()
                &&& final(sessions)@ == old(sessions)@.insert(
                    id,
                    SessionView { total: total_size as nat, written: Seq::empty() },
                )
            },
            session is None ==> final(sessions)@ == old(sessions)@,
    {
        if total_size > MAX_SIZE {
            let _ = ids.next_id();
            return None;
        }
        Some(sessions.start_chunked_upload(ids, total_size))
    }

    /// Reads the hex-encoded key of an object that is to be retrieved.
    pub fn object(&self, key: &str) -> (result: Result<[u8; 32], String>)
        ensures
            result is Ok <==> hash_value(key@) is Some,
            result matches Ok(hash) ==> hash_value(key@) == Some(hash@),
            result matches Err(e) ==> e@ == hash_error(key@),
    {
        parse_hash(key)
    }

    /// Reads the hex-encoded key of an object that is to be deleted.
    pub fn delete_object(&self, key: &str) -> (result: Result<[u8; 32], String>)
        ensures
            result is Ok <==> hash_value(key@) is Some,
            result matches Ok(hash) ==> hash_value(key@) == Some(hash@),
            result matches Err(e) ==> e@ == hash_error(key@),
    {
        parse_hash(key)
    }

    /// Reads the cursor from which object events are wanted:
    /// `{"id": "hex...", "after": <epoch_ms>}`.
    pub fn object_events(&self, cursor_json: Option<String>) -> (result: Result<
        Option<ObjectsCursor>,
        String,
    >)
        ensures
            match cursor_json {
                None => result == Ok::<Option<ObjectsCursor>, String>(None),
                Some(json) => {
                    &&& result is Ok <==> cursor_json_value(json@) is Ok
                    &&& result matches Ok(cursor) ==> {
                        &&& cursor is Some
                        &&& cursor_json_value(json@)->Ok_0 == cursor->0@
                    }
                    &&& result matches Err(e) ==> cursor_json_value(json@)->Err_0 == e@
                    &&& result matches Ok(cursor) ==> {
                        let fields = json_fields(json@, "id"@, "after"@);
                        &&& fields is Ok
                        &&& fields->Ok_0.0 is Some
                        &&& hash_value(fields->Ok_0.0->0) == Some(cursor->0.id@)
                        &&& fields->Ok_0.1 is Some
                        &&& cursor->0.after.secs * 1000 + cursor->0.after.nanos as int / 1_000_000
                            == fields->Ok_0.1->0
                        &&& cursor->0.after.nanos < 1_000_000_000
                        &&& cursor->0.after.nanos % 1_000_000 == 0
                    }
                },
            },
    {
        match cursor_json {
            None => Ok(None),
            Some(json) => match cursor_from_json(json.as_str()) {
                Ok(cursor) => Ok(Some(cursor)),
                Err(e) => Err(e),
            },
        }
    }
}

} // verus!
