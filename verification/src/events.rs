//! Cursors into the stream of object events.

use vstd::prelude::*;
use vstd::string::*;

use crate::ids::{hash_error, hash_text, hash_value, lemma_hash_text, parse_hash};
use crate::text::option_text;
use crate::timestamp::{
    at_millis, epoch_ms_to_system_time, time_at_millis, Timestamp, MAX_MILLIS, MIN_MILLIS,
};

verus! {

/// Where to continue: after the event of object `id` at time `after`.
#[derive(Clone, Copy, Debug, PartialEq, Eq)]
pub struct ObjectsCursor {
    pub id: [u8; 32],
    pub after: Timestamp,
}

/// The contents of a cursor.
#[verifier::ext_equal]
pub struct ObjectsCursorView {
    pub id: Seq<u8>,
    pub after: Timestamp,
}

impl View for ObjectsCursor {
    type V = ObjectsCursorView;

    open spec fn view(&self) -> ObjectsCursorView {
        ObjectsCursorView { id: self.id@, after: self.after }
    }
}

/// What `serde_json` finds in a JSON text: the string under one key and the integer under
/// another, each where it is there, or the message of the error.
pub uninterp spec fn json_fields(
    json: Seq<char>,
    text_key: Seq<char>,
    number_key: Seq<char>,
) -> Result<(Option<Seq<char>>, Option<i64>), Seq<char>>;

/// Calls `serde_json::from_str` for a `serde_json::Value`, looks up one key with `as_str` and
/// one with `as_i64`. The contract claims that the outcome is a function of the text and the
/// keys.
#[verifier::external_body]
fn read_json_fields(json: &str, text_key: &str, number_key: &str) -> (result: Result<
    (Option<String>, Option<i64>),
    String,
>)
    ensures
        result is Ok <==> json_fields(json@, text_key@, number_key@) is Ok,
        result matches Ok(found) ==> json_fields(json@, text_key@, number_key@)->Ok_0 == (
            option_text(found.0),
            found.1,
        ),
        result matches Err(e) ==> json_fields(json@, text_key@, number_key@)->Err_0 == e@,
{
    let value: serde_json::Value = serde_json::from_str(json).map_err(|e| e.to_string())?;
    let text = value[text_key].as_str().map(|s| s.to_string());
    Ok((text, value[number_key].as_i64()))
}

/// The cursor that two fields stand for, or what is wrong with them. Of several faults the first
/// is reported: a missing ID, a missing time, a bad ID, a bad time.
pub open spec fn cursor_value(id: Option<Seq<char>>, after: Option<i64>) -> Result<
    ObjectsCursorView,
    Seq<char>,
> {
    match id {
        None => Err("cursor missing 'id'"@),
        Some(id) => match after {
            None => Err("cursor missing 'after'"@),
            Some(ms) => match hash_value(id) {
                None => Err(hash_error(id)),
                Some(hash) => if MIN_MILLIS <= ms <= MAX_MILLIS {
                    Ok(ObjectsCursorView { id: hash, after: at_millis(ms as int) })
                } else {
                    Err("invalid 'after' timestamp"@)
                },
            },
        },
    }
}

/// Reads a cursor from the fields of its JSON form.
pub fn cursor_from_fields(id: Option<String>, after: Option<i64>) -> (result: Result<
    ObjectsCursor,
    String,
>)
    ensures
        ({
            let value = cursor_value(option_text(id), after);
            &&& result is Ok <==> value is Ok
            &&& result matches Ok(cursor) ==> value->Ok_0 == cursor@
            &&& result matches Err(e) ==> value->Err_0 == e@
        }),
        result matches Ok(cursor) ==> {
            &&& id is Some
            &&& after is Some
            &&& hash_value(id->0@) == Some(cursor.id@)
            &&& -8334601228800000 <= after->0 <= 8210266876799999
            &&& cursor.after.secs * 1000 + cursor.after.nanos as int / 1_000_000 == after->0
            &&& cursor.after.nanos < 1_000_000_000 && cursor.after.nanos % 1_000_000 == 0
        },
        result matches Err(e) ==> if id is None {
            e@ == "cursor missing 'id'"@
        } else if after is None {
            e@ == "cursor missing 'after'"@
        } else if hash_value(id->0@) is None {
            e@ == hash_error(id->0@)
        } else {
            &&& after->0 < -8334601228800000 || after->0 > 8210266876799999
            &&& e@ == "invalid 'after' timestamp"@
        },
{
    let id = match id {
        Some(id) => id,
        None => {
            return Err("cursor missing 'id'".to_string());
        },
    };
    let after: i64 = match after {
        Some(after) => after,
        None => {
            return Err("cursor missing 'after'".to_string());
        },
    };
    let id = match parse_hash(id.as_str()) {
        Ok(id) => id,
        Err(e) => {
            return Err(e);
        },
    };
    match time_at_millis(after) {
        Some(after) => Ok(ObjectsCursor { id, after }),
        None => Err("invalid 'after' timestamp".to_string()),
    }
}

/// The cursor that a JSON text stands for, or what is wrong with it.
pub open spec fn cursor_json_value(json: Seq<char>) -> Result<ObjectsCursorView, Seq<char>> {
    match json_fields(json, "id"@, "after"@) {
        Err(e) => Err(e),
        Ok((id, after)) => cursor_value(id, after),
    }
}

/// Reads a cursor from JSON: `{"id": "hex...", "after": <epoch_ms>}`.
pub fn cursor_from_json(json: &str) -> (result: Result<ObjectsCursor, String>)
    ensures
        result is Ok <==> cursor_json_value(json@) is Ok,
        result matches Ok(cursor) ==> cursor_json_value(json@)->Ok_0 == cursor@,
        result matches Err(e) ==> cursor_json_value(json@)->Err_0 == e@,
        match json_fields(json@, "id"@, "after"@) {
            Err(e) => result is Err && result->Err_0@ == e,
            Ok((id, after)) => {
                &&& result matches Ok(cursor) ==> {
                    &&& id is Some
                    &&& after is Some
                    &&& hash_value(id->0) == Some(cursor.id@)
                    &&& -8334601228800000 <= after->0 <= 8210266876799999
                    &&& cursor.after.secs * 1000 + cursor.after.nanos as int / 1_000_000
                        == after->0
                    &&& cursor.after.nanos < 1_000_000_000 && cursor.after.nanos % 1_000_000 == 0
                }
                &&& result matches Err(e) ==> if id is None {
                    e@ == "cursor missing 'id'"@
                } else if after is None {
                    e@ == "cursor missing 'after'"@
                } else if hash_value(id->0) is None {
                    e@ == hash_error(id->0)
                } else {
                    &&& after->0 < -8334601228800000 || after->0 > 8210266876799999
                    &&& e@ == "invalid 'after' timestamp"@
                }
            },
        },
{
    match read_json_fields(json, "id", "after") {
        Ok((id, after)) => cursor_from_fields(id, after),
        Err(e) => Err(e),
    }
}

/// Reads a cursor from an ID and milliseconds since the Unix epoch. The time need not be one that
/// a calendar date can be given to.
pub fn cursor_after(id: &str, after_ms: u64) -> (result: Result<ObjectsCursor, String>)
    ensures
        result is Ok <==> hash_value(id@) is Some,
        result matches Ok(cursor) ==> {
            &&& hash_value(id@) == Some(cursor.id@)
            &&& cursor.after == at_millis(after_ms as int)
            &&& cursor.after.secs * 1000 + cursor.after.nanos as int / 1_000_000 == after_ms
            &&& cursor.after.nanos < 1_000_000_000 && cursor.after.nanos % 1_000_000 == 0
            &&& cursor.after.valid() <==> after_ms <= MAX_MILLIS
        },
        result matches Err(e) ==> e@ == hash_error(id@),
{
    match parse_hash(id) {
        Ok(id) => Ok(ObjectsCursor { id, after: epoch_ms_to_system_time(after_ms) }),
        Err(e) => Err(e),
    }
}

/// The ID and the time of an event, as they are shown, are a cursor that continues after it, up
/// to the millisecond.
pub proof fn lemma_event_is_cursor(id: Seq<u8>, updated_at: Timestamp)
    requires
        id.len() == 32,
        updated_at.valid(),
    ensures
        cursor_value(Some(hash_text(id)), Some(updated_at.millis() as i64)) == Ok::<
            ObjectsCursorView,
            Seq<char>,
        >(ObjectsCursorView { id, after: at_millis(updated_at.millis()) }),
        at_millis(updated_at.millis()).millis() == updated_at.millis(),
        at_millis(updated_at.millis()).secs == updated_at.secs,
{
    lemma_hash_text(id);
}

} // verus!
