//! The request layer's decisions, as functions from plain values to a
//! response.
//!
//! The network glue around the library hands these functions the queue
//! name from the request target, the request body, and the backend, and
//! gets back a status code and an optional body. The rules are the
//! server's: an unknown or disallowed queue name is answered `403` with
//! the machine-readable code `InvalidQueueName`; a body that does not
//! parse as an item is answered `400`; an empty queue on peek or dequeue
//! is answered `204` with no body, distinct from an error; success is
//! `200` with the serialized item where there is one; a backend failure
//! is answered `500` with the code `InternalError`.

use vstd::prelude::*;
use vstd::string::StringExecFns;
use crate::codec::{chars_to_string, esc, parse_item_spec, push_esc, push_str_chars, ser_spec, str_to_chars};
use crate::item::{QueueItem, valid_item};
use crate::storage::{Storage, StorageError, StorageResult};

verus! {

/// A machine-readable error: a short code and a human-readable message.
pub struct JsonError {
    pub code: String,
    pub message: String,
}

/// The exact body text of an error response.
pub open spec fn json_error_spec(code: Seq<char>, message: Seq<char>) -> Seq<char> {
    "{\"code\":\""@ + esc(code) + "\",\"message\":\""@ + esc(message) + "\"}"@
}

impl JsonError {
    /// Serializes the error to its JSON text.
    pub fn to_json_string(&self) -> (r: String)
        ensures
            r@ == json_error_spec(self.code@, self.message@),
    {
        json_error_body(self.code.as_str(), self.message.as_str())
    }
}

/// Builds the JSON text of an error response.
pub fn json_error_body(code: &str, message: &str) -> (r: String)
    ensures
        r@ == json_error_spec(code@, message@),
{
    let mut out: Vec<char> = Vec::new();
    push_str_chars(&mut out, "{\"code\":\"");
    let code_chars = str_to_chars(code);
    push_esc(&mut out, &code_chars);
    push_str_chars(&mut out, "\",\"message\":\"");
    let msg_chars = str_to_chars(message);
    push_esc(&mut out, &msg_chars);
    push_str_chars(&mut out, "\"}");
    proof {
        assert(out@ =~= json_error_spec(code@, message@));
    }
    chars_to_string(&out)
}

/// What the request layer sends back: a status code, and a body where
/// the status calls for one.
pub struct ApiResponse {
    pub status: u16,
    pub body: Option<String>,
}

/// Builds an error response: the status with the error's JSON text.
pub fn json_error(status: u16, code: &str, message: &str) -> (r: ApiResponse)
    ensures
        r.status == status,
        r.body matches Some(b) && b@ == json_error_spec(code@, message@),
{
    ApiResponse { status, body: Some(json_error_body(code, message)) }
}

/// The exact message of the response to a disallowed queue name.
pub open spec fn invalid_queue_msg(queue: Seq<char>) -> Seq<char> {
    "Invalid queue name attempted: "@ + queue
}

/// The response to a request against a queue name outside the
/// allow-list: forbidden, with the code `InvalidQueueName`.
pub fn invalid_queue_response(queue: &str) -> (r: ApiResponse)
    ensures
        r.status == 403,
        r.body matches Some(b) && b@ == json_error_spec(
            "InvalidQueueName"@,
            invalid_queue_msg(queue@),
        ),
{
    let mut msg = String::from_str("Invalid queue name attempted: ");
    msg.append(queue);
    json_error(403, "InvalidQueueName", msg.as_str())
}

/// The response to an enqueue body that does not parse as an item: a bad
/// request, with the offending body quoted.
pub fn bad_request_response(body: &str) -> (r: ApiResponse)
    ensures
        r.status == 400,
        r.body matches Some(b) && b@ == json_error_spec(
            "BadRequest"@,
            "Failed to parse request body. Request body:\n"@ + body@,
        ),
{
    let mut msg = String::from_str("Failed to parse request body. Request body:\n");
    msg.append(body);
    json_error(400, "BadRequest", msg.as_str())
}

/// The response to a backend failure: an internal error, with the
/// operation's words and the backend's.
fn internal_error_response(prefix: &str, queue: &str, e: &StorageError) -> (r: ApiResponse)
    ensures
        r.status == 500,
        r.body matches Some(b) && exists|detail: Seq<char>|
            b@ == json_error_spec("InternalError"@, prefix@ + queue@ + ": "@ + detail),
{
    let mut msg = String::from_str(prefix);
    msg.append(queue);
    msg.append(": ");
    let detail = e.message();
    msg.append(detail.as_str());
    let r = json_error(500, "InternalError", msg.as_str());
    proof {
        let b = r.body->Some_0;
        assert(b@ == json_error_spec("InternalError"@, prefix@ + queue@ + ": "@ + detail@));
    }
    r
}

/// Serves an enqueue request: rejects a name outside the allow-list with
/// `403 InvalidQueueName`, rejects a body that does not parse or an item
/// the backends refuse to store with `400 BadRequest`, and otherwise
/// stores the item and answers `200`, or `500 InternalError` when the
/// backend fails.
pub fn put_item<S: Storage>(storage: &mut S, queue: &str, body: &str) -> (r: ApiResponse)
    requires
        old(storage).inv(),
    ensures
        final(storage).inv(),
        final(storage).allowed() == old(storage).allowed(),
        !old(storage).allowed().contains(queue@) ==> r.status == 403 && *final(storage) == *old(
            storage,
        ) && (r.body matches Some(b) && b@ == json_error_spec(
            "InvalidQueueName"@,
            invalid_queue_msg(queue@),
        )),
        old(storage).allowed().contains(queue@) && parse_item_spec(body@) is None ==> r.status
            == 400 && *final(storage) == *old(storage),
        (old(storage).allowed().contains(queue@) && parse_item_spec(body@) is Some) ==> exists|
            res: StorageResult<()>,
        |
            {
                &&& S::put_post(
                    *old(storage),
                    *final(storage),
                    queue@,
                    parse_item_spec(body@)->Some_0,
                    res,
                )
                &&& (res is Ok <==> r.status == 200)
                &&& (res matches Err(e) ==> (if e is ValidationError {
                    r.status == 400
                } else {
                    r.status == 500
                }))
            },
        (old(storage).allowed().contains(queue@) && parse_item_spec(body@) is Some && !valid_item(
            parse_item_spec(body@)->Some_0,
        )) ==> r.status == 400,
        (old(storage).allowed().contains(queue@) && parse_item_spec(body@) is Some && valid_item(
            parse_item_spec(body@)->Some_0,
        ) && old(storage).ops_succeed()) ==> r.status == 200,
{
    if !storage.queue_exists(queue) {
        return invalid_queue_response(queue);
    }
    match QueueItem::from_json_string(body) {
        None => bad_request_response(body),
        Some(item) => {
            let res = storage.put_item(queue, item);
            let ghost gres = res;
            match res {
                Ok(_) => {
                    proof {
                        assert(S::put_post(
                            *old(storage),
                            *storage,
                            queue@,
                            parse_item_spec(body@)->Some_0,
                            gres,
                        ));
                    }
                    ApiResponse { status: 200, body: None }
                },
                Err(e) => {
                    proof {
                        assert(S::put_post(
                            *old(storage),
                            *storage,
                            queue@,
                            parse_item_spec(body@)->Some_0,
                            gres,
                        ));
                    }
                    match e {
                        StorageError::ValidationError(v) => {
                            let resp = json_error(400, "BadRequest", v.as_str());
                            resp
                        },
                        other => internal_error_response(
                            "Failed to append item to queue ",
                            queue,
                            &other,
                        ),
                    }
                },
            }
        },
    }
}

/// Serves a peek request: rejects a name outside the allow-list with
/// `403 InvalidQueueName`, answers `200` with the serialized
/// minimum-key item, `204` with no body on an empty queue, or
/// `500 InternalError` when the backend fails. Never mutates the backend.
pub fn get_item<S: Storage>(storage: &S, queue: &str) -> (r: ApiResponse)
    requires
        storage.inv(),
    ensures
        !storage.allowed().contains(queue@) ==> r.status == 403 && (r.body matches Some(b) && b@
            == json_error_spec("InvalidQueueName"@, invalid_queue_msg(queue@))),
        storage.allowed().contains(queue@) ==> exists|res: StorageResult<Option<QueueItem>>|
            {
                &&& storage.get_post(queue@, res)
                &&& match res {
                    Ok(Some(it)) => r.status == 200 && (r.body matches Some(b) && b@ == ser_spec(
                        it@,
                    )),
                    Ok(None) => r.status == 204 && r.body is None,
                    Err(_) => r.status == 500,
                }
            },
        storage.allowed().contains(queue@) && storage.ops_succeed() ==> r.status == 200
            || r.status == 204,
{
    if !storage.queue_exists(queue) {
        return invalid_queue_response(queue);
    }
    let res = storage.get_item(queue);
    match res {
        Ok(Some(item)) => {
            let body = item.to_json_string();
            ApiResponse { status: 200, body: Some(body) }
        },
        Ok(None) => ApiResponse { status: 204, body: None },
        Err(e) => internal_error_response("Failed to get item from queue ", queue, &e),
    }
}

/// Serves a dequeue request: rejects a name outside the allow-list with
/// `403 InvalidQueueName`, and otherwise removes the minimum-key item
/// and answers `200` with it serialized, `204` with no body on an empty
/// queue, or `500 InternalError` when the backend fails.
pub fn delete_item<S: Storage>(storage: &mut S, queue: &str) -> (r: ApiResponse)
    requires
        old(storage).inv(),
    ensures
        final(storage).inv(),
        final(storage).allowed() == old(storage).allowed(),
        !old(storage).allowed().contains(queue@) ==> r.status == 403 && *final(storage) == *old(
            storage,
        ) && (r.body matches Some(b) && b@ == json_error_spec(
            "InvalidQueueName"@,
            invalid_queue_msg(queue@),
        )),
        old(storage).allowed().contains(queue@) ==> exists|res: StorageResult<Option<QueueItem>>|
            {
                &&& S::delete_post(*old(storage), *final(storage), queue@, res)
                &&& match res {
                    Ok(Some(it)) => r.status == 200 && (r.body matches Some(b) && b@ == ser_spec(
                        it@,
                    )),
                    Ok(None) => r.status == 204 && r.body is None,
                    Err(_) => r.status == 500,
                }
            },
        old(storage).allowed().contains(queue@) && old(storage).ops_succeed() ==> r.status == 200
            || r.status == 204,
{
    if !storage.queue_exists(queue) {
        return invalid_queue_response(queue);
    }
    let res = storage.delete_item(queue);
    match res {
        Ok(Some(item)) => {
            let body = item.to_json_string();
            ApiResponse { status: 200, body: Some(body) }
        },
        Ok(None) => ApiResponse { status: 204, body: None },
        Err(e) => internal_error_response("Failed to delete item from queue ", queue, &e),
    }
}

} // verus!
