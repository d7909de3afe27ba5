//! What the foreign side hands back for a call: a status and a payload.
//!
//! The status tells success, an error that the method declares, and an
//! unexpected failure apart. A method's result is read from the payload of a
//! success; the other two become errors of that call alone.
use vstd::prelude::*;
use vstd::utf8::{decode_utf8, valid_utf8};
use crate::codec::{dec_i32, read_i32, utf8_to_string, EncodingError};

verus! {

/// Status of a call that succeeded: the payload holds the return value.
pub const CALLBACK_SUCCESS: i32 = 0;

/// Status of a call that raised an error the method declares: the payload holds it.
pub const CALLBACK_ERROR: i32 = 1;

/// Status of a call that failed in a way the method does not declare: the
/// payload, if any, holds the reason as UTF-8 text.
pub const CALLBACK_UNEXPECTED_ERROR: i32 = 2;

/// How a call failed.
#[derive(Debug)]
pub enum CallError {
    /// The method raised one of its declared errors, encoded in these bytes.
    Dispatch(Vec<u8>),
    /// The foreign side failed unexpectedly, for this reason.
    Unexpected(String),
    /// The foreign side answered with a status that means nothing here.
    UnknownStatus(i32),
    /// The returned bytes do not hold a value of the declared type.
    Encoding(EncodingError),
    /// The returned bytes hold more than a value of the declared type.
    TrailingBytes,
}

/// The reason reported for an unexpected failure with payload `b`.
pub open spec fn failure_reason(b: Seq<u8>) -> Seq<char> {
    if b.len() == 0 {
        "[Unknown Reason]"@
    } else if valid_utf8(b) {
        decode_utf8(b)
    } else {
        "[Error reading reason]"@
    }
}

/// Turns the status and payload of a call into its returned bytes or its error.
pub fn complete_call(status: i32, payload: Vec<u8>) -> (r: Result<Vec<u8>, CallError>)
    ensures
        r is Ok <==> status == CALLBACK_SUCCESS,
        r matches Ok(b) ==> b@ == payload@,
        r matches Err(CallError::Dispatch(b)) ==> status == CALLBACK_ERROR && b@ == payload@,
        r matches Err(CallError::Unexpected(reason)) ==> status == CALLBACK_UNEXPECTED_ERROR
            && reason@ == failure_reason(payload@),
        r matches Err(CallError::UnknownStatus(s)) ==> s == status,
        status == CALLBACK_ERROR ==> r is Err && r->Err_0 is Dispatch,
        status == CALLBACK_UNEXPECTED_ERROR ==> r is Err && r->Err_0 is Unexpected,
        status != CALLBACK_SUCCESS && status != CALLBACK_ERROR && status
            != CALLBACK_UNEXPECTED_ERROR ==> r is Err && r->Err_0 is UnknownStatus,
{
    if status == CALLBACK_SUCCESS {
        Ok(payload)
    } else if status == CALLBACK_ERROR {
        Err(CallError::Dispatch(payload))
    } else if status == CALLBACK_UNEXPECTED_ERROR {
        if payload.len() == 0 {
            return Err(CallError::Unexpected(String::from_str("[Unknown Reason]")));
        }
        match utf8_to_string(payload) {
            Some(reason) => Err(CallError::Unexpected(reason)),
            None => Err(CallError::Unexpected(String::from_str("[Error reading reason]"))),
        }
    } else {
        Err(CallError::UnknownStatus(status))
    }
}

/// The result of a method returning `i32`, from the status and payload of its
/// call: the payload must hold exactly one encoded `i32`.
pub fn lift_i32_return(status: i32, payload: Vec<u8>) -> (r: Result<i32, CallError>)
    ensures
        r is Ok <==> status == CALLBACK_SUCCESS && payload@.len() == 4,
        r matches Ok(v) ==> dec_i32(payload@, 0) == Ok::<(i32, usize), EncodingError>((v, 4usize)),
        status == CALLBACK_SUCCESS && payload@.len() < 4 ==> r matches Err(
            CallError::Encoding(EncodingError::UnexpectedEnd),
        ),
        status == CALLBACK_SUCCESS && payload@.len() > 4 ==> r matches Err(CallError::TrailingBytes),
        r matches Err(CallError::Dispatch(b)) ==> status == CALLBACK_ERROR && b@ == payload@,
        r matches Err(CallError::Unexpected(reason)) ==> status == CALLBACK_UNEXPECTED_ERROR
            && reason@ == failure_reason(payload@),
        r matches Err(CallError::UnknownStatus(s)) ==> s == status,
        status != CALLBACK_SUCCESS ==> r is Err && !(r->Err_0 is Encoding) && !(
        r->Err_0 is TrailingBytes),
{
    let bytes = match complete_call(status, payload) {
        Ok(b) => b,
        Err(e) => return Err(e),
    };
    match read_i32(bytes.as_slice(), 0) {
        Ok((v, next)) => if next == bytes.len() {
            Ok(v)
        } else {
            Err(CallError::TrailingBytes)
        },
        Err(e) => Err(CallError::Encoding(e)),
    }
}

} // verus!
