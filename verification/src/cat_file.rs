//! Derived queries over stored objects: type, payload size, a lossy
//! text rendering of the payload, and a strict validity check.

use vstd::prelude::*;

use crate::db::{read, read_model, read_with_invalid, DbError, Object, ObjectType, ReadModel};

verus! {

/// What decoding bytes as text with lossy substitution yields; a
/// function of the bytes alone.
pub uninterp spec fn lossy_of(s: Seq<u8>) -> Seq<char>;

/// Relies on `String::from_utf8_lossy`: the decoded text is a function
/// of the bytes alone; invalid sequences become the replacement
/// character, and the call never fails.
#[verifier::external_body]
fn utf8_lossy(data: &[u8]) -> (r: String)
    ensures
        r@ == lossy_of(data@),
{
    String::from_utf8_lossy(data).to_string()
}

/// The type of an already-read object.
pub fn cat_file_type_prepared(obj: &Object) -> (r: Result<ObjectType, DbError>)
    ensures
        r matches Ok(t) && t == obj.object_type,
{
    Ok(obj.object_type)
}

/// The payload byte count of an already-read object.
pub fn cat_file_size_prepared(obj: &Object) -> (r: Result<usize, DbError>)
    ensures
        r matches Ok(n) && n == obj.data@.len(),
{
    Ok(obj.data.len())
}

/// The payload of an already-read object as text, decoded lossily: this
/// never fails, whatever bytes the payload holds.
pub fn cat_file_print_prepared(obj: &Object) -> (r: Result<String, DbError>)
    ensures
        r matches Ok(s) && s@ == lossy_of(obj.data@),
{
    Ok(utf8_lossy(obj.data.as_slice()))
}

/// The type of the object stored as `raw`.
pub fn cat_file_type(raw: &[u8], allow_invalid_type: bool) -> (r: Result<ObjectType, DbError>)
    ensures
        ({
            match read_model(raw@) {
                ReadModel::Unreadable => r matches Err(e) && e is ReadError,
                ReadModel::Malformed => r matches Err(e) && e is MalformedObject,
                ReadModel::Parsed(t, payload) => if t.spec_is_valid() || allow_invalid_type {
                    r matches Ok(ty) && ty == t
                } else {
                    r matches Err(e) && e is InvalidType
                },
            }
        }),
{
    match read_with_invalid(raw, allow_invalid_type) {
        Ok(o) => cat_file_type_prepared(&o),
        Err(e) => Err(e),
    }
}

/// The payload byte count of the object stored as `raw`.
pub fn cat_file_size(raw: &[u8], allow_invalid_type: bool) -> (r: Result<usize, DbError>)
    ensures
        ({
            match read_model(raw@) {
                ReadModel::Unreadable => r matches Err(e) && e is ReadError,
                ReadModel::Malformed => r matches Err(e) && e is MalformedObject,
                ReadModel::Parsed(t, payload) => if t.spec_is_valid() || allow_invalid_type {
                    r matches Ok(n) && n == payload.len()
                } else {
                    r matches Err(e) && e is InvalidType
                },
            }
        }),
{
    match read_with_invalid(raw, allow_invalid_type) {
        Ok(o) => cat_file_size_prepared(&o),
        Err(e) => Err(e),
    }
}

/// The payload of the object stored as `raw`, decoded lossily; the
/// decoding itself never fails, only reading the object can.
pub fn cat_file_print(raw: &[u8]) -> (r: Result<String, DbError>)
    ensures
        ({
            match read_model(raw@) {
                ReadModel::Unreadable => r matches Err(e) && e is ReadError,
                ReadModel::Malformed => r matches Err(e) && e is MalformedObject,
                ReadModel::Parsed(t, payload) => if t.spec_is_valid() {
                    r matches Ok(s) && s@ == lossy_of(payload)
                } else {
                    r matches Err(e) && e is InvalidType
                },
            }
        }),
{
    match read_with_invalid(raw, false) {
        Ok(o) => cat_file_print_prepared(&o),
        Err(e) => Err(e),
    }
}

/// The strict validity check: whether `raw` holds a well-formed object
/// whose type lies in the closed set.  A pure signal; translating it to
/// an exit code is the caller's business.
pub fn cat_file_check(raw: &[u8]) -> (r: bool)
    ensures
        r == (read_model(raw@) matches ReadModel::Parsed(t, payload) && t.spec_is_valid()),
{
    match read(raw) {
        Ok(_) => true,
        Err(_) => false,
    }
}

} // verus!
