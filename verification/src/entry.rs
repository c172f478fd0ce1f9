//! Names of `METADATA` entries, by the rule that `imap_proto`'s parser holds them
//! to.
use vstd::prelude::*;

use crate::ascii::{CR, PERCENT, SLASH, SPACE, STAR};

verus! {

/// `/private`
pub const PRIVATE: [u8; 8] = [0x2f, 0x70, 0x72, 0x69, 0x76, 0x61, 0x74, 0x65];

/// `/shared`
pub const SHARED: [u8; 7] = [0x2f, 0x73, 0x68, 0x61, 0x72, 0x65, 0x64];

/// `/admin`
pub const ADMIN: [u8; 6] = [0x2f, 0x61, 0x64, 0x6d, 0x69, 0x6e];

/// `/comment`
pub const COMMENT: [u8; 8] = [0x2f, 0x63, 0x6f, 0x6d, 0x6d, 0x65, 0x6e, 0x74];

/// `/vendor`
pub const VENDOR: [u8; 7] = [0x2f, 0x76, 0x65, 0x6e, 0x64, 0x6f, 0x72];

/// Whether `bytes` stands at `at`.
pub open spec fn has_bytes(name: Seq<u8>, at: int, bytes: Seq<u8>) -> bool {
    &&& 0 <= at
    &&& at + bytes.len() <= name.len()
    &&& forall|i: int| 0 <= i < bytes.len() ==> name[at + i] == #[trigger] bytes[i]
}

/// Whether `byte` may stand in a path: in a component of it, or between two.
pub open spec fn is_path_char(byte: u8) -> bool {
    0x19 < byte < 0x80 && byte != STAR && byte != PERCENT
}

/// Whether all bytes from `at` on, up to a CR if there is one, may stand in a path.
pub open spec fn is_path_rest(name: Seq<u8>, at: int) -> bool
    decreases name.len() - at,
{
    if at < 0 || at >= name.len() || name[at] == CR {
        true
    } else {
        is_path_char(name[at]) && is_path_rest(name, at + 1)
    }
}

/// Whether a path, which may be empty, stands at `at`. A space or a CR in place of
/// its first slash ends the name, whatever comes after.
pub open spec fn is_path(name: Seq<u8>, at: int) -> bool {
    ||| at >= name.len()
    ||| name[at] == SPACE
    ||| name[at] == CR
    ||| name[at] == SLASH && is_path_rest(name, at + 1)
}

/// Whether `/comment`, or `/vendor` with at least a vendor, stands at `at`, with a
/// path behind it.
pub open spec fn is_comment_or_vendor(name: Seq<u8>, at: int) -> bool {
    if has_bytes(name, at, COMMENT@) {
        is_path(name, at + 8)
    } else {
        &&& has_bytes(name, at, VENDOR@)
        &&& at + 9 <= name.len()
        &&& name[at + 7] == SLASH
        &&& name[at + 8] != SLASH
        &&& is_path_char(name[at + 8])
        &&& is_path(name, at + 7)
    }
}

/// Whether `name` passes for the name of an entry: it begins with `/private` or
/// `/shared`, and goes on with `/comment` or `/vendor`, or after `/shared` also with
/// `/admin`.
pub open spec fn is_entry_name(name: Seq<u8>) -> bool {
    if has_bytes(name, 0, PRIVATE@) {
        is_comment_or_vendor(name, 8)
    } else {
        &&& has_bytes(name, 0, SHARED@)
        &&& if has_bytes(name, 7, ADMIN@) {
            is_path(name, 13)
        } else {
            is_comment_or_vendor(name, 7)
        }
    }
}

/// Tells whether `bytes` stands at `at`.
fn matches_bytes(name: &[u8], at: usize, bytes: &[u8]) -> (found: bool)
    requires
        at <= name@.len(),
    ensures
        found == has_bytes(name@, at as int, bytes@),
        found ==> at + bytes@.len() <= name.len(),
{
    if name.len() - at < bytes.len() {
        return false;
    }
    let mut i: usize = 0;
    while i < bytes.len()
        invariant
            i <= bytes@.len(),
            at + bytes@.len() <= name.len(),
            forall|j: int| 0 <= j < i ==> name@[at + j] == #[trigger] bytes@[j],
        decreases bytes@.len() - i,
    {
        if name[at + i] != bytes[i] {
            return false;
        }
        i = i + 1;
    }
    true
}

/// Tells whether `byte` may stand in a path.
fn allows_in_path(byte: u8) -> (allowed: bool)
    ensures
        allowed == is_path_char(byte),
{
    0x19 < byte && byte < 0x80 && byte != STAR && byte != PERCENT
}

/// Tells whether a path stands at `at`.
fn has_path(name: &[u8], at: usize) -> (found: bool)
    requires
        at <= name@.len(),
    ensures
        found == is_path(name@, at as int),
{
    if at == name.len() || name[at] == SPACE || name[at] == CR {
        return true;
    }
    if name[at] != SLASH {
        return false;
    }
    let mut end: usize = at + 1;
    while end < name.len() && name[end] != CR
        invariant
            at < end <= name@.len(),
            name@[at as int] == SLASH,
            is_path_rest(name@, at + 1) == is_path_rest(name@, end as int),
        decreases name@.len() - end,
    {
        if !allows_in_path(name[end]) {
            return false;
        }
        end = end + 1;
    }
    true
}

/// Tells whether `/comment` or `/vendor` stands at `at`, with what belongs to it.
fn has_comment_or_vendor(name: &[u8], at: usize) -> (found: bool)
    requires
        at <= name@.len(),
    ensures
        found == is_comment_or_vendor(name@, at as int),
{
    if matches_bytes(name, at, &COMMENT) {
        return has_path(name, at + 8);
    }
    matches_bytes(name, at, &VENDOR) && name.len() - at >= 9 && name[at + 7] == SLASH && name[at
        + 8] != SLASH && allows_in_path(name[at + 8]) && has_path(name, at + 7)
}

/// Tells whether `name` passes for the name of an entry.
pub fn passes_for_entry_name(name: &[u8]) -> (passes: bool)
    ensures
        passes == is_entry_name(name@),
{
    if matches_bytes(name, 0, &PRIVATE) {
        return has_comment_or_vendor(name, 8);
    }
    if !matches_bytes(name, 0, &SHARED) {
        return false;
    }
    if matches_bytes(name, 7, &ADMIN) {
        has_path(name, 13)
    } else {
        has_comment_or_vendor(name, 7)
    }
}

} // verus!
