//! Reading the advertised image out of a shared-attributes response.

use crate::controller::{text_view, Descriptor, DescriptorView};
use crate::text::{trim_of, trim_text};
use vstd::prelude::*;

verus! {

/// Whether `body` is a JSON document whose top level is an object with a
/// `shared` member.
pub uninterp spec fn shared_present_of(body: Seq<u8>) -> bool;

/// The string held by member `key` of the `shared` object of `body`, if
/// that member is a string.
pub uninterp spec fn shared_text_of(body: Seq<u8>, key: Seq<char>) -> Option<Seq<char>>;

/// The number held by member `key` of the `shared` object of `body`, if that
/// member is a non-negative integer that fits in 64 bits.
pub uninterp spec fn shared_unsigned_of(body: Seq<u8>, key: Seq<char>) -> Option<u64>;

/// The members of the `shared` object that a descriptor is made of, as found.
pub struct SharedMembers {
    pub title: Option<String>,
    pub version: Option<String>,
    pub size: Option<u64>,
    pub checksum: Option<String>,
    pub algorithm: Option<String>,
}

/// Relies on `serde_json::from_slice`, `serde_json::Value::get`,
/// `serde_json::Value::as_str` and `serde_json::Value::as_u64`: the document
/// is parsed once, and each member of its `shared` object is read as a
/// string or as an unsigned integer.
#[verifier::external_body]
fn shared_members(body: &[u8]) -> (r: Option<SharedMembers>)
    ensures
        r.is_some() == shared_present_of(body@),
        r matches Some(m) ==> {
            &&& text_view(m.title) == shared_text_of(body@, "fw_title"@)
            &&& text_view(m.version) == shared_text_of(body@, "fw_version"@)
            &&& m.size == shared_unsigned_of(body@, "fw_size"@)
            &&& text_view(m.checksum) == shared_text_of(body@, "fw_checksum"@)
            &&& text_view(m.algorithm) == shared_text_of(body@, "fw_checksum_algorithm"@)
        },
{
    let doc = serde_json::from_slice::<serde_json::Value>(body).ok()?;
    let shared = doc.get("shared")?;
    let text = |key: &str| shared.get(key).and_then(serde_json::Value::as_str).map(String::from);
    Some(SharedMembers {
        title: text("fw_title"),
        version: text("fw_version"),
        size: shared.get("fw_size").and_then(serde_json::Value::as_u64),
        checksum: text("fw_checksum"),
        algorithm: text("fw_checksum_algorithm"),
    })
}

/// Optional text with white space trimmed away.
pub open spec fn trimmed_of(t: Option<Seq<char>>) -> Option<Seq<char>> {
    match t {
        Some(s) => Some(trim_of(s)),
        None => None,
    }
}

/// A size that fits in 32 bits.
pub open spec fn size_of(n: Option<u64>) -> Option<u32> {
    match n {
        Some(v) => if v <= u32::MAX {
            Some(v as u32)
        } else {
            None
        },
        None => None,
    }
}

/// The attribute update that a response body carries: none unless the body
/// is JSON with a `shared` member; then each string member trimmed, and the
/// size when it fits in 32 bits.
pub open spec fn update_of(body: Seq<u8>) -> Option<DescriptorView> {
    if shared_present_of(body) {
        Some(
            DescriptorView {
                title: trimmed_of(shared_text_of(body, "fw_title"@)),
                version: trimmed_of(shared_text_of(body, "fw_version"@)),
                size: size_of(shared_unsigned_of(body, "fw_size"@)),
                checksum: trimmed_of(shared_text_of(body, "fw_checksum"@)),
                algorithm: trimmed_of(shared_text_of(body, "fw_checksum_algorithm"@)),
            },
        )
    } else {
        None
    }
}

fn trim_member(t: Option<String>) -> (r: Option<String>)
    ensures
        text_view(r) == trimmed_of(text_view(t)),
{
    match t {
        Some(s) => Some(trim_text(s.as_str())),
        None => None,
    }
}

/// Reads the `shared` object of an attribute response. Each of `fw_title`,
/// `fw_version`, `fw_checksum` and `fw_checksum_algorithm` that holds a
/// string is taken with white space trimmed; `fw_size` is taken when it is
/// an integer that fits in 32 bits. `None` when the body is not JSON or has
/// no `shared` member.
pub fn parse_attributes(body: &[u8]) -> (r: Option<Descriptor>)
    ensures
        match r {
            Some(d) => update_of(body@) == Some(d@),
            None => update_of(body@).is_none(),
        },
{
    let m = match shared_members(body) {
        Some(m) => m,
        None => {
            return None;
        },
    };
    let size = match m.size {
        Some(n) => if n <= 0xffff_ffff {
            Some(n as u32)
        } else {
            None
        },
        None => None,
    };
    let d = Descriptor {
        title: trim_member(m.title),
        version: trim_member(m.version),
        size,
        checksum: trim_member(m.checksum),
        algorithm: trim_member(m.algorithm),
    };
    Some(d)
}

} // verus!
