//! The decision logic of the window-title advisor.
//!
//! The advisor inspects every top-level window's properties and refuses a
//! break while a Firefox window is showing a Meet call. Fetching the
//! properties is X-server I/O and lives outside the core; this module holds
//! everything that can be computed from the fetched bytes: decoding the
//! property strings, splitting a `WM_CLASS` value into its two fields, and
//! the verdict itself.

use vstd::prelude::*;
use vstd::slice::{slice_subrange, slice_to_vec};
use vstd::utf8::{decode_utf8, valid_utf8};
use crate::scheduler::plugins::CanBreak;

verus! {

/// Why a window property could not be turned into a string.
#[derive(Copy, Clone, PartialEq, Eq, Structural, Debug)]
pub enum PropError {
    /// The property could not be fetched from the X server.
    NotRetrieved,
    /// The property's bytes are not valid UTF-8.
    InvalidUtf8,
    /// A `WM_CLASS` value with no usable NUL separator.
    MissingSeparator,
}

/// `prefix` is an initial run of `s`.
pub open spec fn starts_with_chars(s: Seq<char>, prefix: Seq<char>) -> bool {
    prefix.len() <= s.len() && s.subrange(0, prefix.len() as int) == prefix
}

/// Relies on std's `str::starts_with`: true exactly when the pattern's
/// characters are an initial run of the string's characters.
#[verifier::external_body]
fn str_starts_with(s: &str, prefix: &str) -> (r: bool)
    ensures
        r == starts_with_chars(s@, prefix@),
{
    s.starts_with(prefix)
}

/// Relies on std's `String::from_utf8`: it succeeds exactly on valid UTF-8
/// input, and the string it builds holds the decoded characters.
#[verifier::external_body]
fn string_from_utf8(bytes: Vec<u8>) -> (r: Option<String>)
    ensures
        r is Some <==> valid_utf8(bytes@),
        r matches Some(s) ==> s@ == decode_utf8(bytes@),
{
    String::from_utf8(bytes).ok()
}

/// `field` is what decoding `bytes` as UTF-8 yields: the decoded characters
/// on valid input, the UTF-8 error otherwise.
pub open spec fn string_prop_matches(field: Result<String, PropError>, bytes: Seq<u8>) -> bool {
    &&& field is Ok <==> valid_utf8(bytes)
    &&& field matches Ok(s) ==> s@ == decode_utf8(bytes)
    &&& field matches Err(e) ==> e == PropError::InvalidUtf8
}

/// Decode one property value into a string.
pub fn prop_string(bytes: Vec<u8>) -> (r: Result<String, PropError>)
    ensures
        string_prop_matches(r, bytes@),
{
    match string_from_utf8(bytes) {
        Some(s) => Ok(s),
        None => Err(PropError::InvalidUtf8),
    }
}

/// The two fields of a window's `WM_CLASS` property: the instance name and
/// the class, each decoded independently.
pub struct ClassInfo {
    pub name: Result<String, PropError>,
    pub class: Result<String, PropError>,
}

/// Index of the first NUL byte, assuming there is one.
pub open spec fn nul_index(bytes: Seq<u8>) -> int
    decreases bytes.len(),
{
    if bytes.len() == 0 {
        0
    } else if bytes[0] == 0 {
        0
    } else {
        1 + nul_index(bytes.drop_first())
    }
}

/// There is a NUL byte somewhere in `bytes`.
pub open spec fn has_nul(bytes: Seq<u8>) -> bool {
    exists|i: int| 0 <= i < bytes.len() && bytes[i] == 0
}

proof fn lemma_nul_index_at(bytes: Seq<u8>, i: int)
    requires
        0 <= i < bytes.len(),
        bytes[i] == 0,
        forall|j: int| 0 <= j < i ==> bytes[j] != 0,
    ensures
        has_nul(bytes),
        nul_index(bytes) == i,
    decreases i,
{
    if i > 0 {
        let rest = bytes.drop_first();
        assert(forall|j: int| 0 <= j < i - 1 ==> rest[j] == bytes[j + 1] && rest[j] != 0);
        assert(rest[i - 1] == bytes[i]);
        lemma_nul_index_at(rest, i - 1);
    }
}

/// Both fields of `r` are what splitting `bytes` at `index` and decoding
/// each side yields: the name is the bytes before the separator, the class
/// the bytes after it, without the trailing NUL.
pub open spec fn class_info_matches_at(r: ClassInfo, bytes: Seq<u8>, index: int) -> bool {
    &&& string_prop_matches(r.name, bytes.subrange(0, index))
    &&& string_prop_matches(r.class, bytes.subrange(index + 1, bytes.len() - 1))
}

/// Both fields of `r` are what decoding a whole raw `WM_CLASS` value
/// yields: split at the first NUL when one leaves room for both fields,
/// and the separator error otherwise.
pub open spec fn class_info_matches(r: ClassInfo, bytes: Seq<u8>) -> bool {
    if has_nul(bytes) && nul_index(bytes) + 2 <= bytes.len() {
        class_info_matches_at(r, bytes, nul_index(bytes))
    } else {
        r.name == Err::<String, PropError>(PropError::MissingSeparator) && r.class == Err::<
            String,
            PropError,
        >(PropError::MissingSeparator)
    }
}

impl ClassInfo {
    /// Both fields failed with the same error.
    pub fn err(e: PropError) -> (r: ClassInfo)
        ensures
            r.name == Err::<String, PropError>(e),
            r.class == Err::<String, PropError>(e),
    {
        ClassInfo { name: Err(e), class: Err(e) }
    }

    /// Split a raw `WM_CLASS` value at a known separator position: the
    /// instance name before it, the class after it up to the trailing NUL.
    pub fn from_raw_data_with_index(raw: &Vec<u8>, index: usize) -> (r: ClassInfo)
        requires
            index + 2 <= raw@.len(),
        ensures
            class_info_matches_at(r, raw@, index as int),
    {
        let n: usize = raw.len();
        let name_bytes = slice_to_vec(slice_subrange(raw.as_slice(), 0, index));
        let class_bytes = slice_to_vec(slice_subrange(raw.as_slice(), index + 1, n - 1));
        ClassInfo { name: prop_string(name_bytes), class: prop_string(class_bytes) }
    }

    /// Split a raw `WM_CLASS` value at its first NUL byte. A value without
    /// one, or whose first NUL is its very last byte and so leaves no room
    /// for the class field, yields the separator error in both fields.
    pub fn from_raw_data(raw: &Vec<u8>) -> (r: ClassInfo)
        ensures
            class_info_matches(r, raw@),
    {
        let n: usize = raw.len();
        let mut i: usize = 0;
        while i < n
            invariant
                n == raw@.len(),
                i <= n,
                forall|j: int| 0 <= j < i ==> raw@[j] != 0,
            decreases n - i,
        {
            if raw[i] == 0 {
                proof {
                    lemma_nul_index_at(raw@, i as int);
                }
                if i + 1 < n {
                    return ClassInfo::from_raw_data_with_index(raw, i);
                } else {
                    return ClassInfo::err(PropError::MissingSeparator);
                }
            }
            i = i + 1;
        }
        ClassInfo::err(PropError::MissingSeparator)
    }

    /// Decode a fetched `WM_CLASS` value, or carry its fetch failure into
    /// both fields.
    pub fn from_raw(res_raw: Result<Vec<u8>, PropError>) -> (r: ClassInfo)
        ensures
            res_raw matches Ok(raw) ==> class_info_matches(r, raw@),
            res_raw matches Err(e) ==> r.name == Err::<String, PropError>(e) && r.class == Err::<
                String,
                PropError,
            >(e),
    {
        match res_raw {
            Err(e) => ClassInfo::err(e),
            Ok(raw) => ClassInfo::from_raw_data(&raw),
        }
    }
}

/// Everything the advisor reads of one window, decoded to plain values.
pub struct WinProps {
    pub wm_name: Result<String, PropError>,
    pub net_wm_name: Result<String, PropError>,
    pub transient_for_wins: Result<Vec<u32>, PropError>,
    pub class_name: Result<String, PropError>,
    pub class: Result<String, PropError>,
}

/// The raw property values fetched for one window, before any decoding:
/// each either the reply's bytes or the fetch failure.
pub struct WinPropReplies {
    pub wm_name: Result<Vec<u8>, PropError>,
    pub net_wm_name: Result<Vec<u8>, PropError>,
    pub wm_class: Result<Vec<u8>, PropError>,
    pub wm_transient_for: Result<Vec<u32>, PropError>,
}

impl WinProps {
    /// Decode one window's fetched property values.
    pub fn get(replies: WinPropReplies) -> (r: WinProps)
        ensures
            replies.wm_name matches Ok(b) ==> string_prop_matches(r.wm_name, b@),
            replies.wm_name matches Err(e) ==> r.wm_name == Err::<String, PropError>(e),
            replies.net_wm_name matches Ok(b) ==> string_prop_matches(r.net_wm_name, b@),
            replies.net_wm_name matches Err(e) ==> r.net_wm_name == Err::<String, PropError>(e),
            r.transient_for_wins == replies.wm_transient_for,
            replies.wm_class matches Ok(b) ==> class_info_matches(
                ClassInfo { name: r.class_name, class: r.class },
                b@,
            ),
            replies.wm_class matches Err(e) ==> r.class_name == Err::<String, PropError>(e)
                && r.class == Err::<String, PropError>(e),
    {
        let wm_name = match replies.wm_name {
            Ok(bytes) => prop_string(bytes),
            Err(e) => Err(e),
        };
        let net_wm_name = match replies.net_wm_name {
            Ok(bytes) => prop_string(bytes),
            Err(e) => Err(e),
        };
        let ClassInfo { name: class_name, class } = ClassInfo::from_raw(replies.wm_class);
        WinProps {
            wm_name,
            net_wm_name,
            transient_for_wins: replies.wm_transient_for,
            class_name,
            class,
        }
    }
}

/// A window forbids a break when it is a Firefox navigator window whose
/// title starts with "Meet": an ongoing video call.
pub open spec fn forbids_break(p: WinProps) -> bool {
    &&& p.class matches Ok(class) && class@ == "Firefox"@
    &&& p.class_name matches Ok(name) && name@ == "Navigator"@
    &&& p.net_wm_name matches Ok(title) && starts_with_chars(title@, "Meet"@)
}

/// The verdict one window contributes.
pub fn can_break_win_prop(win_props: &WinProps) -> (r: CanBreak)
    ensures
        r == (if forbids_break(*win_props) {
            CanBreak::No
        } else {
            CanBreak::Yes
        }),
{
    if let Ok(class) = &win_props.class {
        if let Ok(class_name) = &win_props.class_name {
            if let Ok(net_wm_name) = &win_props.net_wm_name {
                let firefox: String = "Firefox".to_owned();
                let navigator: String = "Navigator".to_owned();
                if *class == firefox && *class_name == navigator {
                    if str_starts_with(net_wm_name.as_str(), "Meet") {
                        return CanBreak::No;
                    }
                }
            }
        }
    }
    CanBreak::Yes
}

/// The advisor's verdict over every window: a break is allowed exactly
/// when no window forbids it.
pub fn can_break(all_win_props: &Vec<WinProps>) -> (r: CanBreak)
    ensures
        r == (if forall|i: int|
            0 <= i < all_win_props@.len() ==> !forbids_break(all_win_props@[i]) {
            CanBreak::Yes
        } else {
            CanBreak::No
        }),
{
    let n: usize = all_win_props.len();
    let mut i: usize = 0;
    while i < n
        invariant
            n == all_win_props@.len(),
            i <= n,
            forall|j: int| 0 <= j < i ==> !forbids_break(all_win_props@[j]),
        decreases n - i,
    {
        let verdict = can_break_win_prop(&all_win_props[i]);
        if !verdict.into_bool() {
            assert(forbids_break(all_win_props@[i as int]));
            return CanBreak::No;
        }
        i = i + 1;
    }
    CanBreak::Yes
}

} // verus!
