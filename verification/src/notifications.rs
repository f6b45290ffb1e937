//! Timed messages for the interface: what is shown, under which id, for how
//! long.
use vstd::prelude::*;

verus! {

/// A message the interface shows for `duration_ms` milliseconds; a message
/// with the id of one on screen replaces it.
#[derive(Clone, Debug)]
pub struct TimedMessage {
    pub header: String,
    pub message: String,
    pub id: String,
    pub duration_ms: u64,
}

/// A lower-case hexadecimal digit.
pub open spec fn is_lower_hex(c: char) -> bool {
    ('0' <= c && c <= '9') || ('a' <= c && c <= 'f')
}

/// The shape of a hyphenated UUID: 36 characters, hyphens at positions 8,
/// 13, 18 and 23, lower-case hexadecimal digits elsewhere.
pub open spec fn is_hyphenated_uuid(s: Seq<char>) -> bool {
    &&& s.len() == 36
    &&& forall|i: int| 0 <= i < 36 ==> if i == 8 || i == 13 || i == 18 || i == 23 {
        #[trigger] s[i] == '-'
    } else {
        is_lower_hex(s[i])
    }
}

/// A fresh random id (`uuid::Uuid::new_v4()`, formatted with `Display`,
/// which writes the lower-case hyphenated form). It is random: only its
/// shape is stated.
#[verifier::external_body]
fn new_message_id() -> (r: String)
    ensures
        is_hyphenated_uuid(r@),
{
    uuid::Uuid::new_v4().to_string()
}

/// A timed message: `duration_ms` defaults to 3000 and a missing id is a
/// fresh random one.
pub fn send_msg(header: &str, message: &str, message_id: Option<String>, duration_ms: Option<u64>) -> (r: TimedMessage)
    ensures
        r.header@ == header@,
        r.message@ == message@,
        r.duration_ms == match duration_ms {
            Some(d) => d,
            None => 3000,
        },
        match message_id {
            Some(id) => r.id@ == id@,
            None => is_hyphenated_uuid(r.id@),
        },
{
    let duration_ms = match duration_ms {
        Some(d) => d,
        None => 3000,
    };
    let id = match message_id {
        Some(id) => id,
        None => new_message_id(),
    };
    TimedMessage { header: String::from_str(header), message: String::from_str(message), id, duration_ms }
}

/// The message the interface shows for a notification: always for the
/// default 3000 ms (the requested duration is not passed on).
pub fn show_msg_gui(header: &str, message: &str, message_id: Option<String>, duration_ms: Option<u64>) -> (r: TimedMessage)
    ensures
        r.header@ == header@,
        r.message@ == message@,
        r.duration_ms == 3000,
        match message_id {
            Some(id) => r.id@ == id@,
            None => is_hyphenated_uuid(r.id@),
        },
{
    send_msg(header, message, message_id, None)
}

} // verus!
