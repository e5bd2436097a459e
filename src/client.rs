use vstd::prelude::*;

use crate::envelope::{frame_of, has_three_fields, is_frame, Envelope};

verus! {

/// Keys closer together than this many milliseconds count as one press.
pub const DEBOUNCE_MS: u64 = 50;

/// True when a key pressed at `now_ms` is taken, the previous taken one
/// having come at `last_ms`: the first is always taken, a later one only
/// once the debounce window has passed.
pub open spec fn debounce_accepts_spec(last_ms: Option<u64>, now_ms: u64) -> bool {
    match last_ms {
        None => true,
        Some(l) => now_ms > l + DEBOUNCE_MS,
    }
}

/// Whether a key pressed at `now_ms` is taken (see `debounce_accepts_spec`).
pub fn debounce_accepts(last_ms: Option<u64>, now_ms: u64) -> (r: bool)
    ensures
        r == debounce_accepts_spec(last_ms, now_ms),
{
    match last_ms {
        None => true,
        Some(l) => now_ms >= l && now_ms - l > DEBOUNCE_MS,
    }
}

/// What `str::trim` leaves of `s`.
pub uninterp spec fn trimmed(s: Seq<char>) -> Seq<char>;

/// Relies on `str::trim`: `s` without leading and trailing white space; of
/// an empty string nothing is left.
#[verifier::external_body]
fn trim(s: &str) -> (r: &str)
    ensures
        r@ == trimmed(s@),
        s@.len() == 0 ==> r@.len() == 0,
{
    s.trim()
}

/// The frame to send for the typed line `input`, whose trimmed form is
/// `trimmed_input`, or `None` when nothing is left after trimming.
pub fn compose_trimmed(client_id: &str, name: &str, input: &str, trimmed_input: &str) -> (r: Option<
    String,
>)
    ensures
        r is None <==> trimmed_input@.len() == 0,
        r matches Some(f) ==> f@ == frame_of(client_id@, name@, input@),
{
    if trimmed_input.is_empty() {
        None
    } else {
        let e = Envelope {
            sender_id: client_id.to_string(),
            sender_name: name.to_string(),
            body: input.to_string(),
        };
        Some(e.encode())
    }
}

/// The frame to send for the typed line `input`, or `None` when the line
/// is blank.
pub fn compose(client_id: &str, name: &str, input: &str) -> (r: Option<String>)
    ensures
        r is None <==> trimmed(input@).len() == 0,
        r matches Some(f) ==> f@ == frame_of(client_id@, name@, input@),
{
    compose_trimmed(client_id, name, input, trim(input))
}

/// The history line `name: body` for a frame from the server, or `None`
/// when the frame is malformed or is the client's own.
pub fn history_line(own_id: &str, frame: &str) -> (r: Option<String>)
    ensures
        r is Some <==> has_three_fields(frame@) && !(exists|name: Seq<char>, body: Seq<char>|
            is_frame(frame@, own_id@, name, body)),
        r matches Some(line) ==> exists|id: Seq<char>, name: Seq<char>, body: Seq<char>|
            is_frame(frame@, id, name, body) && line@ == name + seq![':', ' '] + body,
{
    match Envelope::parse(frame) {
        None => None,
        Some(e) => {
            let ghost m = e@;
            let own = own_id.to_string();
            if e.sender_id == own {
                return None;
            }
            proof {
                if exists|name: Seq<char>, body: Seq<char>| is_frame(frame@, own_id@, name, body) {
                    let (name, body) = choose|name: Seq<char>, body: Seq<char>|
                        is_frame(frame@, own_id@, name, body);
                    crate::envelope::lemma_frame_unique(
                        frame@,
                        own_id@,
                        name,
                        body,
                        m.sender_id,
                        m.sender_name,
                        m.body,
                    );
                }
            }
            let sep = ": ";
            proof {
                reveal_strlit(": ");
            }
            let mut line = e.sender_name;
            line.append(sep);
            line.append(e.body.as_str());
            proof {
                assert(line@ =~= m.sender_name + seq![':', ' '] + m.body);
            }
            Some(line)
        },
    }
}

} // verus!
