//! The TCP handshake that precedes a transfer: the sender's hello, the
//! receiver's reading of it and its answer, and the sender's reading of
//! the answer.

use vstd::prelude::*;

use vstd::utf8::{decode_utf8, encode_utf8, encode_utf8_decode_utf8, encode_utf8_valid_utf8, valid_utf8};

use crate::text::{is_white_space, lemma_trim_is_single, lemma_split_append_plain, lemma_split_append_sep, decode_utf8_lossy, has_prefix, nth_field, split_on, starts_with, trim, trim_text, utf8_lossy};

verus! {

/// The TCP port on which a receiver waits for a handshake.
pub const TCP_PORT: u16 = 34255;

/// The hello that a sender opens the handshake with.
pub open spec fn hello_spec(local_id: Seq<char>, local_name: Seq<char>) -> Seq<char> {
    "HELLO|"@ + local_id + "|"@ + local_name + "|SEND"@
}

/// Writes the hello that a sender opens the handshake with.
pub fn hello_message(local_id: &str, local_name: &str) -> (s: String)
    ensures
        s@ == hello_spec(local_id@, local_name@),
{
    let mut s = "HELLO|".to_owned();
    s.append(local_id);
    s.append("|");
    s.append(local_name);
    s.append("|SEND");
    s
}

/// Whether the receiver's answer, as text, accepts the handshake: it
/// begins with `OK|`.
pub open spec fn reply_accepts(text: Seq<char>) -> bool {
    has_prefix(text, "OK|"@)
}

/// Reads the receiver's answer, as text.
pub fn reply_text_accepted(text: &str) -> (b: bool)
    ensures
        b == reply_accepts(text@),
{
    starts_with(text, "OK|")
}

/// Reads the receiver's answer as it came off the connection, decoding it
/// as lossy UTF-8.
pub fn reply_accepted(reply: &[u8]) -> (b: bool)
    ensures
        b == reply_accepts(utf8_lossy(reply@)),
        valid_utf8(reply@) ==> b == reply_accepts(decode_utf8(reply@)),
{
    let text = decode_utf8_lossy(reply);
    reply_text_accepted(text.as_str())
}

/// The sender name carried by a hello, as text: the third `|`-separated
/// field, or nothing when there are fewer than three fields.
pub open spec fn hello_sender_spec(text: Seq<char>) -> Option<Seq<char>> {
    let parts = split_on(text, '|');
    if parts.len() < 3 {
        None
    } else {
        Some(parts[2])
    }
}

/// Reads the sender name out of a hello, as text.
pub fn hello_sender_name(text: &str) -> (r: Option<String>)
    ensures
        match r {
            Some(n) => hello_sender_spec(text@) == Some(n@),
            None => hello_sender_spec(text@) is None,
        },
{
    nth_field(text, '|', 2)
}

/// Reads the sender name out of a hello as it came off the connection,
/// decoding it as lossy UTF-8.
pub fn parse_hello(msg: &[u8]) -> (r: Option<String>)
    ensures
        match r {
            Some(n) => hello_sender_spec(utf8_lossy(msg@)) == Some(n@),
            None => hello_sender_spec(utf8_lossy(msg@)) is None,
        },
        valid_utf8(msg@) ==> match r {
            Some(n) => hello_sender_spec(decode_utf8(msg@)) == Some(n@),
            None => hello_sender_spec(decode_utf8(msg@)) is None,
        },
{
    let text = decode_utf8_lossy(msg);
    hello_sender_name(text.as_str())
}

/// Whether the user's answer to the request prompt accepts it: after
/// trimming, a single `y` in either case.
pub open spec fn accepts_request(choice: Seq<char>) -> bool {
    trim(choice) == seq!['y'] || trim(choice) == seq!['Y']
}

/// Reads the user's answer to the request prompt, as
/// `trim().eq_ignore_ascii_case("y")` does.
pub fn request_accepted(choice: &str) -> (b: bool)
    ensures
        b == accepts_request(choice@),
{
    let t = trim_text(choice);
    let ts = t.as_str();
    if ts.unicode_len() != 1 {
        return false;
    }
    let c = ts.get_char(0);
    proof {
        if c == 'y' {
            assert(t@ =~= seq!['y']);
        } else if c == 'Y' {
            assert(t@ =~= seq!['Y']);
        }
    }
    c == 'y' || c == 'Y'
}

/// The receiver's answer: `OK|` when it accepts, `REJECTED|` when it does
/// not, followed by its id and name.
pub open spec fn listener_reply_spec(accepted: bool, local_id: Seq<char>, local_name: Seq<char>) -> Seq<char> {
    (if accepted {
        "OK|"@
    } else {
        "REJECTED|"@
    }) + local_id + "|"@ + local_name
}

/// Writes the receiver's answer to a hello.
pub fn listener_reply(accepted: bool, local_id: &str, local_name: &str) -> (s: String)
    ensures
        s@ == listener_reply_spec(accepted, local_id@, local_name@),
{
    let mut s = if accepted {
        "OK|".to_owned()
    } else {
        "REJECTED|".to_owned()
    };
    s.append(local_id);
    s.append("|");
    s.append(local_name);
    s
}

/// The name a node gives itself in a handshake: host name and user name
/// joined by `-`.
pub open spec fn local_name_spec(host: Seq<char>, user: Seq<char>) -> Seq<char> {
    host + "-"@ + user
}

/// Writes the name a node gives itself in a handshake.
pub fn local_name(host: &str, user: &str) -> (s: String)
    ensures
        s@ == local_name_spec(host@, user@),
{
    let mut s = host.to_owned();
    s.append("-");
    s.append(user);
    s
}

/// An answer that the receiver writes is accepted by the sender exactly
/// when the receiver accepted.
pub proof fn lemma_reply_roundtrip(accepted: bool, local_id: Seq<char>, local_name: Seq<char>)
    ensures
        reply_accepts(listener_reply_spec(accepted, local_id, local_name)) == accepted,
{
    reveal_strlit("OK|");
    reveal_strlit("REJECTED|");
    let r = listener_reply_spec(accepted, local_id, local_name);
    if accepted {
        assert(r.take(3) =~= "OK|"@);
    } else {
        assert(r.take(3)[0] == 'R');
        assert("OK|"@[0] == 'O');
    }
}

/// A receiver reads back, as the sender name, the name that the sender put
/// in its hello, when neither the id nor the name holds a `|`.
pub proof fn lemma_hello_roundtrip(local_id: Seq<char>, local_name: Seq<char>)
    requires
        !local_id.contains('|'),
        !local_name.contains('|'),
    ensures
        hello_sender_spec(hello_spec(local_id, local_name)) == Some(local_name),
{
    reveal_strlit("HELLO|");
    reveal_strlit("|");
    reveal_strlit("|SEND");
    reveal_strlit("HELLO");
    reveal_strlit("SEND");
    let hello = "HELLO"@;
    let send = "SEND"@;
    assert(!hello.contains('|')) by {
        if hello.contains('|') {
            let i = choose|i: int| 0 <= i < hello.len() && hello[i] == '|';
        }
    }
    assert(!send.contains('|')) by {
        if send.contains('|') {
            let i = choose|i: int| 0 <= i < send.len() && send[i] == '|';
        }
    }
    let e = Seq::<char>::empty();
    let s1 = e + hello;
    let s2 = s1.push('|');
    let s3 = s2 + local_id;
    let s4 = s3.push('|');
    let s5 = s4 + local_name;
    let s6 = s5.push('|');
    let s7 = s6 + send;
    assert(s7 =~= hello_spec(local_id, local_name));
    assert(split_on(e, '|') =~= seq![e]);
    lemma_split_append_plain(e, hello, '|');
    assert(split_on(s1, '|') =~= seq![hello]);
    lemma_split_append_sep(s1, '|');
    lemma_split_append_plain(s2, local_id, '|');
    assert(split_on(s3, '|') =~= seq![hello, local_id]);
    lemma_split_append_sep(s3, '|');
    lemma_split_append_plain(s4, local_name, '|');
    assert(split_on(s5, '|') =~= seq![hello, local_id, local_name]);
    lemma_split_append_sep(s5, '|');
    lemma_split_append_plain(s6, send, '|');
    assert(split_on(s7, '|') =~= seq![hello, local_id, local_name, send]);
}

/// The bytes of a hello, as a sender writes them, are valid UTF-8, and a
/// receiver that reads them all reads back the sender's name, when neither
/// the id nor the name holds a `|`.
pub proof fn lemma_hello_bytes_roundtrip(local_id: Seq<char>, local_name: Seq<char>)
    requires
        !local_id.contains('|'),
        !local_name.contains('|'),
    ensures
        valid_utf8(encode_utf8(hello_spec(local_id, local_name))),
        hello_sender_spec(decode_utf8(encode_utf8(hello_spec(local_id, local_name)))) == Some(
            local_name,
        ),
{
    encode_utf8_valid_utf8(hello_spec(local_id, local_name));
    encode_utf8_decode_utf8(hello_spec(local_id, local_name));
    lemma_hello_roundtrip(local_id, local_name);
}

/// The bytes of a receiver's answer are valid UTF-8, and the sender that
/// reads them all accepts exactly when the receiver accepted.
pub proof fn lemma_reply_bytes_roundtrip(accepted: bool, local_id: Seq<char>, local_name: Seq<char>)
    ensures
        valid_utf8(encode_utf8(listener_reply_spec(accepted, local_id, local_name))),
        reply_accepts(decode_utf8(encode_utf8(listener_reply_spec(accepted, local_id, local_name))))
            == accepted,
{
    encode_utf8_valid_utf8(listener_reply_spec(accepted, local_id, local_name));
    encode_utf8_decode_utf8(listener_reply_spec(accepted, local_id, local_name));
    lemma_reply_roundtrip(accepted, local_id, local_name);
}


/// The request prompt accepts exactly an answer made of one `y` or `Y` and
/// whitespace around it; any other answer, such as `n` or `N`, rejects.
pub proof fn lemma_request_answer(choice: Seq<char>)
    ensures
        accepts_request(choice) <==> exists|i: int|
            0 <= i < choice.len() && (choice[i] == 'y' || choice[i] == 'Y') && forall|j: int|
                0 <= j < choice.len() && j != i ==> is_white_space(#[trigger] choice[j]),
{
    lemma_trim_is_single(choice, 'y');
    lemma_trim_is_single(choice, 'Y');
}

} // verus!
