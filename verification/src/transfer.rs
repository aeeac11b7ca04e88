//! The file-transfer protocol: the metadata the sender offers, the framing
//! of lengths and sizes on the wire, the confirmations, and the file name
//! taken from a path.

use vstd::prelude::*;

use crate::text::{
    lemma_split_pieces, occurs_in,
    is_white_space, lemma_split_append_plain, lemma_split_append_sep, lemma_trim_is_single,
    decimal, decimal_text, decode_utf8_lossy, has_prefix, split_on, starts_with, trim, trim_text,
    utf8_lossy,
};

verus! {

/// The four big-endian bytes of `x`, as `u32::to_be_bytes` gives them.
pub open spec fn be32(x: u32) -> Seq<u8> {
    seq![(x >> 24) as u8, (x >> 16) as u8, (x >> 8) as u8, x as u8]
}

/// The number that four big-endian bytes stand for, as `u32::from_be_bytes`
/// reads them.
pub open spec fn from_be32(b: Seq<u8>) -> u32 {
    ((b[0] as u32) << 24) | ((b[1] as u32) << 16) | ((b[2] as u32) << 8) | (b[3] as u32)
}

/// The eight big-endian bytes of `x`, as `u64::to_be_bytes` gives them.
pub open spec fn be64(x: u64) -> Seq<u8> {
    seq![
        (x >> 56) as u8,
        (x >> 48) as u8,
        (x >> 40) as u8,
        (x >> 32) as u8,
        (x >> 24) as u8,
        (x >> 16) as u8,
        (x >> 8) as u8,
        x as u8,
    ]
}

/// The number that eight big-endian bytes stand for, as
/// `u64::from_be_bytes` reads them.
pub open spec fn from_be64(b: Seq<u8>) -> u64 {
    ((b[0] as u64) << 56) | ((b[1] as u64) << 48) | ((b[2] as u64) << 40) | ((b[3] as u64) << 32)
        | ((b[4] as u64) << 24) | ((b[5] as u64) << 16) | ((b[6] as u64) << 8) | (b[7] as u64)
}

/// Writes `x` as four big-endian bytes.
pub fn encode_u32_be(x: u32) -> (b: [u8; 4])
    ensures
        b@ == be32(x),
{
    let b = [(x >> 24) as u8, (x >> 16) as u8, (x >> 8) as u8, x as u8];
    assert(b@ =~= be32(x));
    b
}

/// Reads four big-endian bytes as a number.
pub fn decode_u32_be(b: [u8; 4]) -> (x: u32)
    ensures
        x == from_be32(b@),
{
    ((b[0] as u32) << 24) | ((b[1] as u32) << 16) | ((b[2] as u32) << 8) | (b[3] as u32)
}

/// Writes `x` as eight big-endian bytes.
pub fn encode_u64_be(x: u64) -> (b: [u8; 8])
    ensures
        b@ == be64(x),
{
    let b = [
        (x >> 56) as u8,
        (x >> 48) as u8,
        (x >> 40) as u8,
        (x >> 32) as u8,
        (x >> 24) as u8,
        (x >> 16) as u8,
        (x >> 8) as u8,
        x as u8,
    ];
    assert(b@ =~= be64(x));
    b
}

/// Reads eight big-endian bytes as a number.
pub fn decode_u64_be(b: [u8; 8]) -> (x: u64)
    ensures
        x == from_be64(b@),
{
    ((b[0] as u64) << 56) | ((b[1] as u64) << 48) | ((b[2] as u64) << 40) | ((b[3] as u64) << 32)
        | ((b[4] as u64) << 24) | ((b[5] as u64) << 16) | ((b[6] as u64) << 8) | (b[7] as u64)
}

/// Reading back four written bytes gives the number, and writing a number
/// read from four bytes gives the bytes.
pub proof fn lemma_be32_roundtrip(x: u32, b: Seq<u8>)
    requires
        b.len() == 4,
    ensures
        from_be32(be32(x)) == x,
        be32(from_be32(b)) == b,
{
    let (b0, b1, b2, b3) = (b[0], b[1], b[2], b[3]);
    assert(((((x >> 24) as u8) as u32) << 24) | ((((x >> 16) as u8) as u32) << 16) | ((((x >> 8) as u8) as u32) << 8) | (((x as u8) as u32)) == x) by (bit_vector);
    let y = ((b0 as u32) << 24) | ((b1 as u32) << 16) | ((b2 as u32) << 8) | (b3 as u32);
    assert((y >> 24) as u8 == b0 && (y >> 16) as u8 == b1 && (y >> 8) as u8 == b2 && y as u8 == b3) by (bit_vector)
        requires
            y == ((b0 as u32) << 24) | ((b1 as u32) << 16) | ((b2 as u32) << 8) | (b3 as u32),
    ;
    assert(be32(from_be32(b)) =~= b);
}

/// Reading back eight written bytes gives the number, and writing a number
/// read from eight bytes gives the bytes.
pub proof fn lemma_be64_roundtrip(x: u64, b: Seq<u8>)
    requires
        b.len() == 8,
    ensures
        from_be64(be64(x)) == x,
        be64(from_be64(b)) == b,
{
    let (b0, b1, b2, b3, b4, b5, b6, b7) = (b[0], b[1], b[2], b[3], b[4], b[5], b[6], b[7]);
    assert(((((x >> 56) as u8) as u64) << 56) | ((((x >> 48) as u8) as u64) << 48) | ((((x >> 40) as u8) as u64) << 40) | ((((x >> 32) as u8) as u64) << 32)
        | ((((x >> 24) as u8) as u64) << 24) | ((((x >> 16) as u8) as u64) << 16) | ((((x >> 8) as u8) as u64) << 8) | (((x as u8) as u64)) == x) by (bit_vector);
    let y = ((b0 as u64) << 56) | ((b1 as u64) << 48) | ((b2 as u64) << 40) | ((b3 as u64) << 32)
        | ((b4 as u64) << 24) | ((b5 as u64) << 16) | ((b6 as u64) << 8) | (b7 as u64);
    assert((y >> 56) as u8 == b0 && (y >> 48) as u8 == b1 && (y >> 40) as u8 == b2 && (y >> 32) as u8 == b3
        && (y >> 24) as u8 == b4 && (y >> 16) as u8 == b5 && (y >> 8) as u8 == b6 && y as u8 == b7) by (bit_vector)
        requires
            y == ((b0 as u64) << 56) | ((b1 as u64) << 48) | ((b2 as u64) << 40) | ((b3 as u64) << 32)
                | ((b4 as u64) << 24) | ((b5 as u64) << 16) | ((b6 as u64) << 8) | (b7 as u64),
    ;
    assert(be64(from_be64(b)) =~= b);
}

/// The length that goes in a 32-bit length field: the length itself when it
/// fits, as `as u32` truncates it otherwise.
pub open spec fn length_field(n: nat) -> u32 {
    (n % 0x1_0000_0000) as u32
}

/// Computes the 32-bit length field for a length.
fn length_field_of(n: usize) -> (f: u32)
    ensures
        f == length_field(n as nat),
{
    ((n as u64) % 0x1_0000_0000) as u32
}

/// The metadata text that a sender offers: file name and size.
pub open spec fn metadata_spec(file_name: Seq<char>, file_size: u64) -> Seq<char> {
    "File Name: "@ + file_name + ", File size: "@ + decimal(file_size as nat)
}

/// Writes the metadata text that a sender offers.
pub fn metadata_message(file_name: &str, file_size: u64) -> (s: String)
    ensures
        s@ == metadata_spec(file_name@, file_size),
{
    let mut s = "File Name: ".to_owned();
    s.append(file_name);
    s.append(", File size: ");
    s.append(decimal_text(file_size).as_str());
    s
}

/// A message preceded by its length as four big-endian bytes.
pub open spec fn length_prefixed_spec(message: Seq<u8>) -> Seq<u8> {
    be32(length_field(message.len())) + message
}

/// Frames a message with its length, as the sender frames the metadata.
pub fn length_prefixed(message: &[u8]) -> (v: Vec<u8>)
    ensures
        v@ == length_prefixed_spec(message@),
{
    let len = encode_u32_be(length_field_of(message.len()));
    let mut v: Vec<u8> = Vec::new();
    v.extend_from_slice(&len);
    v.extend_from_slice(message);
    assert(v@ =~= length_prefixed_spec(message@));
    v
}

/// The offer that a sender makes: the metadata text, as UTF-8, preceded by
/// its length.
pub open spec fn offer_spec(file_name: Seq<char>, file_size: u64) -> Seq<u8> {
    length_prefixed_spec(vstd::utf8::encode_utf8(metadata_spec(file_name, file_size)))
}

/// Writes the offer that a sender makes.
pub fn offer_bytes(file_name: &str, file_size: u64) -> (v: Vec<u8>)
    ensures
        v@ == offer_spec(file_name@, file_size),
{
    let m = metadata_message(file_name, file_size);
    length_prefixed(m.as_str().as_bytes())
}

/// A receiver that reads the offer's length and then that many bytes gets
/// back the metadata text.
pub proof fn lemma_offer_readback(file_name: Seq<char>, file_size: u64)
    requires
        vstd::utf8::encode_utf8(metadata_spec(file_name, file_size)).len() <= u32::MAX,
    ensures
        ({
            let meta = vstd::utf8::encode_utf8(metadata_spec(file_name, file_size));
            let o = offer_spec(file_name, file_size);
            &&& from_be32(o.subrange(0, 4)) == meta.len()
            &&& o.subrange(4, 4 + meta.len() as int) == meta
            &&& vstd::utf8::valid_utf8(meta)
            &&& vstd::utf8::decode_utf8(meta) == metadata_spec(file_name, file_size)
        }),
{
    let meta = vstd::utf8::encode_utf8(metadata_spec(file_name, file_size));
    lemma_length_prefixed_readback(meta);
    vstd::utf8::encode_utf8_valid_utf8(metadata_spec(file_name, file_size));
    vstd::utf8::encode_utf8_decode_utf8(metadata_spec(file_name, file_size));
}

/// The text of the offer's metadata as it came off the connection, decoded
/// as lossy UTF-8.
pub fn offer_text(bytes: &[u8]) -> (s: String)
    ensures
        s@ == utf8_lossy(bytes@),
        vstd::utf8::valid_utf8(bytes@) ==> s@ == vstd::utf8::decode_utf8(bytes@),
{
    decode_utf8_lossy(bytes)
}

/// The name under which a received file is saved: the name bytes as they
/// came off the connection, decoded as lossy UTF-8.
pub fn received_file_name(bytes: &[u8]) -> (s: String)
    ensures
        s@ == utf8_lossy(bytes@),
        vstd::utf8::valid_utf8(bytes@) ==> s@ == vstd::utf8::decode_utf8(bytes@),
{
    decode_utf8_lossy(bytes)
}

/// The header that precedes the file contents once the receiver has
/// confirmed: the file size as eight big-endian bytes, the length of the
/// name as four, and the name.
pub open spec fn transfer_header_spec(file_size: u64, name: Seq<u8>) -> Seq<u8> {
    be64(file_size) + be32(length_field(name.len())) + name
}

/// Writes the header that precedes the file contents.
pub fn transfer_header(file_size: u64, name: &[u8]) -> (v: Vec<u8>)
    ensures
        v@ == transfer_header_spec(file_size, name@),
{
    let size = encode_u64_be(file_size);
    let len = encode_u32_be(length_field_of(name.len()));
    let mut v: Vec<u8> = Vec::new();
    v.extend_from_slice(&size);
    v.extend_from_slice(&len);
    v.extend_from_slice(name);
    assert(v@ =~= transfer_header_spec(file_size, name@));
    v
}

/// What the receiver reads from a header, piece by piece, is what the
/// sender wrote: the size, the name length, and a name of that length.
pub proof fn lemma_transfer_header_readback(file_size: u64, name: Seq<u8>)
    requires
        name.len() <= u32::MAX,
    ensures
        ({
            let h = transfer_header_spec(file_size, name);
            &&& from_be64(h.subrange(0, 8)) == file_size
            &&& from_be32(h.subrange(8, 12)) == name.len()
            &&& h.subrange(12, 12 + name.len() as int) == name
            &&& h.len() == 12 + name.len()
        }),
{
    let h = transfer_header_spec(file_size, name);
    lemma_be64_roundtrip(file_size, be64(file_size));
    lemma_be32_roundtrip(length_field(name.len()), be32(length_field(name.len())));
    assert(h.subrange(0, 8) =~= be64(file_size));
    assert(h.subrange(8, 12) =~= be32(length_field(name.len())));
    assert(h.subrange(12, 12 + name.len() as int) =~= name);
}

/// A receiver that reads the header of a file named `file_name` gets back
/// the size and, decoding the name bytes, the name itself.
pub proof fn lemma_transfer_header_name_readback(file_size: u64, file_name: Seq<char>)
    requires
        vstd::utf8::encode_utf8(file_name).len() <= u32::MAX,
    ensures
        ({
            let name = vstd::utf8::encode_utf8(file_name);
            let h = transfer_header_spec(file_size, name);
            &&& from_be64(h.subrange(0, 8)) == file_size
            &&& from_be32(h.subrange(8, 12)) == name.len()
            &&& vstd::utf8::valid_utf8(h.subrange(12, 12 + name.len() as int))
            &&& vstd::utf8::decode_utf8(h.subrange(12, 12 + name.len() as int)) == file_name
        }),
{
    let name = vstd::utf8::encode_utf8(file_name);
    lemma_transfer_header_readback(file_size, name);
    vstd::utf8::encode_utf8_valid_utf8(file_name);
    vstd::utf8::encode_utf8_decode_utf8(file_name);
}

/// What the receiver reads from a framed message is its length and then
/// the message.
pub proof fn lemma_length_prefixed_readback(message: Seq<u8>)
    requires
        message.len() <= u32::MAX,
    ensures
        ({
            let f = length_prefixed_spec(message);
            &&& from_be32(f.subrange(0, 4)) == message.len()
            &&& f.subrange(4, 4 + message.len() as int) == message
            &&& f.len() == 4 + message.len()
        }),
{
    let f = length_prefixed_spec(message);
    lemma_be32_roundtrip(length_field(message.len()), be32(length_field(message.len())));
    assert(f.subrange(0, 4) =~= be32(length_field(message.len())));
    assert(f.subrange(4, 4 + message.len() as int) =~= message);
}

/// Whether the receiver's confirmation, as text, lets the transfer go on: it
/// begins with `y`.
pub open spec fn confirms(text: Seq<char>) -> bool {
    has_prefix(text, seq!['y'])
}

/// Reads the receiver's confirmation, as text.
pub fn confirmation_text_accepted(text: &str) -> (b: bool)
    ensures
        b == confirms(text@),
{
    proof {
        reveal_strlit("y");
        assert("y"@ =~= seq!['y']);
    }
    starts_with(text, "y")
}

/// Reads the receiver's confirmation as it came off the connection,
/// decoding it as lossy UTF-8.
pub fn transfer_confirmed(reply: &[u8]) -> (b: bool)
    ensures
        b == confirms(utf8_lossy(reply@)),
        vstd::utf8::valid_utf8(reply@) ==> b == confirms(vstd::utf8::decode_utf8(reply@)),
{
    let text = decode_utf8_lossy(reply);
    confirmation_text_accepted(text.as_str())
}

/// The sender goes on exactly when the receiver's confirmation said so.
pub proof fn lemma_confirmation_roundtrip(accepted: bool)
    ensures
        confirms(if accepted {
            seq!['y']
        } else {
            seq!['n']
        }) == accepted,
{
    if accepted {
        assert(seq!['y'].take(1) =~= seq!['y']);
    } else {
        assert(seq!['n'].take(1)[0] != seq!['y'][0]);
    }
}

/// Whether the user's answer to the receive prompt accepts the file: after
/// trimming, exactly `y`.
pub open spec fn accepts_file(choice: Seq<char>) -> bool {
    trim(choice) == seq!['y']
}

/// Reads the user's answer to the receive prompt.
pub fn receive_accepted(choice: &str) -> (b: bool)
    ensures
        b == accepts_file(choice@),
{
    let t = trim_text(choice);
    let ts = t.as_str();
    if ts.unicode_len() != 1 {
        return false;
    }
    let c = ts.get_char(0);
    proof {
        if c == 'y' {
            assert(t@ =~= seq!['y']);
        }
    }
    c == 'y'
}

/// The confirmation that a receiver sends: `y` to go on, `n` to decline.
pub fn confirmation_reply(accepted: bool) -> (s: &'static str)
    ensures
        s@ == (if accepted {
            seq!['y']
        } else {
            seq!['n']
        }),
{
    proof {
        reveal_strlit("y");
        reveal_strlit("n");
    }
    if accepted {
        "y"
    } else {
        "n"
    }
}

/// Whether a path component is one that `Path::components` keeps as a
/// normal component: neither empty nor `.`.
pub open spec fn is_kept_component(c: Seq<char>) -> bool {
    c.len() > 0 && c != seq!['.']
}

/// The pieces of a split path that are kept as components, in order.
pub open spec fn kept_components(pieces: Seq<Seq<char>>) -> Seq<Seq<char>>
    decreases pieces.len(),
{
    if pieces.len() == 0 {
        pieces
    } else {
        let prev = kept_components(pieces.drop_last());
        if is_kept_component(pieces.last()) {
            prev.push(pieces.last())
        } else {
            prev
        }
    }
}

/// The final component of a `/`-separated path, as `Path::file_name` gives
/// it: nothing when the path has no component, or when it ends in `..`.
pub open spec fn file_name_spec(path: Seq<char>) -> Option<Seq<char>> {
    let comps = kept_components(split_on(path, '/'));
    if comps.len() == 0 {
        None
    } else if comps.last() == seq!['.', '.'] {
        None
    } else {
        Some(comps.last())
    }
}

/// `k` dots.
pub open spec fn dots(k: nat) -> Seq<char> {
    Seq::new(k, |i: int| '.')
}

/// Whether the characters of `s` from `a` to `b` are exactly `k` dots.
fn is_dots(s: &str, a: usize, b: usize, k: usize) -> (r: bool)
    requires
        a <= b <= s@.len(),
    ensures
        r == (s@.subrange(a as int, b as int) == dots(k as nat)),
{
    if b - a != k {
        assert(s@.subrange(a as int, b as int).len() != dots(k as nat).len());
        return false;
    }
    let mut i: usize = a;
    while i < b
        invariant
            a <= i <= b <= s@.len(),
            b - a == k,
            forall|j: int| a <= j < i ==> s@[j] == '.',
        decreases b - i,
    {
        if s.get_char(i) != '.' {
            assert(s@.subrange(a as int, b as int)[i - a] != dots(k as nat)[i - a]);
            return false;
        }
        i = i + 1;
    }
    assert(s@.subrange(a as int, b as int) =~= dots(k as nat));
    true
}

/// Takes the file name out of a path, as `Path::file_name` does for a
/// Unix path.
pub fn file_name_of(path: &str) -> (r: Option<String>)
    ensures
        match r {
            Some(n) => file_name_spec(path@) == Some(n@),
            None => file_name_spec(path@) is None,
        },
{
    let n = path.unicode_len();
    assert(dots(1) =~= seq!['.']);
    assert(dots(2) =~= seq!['.', '.']);
    let mut cur_start: usize = 0;
    let mut has_last = false;
    let mut last_start: usize = 0;
    let mut last_end: usize = 0;
    let mut i: usize = 0;
    let ghost p = path@;
    assert(p.take(0) =~= Seq::<char>::empty());
    while i < n
        invariant
            n == p.len(),
            p == path@,
            i <= n,
            cur_start <= i,
            split_on(p.take(i as int), '/').len() >= 1,
            split_on(p.take(i as int), '/').last() == p.subrange(cur_start as int, i as int),
            has_last == (kept_components(split_on(p.take(i as int), '/').drop_last()).len() > 0),
            has_last ==> last_start <= last_end <= i && kept_components(
                split_on(p.take(i as int), '/').drop_last(),
            ).last() == p.subrange(last_start as int, last_end as int),
        decreases n - i,
    {
        let c = path.get_char(i);
        let ghost prev = split_on(p.take(i as int), '/');
        assert(p.take(i + 1).drop_last() =~= p.take(i as int));
        assert(p.take(i + 1).last() == c);
        if c == '/' {
            let ghost piece = p.subrange(cur_start as int, i as int);
            let dot = is_dots(path, cur_start, i, 1);
            if cur_start < i && !dot {
                has_last = true;
                last_start = cur_start;
                last_end = i;
            }
            proof {
                let next = split_on(p.take(i + 1), '/');
                assert(next == prev.push(Seq::empty()));
                assert(next.drop_last() =~= prev);
                assert(prev.last() == piece);
                assert(prev.len() > 0);
                assert(kept_components(prev) == (if is_kept_component(prev.last()) {
                    kept_components(prev.drop_last()).push(prev.last())
                } else {
                    kept_components(prev.drop_last())
                }));
                assert(piece.len() == i - cur_start);
                assert(dots(1) =~= seq!['.']);
                assert(is_kept_component(piece) == (cur_start < i && !dot));
            }
            cur_start = i + 1;
            assert(p.subrange(cur_start as int, i + 1) =~= Seq::<char>::empty());
        } else {
            proof {
                let next = split_on(p.take(i + 1), '/');
                assert(next.drop_last() =~= prev.drop_last());
            }
            assert(p.subrange(cur_start as int, i + 1) =~= p.subrange(cur_start as int, i as int).push(c));
        }
        i = i + 1;
    }
    assert(p.take(n as int) =~= p);
    let ghost pieces = split_on(p, '/');
    assert(pieces =~= pieces.drop_last().push(pieces.last()));
    let dot = is_dots(path, cur_start, n, 1);
    let (s, e) = if cur_start < n && !dot {
        proof {
            assert(kept_components(pieces) == kept_components(pieces.drop_last()).push(pieces.last()));
        }
        (cur_start, n)
    } else {
        proof {
            assert(kept_components(pieces) == kept_components(pieces.drop_last()));
        }
        if !has_last {
            return None;
        }
        (last_start, last_end)
    };
    if is_dots(path, s, e, 2) {
        None
    } else {
        Some(path.substring_char(s, e).to_owned())
    }
}


/// The receive prompt accepts exactly an answer made of one `y` and
/// whitespace around it; any other answer, such as `n`, declines.
pub proof fn lemma_receive_answer(choice: Seq<char>)
    ensures
        accepts_file(choice) <==> exists|i: int|
            0 <= i < choice.len() && choice[i] == 'y' && forall|j: int|
                0 <= j < choice.len() && j != i ==> is_white_space(#[trigger] choice[j]),
{
    lemma_trim_is_single(choice, 'y');
}

/// The file name of a path that ends in a component `c` (neither empty,
/// `.` nor `..`, and without `/`) is `c` itself, whatever comes before.
pub proof fn lemma_file_name_last_component(dir: Seq<char>, c: Seq<char>)
    requires
        c.len() > 0,
        !c.contains('/'),
        c != seq!['.'],
        c != seq!['.', '.'],
    ensures
        file_name_spec(dir + seq!['/'] + c) == Some(c),
{
    let d1 = dir.push('/');
    assert(dir + seq!['/'] + c =~= d1 + c);
    lemma_split_append_sep(dir, '/');
    lemma_split_append_plain(d1, c, '/');
    let p = split_on(dir, '/');
    let q = split_on(d1 + c, '/');
    assert(Seq::<char>::empty() + c =~= c);
    assert(q =~= p.push(c));
    assert(q.drop_last() =~= p);
    assert(is_kept_component(c));
    assert(kept_components(q) == kept_components(p).push(c));
}

/// Every kept component is a piece of the split that is kept.
proof fn lemma_kept_components_are_pieces(pieces: Seq<Seq<char>>)
    ensures
        forall|k: int|
            0 <= k < kept_components(pieces).len() ==> is_kept_component(
                #[trigger] kept_components(pieces)[k],
            ) && pieces.contains(kept_components(pieces)[k]),
    decreases pieces.len(),
{
    if pieces.len() > 0 {
        let t = pieces.drop_last();
        lemma_kept_components_are_pieces(t);
        let kt = kept_components(t);
        let kp = kept_components(pieces);
        assert forall|k: int| 0 <= k < kp.len() implies is_kept_component(#[trigger] kp[k])
            && pieces.contains(kp[k]) by {
            if k < kt.len() {
                assert(kp[k] == kt[k]);
                let j = choose|j: int| 0 <= j < t.len() && t[j] == kt[k];
                assert(pieces[j] == t[j]);
            } else {
                assert(kp[k] == pieces.last());
                assert(pieces[pieces.len() - 1] == pieces.last());
            }
        }
    }
}

/// The file name of a path, when it has one, is a part of the path with no
/// `/` in it that is neither empty, `.` nor `..`: nothing is cut from it.
pub proof fn lemma_file_name_is_component(path: Seq<char>)
    ensures
        match file_name_spec(path) {
            Some(n) => {
                &&& n.len() > 0
                &&& !n.contains('/')
                &&& n != seq!['.']
                &&& n != seq!['.', '.']
                &&& occurs_in(path, n)
            },
            None => true,
        },
{
    let pieces = split_on(path, '/');
    lemma_split_pieces(path, '/');
    lemma_kept_components_are_pieces(pieces);
    let comps = kept_components(pieces);
    if comps.len() > 0 {
        let n = comps.last();
        assert(n == comps[comps.len() - 1]);
        let j = choose|j: int| 0 <= j < pieces.len() && pieces[j] == n;
        assert(!pieces[j].contains('/') && occurs_in(path, pieces[j]));
    }
}

} // verus!
