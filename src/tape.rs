use vstd::prelude::*;
use vstd::slice::slice_subrange;

use crate::error::Error;
use crate::node::{members, nodes, Json, Node};

verus! {

/// The decoding of UTF-8 bytes: the characters they encode, if they are valid.
pub uninterp spec fn utf8_decode(b: Seq<u8>) -> Option<Seq<char>>;

/// Relies on `std::str::from_utf8`: the characters that valid UTF-8 bytes
/// encode, and a refusal of invalid bytes; the outcome depends on the bytes alone.
#[verifier::external_body]
fn utf8_text(b: &[u8]) -> (r: Option<String>)
    ensures
        match utf8_decode(b@) {
            Some(t) => r matches Some(s) && s@ == t,
            None => r is None,
        },
{
    match std::str::from_utf8(b) {
        Ok(s) => Some(String::from(s)),
        Err(_) => None,
    }
}

/// The bits of a tape word that name its kind.
pub open spec fn tag_of(w: u64) -> u64 {
    w >> 56u64
}

/// The bits of a tape word below its kind.
pub open spec fn payload_of(w: u64) -> u64 {
    w & 0x00ff_ffff_ffff_ffffu64
}

/// The index that a `[` or `{` word gives: the word just after its closing one.
pub open spec fn after_of(w: u64) -> u64 {
    w & 0xffff_ffffu64
}

/// The little-endian number of four bytes.
pub open spec fn le_u32(b: Seq<u8>, at: int) -> int {
    b[at] as int + 256 * b[at + 1] as int + 65536 * b[at + 2] as int + 16777216 * b[at + 3] as int
}

/// The string stored at `off` in the string buffer: four little-endian bytes
/// of length, then the UTF-8 bytes.
pub open spec fn string_at(strings: Seq<u8>, off: int) -> Option<Seq<char>> {
    if 0 <= off && off + 4 <= strings.len() && off + 4 + le_u32(strings, off) <= strings.len() {
        utf8_decode(strings.subrange(off + 4, off + 4 + le_u32(strings, off)))
    } else {
        None
    }
}

/// The value whose first word is at `pos`, and the index just after it.
pub open spec fn node_at(tape: Seq<u64>, strings: Seq<u8>, pos: int) -> Option<(Json, int)>
    decreases tape.len() - pos, 0int,
{
    if pos < 0 || pos >= tape.len() {
        None
    } else {
        let w = tape[pos];
        let t = tag_of(w);
        if t == 0x6e {
            Some((Json::Null, pos + 1))
        } else if t == 0x74 {
            Some((Json::Bool(true), pos + 1))
        } else if t == 0x66 {
            Some((Json::Bool(false), pos + 1))
        } else if t == 0x6c || t == 0x75 || t == 0x64 {
            if pos + 1 < tape.len() {
                let v = tape[pos + 1];
                let j = if t == 0x6c {
                    Json::Int64(v as i64)
                } else if t == 0x75 {
                    Json::UInt64(v)
                } else {
                    Json::Double(v)
                };
                Some((j, pos + 2))
            } else {
                None
            }
        } else if t == 0x22 {
            match string_at(strings, payload_of(w) as int) {
                Some(s) => Some((Json::String(s), pos + 1)),
                None => None,
            }
        } else if t == 0x5b || t == 0x7b {
            let end = after_of(w) as int;
            if pos < end - 1 && end <= tape.len() && tag_of(tape[end - 1]) == (if t == 0x5b {
                0x5du64
            } else {
                0x7du64
            }) {
                if t == 0x5b {
                    match items_at(tape, strings, pos + 1, end - 1) {
                        Some(items) => Some((Json::Array(items), end)),
                        None => None,
                    }
                } else {
                    match members_at(tape, strings, pos + 1, end - 1) {
                        Some(ms) => Some((Json::Object(ms), end)),
                        None => None,
                    }
                }
            } else {
                None
            }
        } else {
            None
        }
    }
}

/// The values from `p` up to the closing word at `close`.
pub open spec fn items_at(tape: Seq<u64>, strings: Seq<u8>, p: int, close: int) -> Option<
    Seq<Json>,
>
    decreases tape.len() - p, 1int,
{
    if p >= close || p < 0 || close > tape.len() {
        if p == close {
            Some(Seq::empty())
        } else {
            None
        }
    } else {
        match node_at(tape, strings, p) {
            None => None,
            Some((j, next)) => if p < next && next <= close {
                match items_at(tape, strings, next, close) {
                    Some(rest) => Some(seq![j] + rest),
                    None => None,
                }
            } else {
                None
            },
        }
    }
}

/// The key/value members from `p` up to the closing word at `close`.
pub open spec fn members_at(tape: Seq<u64>, strings: Seq<u8>, p: int, close: int) -> Option<
    Seq<(Seq<char>, Json)>,
>
    decreases tape.len() - p, 1int,
{
    if p >= close || p < 0 || close > tape.len() {
        if p == close {
            Some(Seq::empty())
        } else {
            None
        }
    } else if tag_of(tape[p]) != 0x22 {
        None
    } else {
        match string_at(strings, payload_of(tape[p]) as int) {
            None => None,
            Some(key) => match node_at(tape, strings, p + 1) {
                None => None,
                Some((j, next)) => if p < next && next <= close {
                    match members_at(tape, strings, next, close) {
                        Some(rest) => Some(seq![(key, j)] + rest),
                        None => None,
                    }
                } else {
                    None
                },
            },
        }
    }
}

/// The document of a tape: a root word, then one value that fills the rest.
pub open spec fn document(tape: Seq<u64>, strings: Seq<u8>) -> Option<Json> {
    if tape.len() > 0 && tag_of(tape[0]) == 0x72 {
        match node_at(tape, strings, 1) {
            Some((j, next)) => if next == tape.len() {
                Some(j)
            } else {
                None
            },
            None => None,
        }
    } else {
        None
    }
}

/// `a` before what `o` holds, if it holds anything.
pub open spec fn prepend<A>(a: Seq<A>, o: Option<Seq<A>>) -> Option<Seq<A>> {
    match o {
        Some(rest) => Some(a + rest),
        None => None,
    }
}

fn read_le_u32(strings: &[u8], at: usize) -> (r: u64)
    requires
        at + 4 <= strings@.len(),
    ensures
        r as int == le_u32(strings@, at as int),
{
    strings[at] as u64 + 256 * (strings[at + 1] as u64) + 65536 * (strings[at + 2] as u64)
        + 16777216 * (strings[at + 3] as u64)
}

/// The string stored at `off` in the string buffer.
fn read_string(strings: &[u8], off: u64) -> (r: Option<String>)
    ensures
        match string_at(strings@, off as int) {
            Some(t) => r matches Some(s) && s@ == t,
            None => r is None,
        },
{
    let n = strings.len() as u64;
    if off > n || n - off < 4 {
        return None;
    }
    let at = off as usize;
    let len = read_le_u32(strings, at);
    if n - off - 4 < len {
        return None;
    }
    let start = at + 4;
    let end = start + len as usize;
    utf8_text(slice_subrange(strings, start, end))
}

/// Decodes the value whose first word is at `pos`, and gives the index just after it.
fn decode_node(tape: &[u64], strings: &[u8], pos: usize) -> (r: Option<(Node, usize)>)
    ensures
        match node_at(tape@, strings@, pos as int) {
            Some((j, next)) => r matches Some((n, k)) && n.model() == j && k as int == next,
            None => r is None,
        },
    decreases tape@.len() - pos, 0int,
{
    if pos >= tape.len() {
        return None;
    }
    let w = tape[pos];
    let t = w >> 56u64;
    if t == 0x6e {
        Some((Node::Null, pos + 1))
    } else if t == 0x74 {
        Some((Node::Bool(true), pos + 1))
    } else if t == 0x66 {
        Some((Node::Bool(false), pos + 1))
    } else if t == 0x6c || t == 0x75 || t == 0x64 {
        if pos + 1 < tape.len() {
            let v = tape[pos + 1];
            let n = if t == 0x6c {
                Node::Int64(#[verifier::truncate] (v as i64))
            } else if t == 0x75 {
                Node::UInt64(v)
            } else {
                Node::Double(v)
            };
            Some((n, pos + 2))
        } else {
            None
        }
    } else if t == 0x22 {
        match read_string(strings, w & 0x00ff_ffff_ffff_ffffu64) {
            Some(s) => Some((Node::String(s), pos + 1)),
            None => None,
        }
    } else if t == 0x5b || t == 0x7b {
        let after = w & 0xffff_ffffu64;
        if after > tape.len() as u64 {
            return None;
        }
        let end = after as usize;
        if pos + 1 >= end {
            return None;
        }
        let close_tag = tape[end - 1] >> 56u64;
        if t == 0x5b {
            if close_tag != 0x5d {
                return None;
            }
            match decode_items(tape, strings, pos + 1, end - 1) {
                Some(items) => {
                    let n = Node::Array(items);
                    assert(n.model()->Array_0 =~= nodes(items@));
                    Some((n, end))
                },
                None => None,
            }
        } else {
            if close_tag != 0x7d {
                return None;
            }
            match decode_members(tape, strings, pos + 1, end - 1) {
                Some(ms) => {
                    let n = Node::Object(ms);
                    assert(n.model()->Object_0 =~= members(ms@));
                    Some((n, end))
                },
                None => None,
            }
        }
    } else {
        None
    }
}

/// Decodes the values from `start` up to the closing word at `close`.
fn decode_items(tape: &[u64], strings: &[u8], start: usize, close: usize) -> (r: Option<Vec<Node>>)
    requires
        start <= close <= tape@.len(),
    ensures
        match items_at(tape@, strings@, start as int, close as int) {
            Some(js) => r matches Some(v) && nodes(v@) == js,
            None => r is None,
        },
    decreases tape@.len() - start, 1int,
{
    let mut out: Vec<Node> = Vec::new();
    let mut p = start;
    assert(nodes(out@) + Seq::<Json>::empty() =~= Seq::<Json>::empty());
    while p < close
        invariant
            start <= p <= close <= tape@.len(),
            items_at(tape@, strings@, start as int, close as int) == prepend(
                nodes(out@),
                items_at(tape@, strings@, p as int, close as int),
            ),
        decreases close - p,
    {
        match decode_node(tape, strings, p) {
            None => {
                return None;
            },
            Some((n, next)) => {
                if !(p < next && next <= close) {
                    return None;
                }
                let ghost before = nodes(out@);
                let ghost j = n.model();
                out.push(n);
                assert(nodes(out@) =~= before.push(j));
                assert(forall|rest: Seq<Json>| #![auto] before + (seq![j] + rest) =~= before.push(j) + rest);
                p = next;
            },
        }
    }
    assert(nodes(out@) + Seq::<Json>::empty() =~= nodes(out@));
    Some(out)
}

/// Decodes the key/value members from `start` up to the closing word at `close`.
fn decode_members(tape: &[u64], strings: &[u8], start: usize, close: usize) -> (r: Option<
    Vec<(String, Node)>,
>)
    requires
        start <= close <= tape@.len(),
    ensures
        match members_at(tape@, strings@, start as int, close as int) {
            Some(ms) => r matches Some(v) && members(v@) == ms,
            None => r is None,
        },
    decreases tape@.len() - start, 1int,
{
    let mut out: Vec<(String, Node)> = Vec::new();
    let mut p = start;
    assert(members(out@) + Seq::<(Seq<char>, Json)>::empty() =~= Seq::<(Seq<char>, Json)>::empty());
    while p < close
        invariant
            start <= p <= close <= tape@.len(),
            members_at(tape@, strings@, start as int, close as int) == prepend(
                members(out@),
                members_at(tape@, strings@, p as int, close as int),
            ),
        decreases close - p,
    {
        let w = tape[p];
        if w >> 56u64 != 0x22 {
            return None;
        }
        let key = match read_string(strings, w & 0x00ff_ffff_ffff_ffffu64) {
            Some(k) => k,
            None => {
                return None;
            },
        };
        match decode_node(tape, strings, p + 1) {
            None => {
                return None;
            },
            Some((n, next)) => {
                if !(p < next && next <= close) {
                    return None;
                }
                let ghost before = members(out@);
                let ghost m = (key@, n.model());
                out.push((key, n));
                assert(members(out@) =~= before.push(m));
                assert(forall|rest: Seq<(Seq<char>, Json)>| #![auto] before + (seq![m] + rest) =~= before.push(m) + rest);
                p = next;
            },
        }
    }
    assert(members(out@) + Seq::<(Seq<char>, Json)>::empty() =~= members(out@));
    Some(out)
}

/// Decodes the document of a parsed tape: `tape` holds its words up to the
/// closing root word, `strings` its string buffer.
pub fn decode_document(tape: &[u64], strings: &[u8]) -> (r: Result<Node, Error>)
    ensures
        match document(tape@, strings@) {
            Some(j) => r matches Ok(n) && n.model() == j,
            None => r == Err::<Node, Error>(Error::InvalidTape),
        },
{
    if tape.len() == 0 || tape[0] >> 56u64 != 0x72 {
        return Err(Error::InvalidTape);
    }
    match decode_node(tape, strings, 1) {
        Some((n, next)) => {
            if next == tape.len() {
                Ok(n)
            } else {
                Err(Error::InvalidTape)
            }
        },
        None => Err(Error::InvalidTape),
    }
}

} // verus!
