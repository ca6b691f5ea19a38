use vstd::prelude::*;
use vstd::utf8::*;

use crate::error::{bad_data, ConnectionError};

verus! {

/// Longest accepted connection header, terminator included.
pub const MAX_HEADER_LEN: usize = 1024;

#[derive(Clone, Copy, Debug, PartialEq, Eq, Structural)]
pub enum ConnectionType {
    WRITER,
    READER,
}

/// The header a client sends first: `<kind>/<match_id>/<name>` and a NUL byte.
#[derive(Clone, Debug)]
pub struct ConnectionHeader {
    pub type_: ConnectionType,
    pub id: u32,
    pub name: String,
}

pub open spec fn is_digit(b: u8) -> bool {
    48 <= b <= 57
}

pub open spec fn all_digits(s: Seq<u8>) -> bool {
    forall|i: int| 0 <= i < s.len() ==> is_digit(#[trigger] s[i])
}

/// The number that a string of decimal digits denotes.
pub open spec fn decimal_value(s: Seq<u8>) -> nat
    decreases s.len(),
{
    if s.len() == 0 {
        0
    } else {
        decimal_value(s.drop_last()) * 10 + (s.last() - 48) as nat
    }
}

/// Index of the first `/` at or after `i`, or the length when there is none.
pub open spec fn first_slash(f: Seq<u8>, i: int) -> int
    decreases f.len() - i,
{
    if i >= f.len() {
        f.len() as int
    } else if f[i] == 47 {
        i
    } else {
        first_slash(f, i + 1)
    }
}

/// Index of the first NUL byte, or the length when there is none.
pub open spec fn first_nul(b: Seq<u8>, i: int) -> int
    decreases b.len() - i,
{
    if i >= b.len() {
        b.len() as int
    } else if b[i] == 0 {
        i
    } else {
        first_nul(b, i + 1)
    }
}

pub open spec fn kind_of(b: u8) -> Option<ConnectionType> {
    if b == 80 {
        Some(ConnectionType::WRITER)
    } else if b == 71 {
        Some(ConnectionType::READER)
    } else {
        None
    }
}

/// The end of the match id: the `/` that follows it.
pub open spec fn id_end(f: Seq<u8>) -> int {
    first_slash(f, 2)
}

pub open spec fn id_digits(f: Seq<u8>) -> Seq<u8> {
    f.subrange(2, id_end(f))
}

pub open spec fn name_bytes(f: Seq<u8>) -> Seq<u8> {
    f.subrange(id_end(f) + 1, f.len() as int)
}

/// `f` (the bytes before the terminator) is a well-formed header.
pub open spec fn header_well_formed(f: Seq<u8>) -> bool {
    &&& f.len() >= 2
    &&& kind_of(f[0]) is Some
    &&& f[1] == 47
    &&& 2 < id_end(f) < f.len()
    &&& all_digits(id_digits(f))
    &&& decimal_value(id_digits(f)) <= u32::MAX
    &&& first_slash(f, id_end(f) + 1) == f.len()
    &&& valid_utf8(name_bytes(f))
}

pub proof fn lemma_decimal_value_prefix(s: Seq<u8>, k: int)
    requires
        0 <= k <= s.len(),
        all_digits(s),
    ensures
        decimal_value(s.subrange(0, k)) <= decimal_value(s),
    decreases s.len() - k,
{
    if k < s.len() {
        lemma_decimal_value_prefix(s, k + 1);
        let t = s.subrange(0, k + 1);
        assert(t.drop_last() =~= s.subrange(0, k));
        assert(is_digit(s[k]));
    } else {
        assert(s.subrange(0, k) =~= s);
    }
}

proof fn lemma_first_slash_bounds(f: Seq<u8>, i: int)
    requires
        0 <= i <= f.len(),
    ensures
        i <= first_slash(f, i) <= f.len(),
        first_slash(f, i) < f.len() ==> f[first_slash(f, i)] == 47,
    decreases f.len() - i,
{
    if i < f.len() && f[i] != 47 {
        lemma_first_slash_bounds(f, i + 1);
    }
}

proof fn lemma_first_slash_skip(f: Seq<u8>, i: int, j: int)
    requires
        0 <= i <= j <= f.len(),
        forall|k: int| i <= k < j ==> f[k] != 47,
    ensures
        first_slash(f, i) == first_slash(f, j),
    decreases j - i,
{
    if i < j {
        lemma_first_slash_skip(f, i + 1, j);
    }
}

proof fn lemma_first_nul_skip(b: Seq<u8>, i: int, j: int)
    requires
        0 <= i <= j <= b.len(),
        forall|k: int| i <= k < j ==> b[k] != 0,
    ensures
        first_nul(b, i) == first_nul(b, j),
    decreases j - i,
{
    if i < j {
        lemma_first_nul_skip(b, i + 1, j);
    }
}

/// Relies on `String::from_utf8`: it succeeds exactly on valid UTF-8 and then
/// holds the decoded characters.
#[verifier::external_body]
fn utf8_to_string(b: Vec<u8>) -> (r: Option<String>)
    ensures
        r is Some <==> valid_utf8(b@),
        r matches Some(s) ==> s@ == decode_utf8(b@),
{
    String::from_utf8(b).ok()
}

/// Parses the header bytes that precede the terminator.
pub fn parse_connection_header(f: &[u8]) -> (r: Result<ConnectionHeader, ConnectionError>)
    ensures
        header_well_formed(f@) <==> r is Ok,
        r matches Ok(h) ==> {
            &&& Some(h.type_) == kind_of(f@[0])
            &&& h.id as nat == decimal_value(id_digits(f@))
            &&& h.name@ == decode_utf8(name_bytes(f@))
        },
        r matches Err(e) ==> e is BadData,
{
    if f.len() < 2 {
        return Err(bad_data("header too short"));
    }
    let type_ = if f[0] == 80 {
        ConnectionType::WRITER
    } else if f[0] == 71 {
        ConnectionType::READER
    } else {
        return Err(bad_data("unknown connection kind"));
    };
    if f[1] != 47 {
        return Err(bad_data("expected '/' after connection kind"));
    }
    let mut i: usize = 2;
    let mut id: u64 = 0;
    while i < f.len() && f[i] != 47
        invariant
            2 <= i <= f@.len(),
            f@.len() >= 2,
            forall|k: int| 2 <= k < i ==> f@[k] != 47,
            all_digits(f@.subrange(2, i as int)),
            id as nat == decimal_value(f@.subrange(2, i as int)),
            id <= u32::MAX,
        decreases f@.len() - i,
    {
        let c = f[i];
        if c < 48 || c > 57 {
            proof {
                lemma_first_slash_skip(f@, 2, i + 1);
                lemma_first_slash_bounds(f@, i + 1);
                assert(id_digits(f@)[i - 2] == c);
            }
            return Err(bad_data("match id is not a number"));
        }
        let next = id * 10 + (c - 48) as u64;
        proof {
            let s = f@.subrange(2, i + 1);
            assert(s.drop_last() =~= f@.subrange(2, i as int));
        }
        if next > 4294967295 {
            proof {
                lemma_first_slash_skip(f@, 2, i + 1);
                lemma_first_slash_bounds(f@, i + 1);
                let e = id_end(f@);
                if e < f@.len() && all_digits(id_digits(f@)) {
                    let d = id_digits(f@);
                    assert(d.subrange(0, i + 1 - 2) =~= f@.subrange(2, i + 1));
                    lemma_decimal_value_prefix(d, i + 1 - 2);
                }
            }
            return Err(bad_data("match id out of range"));
        }
        id = next;
        i = i + 1;
    }
    proof {
        lemma_first_slash_skip(f@, 2, i as int);
    }
    if i == 2 || i == f.len() {
        return Err(bad_data("malformed match id"));
    }
    let id_end_at = i;
    let mut j: usize = i + 1;
    let mut name: Vec<u8> = Vec::new();
    while j < f.len()
        invariant
            id_end_at < j <= f@.len(),
            id_end_at == id_end(f@),
            forall|k: int| id_end_at < k < j ==> f@[k] != 47,
            name@ == f@.subrange(id_end_at + 1, j as int),
        decreases f@.len() - j,
    {
        if f[j] == 47 {
            proof {
                lemma_first_slash_skip(f@, id_end_at + 1, j as int);
            }
            return Err(bad_data("'/' in connection name"));
        }
        name.push(f[j]);
        j = j + 1;
        assert(name@ =~= f@.subrange(id_end_at + 1, j as int));
    }
    proof {
        lemma_first_slash_skip(f@, id_end_at + 1, j as int);
        assert(id_digits(f@) =~= f@.subrange(2, i as int));
    }
    match utf8_to_string(name) {
        Some(s) => Ok(ConnectionHeader { type_, id: id as u32, name: s }),
        None => Err(bad_data("connection name is not UTF-8")),
    }
}

/// Looks for the header at the start of what a connection sent so far. The
/// result is `Ok(None)` while more bytes are needed, and `Ok(Some((h, n)))`
/// once the header and its terminator took the first `n` bytes.
pub fn read_initial_header(buf: &[u8], eof: bool) -> (r: Result<Option<(ConnectionHeader, usize)>, ConnectionError>)
    ensures
        ({
            let t = first_nul(buf@, 0);
            let f = buf@.subrange(0, t);
            if t < buf@.len() && t < MAX_HEADER_LEN {
                &&& header_well_formed(f) <==> r is Ok
                &&& r matches Ok(Some((h, n))) ==> {
                    &&& n == t + 1
                    &&& Some(h.type_) == kind_of(f[0])
                    &&& h.id as nat == decimal_value(id_digits(f))
                    &&& h.name@ == decode_utf8(name_bytes(f))
                }
                &&& r matches Err(e) ==> e is BadData
                &&& r != Ok::<Option<(ConnectionHeader, usize)>, ConnectionError>(None)
            } else if buf@.len() >= MAX_HEADER_LEN {
                r matches Err(ConnectionError::BadData(_))
            } else if eof && buf@.len() == 0 {
                r matches Err(ConnectionError::NoData)
            } else if eof {
                r matches Err(ConnectionError::BadData(_))
            } else {
                r matches Ok(None)
            }
        }),
{
    let mut t: usize = 0;
    while t < buf.len() && buf[t] != 0
        invariant
            0 <= t <= buf@.len(),
            forall|k: int| 0 <= k < t ==> buf@[k] != 0,
        decreases buf@.len() - t,
    {
        t = t + 1;
    }
    proof {
        lemma_first_nul_skip(buf@, 0, t as int);
    }
    if t < buf.len() && t < MAX_HEADER_LEN {
        let frame = slice_prefix(buf, t);
        match parse_connection_header(frame.as_slice()) {
            Ok(h) => Ok(Some((h, t + 1))),
            Err(e) => Err(e),
        }
    } else if buf.len() >= MAX_HEADER_LEN {
        Err(bad_data("header too long"))
    } else if eof && buf.len() == 0 {
        Err(ConnectionError::NoData)
    } else if eof {
        Err(bad_data("connection closed inside the header"))
    } else {
        Ok(None)
    }
}

fn slice_prefix(b: &[u8], n: usize) -> (r: Vec<u8>)
    requires
        n <= b@.len(),
    ensures
        r@ == b@.subrange(0, n as int),
{
    let mut r: Vec<u8> = Vec::new();
    let mut i: usize = 0;
    while i < n
        invariant
            i <= n <= b@.len(),
            r@ == b@.subrange(0, i as int),
        decreases n - i,
    {
        r.push(b[i]);
        i = i + 1;
        assert(r@ =~= b@.subrange(0, i as int));
    }
    r
}

} // verus!
