//! The upgrade handshake: the header mapping collected from the HTTP
//! request, validation of the upgrade headers, and derivation of the accept
//! token from the client key.
use vstd::prelude::*;
use vstd::string::StrSliceExecFns;
use vstd::string::StringSliceAdditionalSpecFns;

use rustc_serialize::base64::ToBase64;
use sha1::Digest;

use crate::WsError;
use crate::clone_bytes;

verus! {

// ---------------------------------------------------------------------------
// Case-insensitive bytes.
// ---------------------------------------------------------------------------

/// ASCII lower-casing of one byte.
pub open spec fn lower(b: u8) -> u8 {
    if 65 <= b <= 90 {
        (b + 32) as u8
    } else {
        b
    }
}

pub open spec fn lower_seq(s: Seq<u8>) -> Seq<u8> {
    Seq::new(s.len(), |i: int| lower(s[i]))
}

/// Header names compare case-insensitively, per HTTP.
pub open spec fn name_eq(a: Seq<u8>, b: Seq<u8>) -> bool {
    lower_seq(a) == lower_seq(b)
}

pub fn lower_byte(b: u8) -> (r: u8)
    ensures
        r == lower(b),
{
    if 65 <= b && b <= 90 {
        b + 32
    } else {
        b
    }
}

/// Case-insensitive byte-string equality.
pub fn eq_ignore_case(a: &Vec<u8>, b: &Vec<u8>) -> (r: bool)
    ensures
        r == name_eq(a@, b@),
{
    if a.len() != b.len() {
        proof {
            assert(lower_seq(a@).len() != lower_seq(b@).len());
        }
        return false;
    }
    let mut i: usize = 0;
    while i < a.len()
        invariant
            a@.len() == b@.len(),
            i <= a@.len(),
            forall|j: int| 0 <= j < i ==> lower(a@[j]) == lower(b@[j]),
        decreases a@.len() - i,
    {
        if lower_byte(a[i]) != lower_byte(b[i]) {
            proof {
                assert(lower_seq(a@)[i as int] != lower_seq(b@)[i as int]);
            }
            return false;
        }
        i += 1;
    }
    proof {
        assert(lower_seq(a@) =~= lower_seq(b@));
    }
    true
}

// ---------------------------------------------------------------------------
// The header mapping: names unique up to case, later inserts replace.
// ---------------------------------------------------------------------------

pub struct Header {
    pub name: Vec<u8>,
    pub value: Vec<u8>,
}

/// The headers collected from an upgrade request, owned by the connection
/// while it awaits the handshake.
pub struct HeaderMap {
    pub entries: Vec<Header>,
}

/// Lookup in a sequence of (name, value) pairs: the first entry whose name
/// matches case-insensitively.
pub open spec fn spec_lookup(m: Seq<(Seq<u8>, Seq<u8>)>, name: Seq<u8>) -> Option<Seq<u8>>
    decreases m.len(),
{
    if m.len() == 0 {
        None
    } else if name_eq(m[0].0, name) {
        Some(m[0].1)
    } else {
        spec_lookup(m.drop_first(), name)
    }
}

impl HeaderMap {
    /// The mapping as a sequence of (name, value) byte strings.
    pub open spec fn model(self) -> Seq<(Seq<u8>, Seq<u8>)> {
        Seq::new(self.entries@.len(), |i: int| (self.entries@[i].name@, self.entries@[i].value@))
    }

    /// Names are unique up to case.
    pub open spec fn wf(self) -> bool {
        forall|i: int, j: int|
            0 <= i < j < self.model().len() ==> !name_eq(self.model()[i].0, self.model()[j].0)
    }

    pub fn new() -> (r: HeaderMap)
        ensures
            r.model() == Seq::<(Seq<u8>, Seq<u8>)>::empty(),
            r.wf(),
    {
        let r = HeaderMap { entries: Vec::new() };
        proof {
            assert(r.model() =~= Seq::<(Seq<u8>, Seq<u8>)>::empty());
        }
        r
    }

    /// The index of the entry whose name matches, scanning from the front.
    fn find_index(&self, name: &Vec<u8>) -> (r: Option<usize>)
        ensures
            (match r {
                Some(i) => i < self.model().len() && name_eq(self.model()[i as int].0, name@)
                    && (forall|j: int| 0 <= j < i ==> !name_eq(self.model()[j].0, name@)),
                None => forall|j: int|
                    0 <= j < self.model().len() ==> !name_eq(self.model()[j].0, name@),
            }),
    {
        let mut i: usize = 0;
        while i < self.entries.len()
            invariant
                i <= self.model().len(),
                forall|j: int| 0 <= j < i ==> !name_eq(self.model()[j].0, name@),
            decreases self.model().len() - i,
        {
            if eq_ignore_case(&self.entries[i].name, name) {
                return Some(i);
            }
            i += 1;
        }
        None
    }

    /// Finds the value stored under a name, case-insensitively.
    pub fn lookup(&self, name: &Vec<u8>) -> (r: Option<Vec<u8>>)
        ensures
            (match r {
                Some(v) => spec_lookup(self.model(), name@) == Some(v@),
                None => spec_lookup(self.model(), name@) is None,
            }),
    {
        match self.find_index(name) {
            Some(i) => {
                proof {
                    lemma_lookup_at(self.model(), name@, i as int);
                }
                Some(clone_bytes(&self.entries[i].value))
            },
            None => {
                proof {
                    lemma_lookup_at(self.model(), name@, self.model().len() as int);
                }
                None
            },
        }
    }

    /// Stores a value under a name; a later insert for the same name, in any
    /// case, replaces the earlier value, so the mapping keeps names unique.
    pub fn insert(&mut self, name: Vec<u8>, value: Vec<u8>)
        requires
            old(self).wf(),
        ensures
            final(self).wf(),
            forall|n: Seq<u8>|
                spec_lookup(#[trigger] final(self).model(), n) == (if name_eq(n, name@) {
                    Some(value@)
                } else {
                    spec_lookup(old(self).model(), n)
                }),
    {
        let ghost m = old(self).model();
        match self.find_index(&name) {
            Some(i) => {
                let e = &mut self.entries[i];
                e.value = value;
                proof {
                    let m2 = self.model();
                    assert(m2 =~= m.update(i as int, (m[i as int].0, value@)));
                    assert forall|n: Seq<u8>|
                        spec_lookup(#[trigger] self.model(), n) == (if name_eq(n, name@) {
                            Some(value@)
                        } else {
                            spec_lookup(m, n)
                        }) by {
                        if name_eq(n, name@) {
                            assert(forall|j: int| 0 <= j < i ==> !name_eq(m2[j].0, n));
                            assert(name_eq(m2[i as int].0, n));
                            lemma_lookup_at(m2, n, i as int);
                        } else {
                            assert(!name_eq(m[i as int].0, n));
                            lemma_lookup_update_other(m, i as int, value@, n);
                        }
                    }
                }
            },
            None => {
                self.entries.push(Header { name, value });
                proof {
                    let m2 = self.model();
                    let p = (m2[m.len() as int].0, m2[m.len() as int].1);
                    assert(m2 =~= m.push(p));
                    assert(name_eq(p.0, name@));
                    assert forall|n: Seq<u8>|
                        spec_lookup(#[trigger] self.model(), n) == (if name_eq(n, name@) {
                            Some(value@)
                        } else {
                            spec_lookup(m, n)
                        }) by {
                        if name_eq(n, name@) {
                            assert(forall|j: int| 0 <= j < m.len() ==> !name_eq(m2[j].0, n));
                            lemma_lookup_at(m2, n, m.len() as int);
                        } else {
                            lemma_lookup_push(m, p, n);
                        }
                    }
                }
            },
        }
    }
}

/// If nothing before position `i` matches, lookup is decided at `i`: the
/// value there if it matches, or nothing if `i` is the end.
proof fn lemma_lookup_at(m: Seq<(Seq<u8>, Seq<u8>)>, name: Seq<u8>, i: int)
    requires
        0 <= i <= m.len(),
        forall|j: int| 0 <= j < i ==> !name_eq(m[j].0, name),
    ensures
        i < m.len() && name_eq(m[i].0, name) ==> spec_lookup(m, name) == Some(m[i].1),
        i == m.len() ==> spec_lookup(m, name) is None,
    decreases m.len(),
{
    if m.len() == 0 {
    } else if i == 0 {
        if name_eq(m[0].0, name) {
        }
    } else {
        assert(!name_eq(m[0].0, name));
        lemma_lookup_at(m.drop_first(), name, i - 1);
    }
}

/// Changing the value at a non-matching entry leaves a lookup unchanged.
proof fn lemma_lookup_update_other(m: Seq<(Seq<u8>, Seq<u8>)>, i: int, v: Seq<u8>, n: Seq<u8>)
    requires
        0 <= i < m.len(),
        !name_eq(m[i].0, n),
    ensures
        spec_lookup(m.update(i, (m[i].0, v)), n) == spec_lookup(m, n),
    decreases m.len(),
{
    let m2 = m.update(i, (m[i].0, v));
    if i == 0 {
        assert(m2.drop_first() =~= m.drop_first());
    } else {
        if name_eq(m[0].0, n) {
        } else {
            assert(m2.drop_first() =~= m.drop_first().update(i - 1, (m.drop_first()[i - 1].0, v)));
            lemma_lookup_update_other(m.drop_first(), i - 1, v, n);
        }
    }
}

/// Appending a non-matching entry leaves a lookup unchanged.
proof fn lemma_lookup_push(m: Seq<(Seq<u8>, Seq<u8>)>, p: (Seq<u8>, Seq<u8>), n: Seq<u8>)
    requires
        !name_eq(p.0, n),
    ensures
        spec_lookup(m.push(p), n) == spec_lookup(m, n),
    decreases m.len(),
{
    if m.len() == 0 {
        let e = Seq::<(Seq<u8>, Seq<u8>)>::empty();
        assert(spec_lookup(e, n) is None);
        assert(m.push(p)[0] == p);
        assert(m.push(p).drop_first() =~= e);
        assert(spec_lookup(m.push(p), n) is None);
    } else {
        assert(m.push(p)[0] == m[0]);
        if name_eq(m[0].0, n) {
        } else {
            assert(m.push(p).drop_first() =~= m.drop_first().push(p));
            lemma_lookup_push(m.drop_first(), p, n);
        }
    }
}

// ---------------------------------------------------------------------------
// Header values as token lists: comma-separated, trimmed of blanks, compared
// case-insensitively.
// ---------------------------------------------------------------------------

pub open spec fn is_blank(b: u8) -> bool {
    b == 32 || b == 9
}

pub open spec fn trim_front(s: Seq<u8>) -> Seq<u8>
    decreases s.len(),
{
    if s.len() > 0 && is_blank(s[0]) {
        trim_front(s.drop_first())
    } else {
        s
    }
}

pub open spec fn trim_back(s: Seq<u8>) -> Seq<u8>
    decreases s.len(),
{
    if s.len() > 0 && is_blank(s.last()) {
        trim_back(s.drop_last())
    } else {
        s
    }
}

/// The bytes with leading and trailing spaces and tabs removed.
pub open spec fn trimmed(s: Seq<u8>) -> Seq<u8> {
    trim_back(trim_front(s))
}

/// The comma-separated segments of a header value, `cur` being the bytes of
/// the open segment read so far.
pub open spec fn split_segments(s: Seq<u8>, cur: Seq<u8>) -> Seq<Seq<u8>>
    decreases s.len(),
{
    if s.len() == 0 {
        seq![cur]
    } else if s[0] == 44 {
        seq![cur] + split_segments(s.drop_first(), Seq::empty())
    } else {
        split_segments(s.drop_first(), cur.push(s[0]))
    }
}

/// Whether a comma-separated header value contains `token`: some segment,
/// trimmed of blanks, equals it up to case.
pub open spec fn has_token(value: Seq<u8>, token: Seq<u8>) -> bool {
    exists|k: int|
        0 <= k < split_segments(value, Seq::empty()).len() && lower_seq(
            trimmed(#[trigger] split_segments(value, Seq::empty())[k]),
        ) == lower_seq(token)
}

fn is_blank_byte(b: u8) -> (r: bool)
    ensures
        r == is_blank(b),
{
    b == 32 || b == 9
}

/// The bounds of the trimmed middle of `seg`.
fn trim_bounds(seg: &Vec<u8>) -> (r: (usize, usize))
    ensures
        r.0 <= r.1 <= seg@.len(),
        trimmed(seg@) == seg@.subrange(r.0 as int, r.1 as int),
{
    let n = seg.len();
    let mut a: usize = 0;
    proof {
        assert(seg@.subrange(0, n as int) =~= seg@);
    }
    while a < n && is_blank_byte(seg[a])
        invariant
            a <= n == seg@.len(),
            trim_front(seg@) == trim_front(seg@.subrange(a as int, n as int)),
        decreases n - a,
    {
        proof {
            assert(seg@.subrange(a as int, n as int).drop_first() =~= seg@.subrange(
                a + 1,
                n as int,
            ));
        }
        a += 1;
    }
    proof {
        assert(trim_front(seg@) == seg@.subrange(a as int, n as int));
    }
    let mut b: usize = n;
    while b > a && is_blank_byte(seg[b - 1])
        invariant
            a <= b <= n == seg@.len(),
            trim_front(seg@) == seg@.subrange(a as int, n as int),
            trimmed(seg@) == trim_back(seg@.subrange(a as int, b as int)),
        decreases b,
    {
        proof {
            assert(seg@.subrange(a as int, b as int).last() == seg@[b - 1]);
            assert(seg@.subrange(a as int, b as int).drop_last() =~= seg@.subrange(
                a as int,
                b - 1,
            ));
        }
        b -= 1;
    }
    proof {
        assert(trimmed(seg@) == seg@.subrange(a as int, b as int));
    }
    (a, b)
}

/// Compares `seg[a..b]` with `token` up to case.
fn range_matches_lower(seg: &Vec<u8>, a: usize, b: usize, token: &Vec<u8>) -> (r: bool)
    requires
        a <= b <= seg@.len(),
    ensures
        r == (lower_seq(seg@.subrange(a as int, b as int)) == lower_seq(token@)),
{
    let ghost part = seg@.subrange(a as int, b as int);
    if b - a != token.len() {
        proof {
            assert(lower_seq(part).len() != lower_seq(token@).len());
        }
        return false;
    }
    let mut k: usize = 0;
    while k < token.len()
        invariant
            a <= b <= seg@.len(),
            b - a == token@.len(),
            k <= token@.len(),
            forall|j: int| 0 <= j < k ==> lower(seg@[a + j]) == lower(token@[j]),
        decreases token@.len() - k,
    {
        if lower_byte(seg[a + k]) != lower_byte(token[k]) {
            proof {
                let p = seg@.subrange(a as int, b as int);
                assert(p[k as int] == seg@[a + k]);
                assert(lower_seq(p)[k as int] == lower(p[k as int]));
                assert(lower_seq(token@)[k as int] == lower(token@[k as int]));
                assert(lower_seq(p)[k as int] != lower_seq(token@)[k as int]);
            }
            return false;
        }
        k += 1;
    }
    proof {
        assert(lower_seq(part) =~= lower_seq(token@));
    }
    true
}

/// Compares `seg[a..b]` with `token` exactly.
fn range_equals(seg: &Vec<u8>, a: usize, b: usize, token: &Vec<u8>) -> (r: bool)
    requires
        a <= b <= seg@.len(),
    ensures
        r == (seg@.subrange(a as int, b as int) == token@),
{
    let ghost part = seg@.subrange(a as int, b as int);
    if b - a != token.len() {
        return false;
    }
    let mut k: usize = 0;
    while k < token.len()
        invariant
            a <= b <= seg@.len(),
            b - a == token@.len(),
            k <= token@.len(),
            forall|j: int| 0 <= j < k ==> seg@[a + j] == token@[j],
        decreases token@.len() - k,
    {
        if seg[a + k] != token[k] {
            proof {
                let p = seg@.subrange(a as int, b as int);
                assert(p[k as int] == seg@[a + k]);
                assert(p[k as int] != token@[k as int]);
            }
            return false;
        }
        k += 1;
    }
    proof {
        assert(part =~= token@);
    }
    true
}

/// Whether one segment, trimmed, equals the token up to case.
fn segment_matches(seg: &Vec<u8>, token: &Vec<u8>) -> (r: bool)
    ensures
        r == (lower_seq(trimmed(seg@)) == lower_seq(token@)),
{
    let bounds = trim_bounds(seg);
    range_matches_lower(seg, bounds.0, bounds.1, token)
}

/// Whether the value, trimmed of blanks, equals the token exactly.
pub fn trimmed_equals(v: &Vec<u8>, token: &Vec<u8>) -> (r: bool)
    ensures
        r == (trimmed(v@) == token@),
{
    let bounds = trim_bounds(v);
    range_equals(v, bounds.0, bounds.1, token)
}

/// Whether a comma-separated header value contains the token.
pub fn contains_token(value: &Vec<u8>, token: &Vec<u8>) -> (r: bool)
    ensures
        r == has_token(value@, token@),
{
    let n = value.len();
    let mut i: usize = 0;
    let mut cur: Vec<u8> = Vec::new();
    let mut found = false;
    let ghost mut done: Seq<Seq<u8>> = Seq::empty();
    proof {
        assert(value@.subrange(0, n as int) =~= value@);
        assert(done + split_segments(value@.subrange(0, n as int), cur@) =~= split_segments(
            value@,
            Seq::empty(),
        ));
    }
    while i < n
        invariant
            i <= n == value@.len(),
            split_segments(value@, Seq::empty()) == done + split_segments(
                value@.subrange(i as int, n as int),
                cur@,
            ),
            found == (exists|k: int|
                0 <= k < done.len() && lower_seq(trimmed(#[trigger] done[k])) == lower_seq(
                    token@,
                )),
        decreases n - i,
    {
        let ghost rest = value@.subrange(i as int, n as int);
        proof {
            assert(rest[0] == value@[i as int]);
            assert(rest.drop_first() =~= value@.subrange(i + 1, n as int));
        }
        if value[i] == 44 {
            let matched = segment_matches(&cur, token);
            proof {
                let prev = done;
                done = done + seq![cur@];
                assert(done[prev.len() as int] == cur@);
                assert(forall|k: int| 0 <= k < prev.len() ==> done[k] == #[trigger] prev[k]);
                assert(split_segments(rest, cur@) == seq![cur@] + split_segments(
                    rest.drop_first(),
                    Seq::empty(),
                ));
                assert(done + split_segments(value@.subrange(i + 1, n as int), Seq::<u8>::empty())
                    =~= prev + split_segments(rest, cur@));
                if matched {
                    assert(lower_seq(trimmed(done[prev.len() as int])) == lower_seq(token@));
                }
            }
            if matched {
                found = true;
            }
            cur.clear();
        } else {
            proof {
                assert(split_segments(rest, cur@) == split_segments(
                    rest.drop_first(),
                    cur@.push(value@[i as int]),
                ));
            }
            cur.push(value[i]);
        }
        i += 1;
    }
    proof {
        assert(value@.subrange(i as int, n as int) =~= Seq::<u8>::empty());
        assert(split_segments(Seq::<u8>::empty(), cur@) == seq![cur@]);
    }
    let matched = segment_matches(&cur, token);
    proof {
        let whole = split_segments(value@, Seq::empty());
        assert(whole == done + seq![cur@]);
        assert(whole[done.len() as int] == cur@);
        assert(forall|k: int| 0 <= k < done.len() ==> whole[k] == #[trigger] done[k]);
        if matched {
            assert(lower_seq(trimmed(whole[done.len() as int])) == lower_seq(token@));
        }
    }
    found || matched
}

// ---------------------------------------------------------------------------
// The client key and the accept token.
// ---------------------------------------------------------------------------

pub open spec fn is_b64_char(b: u8) -> bool {
    (65 <= b <= 90) || (97 <= b <= 122) || (48 <= b <= 57) || b == 43 || b == 47
}

/// A well-formed client key: the base64 encoding of a 16-byte value, which
/// is 22 alphabet characters followed by two padding '=' characters.
pub open spec fn valid_key(s: Seq<u8>) -> bool {
    &&& s.len() == 24
    &&& forall|i: int| 0 <= i < 22 ==> is_b64_char(#[trigger] s[i])
    &&& s[22] == 61
    &&& s[23] == 61
}

fn is_b64_char_byte(b: u8) -> (r: bool)
    ensures
        r == is_b64_char(b),
{
    (65 <= b && b <= 90) || (97 <= b && b <= 122) || (48 <= b && b <= 57) || b == 43 || b == 47
}

/// Checks that a client key is a well-formed base64 16-byte value.
pub fn check_key(key: &Vec<u8>) -> (r: bool)
    ensures
        r == valid_key(key@),
{
    if key.len() != 24 {
        return false;
    }
    if key[22] != 61 || key[23] != 61 {
        return false;
    }
    let mut i: usize = 0;
    while i < 22
        invariant
            key@.len() == 24,
            i <= 22,
            forall|j: int| 0 <= j < i ==> is_b64_char(#[trigger] key@[j]),
        decreases 22 - i,
    {
        if !is_b64_char_byte(key[i]) {
            return false;
        }
        i += 1;
    }
    true
}

/// The SHA-1 digest of a byte string, named: the digest is a function of the
/// input alone, and nothing shorter than the hash algorithm itself states it.
pub uninterp spec fn sha1_of(data: Seq<u8>) -> Seq<u8>;

/// The standard base64 encoding of a byte string, named: padded, unwrapped,
/// a function of the input alone.
pub uninterp spec fn base64_of(data: Seq<u8>) -> Seq<u8>;

/// Relies on sha1::Sha1 through the Digest trait: the result is the 20-byte
/// SHA-1 digest of the input, a function of the input bytes alone.
#[verifier::external_body]
fn sha1_digest(data: &Vec<u8>) -> (r: Vec<u8>)
    ensures
        r@ == sha1_of(data@),
        r@.len() == 20,
{
    sha1::Sha1::digest(data.as_slice()).to_vec()
}

/// Relies on rustc_serialize's ToBase64 with the STANDARD configuration:
/// base64 over the standard alphabet, '=' padding, no line wrapping — four
/// output bytes for every three input bytes, a function of the input alone.
#[verifier::external_body]
fn base64_encode(data: &Vec<u8>) -> (r: Vec<u8>)
    ensures
        r@ == base64_of(data@),
        r@.len() == 4 * ((data@.len() + 2) / 3),
{
    data.as_slice().to_base64(rustc_serialize::base64::STANDARD).into_bytes()
}

/// The fixed GUID every accept token appends to the client key.
pub open spec fn handshake_guid() -> Seq<u8> {
    "258EAFA5-E914-47DA-95CA-C5AB0DC85B11".spec_bytes()
}

/// The accept token owed to a client key: the base64 of the SHA-1 digest of
/// the key followed by the fixed GUID.
pub open spec fn accept_token_of(key: Seq<u8>) -> Seq<u8> {
    base64_of(sha1_of(key + handshake_guid()))
}

/// Derives the accept token returned verbatim in the response's
/// Sec-WebSocket-Accept header.
pub fn gen_key(key: &Vec<u8>) -> (r: Vec<u8>)
    ensures
        r@ == accept_token_of(key@),
{
    let mut buf = clone_bytes(key);
    let mut guid = "258EAFA5-E914-47DA-95CA-C5AB0DC85B11".as_bytes_vec();
    buf.append(&mut guid);
    let digest = sha1_digest(&buf);
    base64_encode(&digest)
}

// ---------------------------------------------------------------------------
// Validation of the upgrade request.
// ---------------------------------------------------------------------------

pub open spec fn upgrade_name() -> Seq<u8> {
    "upgrade".spec_bytes()
}

pub open spec fn connection_name() -> Seq<u8> {
    "connection".spec_bytes()
}

pub open spec fn key_name() -> Seq<u8> {
    "sec-websocket-key".spec_bytes()
}

pub open spec fn version_name() -> Seq<u8> {
    "sec-websocket-version".spec_bytes()
}

pub open spec fn websocket_token() -> Seq<u8> {
    "websocket".spec_bytes()
}

pub open spec fn upgrade_token() -> Seq<u8> {
    "upgrade".spec_bytes()
}

pub open spec fn version_13() -> Seq<u8> {
    "13".spec_bytes()
}

/// A valid upgrade request: Upgrade contains the token websocket, Connection
/// contains the token Upgrade (names and tokens case-insensitive), the key
/// is a well-formed base64 16-byte value, and the version is exactly 13.
pub open spec fn spec_valid_upgrade(m: Seq<(Seq<u8>, Seq<u8>)>) -> bool {
    &&& (spec_lookup(m, upgrade_name()) matches Some(v) && has_token(v, websocket_token()))
    &&& (spec_lookup(m, connection_name()) matches Some(v) && has_token(v, upgrade_token()))
    &&& (spec_lookup(m, key_name()) matches Some(k) && valid_key(k))
    &&& (spec_lookup(m, version_name()) matches Some(v) && trimmed(v) == version_13())
}

/// The client key of a header mapping, where one is present.
pub open spec fn client_key_of(m: Seq<(Seq<u8>, Seq<u8>)>) -> Seq<u8> {
    match spec_lookup(m, key_name()) {
        Some(k) => k,
        None => Seq::empty(),
    }
}

/// Decides whether the collected headers form a valid WebSocket upgrade
/// request, and derives the accept token if so; a request that is not valid
/// is refused as `BadHandshake`, and nothing else is.
pub fn validate_upgrade(headers: &HeaderMap) -> (r: Result<Vec<u8>, WsError>)
    ensures
        (match r {
            Ok(tok) => spec_valid_upgrade(headers.model()) && tok@ == accept_token_of(
                client_key_of(headers.model()),
            ),
            Err(e) => !spec_valid_upgrade(headers.model()) && e == WsError::BadHandshake,
        }),
{
    let upgrade = match headers.lookup(&"upgrade".as_bytes_vec()) {
        Some(v) => v,
        None => {
            return Err(WsError::BadHandshake);
        },
    };
    if !contains_token(&upgrade, &"websocket".as_bytes_vec()) {
        return Err(WsError::BadHandshake);
    }
    let connection = match headers.lookup(&"connection".as_bytes_vec()) {
        Some(v) => v,
        None => {
            return Err(WsError::BadHandshake);
        },
    };
    if !contains_token(&connection, &"upgrade".as_bytes_vec()) {
        return Err(WsError::BadHandshake);
    }
    let key = match headers.lookup(&"sec-websocket-key".as_bytes_vec()) {
        Some(v) => v,
        None => {
            return Err(WsError::BadHandshake);
        },
    };
    if !check_key(&key) {
        return Err(WsError::BadHandshake);
    }
    let version = match headers.lookup(&"sec-websocket-version".as_bytes_vec()) {
        Some(v) => v,
        None => {
            return Err(WsError::BadHandshake);
        },
    };
    if !trimmed_equals(&version, &"13".as_bytes_vec()) {
        return Err(WsError::BadHandshake);
    }
    Ok(gen_key(&key))
}

} // verus!
