//! Framing and parsing of kernel uevent datagrams.
//!
//! A datagram is a free-text header terminated by a NUL byte, followed by
//! zero or more `KEY=VALUE` records, each terminated by a NUL byte. The
//! first `=` of a record separates key from value; keys are unique in the
//! parsed map with the last occurrence winning; any malformed record
//! invalidates the whole variable set.

use vstd::prelude::*;
use vstd::string::StringSliceAdditionalSpecFns;
use vstd::utf8::decode_utf8;
use vstd::utf8::valid_utf8;

use crate::scan::find_byte_in;
use crate::scan::find_in;
use crate::scan::subrange_vec;

verus! {

/// Why a run of `KEY=VALUE` records could not be parsed.
#[derive(Clone, Copy, PartialEq, Eq, Structural, Debug)]
pub enum ParseVarsError {
    /// A key or value was not valid text.
    InvalidUtf8,
    /// A record had no `=` between its key and its value.
    MissingEqualSign,
    /// A record did not end in the expected terminator byte.
    MissingDelimiter,
}

/// Why a whole datagram was rejected.
#[derive(Clone, Copy, PartialEq, Eq, Structural, Debug)]
pub enum DatagramError {
    /// The datagram held no bytes at all.
    EmptyDatagram,
    /// The header was not terminated by a NUL byte.
    MissingHeaderTerminator,
    /// The header was not valid text.
    InvalidHeader,
    /// The records after the header could not be parsed.
    InvalidVars(ParseVarsError),
}

/// A set of `KEY=VALUE` variables with unique keys.
pub struct VarMap {
    pairs: Vec<(String, String)>,
}

/// The mapping denoted by a sequence of key-value pairs, later pairs
/// overriding earlier ones.
pub closed spec fn pairs_map(ps: Seq<(String, String)>) -> Map<Seq<char>, Seq<char>>
    decreases ps.len(),
{
    if ps.len() == 0 {
        Map::empty()
    } else {
        pairs_map(ps.drop_last()).insert(ps.last().0@, ps.last().1@)
    }
}

impl View for VarMap {
    type V = Map<Seq<char>, Seq<char>>;

    closed spec fn view(&self) -> Map<Seq<char>, Seq<char>> {
        pairs_map(self.pairs@)
    }
}

impl VarMap {
    /// The keys stored in the pair list are pairwise distinct.
    pub closed spec fn wf(&self) -> bool {
        forall|i: int, j: int|
            0 <= i < j < self.pairs@.len() ==> (#[trigger] self.pairs@[i]).0@ != (
            #[trigger] self.pairs@[j]).0@
    }

    /// An empty variable set.
    pub fn new() -> (r: VarMap)
        ensures
            r.wf(),
            r@ == Map::<Seq<char>, Seq<char>>::empty(),
    {
        VarMap { pairs: Vec::new() }
    }

    /// Looks a key up.
    pub fn get(&self, key: &str) -> (r: Option<&String>)
        requires
            self.wf(),
        ensures
            match r {
                Some(v) => self@.contains_key(key@) && self@[key@] == v@,
                None => !self@.contains_key(key@),
            },
    {
        let n: usize = self.pairs.len();
        let mut i: usize = 0;
        while i < n
            invariant
                self.wf(),
                i <= n == self.pairs@.len(),
                forall|k: int| 0 <= k < i ==> (#[trigger] self.pairs@[k]).0@ != key@,
            decreases n - i,
        {
            if str_eq(self.pairs[i].0.as_str(), key) {
                proof {
                    lemma_pairs_map_found(self.pairs@, i as int);
                }
                return Some(&self.pairs[i].1);
            }
            i = i + 1;
        }
        proof {
            lemma_pairs_map_absent(self.pairs@, key@);
        }
        None
    }

    /// Adds a binding unless the key is already bound.
    pub fn insert_if_absent(&mut self, key: String, value: String)
        requires
            old(self).wf(),
        ensures
            final(self).wf(),
            final(self)@ == if old(self)@.contains_key(key@) {
                old(self)@
            } else {
                old(self)@.insert(key@, value@)
            },
    {
        let n: usize = self.pairs.len();
        let mut i: usize = 0;
        while i < n
            invariant
                self.wf(),
                i <= n == self.pairs@.len(),
                forall|k: int| 0 <= k < i ==> (#[trigger] self.pairs@[k]).0@ != key@,
            decreases n - i,
        {
            if str_eq(self.pairs[i].0.as_str(), key.as_str()) {
                proof {
                    lemma_pairs_map_found(self.pairs@, i as int);
                }
                return ;
            }
            i = i + 1;
        }
        proof {
            lemma_pairs_map_absent(self.pairs@, key@);
        }
        let ghost old_pairs = self.pairs@;
        self.pairs.push((key, value));
        assert(self.pairs@.drop_last() =~= old_pairs);
    }
}

/// In a list with pairwise distinct keys, the pair at `i` decides its key's
/// binding.
proof fn lemma_pairs_map_found(ps: Seq<(String, String)>, i: int)
    requires
        0 <= i < ps.len(),
        forall|a: int, b: int|
            0 <= a < b < ps.len() ==> (#[trigger] ps[a]).0@ != (#[trigger] ps[b]).0@,
    ensures
        pairs_map(ps).contains_key(ps[i].0@),
        pairs_map(ps)[ps[i].0@] == ps[i].1@,
    decreases ps.len(),
{
    if i < ps.len() - 1 {
        lemma_pairs_map_found(ps.drop_last(), i);
    }
}

/// A key held by no pair is not in the denoted mapping.
proof fn lemma_pairs_map_absent(ps: Seq<(String, String)>, key: Seq<char>)
    requires
        forall|k: int| 0 <= k < ps.len() ==> (#[trigger] ps[k]).0@ != key,
    ensures
        !pairs_map(ps).contains_key(key),
    decreases ps.len(),
{
    if ps.len() > 0 {
        lemma_pairs_map_absent(ps.drop_last(), key);
    }
}

/// Compares two string slices by contents.
pub fn str_eq(a: &str, b: &str) -> (r: bool)
    ensures
        r == (a@ == b@),
{
    let r = crate::scan::bytes_eq(a.as_bytes(), b.as_bytes());
    proof {
        if a.spec_bytes() == b.spec_bytes() {
            vstd::utf8::encode_utf8_decode_utf8(a@);
            vstd::utf8::encode_utf8_decode_utf8(b@);
        }
    }
    r
}

/// Relies on std's `String::from_utf8`: it succeeds exactly on valid UTF-8
/// input and returns the string of the decoded characters.
#[verifier::external_body]
fn string_from_utf8(v: Vec<u8>) -> (r: Option<String>)
    ensures
        r is Some <==> valid_utf8(v@),
        r matches Some(s) ==> s@ == decode_utf8(v@),
{
    String::from_utf8(v).ok()
}

/// What the records starting at byte `from` parse to: walk one
/// `KEY=VALUE` + terminator record at a time until the end of the datagram,
/// failing on the first malformed record, with later duplicate keys
/// overriding earlier ones.
pub open spec fn parse_vars_from_spec(s: Seq<u8>, from: int, delimiter: u8) -> Result<
    Map<Seq<char>, Seq<char>>,
    ParseVarsError,
>
    decreases s.len() - from,
{
    if from < 0 || from >= s.len() {
        Ok(Map::empty())
    } else {
        match find_in(s, from, s.len() as int, delimiter) {
            None => Err(ParseVarsError::MissingDelimiter),
            // The range tests on `end` and `eq` always pass (`find_in` stays
            // inside the range it was given); they keep the recursion
            // visibly well-founded.
            Some(end) => if !(from <= end < s.len()) {
                Err(ParseVarsError::MissingDelimiter)
            } else { match find_in(s, from, end, 61u8) {
                None => Err(ParseVarsError::MissingEqualSign),
                Some(eq) => if !(from <= eq < end) {
                    Err(ParseVarsError::MissingEqualSign)
                } else {
                    let kb = s.subrange(from, eq);
                    let vb = s.subrange(eq + 1, end);
                    if !valid_utf8(kb) || !valid_utf8(vb) {
                        Err(ParseVarsError::InvalidUtf8)
                    } else {
                        match parse_vars_from_spec(s, end + 1, delimiter) {
                            Err(e) => Err(e),
                            Ok(m) => Ok(
                                if m.contains_key(decode_utf8(kb)) {
                                    m
                                } else {
                                    m.insert(decode_utf8(kb), decode_utf8(vb))
                                },
                            ),
                        }
                    }
                },
            } },
        }
    }
}

/// What a whole run of records parses to.
pub open spec fn parse_vars_spec(s: Seq<u8>, delimiter: u8) -> Result<
    Map<Seq<char>, Seq<char>>,
    ParseVarsError,
> {
    parse_vars_from_spec(s, 0, delimiter)
}

/// Parses the records starting at byte `from`.
fn parse_vars_from(s: &[u8], from: usize, delimiter: u8) -> (r: Result<VarMap, ParseVarsError>)
    requires
        from <= s@.len(),
    ensures
        match r {
            Ok(m) => m.wf() && parse_vars_from_spec(s@, from as int, delimiter) == Ok::<
                _,
                ParseVarsError,
            >(m@),
            Err(e) => parse_vars_from_spec(s@, from as int, delimiter) == Err::<
                Map<Seq<char>, Seq<char>>,
                _,
            >(e),
        },
    decreases s@.len() - from,
{
    if from == s.len() {
        return Ok(VarMap::new());
    }
    let end = match find_byte_in(s, from, s.len(), delimiter) {
        None => {
            return Err(ParseVarsError::MissingDelimiter);
        },
        Some(e) => e,
    };
    proof {
        crate::scan::lemma_find_in(s@, from as int, s@.len() as int, delimiter);
    }
    let eq = match find_byte_in(s, from, end, 61u8) {
        None => {
            return Err(ParseVarsError::MissingEqualSign);
        },
        Some(e) => e,
    };
    proof {
        crate::scan::lemma_find_in(s@, from as int, end as int, 61u8);
    }
    let kb = subrange_vec(s, from, eq);
    let vb = subrange_vec(s, eq + 1, end);
    let key = match string_from_utf8(kb) {
        None => {
            return Err(ParseVarsError::InvalidUtf8);
        },
        Some(k) => k,
    };
    let value = match string_from_utf8(vb) {
        None => {
            return Err(ParseVarsError::InvalidUtf8);
        },
        Some(v) => v,
    };
    match parse_vars_from(s, end + 1, delimiter) {
        Err(e) => Err(e),
        Ok(mut m) => {
            m.insert_if_absent(key, value);
            Ok(m)
        },
    }
}

/// Parses a run of `KEY=VALUE` records, each terminated by `delimiter`, that
/// fills the whole of `s`.
pub fn parse_vars(s: &[u8], delimiter: u8) -> (r: Result<VarMap, ParseVarsError>)
    ensures
        match r {
            Ok(m) => m.wf() && parse_vars_spec(s@, delimiter) == Ok::<_, ParseVarsError>(m@),
            Err(e) => parse_vars_spec(s@, delimiter) == Err::<Map<Seq<char>, Seq<char>>, _>(e),
        },
{
    parse_vars_from(s, 0, delimiter)
}

/// One parsed uevent datagram: a header and its variables.
pub struct Event {
    /// The free text before the first NUL byte.
    pub header: String,
    /// The `KEY=VALUE` records after it.
    pub vars: VarMap,
}

/// What a datagram parses to: a nonempty body, a NUL-terminated text header,
/// then NUL-terminated `KEY=VALUE` records to the end.
pub open spec fn parse_datagram_spec(buf: Seq<u8>) -> Result<
    (Seq<char>, Map<Seq<char>, Seq<char>>),
    DatagramError,
> {
    if buf.len() == 0 {
        Err(DatagramError::EmptyDatagram)
    } else {
        match find_in(buf, 0, buf.len() as int, 0u8) {
            None => Err(DatagramError::MissingHeaderTerminator),
            Some(he) => {
                if !valid_utf8(buf.subrange(0, he)) {
                    Err(DatagramError::InvalidHeader)
                } else {
                    match parse_vars_from_spec(buf, he + 1, 0u8) {
                        Err(e) => Err(DatagramError::InvalidVars(e)),
                        Ok(m) => Ok((decode_utf8(buf.subrange(0, he)), m)),
                    }
                }
            },
        }
    }
}

/// Parses one complete datagram into its header and variable set. Any
/// failure invalidates the whole datagram: no partial variable set escapes.
pub fn parse_datagram(buf: &[u8]) -> (r: Result<Event, DatagramError>)
    ensures
        match r {
            Ok(ev) => ev.vars.wf() && parse_datagram_spec(buf@) == Ok::<_, DatagramError>(
                (ev.header@, ev.vars@),
            ),
            Err(e) => parse_datagram_spec(buf@) == Err::<
                (Seq<char>, Map<Seq<char>, Seq<char>>),
                _,
            >(e),
        },
{
    if buf.len() == 0 {
        return Err(DatagramError::EmptyDatagram);
    }
    let he = match find_byte_in(buf, 0, buf.len(), 0u8) {
        None => {
            return Err(DatagramError::MissingHeaderTerminator);
        },
        Some(p) => p,
    };
    proof {
        crate::scan::lemma_find_in(buf@, 0, buf@.len() as int, 0u8);
    }
    let hb = subrange_vec(buf, 0, he);
    let header = match string_from_utf8(hb) {
        None => {
            return Err(DatagramError::InvalidHeader);
        },
        Some(h) => h,
    };
    match parse_vars_from(buf, he + 1, 0u8) {
        Err(e) => Err(DatagramError::InvalidVars(e)),
        Ok(vars) => Ok(Event { header, vars }),
    }
}

/// `s` holds no byte `b`.
pub open spec fn free_of(s: Seq<u8>, b: u8) -> bool {
    forall|i: int| 0 <= i < s.len() ==> s[i] != b
}

/// One well-formed `KEY=VALUE` record with its terminator consumes exactly
/// its own bytes and binds its key, unless a later record already bound it.
proof fn lemma_parse_one_record(buf: Seq<u8>, from: int, k: Seq<u8>, v: Seq<u8>)
    requires
        0 <= from,
        from + k.len() + 1 + v.len() + 1 <= buf.len(),
        buf.subrange(from, from + k.len()) == k,
        buf[from + k.len()] == 61u8,
        buf.subrange(from + k.len() + 1, from + k.len() + 1 + v.len()) == v,
        buf[from + k.len() + 1 + v.len()] == 0u8,
        free_of(k, 0u8),
        free_of(k, 61u8),
        free_of(v, 0u8),
        valid_utf8(k),
        valid_utf8(v),
    ensures
        parse_vars_from_spec(buf, from, 0u8) == match parse_vars_from_spec(
            buf,
            from + k.len() + 1 + v.len() + 1,
            0u8,
        ) {
            Err(e) => Err(e),
            Ok(m) => Ok(
                if m.contains_key(decode_utf8(k)) {
                    m
                } else {
                    m.insert(decode_utf8(k), decode_utf8(v))
                },
            ),
        },
{
    let q = from + k.len();
    let end = from + k.len() + 1 + v.len();
    assert forall|i: int| from <= i < end implies buf[i] != 0u8 by {
        if i < q {
            assert(buf[i] == k[i - from]);
        } else if i > q {
            assert(buf[i] == v[i - q - 1]);
        }
    }
    crate::scan::lemma_find_in_unique(buf, from, buf.len() as int, 0u8, end);
    assert forall|i: int| from <= i < q implies buf[i] != 61u8 by {
        assert(buf[i] == k[i - from]);
    }
    crate::scan::lemma_find_in_unique(buf, from, end, 61u8, q);
    assert(buf.subrange(from, q) == k);
    assert(buf.subrange(q + 1, end) == v);
}

/// A nonempty datagram with no NUL byte at all is rejected as missing its
/// header terminator; no variable set, not even a partial one, comes back.
pub proof fn lemma_unterminated_header_is_rejected(buf: Seq<u8>)
    requires
        buf.len() > 0,
        free_of(buf, 0u8),
    ensures
        parse_datagram_spec(buf) == Err::<(Seq<char>, Map<Seq<char>, Seq<char>>), _>(
            DatagramError::MissingHeaderTerminator,
        ),
{
    crate::scan::lemma_find_in(buf, 0, buf.len() as int, 0u8);
    match find_in(buf, 0, buf.len() as int, 0u8) {
        Some(j) => {
            assert(buf[j] != 0u8);
        },
        None => {},
    }
}

/// A record with no `=` is rejected with the distinct missing-equal-sign
/// error; no variable set, not even a partial one, comes back.
pub proof fn lemma_record_without_equals_is_rejected(buf: Seq<u8>, h: Seq<u8>, rec: Seq<u8>)
    requires
        buf == h + seq![0u8] + rec + seq![0u8],
        free_of(h, 0u8),
        valid_utf8(h),
        free_of(rec, 0u8),
        free_of(rec, 61u8),
    ensures
        parse_datagram_spec(buf) == Err::<(Seq<char>, Map<Seq<char>, Seq<char>>), _>(
            DatagramError::InvalidVars(ParseVarsError::MissingEqualSign),
        ),
{
    let hl = h.len() as int;
    let len = buf.len() as int;
    assert(buf[hl] == 0u8);
    assert forall|i: int| 0 <= i < hl implies buf[i] != 0u8 by {
        assert(buf[i] == h[i]);
    }
    crate::scan::lemma_find_in_unique(buf, 0, len, 0u8, hl);
    assert(buf.subrange(0, hl) =~= h);
    assert(buf[len - 1] == 0u8);
    assert forall|i: int| hl + 1 <= i < len - 1 implies buf[i] != 0u8 by {
        assert(buf[i] == rec[i - hl - 1]);
    }
    crate::scan::lemma_find_in_unique(buf, hl + 1, len, 0u8, len - 1);
    assert forall|i: int| hl + 1 <= i < len - 1 implies buf[i] != 61u8 by {
        assert(buf[i] == rec[i - hl - 1]);
    }
    crate::scan::lemma_find_in(buf, hl + 1, len - 1, 61u8);
    match find_in(buf, hl + 1, len - 1, 61u8) {
        Some(j) => {
            assert(buf[j] != 61u8);
        },
        None => {},
    }
}

/// Every well-formed two-record datagram `HEADER\0K1=V1\0K2=V2\0` parses
/// to its header and exactly the two bindings; when the two keys coincide,
/// the later record's value wins.
pub proof fn lemma_two_record_datagram(
    buf: Seq<u8>,
    h: Seq<u8>,
    k1: Seq<u8>,
    v1: Seq<u8>,
    k2: Seq<u8>,
    v2: Seq<u8>,
)
    requires
        buf == h + seq![0u8] + k1 + seq![61u8] + v1 + seq![0u8] + k2 + seq![61u8] + v2
            + seq![0u8],
        free_of(h, 0u8),
        valid_utf8(h),
        free_of(k1, 0u8),
        free_of(k1, 61u8),
        free_of(v1, 0u8),
        free_of(k2, 0u8),
        free_of(k2, 61u8),
        free_of(v2, 0u8),
        valid_utf8(k1),
        valid_utf8(v1),
        valid_utf8(k2),
        valid_utf8(v2),
    ensures
        decode_utf8(k1) != decode_utf8(k2) ==> parse_datagram_spec(buf) == Ok::<
            _,
            DatagramError,
        >(
            (
                decode_utf8(h),
                Map::empty().insert(decode_utf8(k2), decode_utf8(v2)).insert(
                    decode_utf8(k1),
                    decode_utf8(v1),
                ),
            ),
        ),
        decode_utf8(k1) == decode_utf8(k2) ==> parse_datagram_spec(buf) == Ok::<
            _,
            DatagramError,
        >((decode_utf8(h), Map::empty().insert(decode_utf8(k2), decode_utf8(v2)))),
{
    let hl = h.len() as int;
    let len = buf.len() as int;
    let r1 = hl + 1;
    let e1 = r1 + k1.len() + 1 + v1.len();
    let r2 = e1 + 1;
    let e2 = r2 + k2.len() + 1 + v2.len();
    assert(e2 == len - 1);
    assert(buf[hl] == 0u8);
    assert forall|i: int| 0 <= i < hl implies buf[i] != 0u8 by {
        assert(buf[i] == h[i]);
    }
    crate::scan::lemma_find_in_unique(buf, 0, len, 0u8, hl);
    assert(buf.subrange(0, hl) =~= h);
    assert(parse_vars_from_spec(buf, e2 + 1, 0u8) == Ok::<_, ParseVarsError>(
        Map::<Seq<char>, Seq<char>>::empty(),
    ));
    assert(buf.subrange(r2, r2 + k2.len()) =~= k2);
    assert(buf[r2 + k2.len()] == 61u8);
    assert(buf.subrange(r2 + k2.len() + 1, r2 + k2.len() + 1 + v2.len()) =~= v2);
    assert(buf[r2 + k2.len() + 1 + v2.len()] == 0u8);
    lemma_parse_one_record(buf, r2, k2, v2);
    assert(parse_vars_from_spec(buf, r2, 0u8) == Ok::<_, ParseVarsError>(
        Map::empty().insert(decode_utf8(k2), decode_utf8(v2)),
    ));
    assert(buf.subrange(r1, r1 + k1.len()) =~= k1);
    assert(buf[r1 + k1.len()] == 61u8);
    assert(buf.subrange(r1 + k1.len() + 1, r1 + k1.len() + 1 + v1.len()) =~= v1);
    assert(buf[r1 + k1.len() + 1 + v1.len()] == 0u8);
    lemma_parse_one_record(buf, r1, k1, v1);
}

} // verus!
