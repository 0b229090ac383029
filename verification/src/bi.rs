//! The index key `Bi`: the key under which an index stores the document key
//! for a document id, together with a verified binary codec for it.
//!
//! A key is laid out as `/*{ns}\0*{db}\0*{tb}\0+{ix}\0!bi` followed by the
//! document id as eight big-endian bytes. Each name is stored as its UTF-8
//! bytes with a terminating zero, so a name whose encoding contains a zero
//! byte cannot form a key and is rejected.
use vstd::prelude::*;

use vstd::utf8::{decode_utf8, encode_utf8, valid_utf8};

verus! {

/// A document id.
pub type DocId = u64;

/// Why a key cannot be encoded or decoded.
#[derive(PartialEq, Eq, Structural, Clone, Copy, Debug)]
pub enum KeyError {
    /// A name's UTF-8 encoding contains a zero byte.
    InvalidSegment,
    /// The bytes do not follow the key layout.
    MalformedKey,
}

/// What a key stores, named for bookkeeping across key kinds.
#[derive(PartialEq, Eq, Structural, Clone, Copy, Debug)]
pub enum Category {
    /// Document keys of an index, by document id.
    IndexDocKeys,
}

/// The index key: namespace, database, table and index names, and the
/// document id.
#[derive(PartialEq, Eq, Debug)]
pub struct Bi {
    pub ns: String,
    pub db: String,
    pub tb: String,
    pub ix: String,
    pub id: DocId,
}

/// The eight big-endian bytes of a document id.
pub open spec fn be_bytes(n: u64) -> Seq<u8> {
    seq![
        ((n as int / 0x100000000000000) % 256) as u8,
        ((n as int / 0x1000000000000) % 256) as u8,
        ((n as int / 0x10000000000) % 256) as u8,
        ((n as int / 0x100000000) % 256) as u8,
        ((n as int / 0x1000000) % 256) as u8,
        ((n as int / 0x10000) % 256) as u8,
        ((n as int / 0x100) % 256) as u8,
        (n as int % 256) as u8,
    ]
}

/// Whether a byte sequence contains a zero byte.
pub open spec fn has_zero_byte(b: Seq<u8>) -> bool {
    exists|i: int| 0 <= i < b.len() && b[i] == 0
}

/// The encoded form of a key, over the views of its names.
pub open spec fn key_bytes(
    ns: Seq<char>,
    db: Seq<char>,
    tb: Seq<char>,
    ix: Seq<char>,
    id: u64,
) -> Seq<u8> {
    seq![47u8, 42u8] + encode_utf8(ns) + seq![0u8, 42u8] + encode_utf8(db) + seq![0u8, 42u8]
        + encode_utf8(tb) + seq![0u8, 43u8] + encode_utf8(ix) + seq![0u8, 33u8, 98u8, 105u8]
        + be_bytes(id)
}

/// Whether a key's names can be encoded: no name's UTF-8 bytes contain a
/// zero byte.
pub open spec fn encodable(ns: Seq<char>, db: Seq<char>, tb: Seq<char>, ix: Seq<char>) -> bool {
    !has_zero_byte(encode_utf8(ns)) && !has_zero_byte(encode_utf8(db)) && !has_zero_byte(
        encode_utf8(tb),
    ) && !has_zero_byte(encode_utf8(ix))
}

impl Bi {
    /// The category this key kind belongs to.
    pub fn categorise(&self) -> (r: Category)
        ensures
            r == Category::IndexDocKeys,
    {
        Category::IndexDocKeys
    }

    /// A key from its parts.
    pub fn new(ns: &str, db: &str, tb: &str, ix: &str, id: DocId) -> (r: Bi)
        ensures
            r.ns@ == ns@,
            r.db@ == db@,
            r.tb@ == tb@,
            r.ix@ == ix@,
            r.id == id,
    {
        Bi { ns: ns.to_owned(), db: db.to_owned(), tb: tb.to_owned(), ix: ix.to_owned(), id }
    }
}

/// Decides whether a byte slice contains a zero byte.
fn slice_has_zero(b: &[u8]) -> (r: bool)
    ensures
        r == has_zero_byte(b@),
{
    let n = b.len();
    for i in 0..n
        invariant
            n == b@.len(),
            forall|j: int| 0 <= j < i ==> b@[j] != 0,
    {
        if *vstd::slice::slice_index_get(b, i) == 0 {
            return true;
        }
    }
    false
}

/// Appends a byte slice to a buffer.
fn push_bytes(out: &mut Vec<u8>, b: &[u8])
    ensures
        final(out)@ == old(out)@ + b@,
{
    let n = b.len();
    for i in 0..n
        invariant
            n == b@.len(),
            out@ == old(out)@ + b@.subrange(0, i as int),
    {
        proof {
            assert(old(out)@ + b@.subrange(0, i + 1) =~= (old(out)@ + b@.subrange(0, i as int)).push(
                b@[i as int],
            ));
        }
        out.push(*vstd::slice::slice_index_get(b, i));
    }
    proof {
        assert(b@.subrange(0, n as int) =~= b@);
    }
}

impl Bi {
    /// Encodes the key. Succeeds exactly when every name is free of zero
    /// bytes, and then yields the documented layout.
    #[verifier::rlimit(100)]
    pub fn encode(&self) -> (r: Result<Vec<u8>, KeyError>)
        ensures
            r is Ok <==> encodable(self.ns@, self.db@, self.tb@, self.ix@),
            r is Ok ==> r->Ok_0@ == key_bytes(self.ns@, self.db@, self.tb@, self.ix@, self.id),
    {
        let nsb = self.ns.as_str().as_bytes();
        let dbb = self.db.as_str().as_bytes();
        let tbb = self.tb.as_str().as_bytes();
        let ixb = self.ix.as_str().as_bytes();
        if slice_has_zero(nsb) || slice_has_zero(dbb) || slice_has_zero(tbb) || slice_has_zero(
            ixb,
        ) {
            return Result::Err(KeyError::InvalidSegment);
        }
        let mut out: Vec<u8> = Vec::new();
        out.push(47u8);
        out.push(42u8);
        push_bytes(&mut out, nsb);
        out.push(0u8);
        out.push(42u8);
        push_bytes(&mut out, dbb);
        out.push(0u8);
        out.push(42u8);
        push_bytes(&mut out, tbb);
        out.push(0u8);
        out.push(43u8);
        push_bytes(&mut out, ixb);
        out.push(0u8);
        out.push(33u8);
        out.push(98u8);
        out.push(105u8);
        let id = self.id;
        out.push((id / 0x100000000000000 % 256) as u8);
        out.push((id / 0x1000000000000 % 256) as u8);
        out.push((id / 0x10000000000 % 256) as u8);
        out.push((id / 0x100000000 % 256) as u8);
        out.push((id / 0x1000000 % 256) as u8);
        out.push((id / 0x10000 % 256) as u8);
        out.push((id / 0x100 % 256) as u8);
        out.push((id % 256) as u8);
        proof {
            assert(out@ =~= key_bytes(self.ns@, self.db@, self.tb@, self.ix@, self.id));
        }
        Result::Ok(out)
    }
}

} // verus!

verus! {

/// The position of the first zero byte at or after `from`, or the length
/// when there is none.
pub open spec fn find_zero(b: Seq<u8>, from: int) -> int
    decreases b.len() - from,
{
    if from < 0 || from >= b.len() {
        b.len() as int
    } else if b[from] == 0 {
        from
    } else {
        find_zero(b, from + 1)
    }
}

/// The value of eight big-endian bytes.
pub open spec fn be_val(b: Seq<u8>) -> u64 {
    (b[0] * 0x100000000000000 + b[1] * 0x1000000000000 + b[2] * 0x10000000000 + b[3] * 0x100000000
        + b[4] * 0x1000000 + b[5] * 0x10000 + b[6] * 0x100 + b[7]) as u64
}

/// What decoding a key yields: the four name character sequences and the
/// document id, or nothing where the bytes do not follow the layout.
pub open spec fn parse_key(b: Seq<u8>) -> Option<(Seq<char>, Seq<char>, Seq<char>, Seq<char>, u64)> {
    let n = b.len() as int;
    if n < 2 || b[0] != 47 || b[1] != 42 {
        Option::None
    } else {
        let e1 = find_zero(b, 2);
        let e2 = find_zero(b, e1 + 2);
        let e3 = find_zero(b, e2 + 2);
        let e4 = find_zero(b, e3 + 2);
        if e1 >= n || e1 + 1 >= n || b[e1 + 1] != 42 {
            Option::None
        } else if e2 >= n || e2 + 1 >= n || b[e2 + 1] != 42 {
            Option::None
        } else if e3 >= n || e3 + 1 >= n || b[e3 + 1] != 43 {
            Option::None
        } else if e4 >= n || n != e4 + 12 || b[e4 + 1] != 33 || b[e4 + 2] != 98 || b[e4 + 3]
            != 105 {
            Option::None
        } else {
            let nsb = b.subrange(2, e1);
            let dbb = b.subrange(e1 + 2, e2);
            let tbb = b.subrange(e2 + 2, e3);
            let ixb = b.subrange(e3 + 2, e4);
            if valid_utf8(nsb) && valid_utf8(dbb) && valid_utf8(tbb) && valid_utf8(ixb) {
                Option::Some(
                    (
                        decode_utf8(nsb),
                        decode_utf8(dbb),
                        decode_utf8(tbb),
                        decode_utf8(ixb),
                        be_val(b.subrange(e4 + 4, e4 + 12)),
                    ),
                )
            } else {
                Option::None
            }
        }
    }
}

/// Finds the first zero byte at or after `from`, as `find_zero` states it.
fn find_zero_exec(b: &[u8], from: usize) -> (r: usize)
    requires
        from <= b@.len(),
    ensures
        r as int == find_zero(b@, from as int),
        from <= r <= b@.len(),
        r < b@.len() ==> b@[r as int] == 0,
{
    let n = b.len();
    let mut i = from;
    while i < n
        invariant
            from <= i <= n,
            n == b@.len(),
            find_zero(b@, from as int) == find_zero(b@, i as int),
        decreases n - i,
    {
        if *vstd::slice::slice_index_get(b, i) == 0 {
            return i;
        }
        i = i + 1;
    }
    i
}

/// Relies on core::str::from_utf8: decodes a byte slice as UTF-8, yielding
/// the decoded characters exactly when the bytes are valid UTF-8.
#[verifier::external_body]
fn bytes_to_string(b: &[u8]) -> (r: Option<String>)
    ensures
        r is Some <==> valid_utf8(b@),
        r is Some ==> r->0@ == decode_utf8(b@),
{
    match core::str::from_utf8(b) {
        Ok(s) => Some(s.to_string()),
        Err(_) => None,
    }
}

impl Bi {
    /// Decodes a key, as `parse_key` states it: the decoded key carries
    /// exactly the parsed names and id.
    pub fn decode(b: &[u8]) -> (r: Result<Bi, KeyError>)
        ensures
            r is Ok <==> parse_key(b@) is Some,
            r is Ok ==> {
                let p = parse_key(b@)->0;
                r->Ok_0.ns@ == p.0 && r->Ok_0.db@ == p.1 && r->Ok_0.tb@ == p.2 && r->Ok_0.ix@
                    == p.3 && r->Ok_0.id == p.4
            },
    {
        let n = b.len();
        if n < 2 || *vstd::slice::slice_index_get(b, 0) != 47 || *vstd::slice::slice_index_get(
            b,
            1,
        ) != 42 {
            return Result::Err(KeyError::MalformedKey);
        }
        let e1 = find_zero_exec(b, 2);
        if e1 >= n || e1 + 1 >= n || *vstd::slice::slice_index_get(b, e1 + 1) != 42 {
            proof {
                if e1 < n && e1 + 1 < n {
                    assert(parse_key(b@) is None);
                }
            }
            return Result::Err(KeyError::MalformedKey);
        }
        let e2 = find_zero_exec(b, e1 + 2);
        if e2 >= n || e2 + 1 >= n || *vstd::slice::slice_index_get(b, e2 + 1) != 42 {
            return Result::Err(KeyError::MalformedKey);
        }
        let e3 = find_zero_exec(b, e2 + 2);
        if e3 >= n || e3 + 1 >= n || *vstd::slice::slice_index_get(b, e3 + 1) != 43 {
            return Result::Err(KeyError::MalformedKey);
        }
        let e4 = find_zero_exec(b, e3 + 2);
        if e4 >= n || n - e4 != 12 || *vstd::slice::slice_index_get(b, e4 + 1) != 33
            || *vstd::slice::slice_index_get(b, e4 + 2) != 98 || *vstd::slice::slice_index_get(
            b,
            e4 + 3,
        ) != 105 {
            return Result::Err(KeyError::MalformedKey);
        }
        let nsb = vstd::slice::slice_subrange(b, 2, e1);
        let dbb = vstd::slice::slice_subrange(b, e1 + 2, e2);
        let tbb = vstd::slice::slice_subrange(b, e2 + 2, e3);
        let ixb = vstd::slice::slice_subrange(b, e3 + 2, e4);
        let ns = (match bytes_to_string(nsb) {
            Option::Some(s) => s,
            Option::None => {
                return Result::Err(KeyError::MalformedKey);
            },
        });
        let db = (match bytes_to_string(dbb) {
            Option::Some(s) => s,
            Option::None => {
                return Result::Err(KeyError::MalformedKey);
            },
        });
        let tb = (match bytes_to_string(tbb) {
            Option::Some(s) => s,
            Option::None => {
                return Result::Err(KeyError::MalformedKey);
            },
        });
        let ix = (match bytes_to_string(ixb) {
            Option::Some(s) => s,
            Option::None => {
                return Result::Err(KeyError::MalformedKey);
            },
        });
        let b0 = *vstd::slice::slice_index_get(b, e4 + 4) as u64;
        let b1 = *vstd::slice::slice_index_get(b, e4 + 5) as u64;
        let b2 = *vstd::slice::slice_index_get(b, e4 + 6) as u64;
        let b3 = *vstd::slice::slice_index_get(b, e4 + 7) as u64;
        let b4 = *vstd::slice::slice_index_get(b, e4 + 8) as u64;
        let b5 = *vstd::slice::slice_index_get(b, e4 + 9) as u64;
        let b6 = *vstd::slice::slice_index_get(b, e4 + 10) as u64;
        let b7 = *vstd::slice::slice_index_get(b, e4 + 11) as u64;
        let id = b0 * 0x100000000000000 + b1 * 0x1000000000000 + b2 * 0x10000000000 + b3
            * 0x100000000 + b4 * 0x1000000 + b5 * 0x10000 + b6 * 0x100 + b7;
        proof {
            assert(b@.subrange(e4 + 4, e4 + 12)[0] == b@[e4 + 4]);
            assert(b@.subrange(e4 + 4, e4 + 12)[1] == b@[e4 + 5]);
            assert(b@.subrange(e4 + 4, e4 + 12)[2] == b@[e4 + 6]);
            assert(b@.subrange(e4 + 4, e4 + 12)[3] == b@[e4 + 7]);
            assert(b@.subrange(e4 + 4, e4 + 12)[4] == b@[e4 + 8]);
            assert(b@.subrange(e4 + 4, e4 + 12)[5] == b@[e4 + 9]);
            assert(b@.subrange(e4 + 4, e4 + 12)[6] == b@[e4 + 10]);
            assert(b@.subrange(e4 + 4, e4 + 12)[7] == b@[e4 + 11]);
        }
        Result::Ok(Bi { ns, db, tb, ix, id })
    }
}

} // verus!

verus! {

/// `find_zero` lands exactly on a known zero with no earlier zero.
proof fn lemma_find_zero_at(b: Seq<u8>, from: int, k: int)
    requires
        0 <= from <= k < b.len(),
        b[k] == 0,
        forall|j: int| from <= j < k ==> b[j] != 0,
    ensures
        find_zero(b, from) == k,
    decreases k - from,
{
    if from < k {
        lemma_find_zero_at(b, from + 1, k);
    }
}

/// Eight big-endian bytes round-trip through their value.
proof fn lemma_be_round_trip(id: u64)
    ensures
        be_val(be_bytes(id)) == id,
{
    let x = id as int;
    assert(be_bytes(id)[0] == ((x / 0x100000000000000) % 256) as u8);
    assert((x / 0x100000000000000) % 256 == x / 0x100000000000000) by {
        assert(x < 0x10000000000000000);
        assert(x / 0x100000000000000 < 256);
    }
    assert(x == (x / 0x100) * 0x100 + x % 0x100) by {
        vstd::arithmetic::div_mod::lemma_fundamental_div_mod(x, 0x100);
    }
    assert(x / 0x100 == ((x / 0x100) / 0x100) * 0x100 + (x / 0x100) % 0x100) by {
        vstd::arithmetic::div_mod::lemma_fundamental_div_mod(x / 0x100, 0x100);
    }
    assert(x / 0x10000 == ((x / 0x10000) / 0x100) * 0x100 + (x / 0x10000) % 0x100) by {
        vstd::arithmetic::div_mod::lemma_fundamental_div_mod(x / 0x10000, 0x100);
    }
    assert(x / 0x1000000 == ((x / 0x1000000) / 0x100) * 0x100 + (x / 0x1000000) % 0x100) by {
        vstd::arithmetic::div_mod::lemma_fundamental_div_mod(x / 0x1000000, 0x100);
    }
    assert(x / 0x100000000 == ((x / 0x100000000) / 0x100) * 0x100 + (x / 0x100000000) % 0x100) by {
        vstd::arithmetic::div_mod::lemma_fundamental_div_mod(x / 0x100000000, 0x100);
    }
    assert(x / 0x10000000000 == ((x / 0x10000000000) / 0x100) * 0x100 + (x / 0x10000000000)
        % 0x100) by {
        vstd::arithmetic::div_mod::lemma_fundamental_div_mod(x / 0x10000000000, 0x100);
    }
    assert(x / 0x1000000000000 == ((x / 0x1000000000000) / 0x100) * 0x100 + (x / 0x1000000000000)
        % 0x100) by {
        vstd::arithmetic::div_mod::lemma_fundamental_div_mod(x / 0x1000000000000, 0x100);
    }
    assert((x / 0x100) / 0x100 == x / 0x10000) by {
        vstd::arithmetic::div_mod::lemma_div_denominator(x, 0x100, 0x100);
    }
    assert((x / 0x10000) / 0x100 == x / 0x1000000) by {
        vstd::arithmetic::div_mod::lemma_div_denominator(x, 0x10000, 0x100);
    }
    assert((x / 0x1000000) / 0x100 == x / 0x100000000) by {
        vstd::arithmetic::div_mod::lemma_div_denominator(x, 0x1000000, 0x100);
    }
    assert((x / 0x100000000) / 0x100 == x / 0x10000000000) by {
        vstd::arithmetic::div_mod::lemma_div_denominator(x, 0x100000000, 0x100);
    }
    assert((x / 0x10000000000) / 0x100 == x / 0x1000000000000) by {
        vstd::arithmetic::div_mod::lemma_div_denominator(x, 0x10000000000, 0x100);
    }
    assert((x / 0x1000000000000) / 0x100 == x / 0x100000000000000) by {
        vstd::arithmetic::div_mod::lemma_div_denominator(x, 0x1000000000000, 0x100);
    }
}

/// Decoding inverts encoding: an encodable key's bytes parse back to
/// exactly its names and id.
pub proof fn law_key_round_trip(
    ns: Seq<char>,
    db: Seq<char>,
    tb: Seq<char>,
    ix: Seq<char>,
    id: u64,
)
    requires
        encodable(ns, db, tb, ix),
    ensures
        parse_key(key_bytes(ns, db, tb, ix, id)) == Option::Some((ns, db, tb, ix, id)),
{
    broadcast use vstd::utf8::encode_utf8_valid_utf8, vstd::utf8::encode_utf8_decode_utf8;

    let b = key_bytes(ns, db, tb, ix, id);
    let x1 = encode_utf8(ns);
    let x2 = encode_utf8(db);
    let x3 = encode_utf8(tb);
    let x4 = encode_utf8(ix);
    let n1 = x1.len() as int;
    let n2 = x2.len() as int;
    let n3 = x3.len() as int;
    let n4 = x4.len() as int;
    let e1 = 2 + n1;
    let e2 = e1 + 2 + n2;
    let e3 = e2 + 2 + n3;
    let e4 = e3 + 2 + n4;
    let n = b.len() as int;
    assert(n == e4 + 12);
    assert forall|i: int| 0 <= i < n1 implies b[2 + i] == x1[i] by {}
    assert forall|i: int| 0 <= i < n2 implies b[e1 + 2 + i] == x2[i] by {}
    assert forall|i: int| 0 <= i < n3 implies b[e2 + 2 + i] == x3[i] by {}
    assert forall|i: int| 0 <= i < n4 implies b[e3 + 2 + i] == x4[i] by {}
    assert(b[0] == 47 && b[1] == 42);
    assert(b[e1] == 0 && b[e1 + 1] == 42);
    assert(b[e2] == 0 && b[e2 + 1] == 42);
    assert(b[e3] == 0 && b[e3 + 1] == 43);
    assert(b[e4] == 0 && b[e4 + 1] == 33 && b[e4 + 2] == 98 && b[e4 + 3] == 105);
    lemma_find_zero_at(b, 2, e1);
    lemma_find_zero_at(b, e1 + 2, e2);
    lemma_find_zero_at(b, e2 + 2, e3);
    lemma_find_zero_at(b, e3 + 2, e4);
    assert(b.subrange(2, e1) =~= x1);
    assert(b.subrange(e1 + 2, e2) =~= x2);
    assert(b.subrange(e2 + 2, e3) =~= x3);
    assert(b.subrange(e3 + 2, e4) =~= x4);
    assert(b.subrange(e4 + 4, e4 + 12) =~= be_bytes(id));
    lemma_be_round_trip(id);
    assert(decode_utf8(x1) == ns);
    assert(decode_utf8(x2) == db);
    assert(decode_utf8(x3) == tb);
    assert(decode_utf8(x4) == ix);
}

} // verus!
