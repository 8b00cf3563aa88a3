//! The mathematical model of the NBT wire format.
//!
//! [`TagModel`] is the abstract value of a tag tree.  [`spec_decode_payload`]
//! is the reference decoder: a total function from a byte sequence and a
//! one-byte type identifier to the decoded abstract tag, the number of bytes
//! consumed, and the exact error class otherwise.  [`spec_encode_payload`] is
//! the reference encoder.  The executable code in [`crate::tag`] is verified
//! to return exactly what these functions say.

use vstd::prelude::*;
use vstd::utf8::{decode_utf8, encode_utf8, valid_utf8};

verus! {

/// The abstract value of one node of a decoded tag tree.
///
/// Numeric leaves carry their exact value; `Float` and `Double` carry the
/// big-endian bit pattern of the four- or eight-byte payload.  `Str` carries
/// the decoded characters, `Compound` its entries in insertion order.
pub enum TagModel {
    End,
    Byte(u8),
    Short(i16),
    Int(i32),
    Long(i64),
    Float(u32),
    Double(u64),
    ByteArray(Seq<u8>),
    Str(Seq<char>),
    List(Seq<TagModel>),
    Compound(Seq<(Seq<char>, TagModel)>),
    IntArray(Seq<i32>),
    LongArray(Seq<i64>),
}

/// The outcome of decoding one syntactic element from the front of a byte
/// sequence: the value together with the number of bytes consumed, or the
/// error class — a truncated input (an I/O-kind failure) or a malformed
/// encoding (a bad type identifier, a negative count, invalid text).
pub enum DecodeRes<A> {
    Parsed(A, nat),
    Truncated,
    Malformed,
}

/// The byte sequence with its first `n` elements removed; empty when `n`
/// reaches past the end.
pub open spec fn suffix(s: Seq<u8>, n: nat) -> Seq<u8> {
    if n >= s.len() {
        Seq::empty()
    } else {
        s.subrange(n as int, s.len() as int)
    }
}

/// The value of two bytes read as a big-endian unsigned integer.
pub open spec fn be_u16(s: Seq<u8>) -> u16
    recommends
        s.len() == 2,
{
    (s[0] * 0x100 + s[1]) as u16
}

/// The value of four bytes read as a big-endian unsigned integer.
pub open spec fn be_u32(s: Seq<u8>) -> u32
    recommends
        s.len() == 4,
{
    (s[0] * 0x1000000 + s[1] * 0x10000 + s[2] * 0x100 + s[3]) as u32
}

/// The value of eight bytes read as a big-endian unsigned integer.
pub open spec fn be_u64(s: Seq<u8>) -> u64
    recommends
        s.len() == 8,
{
    (s[0] * 0x100000000000000 + s[1] * 0x1000000000000 + s[2] * 0x10000000000
        + s[3] * 0x100000000 + s[4] * 0x1000000 + s[5] * 0x10000 + s[6] * 0x100 + s[7]) as u64
}

/// The two-byte big-endian encoding of an unsigned integer.
pub open spec fn enc_u16(v: u16) -> Seq<u8> {
    seq![(v / 0x100) as u8, (v % 0x100) as u8]
}

/// The four-byte big-endian encoding of an unsigned integer.
pub open spec fn enc_u32(v: u32) -> Seq<u8> {
    seq![
        (v / 0x1000000) as u8,
        ((v / 0x10000) % 0x100) as u8,
        ((v / 0x100) % 0x100) as u8,
        (v % 0x100) as u8,
    ]
}

/// The eight-byte big-endian encoding of an unsigned integer.
pub open spec fn enc_u64(v: u64) -> Seq<u8> {
    seq![
        (v / 0x100000000000000) as u8,
        ((v / 0x1000000000000) % 0x100) as u8,
        ((v / 0x10000000000) % 0x100) as u8,
        ((v / 0x100000000) % 0x100) as u8,
        ((v / 0x1000000) % 0x100) as u8,
        ((v / 0x10000) % 0x100) as u8,
        ((v / 0x100) % 0x100) as u8,
        (v % 0x100) as u8,
    ]
}

/// Decoding a length-prefixed string: an unsigned 16-bit byte count, then
/// that many bytes of UTF-8 text.  Text that is not valid UTF-8 is a
/// malformed encoding.
pub open spec fn spec_decode_string(s: Seq<u8>) -> DecodeRes<Seq<char>> {
    if s.len() < 2 {
        DecodeRes::Truncated
    } else {
        let n = be_u16(s.subrange(0, 2)) as nat;
        if s.len() < 2 + n {
            DecodeRes::Truncated
        } else {
            let bytes = s.subrange(2, 2 + n as int);
            if valid_utf8(bytes) {
                DecodeRes::Parsed(decode_utf8(bytes), 2 + n)
            } else {
                DecodeRes::Malformed
            }
        }
    }
}

/// Decoding the payload of one tag, the bytes after its type identifier and
/// name: the reference for the whole recursive descent.
pub open spec fn spec_decode_payload(s: Seq<u8>, id: u8) -> DecodeRes<TagModel>
    decreases s.len(), 0nat, 1nat,
{
    if id == 0 {
        DecodeRes::Parsed(TagModel::End, 0)
    } else if id == 1 {
        if s.len() < 1 {
            DecodeRes::Truncated
        } else {
            DecodeRes::Parsed(TagModel::Byte(s[0]), 1)
        }
    } else if id == 2 {
        if s.len() < 2 {
            DecodeRes::Truncated
        } else {
            DecodeRes::Parsed(TagModel::Short(be_u16(s.subrange(0, 2)) as i16), 2)
        }
    } else if id == 3 {
        if s.len() < 4 {
            DecodeRes::Truncated
        } else {
            DecodeRes::Parsed(TagModel::Int(be_u32(s.subrange(0, 4)) as i32), 4)
        }
    } else if id == 4 {
        if s.len() < 8 {
            DecodeRes::Truncated
        } else {
            DecodeRes::Parsed(TagModel::Long(be_u64(s.subrange(0, 8)) as i64), 8)
        }
    } else if id == 5 {
        if s.len() < 4 {
            DecodeRes::Truncated
        } else {
            DecodeRes::Parsed(TagModel::Float(be_u32(s.subrange(0, 4))), 4)
        }
    } else if id == 6 {
        if s.len() < 8 {
            DecodeRes::Truncated
        } else {
            DecodeRes::Parsed(TagModel::Double(be_u64(s.subrange(0, 8))), 8)
        }
    } else if id == 7 {
        match spec_decode_count(s) {
            DecodeRes::Parsed(k, _) => {
                if s.len() < 4 + k {
                    DecodeRes::Truncated
                } else {
                    DecodeRes::Parsed(
                        TagModel::ByteArray(Seq::new(k, |i: int| s[4 + i])),
                        4 + k,
                    )
                }
            },
            DecodeRes::Truncated => DecodeRes::Truncated,
            DecodeRes::Malformed => DecodeRes::Malformed,
        }
    } else if id == 8 {
        match spec_decode_string(s) {
            DecodeRes::Parsed(cs, c) => DecodeRes::Parsed(TagModel::Str(cs), c),
            DecodeRes::Truncated => DecodeRes::Truncated,
            DecodeRes::Malformed => DecodeRes::Malformed,
        }
    } else if id == 9 {
        if s.len() < 5 {
            DecodeRes::Truncated
        } else {
            let elem_id = s[0];
            let c = be_u32(s.subrange(1, 5)) as i32;
            if c < 0 {
                DecodeRes::Malformed
            } else {
                match spec_decode_list_elems(suffix(s, 5), elem_id, c as nat) {
                    DecodeRes::Parsed(ts, c2) => DecodeRes::Parsed(TagModel::List(ts), 5 + c2),
                    DecodeRes::Truncated => DecodeRes::Truncated,
                    DecodeRes::Malformed => DecodeRes::Malformed,
                }
            }
        }
    } else if id == 10 {
        match spec_decode_compound(s) {
            DecodeRes::Parsed(es, c) => DecodeRes::Parsed(TagModel::Compound(assemble(es)), c),
            DecodeRes::Truncated => DecodeRes::Truncated,
            DecodeRes::Malformed => DecodeRes::Malformed,
        }
    } else if id == 11 {
        match spec_decode_count(s) {
            DecodeRes::Parsed(k, _) => {
                if s.len() < 4 + 4 * k {
                    DecodeRes::Truncated
                } else {
                    DecodeRes::Parsed(
                        TagModel::IntArray(
                            Seq::new(k, |i: int| be_u32(s.subrange(4 + 4 * i, 8 + 4 * i)) as i32),
                        ),
                        4 + 4 * k,
                    )
                }
            },
            DecodeRes::Truncated => DecodeRes::Truncated,
            DecodeRes::Malformed => DecodeRes::Malformed,
        }
    } else if id == 12 {
        match spec_decode_count(s) {
            DecodeRes::Parsed(k, _) => {
                if s.len() < 4 + 8 * k {
                    DecodeRes::Truncated
                } else {
                    DecodeRes::Parsed(
                        TagModel::LongArray(
                            Seq::new(k, |i: int| be_u64(s.subrange(4 + 8 * i, 12 + 8 * i)) as i64),
                        ),
                        4 + 8 * k,
                    )
                }
            },
            DecodeRes::Truncated => DecodeRes::Truncated,
            DecodeRes::Malformed => DecodeRes::Malformed,
        }
    } else {
        DecodeRes::Malformed
    }
}

/// Decoding an element count: a signed 32-bit big-endian integer; a negative
/// count is a malformed encoding.
pub open spec fn spec_decode_count(s: Seq<u8>) -> DecodeRes<nat> {
    if s.len() < 4 {
        DecodeRes::Truncated
    } else {
        let c = be_u32(s.subrange(0, 4)) as i32;
        if c < 0 {
            DecodeRes::Malformed
        } else {
            DecodeRes::Parsed(c as nat, 4)
        }
    }
}

/// Decoding `k` consecutive list elements, each a payload of the single
/// declared element type.
pub open spec fn spec_decode_list_elems(s: Seq<u8>, id: u8, k: nat) -> DecodeRes<Seq<TagModel>>
    decreases s.len(), k, 2nat,
{
    if k == 0 {
        DecodeRes::Parsed(Seq::empty(), 0)
    } else {
        match spec_decode_payload(s, id) {
            DecodeRes::Parsed(t, c) => {
                match spec_decode_list_elems(suffix(s, c), id, (k - 1) as nat) {
                    DecodeRes::Parsed(ts, c2) => DecodeRes::Parsed(seq![t] + ts, c + c2),
                    DecodeRes::Truncated => DecodeRes::Truncated,
                    DecodeRes::Malformed => DecodeRes::Malformed,
                }
            },
            DecodeRes::Truncated => DecodeRes::Truncated,
            DecodeRes::Malformed => DecodeRes::Malformed,
        }
    }
}

/// Decoding a compound payload: named tags in wire order until one `End`
/// identifier, which is consumed and not stored.  The entries are returned
/// raw, in wire order; [`assemble`] turns them into the mapping.
pub open spec fn spec_decode_compound(s: Seq<u8>) -> DecodeRes<Seq<(Seq<char>, TagModel)>>
    decreases s.len(), 0nat, 0nat,
{
    if s.len() == 0 {
        DecodeRes::Truncated
    } else {
        let id = s[0];
        if id == 0 {
            DecodeRes::Parsed(Seq::empty(), 1)
        } else {
            match spec_decode_string(suffix(s, 1)) {
                DecodeRes::Parsed(nm, c1) => {
                    match spec_decode_payload(suffix(s, 1 + c1), id) {
                        DecodeRes::Parsed(t, c2) => {
                            match spec_decode_compound(suffix(s, 1 + c1 + c2)) {
                                DecodeRes::Parsed(es, c3) => {
                                    DecodeRes::Parsed(seq![(nm, t)] + es, 1 + c1 + c2 + c3)
                                },
                                DecodeRes::Truncated => DecodeRes::Truncated,
                                DecodeRes::Malformed => DecodeRes::Malformed,
                            }
                        },
                        DecodeRes::Truncated => DecodeRes::Truncated,
                        DecodeRes::Malformed => DecodeRes::Malformed,
                    }
                },
                DecodeRes::Truncated => DecodeRes::Truncated,
                DecodeRes::Malformed => DecodeRes::Malformed,
            }
        }
    }
}

/// Decoding one tag given its already-consumed type identifier: the name
/// first, when asked for and the identifier is not the `End` marker, then
/// the payload.
pub open spec fn spec_tag_by_id(s: Seq<u8>, id: u8, include_name: bool) -> DecodeRes<
    (Option<Seq<char>>, TagModel),
> {
    if include_name && id != 0 {
        match spec_decode_string(s) {
            DecodeRes::Parsed(nm, c1) => {
                match spec_decode_payload(suffix(s, c1), id) {
                    DecodeRes::Parsed(t, c2) => DecodeRes::Parsed((Some(nm), t), c1 + c2),
                    DecodeRes::Truncated => DecodeRes::Truncated,
                    DecodeRes::Malformed => DecodeRes::Malformed,
                }
            },
            DecodeRes::Truncated => DecodeRes::Truncated,
            DecodeRes::Malformed => DecodeRes::Malformed,
        }
    } else {
        match spec_decode_payload(s, id) {
            DecodeRes::Parsed(t, c) => DecodeRes::Parsed((None, t), c),
            DecodeRes::Truncated => DecodeRes::Truncated,
            DecodeRes::Malformed => DecodeRes::Malformed,
        }
    }
}

/// Decoding one complete tag from the front of the stream: one type
/// identifier byte, then the tag it announces.
pub open spec fn spec_parse_nbt(s: Seq<u8>, include_name: bool) -> DecodeRes<
    (Option<Seq<char>>, TagModel),
> {
    if s.len() == 0 {
        DecodeRes::Truncated
    } else {
        match spec_tag_by_id(suffix(s, 1), s[0], include_name) {
            DecodeRes::Parsed(r, c) => DecodeRes::Parsed(r, 1 + c),
            DecodeRes::Truncated => DecodeRes::Truncated,
            DecodeRes::Malformed => DecodeRes::Malformed,
        }
    }
}

/// A partial decode of a sequence of elements, rebased: `pre` elements and
/// `used` bytes already consumed, in front of the outcome `d` for the rest.
pub open spec fn lift_seq<A>(pre: Seq<A>, used: nat, d: DecodeRes<Seq<A>>) -> DecodeRes<Seq<A>> {
    match d {
        DecodeRes::Parsed(es, c) => DecodeRes::Parsed(pre + es, used + c),
        DecodeRes::Truncated => DecodeRes::Truncated,
        DecodeRes::Malformed => DecodeRes::Malformed,
    }
}

/// Dropping `a` then `b` elements is dropping `a + b` elements.
pub proof fn lemma_suffix_suffix(s: Seq<u8>, a: nat, b: nat)
    ensures
        suffix(suffix(s, a), b) == suffix(s, a + b),
{
    assert(suffix(suffix(s, a), b) =~= suffix(s, a + b));
}

/// A payload decoded under a non-`End` identifier is never the `End` tag.
pub proof fn lemma_payload_not_end(s: Seq<u8>, id: u8)
    requires
        id != 0,
    ensures
        spec_decode_payload(s, id) matches DecodeRes::Parsed(t, c) ==> !(t is End),
{
}

/// One step of list-element decoding, phrased through [`lift_seq`].
pub proof fn lemma_list_step(s: Seq<u8>, id: u8, k: nat)
    requires
        k > 0,
    ensures
        spec_decode_list_elems(s, id, k) == (match spec_decode_payload(s, id) {
            DecodeRes::Parsed(t, c) => lift_seq(
                seq![t],
                c,
                spec_decode_list_elems(suffix(s, c), id, (k - 1) as nat),
            ),
            DecodeRes::Truncated => DecodeRes::Truncated,
            DecodeRes::Malformed => DecodeRes::Malformed,
        }),
{
    match spec_decode_payload(s, id) {
        DecodeRes::Parsed(t, c) => {
            match spec_decode_list_elems(suffix(s, c), id, (k - 1) as nat) {
                DecodeRes::Parsed(ts, c2) => {},
                DecodeRes::Truncated => {},
                DecodeRes::Malformed => {},
            }
        },
        DecodeRes::Truncated => {},
        DecodeRes::Malformed => {},
    }
}

/// One step of compound decoding: what one complete named-tag parse at the
/// front of a compound payload says about the whole payload.
pub proof fn lemma_compound_step(s: Seq<u8>)
    ensures
        spec_parse_nbt(s, true) is Truncated ==> spec_decode_compound(s) is Truncated,
        spec_parse_nbt(s, true) is Malformed ==> spec_decode_compound(s) is Malformed,
        ({
            let dp = spec_parse_nbt(s, true);
            dp matches DecodeRes::Parsed(v, c) ==> {
                &&& s.len() > 0
                &&& c >= 1
                &&& (s[0] == 0 ==> v.1 is End && c == 1 && spec_decode_compound(s)
                    == DecodeRes::Parsed(Seq::<(Seq<char>, TagModel)>::empty(), 1))
                &&& (s[0] != 0 ==> !(v.1 is End) && (v.0 matches Some(nm)
                    && spec_decode_compound(s) == lift_seq(
                    seq![(nm, v.1)],
                    c,
                    spec_decode_compound(suffix(s, c)),
                )))
            }
        }),
{
    let id = s[0];
    if id != 0 {
        let s1 = suffix(s, 1);
        let ds = spec_decode_string(s1);
        match ds {
            DecodeRes::Parsed(nm, c1) => {
                lemma_suffix_suffix(s, 1, c1);
                let dpay = spec_decode_payload(suffix(s, 1 + c1), id);
                lemma_payload_not_end(suffix(s, 1 + c1), id);
                match dpay {
                    DecodeRes::Parsed(t, c2) => {
                        lemma_suffix_suffix(s, 1 + c1, c2);
                        match spec_decode_compound(suffix(s, 1 + c1 + c2)) {
                            DecodeRes::Parsed(es, c3) => {},
                            DecodeRes::Truncated => {},
                            DecodeRes::Malformed => {},
                        }
                    },
                    DecodeRes::Truncated => {},
                    DecodeRes::Malformed => {},
                }
            },
            DecodeRes::Truncated => {},
            DecodeRes::Malformed => {},
        }
    }
}

/// The index of the entry with the given key, or `-1` when absent.
pub open spec fn find_key(es: Seq<(Seq<char>, TagModel)>, k: Seq<char>) -> int
    decreases es.len(),
{
    if es.len() == 0 {
        -1
    } else if es[0].0 == k {
        0
    } else {
        let r = find_key(es.drop_first(), k);
        if r == -1 {
            -1
        } else {
            r + 1
        }
    }
}

/// `find_key` returns the first index whose key matches.
pub proof fn lemma_find_key_at(es: Seq<(Seq<char>, TagModel)>, k: Seq<char>, j: int)
    requires
        0 <= j < es.len(),
        es[j].0 == k,
        forall|i: int| 0 <= i < j ==> es[i].0 != k,
    ensures
        find_key(es, k) == j,
    decreases es.len(),
{
    if j > 0 {
        assert(es[0].0 != k);
        lemma_find_key_at(es.drop_first(), k, j - 1);
    }
}

/// `find_key` returns `-1` exactly when no entry has the key.
pub proof fn lemma_find_key_absent(es: Seq<(Seq<char>, TagModel)>, k: Seq<char>)
    requires
        forall|i: int| 0 <= i < es.len() ==> es[i].0 != k,
    ensures
        find_key(es, k) == -1,
    decreases es.len(),
{
    if es.len() > 0 {
        lemma_find_key_absent(es.drop_first(), k);
    }
}

/// Inserting into the mapping: the value under an existing key is replaced
/// in place; a new key is appended.
pub open spec fn upsert(
    es: Seq<(Seq<char>, TagModel)>,
    k: Seq<char>,
    v: TagModel,
) -> Seq<(Seq<char>, TagModel)> {
    let i = find_key(es, k);
    if i == -1 {
        es.push((k, v))
    } else {
        es.update(i, (k, v))
    }
}

/// The value under a key of a compound tag; nothing when the tag is not a
/// compound or the key is absent.
pub open spec fn compound_lookup(m: TagModel, key: Seq<char>) -> Option<TagModel> {
    match m {
        TagModel::Compound(es) => {
            let i = find_key(es, key);
            if i == -1 {
                None
            } else {
                Some(es[i].1)
            }
        },
        _ => None,
    }
}

/// The mapping built from raw wire-order entries by inserting each in turn:
/// a later duplicate key replaces the earlier value in place.
pub open spec fn assemble(raw: Seq<(Seq<char>, TagModel)>) -> Seq<(Seq<char>, TagModel)>
    decreases raw.len(),
{
    if raw.len() == 0 {
        Seq::empty()
    } else {
        upsert(assemble(raw.drop_last()), raw.last().0, raw.last().1)
    }
}


/// The wire type identifier of a tag.
pub open spec fn id_of(t: TagModel) -> u8 {
    match t {
        TagModel::End => 0,
        TagModel::Byte(_) => 1,
        TagModel::Short(_) => 2,
        TagModel::Int(_) => 3,
        TagModel::Long(_) => 4,
        TagModel::Float(_) => 5,
        TagModel::Double(_) => 6,
        TagModel::ByteArray(_) => 7,
        TagModel::Str(_) => 8,
        TagModel::List(_) => 9,
        TagModel::Compound(_) => 10,
        TagModel::IntArray(_) => 11,
        TagModel::LongArray(_) => 12,
    }
}

/// The element type identifier a list is written with: that of its first
/// element, or the `End` identifier for an empty list.
pub open spec fn list_elem_id(ts: Seq<TagModel>) -> u8 {
    if ts.len() == 0 {
        0
    } else {
        id_of(ts[0])
    }
}

/// The length-prefixed encoding of a string.
pub open spec fn spec_encode_str(cs: Seq<char>) -> Seq<u8> {
    enc_u16(encode_utf8(cs).len() as u16) + encode_utf8(cs)
}

/// The reference encoder for one tag's payload.
pub open spec fn spec_encode_payload(t: TagModel) -> Seq<u8>
    decreases t,
{
    match t {
        TagModel::End => Seq::empty(),
        TagModel::Byte(b) => seq![b],
        TagModel::Short(v) => enc_u16(v as u16),
        TagModel::Int(v) => enc_u32(v as u32),
        TagModel::Long(v) => enc_u64(v as u64),
        TagModel::Float(b) => enc_u32(b),
        TagModel::Double(b) => enc_u64(b),
        TagModel::ByteArray(bs) => enc_u32(bs.len() as u32) + bs,
        TagModel::Str(cs) => spec_encode_str(cs),
        TagModel::List(ts) => seq![list_elem_id(ts)] + enc_u32(ts.len() as u32)
            + spec_encode_elems(ts),
        TagModel::Compound(es) => spec_encode_entries(es) + seq![0u8],
        TagModel::IntArray(vs) => enc_u32(vs.len() as u32) + spec_encode_i32s(vs),
        TagModel::LongArray(vs) => enc_u32(vs.len() as u32) + spec_encode_i64s(vs),
    }
}

/// The concatenated payload encodings of list elements.
pub open spec fn spec_encode_elems(ts: Seq<TagModel>) -> Seq<u8>
    decreases ts,
{
    if ts.len() == 0 {
        Seq::empty()
    } else {
        spec_encode_payload(ts[0]) + spec_encode_elems(ts.drop_first())
    }
}

/// The concatenated encodings of named compound entries: type identifier,
/// name, payload, for each entry in order.
pub open spec fn spec_encode_entries(es: Seq<(Seq<char>, TagModel)>) -> Seq<u8>
    decreases es,
{
    if es.len() == 0 {
        Seq::empty()
    } else {
        seq![id_of(es[0].1)] + spec_encode_str(es[0].0) + spec_encode_payload(es[0].1)
            + spec_encode_entries(es.drop_first())
    }
}

/// The concatenated big-endian encodings of 32-bit array elements.
pub open spec fn spec_encode_i32s(vs: Seq<i32>) -> Seq<u8>
    decreases vs.len(),
{
    if vs.len() == 0 {
        Seq::empty()
    } else {
        enc_u32(vs[0] as u32) + spec_encode_i32s(vs.drop_first())
    }
}

/// The concatenated big-endian encodings of 64-bit array elements.
pub open spec fn spec_encode_i64s(vs: Seq<i64>) -> Seq<u8>
    decreases vs.len(),
{
    if vs.len() == 0 {
        Seq::empty()
    } else {
        enc_u64(vs[0] as u64) + spec_encode_i64s(vs.drop_first())
    }
}


/// Whether a tag tree can be carried by the wire format: every length fits
/// its fixed-width prefix, every list is homogeneous, and no compound entry
/// is the `End` sentinel.
pub open spec fn encodable(t: TagModel) -> bool
    decreases t,
{
    match t {
        TagModel::End => true,
        TagModel::Byte(_) => true,
        TagModel::Short(_) => true,
        TagModel::Int(_) => true,
        TagModel::Long(_) => true,
        TagModel::Float(_) => true,
        TagModel::Double(_) => true,
        TagModel::ByteArray(bs) => bs.len() <= 0x7FFFFFFF,
        TagModel::Str(cs) => encode_utf8(cs).len() <= 0xFFFF,
        TagModel::List(ts) => ts.len() <= 0x7FFFFFFF && encodable_elems(ts, list_elem_id(ts)),
        TagModel::Compound(es) => encodable_entries(es),
        TagModel::IntArray(vs) => vs.len() <= 0x7FFFFFFF,
        TagModel::LongArray(vs) => vs.len() <= 0x7FFFFFFF,
    }
}

/// Whether every list element has the declared type and can be carried.
pub open spec fn encodable_elems(ts: Seq<TagModel>, id: u8) -> bool
    decreases ts,
{
    ts.len() == 0 || (id_of(ts[0]) == id && encodable(ts[0]) && encodable_elems(
        ts.drop_first(),
        id,
    ))
}

/// Whether every compound entry has an encodable name and value, and none
/// is the `End` sentinel.
pub open spec fn encodable_entries(es: Seq<(Seq<char>, TagModel)>) -> bool
    decreases es,
{
    es.len() == 0 || (!(es[0].1 is End) && encode_utf8(es[0].0).len() <= 0xFFFF && encodable(
        es[0].1,
    ) && encodable_entries(es.drop_first()))
}

} // verus!
