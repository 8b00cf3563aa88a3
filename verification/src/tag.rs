//! The tag tree and its codec: recursive descent over one-byte type
//! identifiers, verified against the reference model in [`crate::model`].

use crate::model::{
    assemble, compound_lookup, enc_u16, enc_u32, enc_u64, encodable, encodable_elems,
    encodable_entries, find_key, id_of, lemma_compound_step, lemma_find_key_absent,
    lemma_find_key_at, lemma_list_step, lemma_payload_not_end, lemma_suffix_suffix, lift_seq,
    list_elem_id, spec_decode_compound, spec_decode_count, spec_decode_list_elems,
    spec_decode_payload, spec_decode_string, spec_encode_elems, spec_encode_entries,
    spec_encode_i32s, spec_encode_i64s, spec_encode_payload, spec_encode_str, spec_parse_nbt,
    spec_tag_by_id, suffix, upsert, DecodeRes, TagModel,
};
use crate::nbt_stream::NBTWrite;
use vstd::string::StrSliceExecFns;
use vstd::utf8::encode_utf8;
use crate::nbt_stream::{Consumable, NBTRead, NbtError};
use vstd::prelude::*;

verus! {

/// One node of a decoded tag tree.
///
/// `Float` and `Double` hold the big-endian bit pattern of their four- or
/// eight-byte payload; a consumer that wants the floating-point value
/// reinterprets the bits outside this crate.  `Compound` holds its entries
/// in insertion order with unique keys.
#[derive(Debug, PartialEq)]
pub enum Tag {
    END,
    Byte(u8),
    Short(i16),
    Int(i32),
    Long(i64),
    Float(u32),
    Double(u64),
    ByteArray(Vec<u8>),
    String(String),
    List(Vec<Tag>),
    Compound(Vec<(String, Tag)>),
    IntArray(Vec<i32>),
    LongArray(Vec<i64>),
}

/// The abstract values of a sequence of tags.
pub open spec fn view_tags(ts: Seq<Tag>) -> Seq<TagModel>
    decreases ts,
{
    if ts.len() == 0 {
        Seq::empty()
    } else {
        seq![ts[0]@] + view_tags(ts.drop_first())
    }
}

/// The abstract values of a sequence of named entries.
pub open spec fn view_entries(es: Seq<(String, Tag)>) -> Seq<(Seq<char>, TagModel)>
    decreases es,
{
    if es.len() == 0 {
        Seq::empty()
    } else {
        seq![(es[0].0@, es[0].1@)] + view_entries(es.drop_first())
    }
}

/// `view_tags` maps the sequence element by element.
pub proof fn lemma_view_tags_index(ts: Seq<Tag>)
    ensures
        view_tags(ts).len() == ts.len(),
        forall|i: int| 0 <= i < ts.len() ==> view_tags(ts)[i] == ts[i]@,
    decreases ts.len(),
{
    if ts.len() > 0 {
        lemma_view_tags_index(ts.drop_first());
        assert(view_tags(ts) == seq![ts[0]@] + view_tags(ts.drop_first()));
        assert(view_tags(ts).len() == ts.len());
        assert forall|i: int| 0 <= i < ts.len() implies view_tags(ts)[i] == ts[i]@ by {
            if i > 0 {
                assert(ts.drop_first()[i - 1] == ts[i]);
            }
        }
    }
}

/// `view_entries` maps the sequence entry by entry.
pub proof fn lemma_view_entries_index(es: Seq<(String, Tag)>)
    ensures
        view_entries(es).len() == es.len(),
        forall|i: int| 0 <= i < es.len() ==> view_entries(es)[i] == (es[i].0@, es[i].1@),
    decreases es.len(),
{
    if es.len() > 0 {
        lemma_view_entries_index(es.drop_first());
        assert(view_entries(es) == seq![(es[0].0@, es[0].1@)] + view_entries(es.drop_first()));
        assert(view_entries(es).len() == es.len());
        assert forall|i: int| 0 <= i < es.len() implies view_entries(es)[i] == (es[i].0@, es[i].1@) by {
            if i > 0 {
                assert(es.drop_first()[i - 1] == es[i]);
            }
        }
    }
}

/// Appending a tag appends its abstract value.
pub proof fn lemma_view_tags_push(ts: Seq<Tag>, t: Tag)
    ensures
        view_tags(ts.push(t)) == view_tags(ts) + seq![t@],
{
    lemma_view_tags_index(ts);
    lemma_view_tags_index(ts.push(t));
    assert(view_tags(ts.push(t)) =~= view_tags(ts) + seq![t@]);
}

/// Appending an entry appends its abstract value.
pub proof fn lemma_view_entries_push(es: Seq<(String, Tag)>, e: (String, Tag))
    ensures
        view_entries(es.push(e)) == view_entries(es) + seq![(e.0@, e.1@)],
{
    lemma_view_entries_index(es);
    lemma_view_entries_index(es.push(e));
    assert(view_entries(es.push(e)) =~= view_entries(es) + seq![(e.0@, e.1@)]);
}

/// The abstract value of an optional name.
pub open spec fn view_name(nm: Option<String>) -> Option<Seq<char>> {
    match nm {
        Some(s) => Some(s@),
        None => None,
    }
}

impl View for Tag {
    type V = TagModel;

    open spec fn view(&self) -> TagModel
        decreases self,
    {
        match self {
            Tag::END => TagModel::End,
            Tag::Byte(b) => TagModel::Byte(*b),
            Tag::Short(v) => TagModel::Short(*v),
            Tag::Int(v) => TagModel::Int(*v),
            Tag::Long(v) => TagModel::Long(*v),
            Tag::Float(v) => TagModel::Float(*v),
            Tag::Double(v) => TagModel::Double(*v),
            Tag::ByteArray(v) => TagModel::ByteArray(v@),
            Tag::String(s) => TagModel::Str(s@),
            Tag::List(v) => TagModel::List(view_tags(v@)),
            Tag::Compound(es) => TagModel::Compound(view_entries(es@)),
            Tag::IntArray(v) => TagModel::IntArray(v@),
            Tag::LongArray(v) => TagModel::LongArray(v@),
        }
    }
}

/// Only the `END` tag has the `End` abstract value.
proof fn lemma_view_end(t: &Tag)
    ensures
        (t@ == TagModel::End) <==> t is END,
{
    match t {
        Tag::END => {},
        Tag::Byte(_) => {},
        Tag::Short(_) => {},
        Tag::Int(_) => {},
        Tag::Long(_) => {},
        Tag::Float(_) => {},
        Tag::Double(_) => {},
        Tag::ByteArray(_) => {},
        Tag::String(_) => {},
        Tag::List(_) => {},
        Tag::Compound(_) => {},
        Tag::IntArray(_) => {},
        Tag::LongArray(_) => {},
    }
}

/// Inserts an entry into a compound's mapping: the value under an existing
/// key is replaced in place, a new key is appended.
fn insert_entry(map: &mut Vec<(String, Tag)>, name: String, tag: Tag)
    ensures
        view_entries(final(map)@) == upsert(view_entries(old(map)@), name@, tag@),
{
    let ghost es0 = view_entries(old(map)@);
    proof {
        lemma_view_entries_index(old(map)@);
    }
    let n = map.len();
    let mut j: usize = 0;
    while j < n
        invariant
            j <= n,
            n == map@.len(),
            map@ == old(map)@,
            es0 == view_entries(old(map)@),
            forall|i: int| 0 <= i < j ==> map@[i].0@ != name@,
        decreases n - j,
    {
        if map[j].0 == name {
            proof {
                lemma_view_entries_index(map@);
                lemma_find_key_at(es0, name@, j as int);
            }
            map[j].1 = tag;
            proof {
                lemma_view_entries_index(map@);
                assert(view_entries(map@) =~= es0.update(j as int, (name@, tag@)));
            }
            return ;
        }
        j += 1;
    }
    proof {
        lemma_view_entries_index(map@);
        lemma_find_key_absent(es0, name@);
        lemma_view_entries_push(map@, (name, tag));
    }
    map.push((name, tag));
    proof {
        assert(view_entries(map@) =~= es0.push((name@, tag@)));
    }
}

/// Reads a signed 32-bit element count then that many primitives of one
/// fixed width, in order.
fn consume_array<T: Consumable>(stream: &mut NBTRead) -> (r: Result<Vec<T>, NbtError>)
    ensures
        ({
            let s = old(stream).remaining();
            let w = T::width();
            match spec_decode_count(s) {
                DecodeRes::Parsed(k, _) => {
                    if s.len() < 4 + w * k {
                        &&& r matches Err(e) && e == NbtError::UnexpectedEof
                        &&& final(stream).remaining() == Seq::<u8>::empty()
                    } else {
                        &&& r matches Ok(v) && v@ == Seq::new(
                            k,
                            |i: int| T::from_be(s.subrange(4 + w * i, 4 + w * i + w)),
                        )
                        &&& final(stream).remaining() == suffix(s, 4 + w * k)
                    }
                },
                DecodeRes::Truncated => {
                    &&& r matches Err(e) && e == NbtError::UnexpectedEof
                    &&& final(stream).remaining() == Seq::<u8>::empty()
                },
                DecodeRes::Malformed => {
                    &&& r matches Err(e) && e == NbtError::Malformed
                    &&& final(stream).remaining() == Seq::<u8>::empty()
                },
            }
        }),
{
    let ghost s = stream.remaining();
    let ghost w = T::width();
    let c = match stream.consume::<i32>() {
        Ok(c) => c,
        Err(e) => {
            return Err(e);
        },
    };
    proof {
        assert(s.take(4) =~= s.subrange(0, 4));
    }
    if c < 0 {
        stream.exhaust();
        return Err(NbtError::Malformed);
    }
    let k = c as usize;
    let ghost se = stream.remaining();
    proof {
        assert(se =~= suffix(s, 4));
    }
    let mut v: Vec<T> = Vec::new();
    let mut idx: usize = 0;
    while idx < k
        invariant
            idx <= k,
            v@.len() == idx,
            w == T::width(),
            s == old(stream).remaining(),
            se == suffix(s, 4),
            spec_decode_count(s) == DecodeRes::<nat>::Parsed(k as nat, 4),
            s.len() >= 4 + w * idx,
            stream.remaining() == suffix(s, (4 + w * idx) as nat),
            forall|i: int| 0 <= i < idx ==> v@[i] == T::from_be(
                s.subrange(4 + w * i, 4 + w * i + w),
            ),
        decreases k - idx,
    {
        proof {
            assert(w * (idx + 1) == w * idx + w) by (nonlinear_arith);
            assert(w * idx + w <= w * k) by (nonlinear_arith)
                requires
                    idx < k,
                    w >= 0,
            ;
        }
        let x = match stream.consume::<T>() {
            Ok(x) => x,
            Err(e) => {
                proof {
                    assert(s.len() < 4 + w * idx + w);
                }
                return Err(e);
            },
        };
        v.push(x);
        proof {
            assert(s.len() >= 4 + w * idx + w);
            let cur = suffix(s, (4 + w * idx) as nat);
            assert(cur.take(w as int) =~= s.subrange(4 + w * idx, 4 + w * idx + w));
            lemma_suffix_suffix(s, (4 + w * idx) as nat, w);
            assert(cur.skip(w as int) =~= suffix(cur, w));
        }
        idx += 1;
    }
    proof {
        assert(v@ =~= Seq::new(
            k as nat,
            |i: int| T::from_be(s.subrange(4 + w * i, 4 + w * i + w)),
        ));
    }
    Ok(v)
}

/// Decodes a list payload: one element-type byte, a signed 32-bit count,
/// then that many payloads of the element type.
#[verifier::rlimit(60)]
fn consume_list_payload(stream: &mut NBTRead) -> (r: Result<Tag, NbtError>)
    ensures
        ({
            let d = spec_decode_payload(old(stream).remaining(), 9);
            match r {
                Ok(t) => d matches DecodeRes::Parsed(m, c) && t@ == m && final(stream).remaining()
                    == suffix(old(stream).remaining(), c),
                Err(e) => final(stream).remaining() == Seq::<u8>::empty() && ((e
                    == NbtError::UnexpectedEof && d is Truncated) || (e == NbtError::Malformed
                    && d is Malformed)),
            }
        }),
    decreases old(stream).remaining().len(), 1nat,
{
    let ghost sp = stream.remaining();
    let elem_id = match stream.consume::<u8>() {
        Ok(x) => x,
        Err(e) => {
            return Err(e);
        },
    };
    let c = match stream.consume::<i32>() {
        Ok(x) => x,
        Err(e) => {
            return Err(e);
        },
    };
    proof {
        assert(sp.len() >= 5);
        assert(sp.take(1)[0] == sp[0]);
        assert(sp.skip(1).take(4) =~= sp.subrange(1, 5));
        assert(sp.skip(1) =~= suffix(sp, 1));
        lemma_suffix_suffix(sp, 1, 4);
        assert(suffix(sp, 1).skip(4) =~= suffix(suffix(sp, 1), 4));
    }
    if c < 0 {
        stream.exhaust();
        return Err(NbtError::Malformed);
    }
    let k = c as usize;
    let ghost se = stream.remaining();
    proof {
        assert(se =~= suffix(sp, 5));
    }
    let mut list: Vec<Tag> = Vec::new();
    let ghost mut used: nat = 0;
    proof {
        assert(suffix(se, 0) =~= se);
        let whole = spec_decode_list_elems(se, elem_id, k as nat);
        if whole is Parsed {
            assert(view_tags(list@) + whole->Parsed_0 =~= whole->Parsed_0);
        }
    }
    let mut idx: usize = 0;
    while idx < k
        invariant
            idx <= k,
            list@.len() == idx,
            sp == old(stream).remaining(),
            sp.len() >= 5,
            se == suffix(sp, 5),
            spec_decode_payload(sp, 9) == (match spec_decode_list_elems(se, elem_id, k as nat) {
                DecodeRes::Parsed(ts, c2) => DecodeRes::Parsed(TagModel::List(ts), (5 + c2) as nat),
                DecodeRes::Truncated => DecodeRes::Truncated,
                DecodeRes::Malformed => DecodeRes::Malformed,
            }),
            stream.remaining() == suffix(se, used),
            spec_decode_list_elems(se, elem_id, k as nat) == lift_seq(
                view_tags(list@),
                used,
                spec_decode_list_elems(suffix(se, used), elem_id, (k - idx) as nat),
            ),
        decreases k - idx,
    {
        let ghost cur = stream.remaining();
        proof {
            assert(cur.len() < sp.len());
        }
        let t = match tag_by_id(stream, elem_id, false) {
            Ok((_, t)) => t,
            Err(e) => {
                proof {
                    lemma_list_step(cur, elem_id, (k - idx) as nat);
                }
                return Err(e);
            },
        };
        proof {
            lemma_list_step(cur, elem_id, (k - idx) as nat);
            let dp = spec_decode_payload(cur, elem_id);
            let c2 = dp->Parsed_1;
            let rest = spec_decode_list_elems(suffix(cur, c2), elem_id, (k - idx - 1) as nat);
            lemma_suffix_suffix(se, used, c2);
            lemma_view_tags_push(list@, t);
            if rest is Parsed {
                assert(view_tags(list@) + (seq![t@] + rest->Parsed_0) =~= view_tags(list@.push(t))
                    + rest->Parsed_0);
            }
            used = used + c2;
        }
        list.push(t);
        idx += 1;
    }
    proof {
        assert(view_tags(list@) + Seq::<TagModel>::empty() =~= view_tags(list@));
        lemma_suffix_suffix(sp, 5, used);
    }
    Ok(Tag::List(list))
}

/// Decodes a compound payload: named tags until one `End` identifier,
/// which is consumed and not stored.
#[verifier::rlimit(60)]
fn consume_compound_payload(stream: &mut NBTRead) -> (r: Result<Tag, NbtError>)
    ensures
        ({
            let d = spec_decode_payload(old(stream).remaining(), 10);
            match r {
                Ok(t) => d matches DecodeRes::Parsed(m, c) && t@ == m && final(stream).remaining()
                    == suffix(old(stream).remaining(), c),
                Err(e) => final(stream).remaining() == Seq::<u8>::empty() && ((e
                    == NbtError::UnexpectedEof && d is Truncated) || (e == NbtError::Malformed
                    && d is Malformed)),
            }
        }),
    decreases old(stream).remaining().len(), 1nat,
{
    let ghost sp = stream.remaining();
    let mut map: Vec<(String, Tag)> = Vec::new();
    let ghost mut raw: Seq<(Seq<char>, TagModel)> = Seq::empty();
    let ghost mut used: nat = 0;
    proof {
        assert(suffix(sp, 0) =~= sp);
        assert(view_entries(map@) =~= assemble(raw));
        let whole = spec_decode_compound(sp);
        if whole is Parsed {
            assert(raw + whole->Parsed_0 =~= whole->Parsed_0);
        }
    }
    loop
        invariant_except_break
            spec_decode_compound(sp) == lift_seq(raw, used, spec_decode_compound(suffix(sp, used))),
        invariant
            sp == old(stream).remaining(),
            stream.remaining() == suffix(sp, used),
            view_entries(map@) == assemble(raw),
        ensures
            view_entries(map@) == assemble(raw),
            spec_decode_compound(sp) == DecodeRes::Parsed(raw, used),
        decreases stream.remaining().len(),
    {
        let ghost cur = stream.remaining();
        let (nm, t) = match parse_nbt(stream, true) {
            Ok(p) => p,
            Err(e) => {
                proof {
                    lemma_compound_step(cur);
                }
                return Err(e);
            },
        };
        let ghost dp = spec_parse_nbt(cur, true);
        let ghost c = dp->Parsed_1;
        proof {
            lemma_compound_step(cur);
            lemma_suffix_suffix(sp, used, c);
        }
        match t {
            Tag::END => {
                proof {
                    lemma_view_end(&t);
                    used = used + c;
                    assert(raw + Seq::<(Seq<char>, TagModel)>::empty() =~= raw);
                }
                break ;
            },
            t => {
                proof {
                    lemma_view_end(&t);
                }
                let name = match nm {
                    Some(n) => n,
                    None => {
                        proof {
                            assert(false);
                        }
                        return Err(NbtError::Malformed);
                    },
                };
                proof {
                    let entry = (name@, t@);
                    let rest = spec_decode_compound(suffix(cur, c));
                    if rest is Parsed {
                        assert(raw + (seq![entry] + rest->Parsed_0) =~= raw.push(entry)
                            + rest->Parsed_0);
                    }
                    assert(raw.push(entry).drop_last() =~= raw);
                    used = used + c;
                    raw = raw.push(entry);
                }
                insert_entry(&mut map, name, t);
            },
        }
    }
    Ok(Tag::Compound(map))
}


/// The wire type identifier of a tag.
pub fn tag_id(t: &Tag) -> (r: u8)
    ensures
        r == id_of(t@),
{
    match t {
        Tag::END => 0,
        Tag::Byte(_) => 1,
        Tag::Short(_) => 2,
        Tag::Int(_) => 3,
        Tag::Long(_) => 4,
        Tag::Float(_) => 5,
        Tag::Double(_) => 6,
        Tag::ByteArray(_) => 7,
        Tag::String(_) => 8,
        Tag::List(_) => 9,
        Tag::Compound(_) => 10,
        Tag::IntArray(_) => 11,
        Tag::LongArray(_) => 12,
    }
}

/// Only the `End` abstract tag has the `End` wire identifier.
proof fn lemma_id_of_end(m: TagModel)
    ensures
        (id_of(m) == 0) <==> m is End,
{
    match m {
        TagModel::End => {},
        TagModel::Byte(_) => {},
        TagModel::Short(_) => {},
        TagModel::Int(_) => {},
        TagModel::Long(_) => {},
        TagModel::Float(_) => {},
        TagModel::Double(_) => {},
        TagModel::ByteArray(_) => {},
        TagModel::Str(_) => {},
        TagModel::List(_) => {},
        TagModel::Compound(_) => {},
        TagModel::IntArray(_) => {},
        TagModel::LongArray(_) => {},
    }
}

/// Writes a length-prefixed string; fails when the text's UTF-8 encoding
/// does not fit the unsigned 16-bit byte count.
fn push_str(stream: &mut NBTWrite, s: &String) -> (r: Result<(), NbtError>)
    ensures
        r is Ok <==> encode_utf8(s@).len() <= 0xFFFF,
        r is Ok ==> final(stream).written() == old(stream).written() + spec_encode_str(s@),
        r matches Err(e) ==> e == NbtError::Unencodable && final(stream).written() == old(
            stream,
        ).written(),
{
    let bytes = s.as_str().as_bytes_vec();
    if bytes.len() > 0xFFFF {
        return Err(NbtError::Unencodable);
    }
    stream.push_u16(bytes.len() as u16);
    stream.push_bytes(&bytes);
    proof {
        assert((old(stream).written() + enc_u16(encode_utf8(s@).len() as u16)) + bytes@
            =~= old(stream).written() + spec_encode_str(s@));
    }
    Ok(())
}


/// Writes the big-endian encodings of 32-bit array elements, in order.
fn write_i32s(stream: &mut NBTWrite, vs: &Vec<i32>)
    ensures
        final(stream).written() == old(stream).written() + spec_encode_i32s(vs@),
{
    let ghost w0 = stream.written();
    proof {
        assert(vs@.skip(0) =~= vs@);
    }
    let n = vs.len();
    let mut i: usize = 0;
    while i < n
        invariant
            i <= n,
            n == vs@.len(),
            w0 + spec_encode_i32s(vs@) == stream.written() + spec_encode_i32s(vs@.skip(i as int)),
        decreases n - i,
    {
        let ghost wb = stream.written();
        proof {
            assert(vs@.skip(i as int).drop_first() =~= vs@.skip(i + 1));
            assert(vs@.skip(i as int)[0] == vs@[i as int]);
        }
        stream.push_u32(vs[i] as u32);
        proof {
            assert((wb + enc_u32(vs@[i as int] as u32)) + spec_encode_i32s(vs@.skip(i + 1)) =~= wb
                + spec_encode_i32s(vs@.skip(i as int)));
        }
        i += 1;
    }
    proof {
        assert(stream.written() + spec_encode_i32s(vs@.skip(n as int)) =~= stream.written());
    }
}

/// Writes the big-endian encodings of 64-bit array elements, in order.
fn write_i64s(stream: &mut NBTWrite, vs: &Vec<i64>)
    ensures
        final(stream).written() == old(stream).written() + spec_encode_i64s(vs@),
{
    let ghost w0 = stream.written();
    proof {
        assert(vs@.skip(0) =~= vs@);
    }
    let n = vs.len();
    let mut i: usize = 0;
    while i < n
        invariant
            i <= n,
            n == vs@.len(),
            w0 + spec_encode_i64s(vs@) == stream.written() + spec_encode_i64s(vs@.skip(i as int)),
        decreases n - i,
    {
        let ghost wb = stream.written();
        proof {
            assert(vs@.skip(i as int).drop_first() =~= vs@.skip(i + 1));
            assert(vs@.skip(i as int)[0] == vs@[i as int]);
        }
        stream.push_u64(vs[i] as u64);
        proof {
            assert((wb + enc_u64(vs@[i as int] as u64)) + spec_encode_i64s(vs@.skip(i + 1)) =~= wb
                + spec_encode_i64s(vs@.skip(i as int)));
        }
        i += 1;
    }
    proof {
        assert(stream.written() + spec_encode_i64s(vs@.skip(n as int)) =~= stream.written());
    }
}

/// Writes a list payload: the element type identifier, the count, then
/// each element's payload.
fn list_to_stream(t: &Tag, v: &Vec<Tag>, stream: &mut NBTWrite) -> (r: Result<(), NbtError>)
    requires
        t is List,
        *v == t->List_0,
    ensures
        r is Ok <==> encodable(t@),
        r is Ok ==> final(stream).written() == old(stream).written() + spec_encode_payload(t@),
        r matches Err(e) ==> e == NbtError::Unencodable,
    decreases *t, 0nat,
{
    let ghost w0 = stream.written();
    if v.len() > 0x7FFFFFFF {
        proof {
            lemma_view_tags_index(v@);
        }
        return Err(NbtError::Unencodable);
    }
    let elem_id = if v.len() == 0 {
        0u8
    } else {
        tag_id(&v[0])
    };
    let ghost ts = view_tags(v@);
    proof {
        lemma_view_tags_index(v@);
        assert(ts.skip(0) =~= ts);
    }
    stream.push_u8(elem_id);
    stream.push_u32(v.len() as u32);
    let n = v.len();
    let mut i: usize = 0;
    while i < n
        invariant
            i <= n,
            n == v@.len(),
            t is List,
            *v == t->List_0,
            ts == view_tags(v@),
            ts.len() == v@.len(),
            forall|j: int| 0 <= j < ts.len() ==> ts[j] == v@[j]@,
            elem_id == list_elem_id(ts),
            encodable_elems(ts, elem_id) <==> encodable_elems(ts.skip(i as int), elem_id),
            w0 + seq![elem_id] + enc_u32(ts.len() as u32) + spec_encode_elems(ts)
                == stream.written() + spec_encode_elems(ts.skip(i as int)),
        decreases n - i,
    {
        proof {
            assert(ts.skip(i as int).drop_first() =~= ts.skip(i + 1));
            assert(ts.skip(i as int)[0] == ts[i as int]);
        }
        let elem = &v[i];
        let tid = tag_id(elem);
        if tid != elem_id {
            return Err(NbtError::Unencodable);
        }
        let ghost wb = stream.written();
        proof {
            assert(decreases_to!(*t => t->List_0));
            assert(decreases_to!(t->List_0 => t->List_0@[i as int]));
            assert(decreases_to!(*t => t->List_0@[i as int]));
            assert(*elem == t->List_0@[i as int]);
        }
        match elem.to_stream(stream) {
            Ok(_) => {},
            Err(e) => {
                return Err(e);
            },
        }
        proof {
            assert((wb + spec_encode_payload(ts[i as int])) + spec_encode_elems(ts.skip(i + 1))
                =~= wb + spec_encode_elems(ts.skip(i as int)));
        }
        i += 1;
    }
    proof {
        assert(stream.written() + spec_encode_elems(ts.skip(n as int)) =~= stream.written());
    }
    Ok(())
}

/// Writes a compound payload: each entry as type identifier, name and
/// payload, closed by one `End` identifier.
fn compound_to_stream(t: &Tag, es: &Vec<(String, Tag)>, stream: &mut NBTWrite) -> (r: Result<
    (),
    NbtError,
>)
    requires
        t is Compound,
        *es == t->Compound_0,
    ensures
        r is Ok <==> encodable(t@),
        r is Ok ==> final(stream).written() == old(stream).written() + spec_encode_payload(t@),
        r matches Err(e) ==> e == NbtError::Unencodable,
    decreases *t, 0nat,
{
    let ghost w0 = stream.written();
    let ghost ens = view_entries(es@);
    proof {
        lemma_view_entries_index(es@);
        assert(ens.skip(0) =~= ens);
    }
    let n = es.len();
    let mut i: usize = 0;
    while i < n
        invariant
            i <= n,
            n == es@.len(),
            t is Compound,
            *es == t->Compound_0,
            ens == view_entries(es@),
            ens.len() == es@.len(),
            forall|j: int| 0 <= j < ens.len() ==> ens[j] == (es@[j].0@, es@[j].1@),
            encodable_entries(ens) <==> encodable_entries(ens.skip(i as int)),
            w0 + spec_encode_entries(ens) == stream.written() + spec_encode_entries(
                ens.skip(i as int),
            ),
        decreases n - i,
    {
        proof {
            assert(ens.skip(i as int).drop_first() =~= ens.skip(i + 1));
            assert(ens.skip(i as int)[0] == ens[i as int]);
        }
        let value = &es[i].1;
        let vid = tag_id(value);
        proof {
            lemma_id_of_end(ens[i as int].1);
        }
        if vid == 0 {
            return Err(NbtError::Unencodable);
        }
        let ghost wb = stream.written();
        stream.push_u8(vid);
        match push_str(stream, &es[i].0) {
            Ok(_) => {},
            Err(e) => {
                return Err(e);
            },
        }
        proof {
            assert(decreases_to!(*t => t->Compound_0));
            assert(decreases_to!(t->Compound_0 => t->Compound_0@[i as int]));
            assert(decreases_to!(t->Compound_0@[i as int] => t->Compound_0@[i as int].1));
            assert(decreases_to!(*t => t->Compound_0@[i as int].1));
            assert(*value == t->Compound_0@[i as int].1);
        }
        match value.to_stream(stream) {
            Ok(_) => {},
            Err(e) => {
                return Err(e);
            },
        }
        proof {
            assert((((wb + seq![vid]) + spec_encode_str(ens[i as int].0)) + spec_encode_payload(
                ens[i as int].1,
            )) + spec_encode_entries(ens.skip(i + 1)) =~= wb + spec_encode_entries(
                ens.skip(i as int),
            ));
        }
        i += 1;
    }
    stream.push_u8(0);
    proof {
        assert(ens.skip(n as int) =~= Seq::<(Seq<char>, TagModel)>::empty());
        assert((w0 + spec_encode_entries(ens)) + seq![0u8] =~= w0 + spec_encode_payload(t@));
    }
    Ok(())
}

/// Decodes a byte-array payload: a signed 32-bit count then that many bytes.
fn consume_byte_array_payload(stream: &mut NBTRead) -> (r: Result<Tag, NbtError>)
    ensures
        ({
            let d = spec_decode_payload(old(stream).remaining(), 7);
            match r {
                Ok(t) => d matches DecodeRes::Parsed(m, c) && t@ == m && final(stream).remaining()
                    == suffix(old(stream).remaining(), c),
                Err(e) => final(stream).remaining() == Seq::<u8>::empty() && ((e
                    == NbtError::UnexpectedEof && d is Truncated) || (e == NbtError::Malformed
                    && d is Malformed)),
            }
        }),
{
    let ghost sp = stream.remaining();
    match consume_array::<u8>(stream) {
        Ok(v) => {
            proof {
                let d = spec_decode_count(sp);
                if d is Parsed {
                    let k = d->Parsed_0;
                    assert(v@ =~= Seq::new(k, |i: int| sp[4 + i]));
                }
            }
            Ok(Tag::ByteArray(v))
        },
        Err(e) => Err(e),
    }
}

/// Decodes an integer-array payload: a signed 32-bit count then that many
/// big-endian 32-bit integers.
fn consume_int_array_payload(stream: &mut NBTRead) -> (r: Result<Tag, NbtError>)
    ensures
        ({
            let d = spec_decode_payload(old(stream).remaining(), 11);
            match r {
                Ok(t) => d matches DecodeRes::Parsed(m, c) && t@ == m && final(stream).remaining()
                    == suffix(old(stream).remaining(), c),
                Err(e) => final(stream).remaining() == Seq::<u8>::empty() && ((e
                    == NbtError::UnexpectedEof && d is Truncated) || (e == NbtError::Malformed
                    && d is Malformed)),
            }
        }),
{
    let ghost sp = stream.remaining();
    match consume_array::<i32>(stream) {
        Ok(v) => {
            proof {
                let d = spec_decode_count(sp);
                if d is Parsed {
                    let k = d->Parsed_0;
                    assert(v@ =~= Seq::new(
                        k,
                        |i: int| crate::model::be_u32(sp.subrange(4 + 4 * i, 8 + 4 * i)) as i32,
                    ));
                }
            }
            Ok(Tag::IntArray(v))
        },
        Err(e) => Err(e),
    }
}

/// Decodes a long-array payload: a signed 32-bit count then that many
/// big-endian 64-bit integers.
fn consume_long_array_payload(stream: &mut NBTRead) -> (r: Result<Tag, NbtError>)
    ensures
        ({
            let d = spec_decode_payload(old(stream).remaining(), 12);
            match r {
                Ok(t) => d matches DecodeRes::Parsed(m, c) && t@ == m && final(stream).remaining()
                    == suffix(old(stream).remaining(), c),
                Err(e) => final(stream).remaining() == Seq::<u8>::empty() && ((e
                    == NbtError::UnexpectedEof && d is Truncated) || (e == NbtError::Malformed
                    && d is Malformed)),
            }
        }),
{
    let ghost sp = stream.remaining();
    match consume_array::<i64>(stream) {
        Ok(v) => {
            proof {
                let d = spec_decode_count(sp);
                if d is Parsed {
                    let k = d->Parsed_0;
                    assert(v@ =~= Seq::new(
                        k,
                        |i: int| crate::model::be_u64(sp.subrange(4 + 8 * i, 12 + 8 * i)) as i64,
                    ));
                }
            }
            Ok(Tag::LongArray(v))
        },
        Err(e) => Err(e),
    }
}

/// Decodes the payload of one tag: the bytes after its type identifier and
/// name.  Returns exactly what the reference decoder
/// [`spec_decode_payload`] says, and exhausts the source on any failure.
#[verifier::rlimit(100)]
pub fn payload_by_id(stream: &mut NBTRead, id: u8) -> (r: Result<Tag, NbtError>)
    ensures
        ({
            let d = spec_decode_payload(old(stream).remaining(), id);
            match r {
                Ok(t) => d matches DecodeRes::Parsed(m, c) && t@ == m && final(stream).remaining()
                    == suffix(old(stream).remaining(), c),
                Err(e) => final(stream).remaining() == Seq::<u8>::empty() && ((e
                    == NbtError::UnexpectedEof && d is Truncated) || (e == NbtError::Malformed
                    && d is Malformed)),
            }
        }),
    decreases old(stream).remaining().len(), 2nat,
{
    let ghost sp = stream.remaining();
    match id {
        0 => {
            proof {
                assert(suffix(sp, 0) =~= sp);
            }
            Ok(Tag::END)
        },
        1 => match stream.consume::<u8>() {
            Ok(x) => {
                proof {
                    assert(sp.take(1)[0] == sp[0]);
                    assert(sp.skip(1) =~= suffix(sp, 1));
                }
                Ok(Tag::Byte(x))
            },
            Err(e) => Err(e),
        },
        2 => match stream.consume::<i16>() {
            Ok(x) => {
                proof {
                    assert(sp.take(2) =~= sp.subrange(0, 2));
                    assert(sp.skip(2) =~= suffix(sp, 2));
                }
                Ok(Tag::Short(x))
            },
            Err(e) => Err(e),
        },
        3 => match stream.consume::<i32>() {
            Ok(x) => {
                proof {
                    assert(sp.take(4) =~= sp.subrange(0, 4));
                    assert(sp.skip(4) =~= suffix(sp, 4));
                }
                Ok(Tag::Int(x))
            },
            Err(e) => Err(e),
        },
        4 => match stream.consume::<i64>() {
            Ok(x) => {
                proof {
                    assert(sp.take(8) =~= sp.subrange(0, 8));
                    assert(sp.skip(8) =~= suffix(sp, 8));
                }
                Ok(Tag::Long(x))
            },
            Err(e) => Err(e),
        },
        5 => match stream.consume::<u32>() {
            Ok(x) => {
                proof {
                    assert(sp.take(4) =~= sp.subrange(0, 4));
                    assert(sp.skip(4) =~= suffix(sp, 4));
                }
                Ok(Tag::Float(x))
            },
            Err(e) => Err(e),
        },
        6 => match stream.consume::<u64>() {
            Ok(x) => {
                proof {
                    assert(sp.take(8) =~= sp.subrange(0, 8));
                    assert(sp.skip(8) =~= suffix(sp, 8));
                }
                Ok(Tag::Double(x))
            },
            Err(e) => Err(e),
        },
        7 => consume_byte_array_payload(stream),
        8 => match stream.consume_string() {
            Ok(s) => Ok(Tag::String(s)),
            Err(e) => Err(e),
        },
        9 => consume_list_payload(stream),
        10 => consume_compound_payload(stream),
        11 => consume_int_array_payload(stream),
        12 => consume_long_array_payload(stream),
        _ => {
            stream.exhaust();
            Err(NbtError::Malformed)
        },
    }
}

/// Decodes one tag whose type identifier has already been consumed: its
/// name first, when `include_name` is set and the identifier is not the
/// `End` marker, then its payload.
pub fn tag_by_id(stream: &mut NBTRead, id: u8, include_name: bool) -> (r: Result<
    (Option<String>, Tag),
    NbtError,
>)
    ensures
        ({
            let d = spec_tag_by_id(old(stream).remaining(), id, include_name);
            match r {
                Ok((nm, t)) => d matches DecodeRes::Parsed(v, c) && view_name(nm) == v.0 && t@
                    == v.1 && final(stream).remaining() == suffix(old(stream).remaining(), c),
                Err(e) => final(stream).remaining() == Seq::<u8>::empty() && ((e
                    == NbtError::UnexpectedEof && d is Truncated) || (e == NbtError::Malformed
                    && d is Malformed)),
            }
        }),
    decreases old(stream).remaining().len(), 3nat,
{
    let ghost s0 = stream.remaining();
    let name: Option<String> = if include_name && id != 0 {
        match stream.consume_string() {
            Ok(s) => Some(s),
            Err(e) => {
                return Err(e);
            },
        }
    } else {
        None
    };
    let ghost sp = stream.remaining();
    let tag = match payload_by_id(stream, id) {
        Ok(t) => t,
        Err(e) => {
            return Err(e);
        },
    };
    proof {
        if include_name && id != 0 {
            let c1 = spec_decode_string(s0)->Parsed_1;
            let c2 = spec_decode_payload(sp, id)->Parsed_1;
            lemma_suffix_suffix(s0, c1, c2);
        }
    }
    Ok((name, tag))
}

/// Decodes one complete tag from the front of the stream: one type
/// identifier byte, then the tag it announces.
pub fn parse_nbt(stream: &mut NBTRead, include_name: bool) -> (r: Result<
    (Option<String>, Tag),
    NbtError,
>)
    ensures
        ({
            let d = spec_parse_nbt(old(stream).remaining(), include_name);
            match r {
                Ok((nm, t)) => d matches DecodeRes::Parsed(v, c) && view_name(nm) == v.0 && t@
                    == v.1 && final(stream).remaining() == suffix(old(stream).remaining(), c),
                Err(e) => final(stream).remaining() == Seq::<u8>::empty() && ((e
                    == NbtError::UnexpectedEof && d is Truncated) || (e == NbtError::Malformed
                    && d is Malformed)),
            }
        }),
    decreases old(stream).remaining().len(), 0nat,
{
    let ghost s0 = stream.remaining();
    let id = match stream.consume::<u8>() {
        Ok(id) => id,
        Err(e) => {
            return Err(e);
        },
    };
    proof {
        assert(s0.take(1)[0] == s0[0]);
        assert(s0.skip(1) =~= suffix(s0, 1));
    }
    let r = tag_by_id(stream, id, include_name);
    proof {
        let d2 = spec_tag_by_id(suffix(s0, 1), id, include_name);
        if d2 is Parsed {
            lemma_suffix_suffix(s0, 1, d2->Parsed_1);
        }
    }
    r
}

impl Tag {
    /// Decodes a full tag tree: the root's type identifier, its name, and
    /// its payload.  The name is consumed and discarded.
    /// The value of a `Byte` tag.
    pub fn byte(&self) -> (r: Option<u8>)
        ensures
            r == (match self@ {
                TagModel::Byte(b) => Some(b),
                _ => None::<u8>,
            }),
    {
        match self {
            Tag::Byte(b) => Some(*b),
            _ => None,
        }
    }

    /// The value of a `Short` tag.
    pub fn short(&self) -> (r: Option<i16>)
        ensures
            r == (match self@ {
                TagModel::Short(v) => Some(v),
                _ => None::<i16>,
            }),
    {
        match self {
            Tag::Short(v) => Some(*v),
            _ => None,
        }
    }

    /// The value of an `Int` tag.
    pub fn int_value(&self) -> (r: Option<i32>)
        ensures
            r == (match self@ {
                TagModel::Int(v) => Some(v),
                _ => None::<i32>,
            }),
    {
        match self {
            Tag::Int(v) => Some(*v),
            _ => None,
        }
    }

    /// The value of a `Long` tag.
    pub fn long(&self) -> (r: Option<i64>)
        ensures
            r == (match self@ {
                TagModel::Long(v) => Some(v),
                _ => None::<i64>,
            }),
    {
        match self {
            Tag::Long(v) => Some(*v),
            _ => None,
        }
    }

    /// The bit pattern of a `Float` tag.
    pub fn float(&self) -> (r: Option<u32>)
        ensures
            r == (match self@ {
                TagModel::Float(v) => Some(v),
                _ => None::<u32>,
            }),
    {
        match self {
            Tag::Float(v) => Some(*v),
            _ => None,
        }
    }

    /// The bit pattern of a `Double` tag.
    pub fn double(&self) -> (r: Option<u64>)
        ensures
            r == (match self@ {
                TagModel::Double(v) => Some(v),
                _ => None::<u64>,
            }),
    {
        match self {
            Tag::Double(v) => Some(*v),
            _ => None,
        }
    }

    /// The text of a `String` tag.
    pub fn string(&self) -> (r: Option<&String>)
        ensures
            match r {
                Some(s) => self@ == TagModel::Str(s@),
                None => !(self@ is Str),
            },
    {
        match self {
            Tag::String(s) => Some(s),
            _ => None,
        }
    }

    /// The elements of a `List` tag.
    pub fn list(&self) -> (r: Option<&Vec<Tag>>)
        ensures
            match r {
                Some(v) => self@ == TagModel::List(view_tags(v@)),
                None => !(self@ is List),
            },
    {
        match self {
            Tag::List(v) => Some(v),
            _ => None,
        }
    }

    /// The entries of a `Compound` tag, in insertion order.
    pub fn compound(&self) -> (r: Option<&Vec<(String, Tag)>>)
        ensures
            match r {
                Some(es) => self@ == TagModel::Compound(view_entries(es@)),
                None => !(self@ is Compound),
            },
    {
        match self {
            Tag::Compound(es) => Some(es),
            _ => None,
        }
    }

    /// The elements of an `IntArray` tag.
    pub fn int_array(&self) -> (r: Option<&Vec<i32>>)
        ensures
            match r {
                Some(v) => self@ == TagModel::IntArray(v@),
                None => !(self@ is IntArray),
            },
    {
        match self {
            Tag::IntArray(v) => Some(v),
            _ => None,
        }
    }

    /// The value under a key of a `Compound` tag.
    pub fn compound_get<'a>(&'a self, name: &String) -> (r: Option<&'a Tag>)
        ensures
            match r {
                Some(t) => compound_lookup(self@, name@) == Some(t@),
                None => compound_lookup(self@, name@) is None,
            },
    {
        let es = match self {
            Tag::Compound(es) => es,
            _ => {
                return None;
            },
        };
        let n = es.len();
        let mut j: usize = 0;
        while j < n
            invariant
                j <= n,
                n == es@.len(),
                self@ == TagModel::Compound(view_entries(es@)),
                forall|i: int| 0 <= i < j ==> es@[i].0@ != name@,
            decreases n - j,
        {
            if es[j].0 == *name {
                proof {
                    lemma_view_entries_index(es@);
                    lemma_find_key_at(view_entries(es@), name@, j as int);
                }
                return Some(&es[j].1);
            }
            j += 1;
        }
        proof {
            lemma_view_entries_index(es@);
            lemma_find_key_absent(view_entries(es@), name@);
        }
        None
    }

    /// Inserts into a `Compound` tag's mapping: the value under an existing
    /// key is replaced in place, a new key is appended.  Leaves any other
    /// tag unchanged and reports whether it inserted.
    pub fn compound_insert(&mut self, name: String, tag: Tag) -> (r: bool)
        ensures
            match old(self)@ {
                TagModel::Compound(es) => r && final(self)@ == TagModel::Compound(
                    upsert(es, name@, tag@),
                ),
                _ => !r && *final(self) == *old(self),
            },
    {
        match self {
            Tag::Compound(es) => {
                insert_entry(es, name, tag);
                true
            },
            _ => false,
        }
    }

    /// Writes this tag's payload to the sink.  It succeeds exactly on the
    /// trees the wire format can carry; on failure the sink may hold a
    /// partial prefix of the encoding.
    pub fn to_stream(&self, stream: &mut NBTWrite) -> (r: Result<(), NbtError>)
        ensures
            r is Ok <==> encodable(self@),
            r is Ok ==> final(stream).written() == old(stream).written() + spec_encode_payload(
                self@,
            ),
            r matches Err(e) ==> e == NbtError::Unencodable,
        decreases *self, 1nat,
    {
        let ghost w0 = stream.written();
        match self {
            Tag::END => {
                proof {
                    assert(w0 + Seq::<u8>::empty() =~= w0);
                }
                Ok(())
            },
            Tag::Byte(b) => {
                stream.push_u8(*b);
                Ok(())
            },
            Tag::Short(v) => {
                stream.push_u16(*v as u16);
                Ok(())
            },
            Tag::Int(v) => {
                stream.push_u32(*v as u32);
                Ok(())
            },
            Tag::Long(v) => {
                stream.push_u64(*v as u64);
                Ok(())
            },
            Tag::Float(b) => {
                stream.push_u32(*b);
                Ok(())
            },
            Tag::Double(b) => {
                stream.push_u64(*b);
                Ok(())
            },
            Tag::ByteArray(bs) => {
                if bs.len() > 0x7FFFFFFF {
                    return Err(NbtError::Unencodable);
                }
                stream.push_u32(bs.len() as u32);
                stream.push_bytes(bs);
                proof {
                    assert((w0 + enc_u32(bs@.len() as u32)) + bs@ =~= w0 + spec_encode_payload(
                        self@,
                    ));
                }
                Ok(())
            },
            Tag::String(str_val) => {
                match push_str(stream, str_val) {
                    Ok(_) => Ok(()),
                    Err(e) => Err(e),
                }
            },
            Tag::IntArray(vs) => {
                if vs.len() > 0x7FFFFFFF {
                    return Err(NbtError::Unencodable);
                }
                stream.push_u32(vs.len() as u32);
                write_i32s(stream, vs);
                proof {
                    assert((w0 + enc_u32(vs@.len() as u32)) + spec_encode_i32s(vs@) =~= w0
                        + spec_encode_payload(self@));
                }
                Ok(())
            },
            Tag::LongArray(vs) => {
                if vs.len() > 0x7FFFFFFF {
                    return Err(NbtError::Unencodable);
                }
                stream.push_u32(vs.len() as u32);
                write_i64s(stream, vs);
                proof {
                    assert((w0 + enc_u32(vs@.len() as u32)) + spec_encode_i64s(vs@) =~= w0
                        + spec_encode_payload(self@));
                }
                Ok(())
            },
            Tag::List(v) => list_to_stream(self, v, stream),
            Tag::Compound(es) => compound_to_stream(self, es, stream),
        }
    }

    /// Encodes this tag's payload as a byte sequence.  It succeeds exactly
    /// on the trees the wire format can carry.
    pub fn to_bytes(&self) -> (r: Result<Vec<u8>, NbtError>)
        ensures
            match r {
                Ok(v) => encodable(self@) && v@ == spec_encode_payload(self@),
                Err(e) => !encodable(self@) && e == NbtError::Unencodable,
            },
    {
        let mut w = NBTWrite::new();
        match self.to_stream(&mut w) {
            Ok(_) => {
                proof {
                    assert(Seq::<u8>::empty() + spec_encode_payload(self@) =~= spec_encode_payload(
                        self@,
                    ));
                }
                Ok(w.into_bytes())
            },
            Err(e) => Err(e),
        }
    }

    pub fn from_stream(stream: &mut NBTRead) -> (r: Result<Tag, NbtError>)
        ensures
            ({
                let d = spec_parse_nbt(old(stream).remaining(), true);
                match r {
                    Ok(t) => d matches DecodeRes::Parsed(v, c) && t@ == v.1
                        && final(stream).remaining() == suffix(old(stream).remaining(), c),
                    Err(e) => final(stream).remaining() == Seq::<u8>::empty() && ((e
                        == NbtError::UnexpectedEof && d is Truncated) || (e == NbtError::Malformed
                        && d is Malformed)),
                }
            }),
    {
        match parse_nbt(stream, true) {
            Ok((_, tag)) => Ok(tag),
            Err(e) => Err(e),
        }
    }
}


/// Construction of tags from plain values and basic containers.
///
/// Each homogeneous numeric sequence maps to its dedicated array variant
/// through its own checked implementation, never through reinterpretation.
pub trait ToTag: Sized {
    /// The abstract tag the value becomes.
    spec fn tag_model(self) -> TagModel;

    /// Wraps the value in its tag variant.
    fn to_tag(self) -> (r: Tag)
        ensures
            r@ == self.tag_model(),
    ;
}

impl ToTag for u8 {
    open spec fn tag_model(self) -> TagModel {
        TagModel::Byte(self)
    }

    fn to_tag(self) -> (r: Tag) {
        Tag::Byte(self)
    }
}

impl ToTag for i16 {
    open spec fn tag_model(self) -> TagModel {
        TagModel::Short(self)
    }

    fn to_tag(self) -> (r: Tag) {
        Tag::Short(self)
    }
}

impl ToTag for i32 {
    open spec fn tag_model(self) -> TagModel {
        TagModel::Int(self)
    }

    fn to_tag(self) -> (r: Tag) {
        Tag::Int(self)
    }
}

impl ToTag for i64 {
    open spec fn tag_model(self) -> TagModel {
        TagModel::Long(self)
    }

    fn to_tag(self) -> (r: Tag) {
        Tag::Long(self)
    }
}

impl ToTag for String {
    open spec fn tag_model(self) -> TagModel {
        TagModel::Str(self@)
    }

    fn to_tag(self) -> (r: Tag) {
        Tag::String(self)
    }
}

impl ToTag for Vec<u8> {
    open spec fn tag_model(self) -> TagModel {
        TagModel::ByteArray(self@)
    }

    fn to_tag(self) -> (r: Tag) {
        Tag::ByteArray(self)
    }
}

impl ToTag for Vec<i32> {
    open spec fn tag_model(self) -> TagModel {
        TagModel::IntArray(self@)
    }

    fn to_tag(self) -> (r: Tag) {
        Tag::IntArray(self)
    }
}

impl ToTag for Vec<i64> {
    open spec fn tag_model(self) -> TagModel {
        TagModel::LongArray(self@)
    }

    fn to_tag(self) -> (r: Tag) {
        Tag::LongArray(self)
    }
}

impl ToTag for Vec<Tag> {
    open spec fn tag_model(self) -> TagModel {
        TagModel::List(view_tags(self@))
    }

    fn to_tag(self) -> (r: Tag) {
        Tag::List(self)
    }
}

impl ToTag for Vec<(String, Tag)> {
    open spec fn tag_model(self) -> TagModel {
        TagModel::Compound(view_entries(self@))
    }

    fn to_tag(self) -> (r: Tag) {
        Tag::Compound(self)
    }
}

} // verus!
