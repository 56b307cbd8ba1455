//! Reading the canonical byte form back.
//!
//! Every record and message is a sequence of fields of a few kinds. This
//! module says how a sequence of fields is written and read, and proves that
//! reading undoes writing and writing undoes reading. The decoders of the
//! single types are built on it.

use crate::codec::{enc_bytes, enc_i32, enc_i64, enc_u16, enc_u32, enc_u64};
use crate::crypto;
use crate::merkle::hash_views;
use crate::messages::enc_hashes;
use crate::records::{enc_ids, enc_shares, ContentShare};
use vstd::bytes::*;
use vstd::prelude::*;

verus! {

/// The kinds of fields.
#[derive(Clone, Copy, Debug, PartialEq, Eq, Structural)]
pub enum Kind {
    /// One byte.
    U8,
    /// A 16-bit integer.
    U16,
    /// A 32-bit integer.
    U32,
    /// A 64-bit integer.
    U64,
    /// A signed 32-bit integer.
    I32,
    /// A signed 64-bit integer.
    I64,
    /// 32 raw bytes: a hash or a public key.
    Key,
    /// 64 raw bytes: a signature.
    Sig,
    /// A byte string with its length before it.
    Text,
    /// A list of shares with its length before it.
    Shares,
    /// A list of 16-bit ids with its length before it.
    Ids,
    /// A list of hashes with its length before it.
    Hashes,
}

/// The value of a field.
#[derive(Debug)]
pub enum Field {
    U8(u8),
    U16(u16),
    U32(u32),
    U64(u64),
    I32(i32),
    I64(i64),
    Key([u8; 32]),
    Sig([u8; 64]),
    Text(Vec<u8>),
    Shares(Vec<ContentShare>),
    Ids(Vec<u16>),
    Hashes(Vec<crypto::Hash>),
}

/// The value of a field as mathematical values.
pub enum FieldView {
    U8(u8),
    U16(u16),
    U32(u32),
    U64(u64),
    I32(i32),
    I64(i64),
    Key(Seq<u8>),
    Sig(Seq<u8>),
    Text(Seq<u8>),
    Shares(Seq<ContentShare>),
    Ids(Seq<u16>),
    Hashes(Seq<Seq<u8>>),
}

impl View for Field {
    type V = FieldView;

    open spec fn view(&self) -> FieldView {
        match self {
            Field::U8(x) => FieldView::U8(*x),
            Field::U16(x) => FieldView::U16(*x),
            Field::U32(x) => FieldView::U32(*x),
            Field::U64(x) => FieldView::U64(*x),
            Field::I32(x) => FieldView::I32(*x),
            Field::I64(x) => FieldView::I64(*x),
            Field::Key(k) => FieldView::Key(k@),
            Field::Sig(s) => FieldView::Sig(s@),
            Field::Text(t) => FieldView::Text(t@),
            Field::Shares(s) => FieldView::Shares(s@),
            Field::Ids(s) => FieldView::Ids(s@),
            Field::Hashes(h) => FieldView::Hashes(hash_views(h@)),
        }
    }
}

/// The kind of a field value.
pub open spec fn kind_of(f: FieldView) -> Kind {
    match f {
        FieldView::U8(_) => Kind::U8,
        FieldView::U16(_) => Kind::U16,
        FieldView::U32(_) => Kind::U32,
        FieldView::U64(_) => Kind::U64,
        FieldView::I32(_) => Kind::I32,
        FieldView::I64(_) => Kind::I64,
        FieldView::Key(_) => Kind::Key,
        FieldView::Sig(_) => Kind::Sig,
        FieldView::Text(_) => Kind::Text,
        FieldView::Shares(_) => Kind::Shares,
        FieldView::Ids(_) => Kind::Ids,
        FieldView::Hashes(_) => Kind::Hashes,
    }
}

/// Whether a field value can be written: raw bytes have their fixed width and
/// lengths fit their 64-bit prefix.
pub open spec fn field_ok(f: FieldView) -> bool {
    match f {
        FieldView::Key(k) => k.len() == 32,
        FieldView::Sig(s) => s.len() == 64,
        FieldView::Text(t) => t.len() <= u64::MAX,
        FieldView::Shares(s) => s.len() <= u64::MAX,
        FieldView::Ids(s) => s.len() <= u64::MAX,
        FieldView::Hashes(h) => h.len() <= u64::MAX && forall|i: int|
            0 <= i < h.len() ==> (#[trigger] h[i]).len() == 32,
        _ => true,
    }
}

/// Byte strings of one width, one after the other.
pub open spec fn flat(chunks: Seq<Seq<u8>>) -> Seq<u8>
    decreases chunks.len(),
{
    if chunks.len() == 0 {
        Seq::empty()
    } else {
        flat(chunks.drop_last()) + chunks.last()
    }
}

/// The bytes of a field.
pub open spec fn enc_field(f: FieldView) -> Seq<u8> {
    match f {
        FieldView::U8(x) => seq![x],
        FieldView::U16(x) => enc_u16(x),
        FieldView::U32(x) => enc_u32(x),
        FieldView::U64(x) => enc_u64(x),
        FieldView::I32(x) => enc_i32(x),
        FieldView::I64(x) => enc_i64(x),
        FieldView::Key(k) => k,
        FieldView::Sig(s) => s,
        FieldView::Text(t) => enc_bytes(t),
        FieldView::Shares(s) => enc_u64(s.len() as u64) + enc_shares(s),
        FieldView::Ids(s) => enc_u64(s.len() as u64) + enc_ids(s),
        FieldView::Hashes(h) => enc_u64(h.len() as u64) + flat(h),
    }
}

/// The bytes of a sequence of fields.
pub open spec fn enc_fields(fs: Seq<FieldView>) -> Seq<u8>
    decreases fs.len(),
{
    if fs.len() == 0 {
        Seq::empty()
    } else {
        enc_field(fs[0]) + enc_fields(fs.skip(1))
    }
}

/// The share at position `i` of a list written in `b`.
pub open spec fn share_at(b: Seq<u8>, i: int) -> ContentShare {
    ContentShare {
        owner_id: spec_u16_from_le_bytes(b.subrange(4 * i, 4 * i + 2)),
        share: spec_u16_from_le_bytes(b.subrange(4 * i + 2, 4 * i + 4)),
    }
}

/// The list of `n` shares written in `b`.
pub open spec fn dec_shares(b: Seq<u8>, n: nat) -> Seq<ContentShare> {
    Seq::new(n, |i: int| share_at(b, i))
}

/// The list of `n` ids written in `b`.
pub open spec fn dec_ids(b: Seq<u8>, n: nat) -> Seq<u16> {
    Seq::new(n, |i: int| spec_u16_from_le_bytes(b.subrange(2 * i, 2 * i + 2)))
}

/// The list of `n` hashes written in `b`.
pub open spec fn dec_chunks(b: Seq<u8>, n: nat) -> Seq<Seq<u8>> {
    Seq::new(n, |i: int| b.subrange(32 * i, 32 * i + 32))
}

/// The field of kind `k` at the front of `b` and the bytes after it, if `b`
/// starts with such a field.
pub open spec fn dec_field(k: Kind, b: Seq<u8>) -> Option<(FieldView, Seq<u8>)> {
    match k {
        Kind::U8 => if b.len() >= 1 {
            Some((FieldView::U8(b[0]), b.skip(1)))
        } else {
            None
        },
        Kind::U16 => if b.len() >= 2 {
            Some((FieldView::U16(spec_u16_from_le_bytes(b.take(2))), b.skip(2)))
        } else {
            None
        },
        Kind::U32 => if b.len() >= 4 {
            Some((FieldView::U32(spec_u32_from_le_bytes(b.take(4))), b.skip(4)))
        } else {
            None
        },
        Kind::U64 => if b.len() >= 8 {
            Some((FieldView::U64(spec_u64_from_le_bytes(b.take(8))), b.skip(8)))
        } else {
            None
        },
        Kind::I32 => if b.len() >= 4 {
            Some((FieldView::I32(spec_u32_from_le_bytes(b.take(4)) as i32), b.skip(4)))
        } else {
            None
        },
        Kind::I64 => if b.len() >= 8 {
            Some((FieldView::I64(spec_u64_from_le_bytes(b.take(8)) as i64), b.skip(8)))
        } else {
            None
        },
        Kind::Key => if b.len() >= 32 {
            Some((FieldView::Key(b.take(32)), b.skip(32)))
        } else {
            None
        },
        Kind::Sig => if b.len() >= 64 {
            Some((FieldView::Sig(b.take(64)), b.skip(64)))
        } else {
            None
        },
        Kind::Text => if b.len() >= 8 && b.len() - 8 >= spec_u64_from_le_bytes(b.take(8)) {
            let n = spec_u64_from_le_bytes(b.take(8)) as int;
            Some((FieldView::Text(b.subrange(8, 8 + n)), b.skip(8 + n)))
        } else {
            None
        },
        Kind::Shares => if b.len() >= 8 && b.len() - 8 >= 4 * spec_u64_from_le_bytes(b.take(8)) {
            let n = spec_u64_from_le_bytes(b.take(8)) as int;
            Some(
                (
                    FieldView::Shares(dec_shares(b.subrange(8, 8 + 4 * n), n as nat)),
                    b.skip(8 + 4 * n),
                ),
            )
        } else {
            None
        },
        Kind::Ids => if b.len() >= 8 && b.len() - 8 >= 2 * spec_u64_from_le_bytes(b.take(8)) {
            let n = spec_u64_from_le_bytes(b.take(8)) as int;
            Some(
                (FieldView::Ids(dec_ids(b.subrange(8, 8 + 2 * n), n as nat)), b.skip(8 + 2 * n)),
            )
        } else {
            None
        },
        Kind::Hashes => if b.len() >= 8 && b.len() - 8 >= 32 * spec_u64_from_le_bytes(b.take(8)) {
            let n = spec_u64_from_le_bytes(b.take(8)) as int;
            Some(
                (
                    FieldView::Hashes(dec_chunks(b.subrange(8, 8 + 32 * n), n as nat)),
                    b.skip(8 + 32 * n),
                ),
            )
        } else {
            None
        },
    }
}

/// The fields of the kinds `schema` that `b` is made of, if it is made of
/// such fields and nothing else.
pub open spec fn dec_fields(schema: Seq<Kind>, b: Seq<u8>) -> Option<Seq<FieldView>>
    decreases schema.len(),
{
    if schema.len() == 0 {
        if b.len() == 0 {
            Some(Seq::empty())
        } else {
            None
        }
    } else {
        match dec_field(schema[0], b) {
            Some((f, rest)) => match dec_fields(schema.skip(1), rest) {
                Some(fs) => Some(seq![f] + fs),
                None => None,
            },
            None => None,
        }
    }
}

/// The kinds of a sequence of fields.
pub open spec fn kinds_of(fs: Seq<FieldView>) -> Seq<Kind> {
    Seq::new(fs.len(), |i: int| kind_of(fs[i]))
}

/// Whether every field of a sequence can be written.
pub open spec fn fields_ok(fs: Seq<FieldView>) -> bool {
    forall|i: int| 0 <= i < fs.len() ==> field_ok(#[trigger] fs[i])
}

/// Writing the shares read from `4 * n` bytes gives the bytes back.
pub proof fn lemma_shares_written_back(b: Seq<u8>, n: nat)
    requires
        b.len() == 4 * n,
    ensures
        enc_shares(dec_shares(b, n)) == b,
    decreases n,
{
    lemma_auto_spec_u16_to_from_le_bytes();
    if n == 0 {
        assert(b =~= Seq::<u8>::empty());
    } else {
        let m = (n - 1) as nat;
        let k = m as int;
        let head = b.take(4 * k);
        lemma_shares_written_back(head, m);
        let all = dec_shares(b, n);
        assert(all.drop_last() =~= dec_shares(head, m)) by {
            assert forall|i: int| 0 <= i < m implies all[i] == dec_shares(head, m)[i] by {
                assert(b.subrange(4 * i, 4 * i + 2) =~= head.subrange(4 * i, 4 * i + 2));
                assert(b.subrange(4 * i + 2, 4 * i + 4) =~= head.subrange(4 * i + 2, 4 * i + 4));
            }
        }
        assert(all.last() == share_at(b, k));
        assert(b =~= head + b.subrange(4 * k, 4 * k + 2) + b.subrange(4 * k + 2, 4 * k + 4));
    }
}

/// Reading the bytes written for a list of shares gives the list back.
pub proof fn lemma_shares_read_back(s: Seq<ContentShare>)
    ensures
        enc_shares(s).len() == 4 * s.len(),
        dec_shares(enc_shares(s), s.len()) == s,
    decreases s.len(),
{
    lemma_auto_spec_u16_to_from_le_bytes();
    if s.len() == 0 {
        assert(dec_shares(enc_shares(s), 0) =~= s);
    } else {
        let rest = s.drop_last();
        lemma_shares_read_back(rest);
        let head = enc_shares(rest);
        let b = enc_shares(s);
        let m = rest.len() as int;
        assert(b == head + enc_u16(s.last().owner_id) + enc_u16(s.last().share));
        assert forall|i: int| 0 <= i < s.len() implies dec_shares(b, s.len())[i] == s[i] by {
            if i < m {
                assert(b.subrange(4 * i, 4 * i + 2) =~= head.subrange(4 * i, 4 * i + 2));
                assert(b.subrange(4 * i + 2, 4 * i + 4) =~= head.subrange(4 * i + 2, 4 * i + 4));
                assert(dec_shares(head, rest.len())[i] == rest[i]);
            } else {
                assert(b.subrange(4 * m, 4 * m + 2) =~= enc_u16(s.last().owner_id));
                assert(b.subrange(4 * m + 2, 4 * m + 4) =~= enc_u16(s.last().share));
            }
        }
        assert(dec_shares(b, s.len()) =~= s);
    }
}

/// Writing the ids read from `2 * n` bytes gives the bytes back.
pub proof fn lemma_ids_written_back(b: Seq<u8>, n: nat)
    requires
        b.len() == 2 * n,
    ensures
        enc_ids(dec_ids(b, n)) == b,
    decreases n,
{
    lemma_auto_spec_u16_to_from_le_bytes();
    if n == 0 {
        assert(b =~= Seq::<u8>::empty());
    } else {
        let m = (n - 1) as nat;
        let k = m as int;
        let head = b.take(2 * k);
        lemma_ids_written_back(head, m);
        let all = dec_ids(b, n);
        assert(all.drop_last() =~= dec_ids(head, m)) by {
            assert forall|i: int| 0 <= i < m implies all[i] == dec_ids(head, m)[i] by {
                assert(b.subrange(2 * i, 2 * i + 2) =~= head.subrange(2 * i, 2 * i + 2));
            }
        }
        assert(b =~= head + b.subrange(2 * k, 2 * k + 2));
    }
}

/// Reading the bytes written for a list of ids gives the list back.
pub proof fn lemma_ids_read_back(s: Seq<u16>)
    ensures
        enc_ids(s).len() == 2 * s.len(),
        dec_ids(enc_ids(s), s.len()) == s,
    decreases s.len(),
{
    lemma_auto_spec_u16_to_from_le_bytes();
    if s.len() == 0 {
        assert(dec_ids(enc_ids(s), 0) =~= s);
    } else {
        let rest = s.drop_last();
        lemma_ids_read_back(rest);
        let head = enc_ids(rest);
        let b = enc_ids(s);
        let m = rest.len() as int;
        assert forall|i: int| 0 <= i < s.len() implies dec_ids(b, s.len())[i] == s[i] by {
            if i < m {
                assert(b.subrange(2 * i, 2 * i + 2) =~= head.subrange(2 * i, 2 * i + 2));
                assert(dec_ids(head, rest.len())[i] == rest[i]);
            } else {
                assert(b.subrange(2 * m, 2 * m + 2) =~= enc_u16(s.last()));
            }
        }
        assert(dec_ids(b, s.len()) =~= s);
    }
}

/// Writing the chunks read from `32 * n` bytes gives the bytes back.
pub proof fn lemma_chunks_written_back(b: Seq<u8>, n: nat)
    requires
        b.len() == 32 * n,
    ensures
        flat(dec_chunks(b, n)) == b,
    decreases n,
{
    if n == 0 {
        assert(b =~= Seq::<u8>::empty());
    } else {
        let m = (n - 1) as nat;
        let k = m as int;
        let head = b.take(32 * k);
        lemma_chunks_written_back(head, m);
        let all = dec_chunks(b, n);
        assert(all.drop_last() =~= dec_chunks(head, m)) by {
            assert forall|i: int| 0 <= i < m implies all[i] == dec_chunks(head, m)[i] by {
                assert(b.subrange(32 * i, 32 * i + 32) =~= head.subrange(32 * i, 32 * i + 32));
            }
        }
        assert(b =~= head + b.subrange(32 * k, 32 * k + 32));
    }
}

/// Reading the bytes written for a list of 32-byte chunks gives the list back.
pub proof fn lemma_chunks_read_back(s: Seq<Seq<u8>>)
    requires
        forall|i: int| 0 <= i < s.len() ==> (#[trigger] s[i]).len() == 32,
    ensures
        flat(s).len() == 32 * s.len(),
        dec_chunks(flat(s), s.len()) == s,
    decreases s.len(),
{
    if s.len() == 0 {
        assert(dec_chunks(flat(s), 0) =~= s);
    } else {
        let rest = s.drop_last();
        lemma_chunks_read_back(rest);
        let head = flat(rest);
        let b = flat(s);
        let m = rest.len() as int;
        assert forall|i: int| 0 <= i < s.len() implies dec_chunks(b, s.len())[i] == s[i] by {
            if i < m {
                assert(b.subrange(32 * i, 32 * i + 32) =~= head.subrange(32 * i, 32 * i + 32));
                assert(dec_chunks(head, rest.len())[i] == rest[i]);
            } else {
                assert(b.subrange(32 * m, 32 * m + 32) =~= s.last());
            }
        }
        assert(dec_chunks(b, s.len()) =~= s);
    }
}

/// The bytes of a list of hashes are the hashes' bytes one after the other.
pub proof fn lemma_hashes_flat(hs: Seq<crypto::Hash>)
    ensures
        enc_hashes(hs) == flat(hash_views(hs)),
    decreases hs.len(),
{
    if hs.len() > 0 {
        lemma_hashes_flat(hs.drop_last());
        assert(hash_views(hs).drop_last() =~= hash_views(hs.drop_last()));
    }
}

/// A signed integer survives the way through its unsigned form.
pub proof fn lemma_signed_casts()
    ensures
        forall|x: i32| #![trigger (x as u32)] (x as u32) as i32 == x,
        forall|x: u32| #![trigger (x as i32)] (x as i32) as u32 == x,
        forall|x: i64| #![trigger (x as u64)] (x as u64) as i64 == x,
        forall|x: u64| #![trigger (x as i64)] (x as i64) as u64 == x,
{
    assert forall|x: i32| #![trigger (x as u32)] (x as u32) as i32 == x by {
        assert((x as u32) as i32 == x) by (bit_vector);
    }
    assert forall|x: u32| #![trigger (x as i32)] (x as i32) as u32 == x by {
        assert((x as i32) as u32 == x) by (bit_vector);
    }
    assert forall|x: i64| #![trigger (x as u64)] (x as u64) as i64 == x by {
        assert((x as u64) as i64 == x) by (bit_vector);
    }
    assert forall|x: u64| #![trigger (x as i64)] (x as i64) as u64 == x by {
        assert((x as i64) as u64 == x) by (bit_vector);
    }
}

/// Writing undoes reading, for one field: what was read, written before the
/// bytes that were left, is what was there.
pub proof fn lemma_field_written_back(k: Kind, b: Seq<u8>)
    requires
        dec_field(k, b) is Some,
    ensures
        ({
            let read = dec_field(k, b)->0;
            &&& enc_field(read.0) + read.1 == b
            &&& kind_of(read.0) == k
            &&& field_ok(read.0)
        }),
{
    lemma_auto_spec_u16_to_from_le_bytes();
    lemma_auto_spec_u32_to_from_le_bytes();
    lemma_auto_spec_u64_to_from_le_bytes();
    lemma_signed_casts();
    let (f, rest) = dec_field(k, b)->0;
    match k {
        Kind::U8 => {
            assert(seq![b[0]] + b.skip(1) =~= b);
        },
        Kind::U16 => {
            assert(b.take(2) + b.skip(2) =~= b);
        },
        Kind::U32 => {
            assert(b.take(4) + b.skip(4) =~= b);
        },
        Kind::U64 => {
            assert(b.take(8) + b.skip(8) =~= b);
        },
        Kind::I32 => {
            assert(b.take(4) + b.skip(4) =~= b);
        },
        Kind::I64 => {
            assert(b.take(8) + b.skip(8) =~= b);
        },
        Kind::Key => {
            assert(b.take(32) + b.skip(32) =~= b);
        },
        Kind::Sig => {
            assert(b.take(64) + b.skip(64) =~= b);
        },
        Kind::Text => {
            let n = spec_u64_from_le_bytes(b.take(8)) as int;
            assert(b.take(8) + b.subrange(8, 8 + n) + b.skip(8 + n) =~= b);
        },
        Kind::Shares => {
            let n = spec_u64_from_le_bytes(b.take(8)) as int;
            lemma_shares_written_back(b.subrange(8, 8 + 4 * n), n as nat);
            assert(b.take(8) + b.subrange(8, 8 + 4 * n) + b.skip(8 + 4 * n) =~= b);
        },
        Kind::Ids => {
            let n = spec_u64_from_le_bytes(b.take(8)) as int;
            lemma_ids_written_back(b.subrange(8, 8 + 2 * n), n as nat);
            assert(b.take(8) + b.subrange(8, 8 + 2 * n) + b.skip(8 + 2 * n) =~= b);
        },
        Kind::Hashes => {
            let n = spec_u64_from_le_bytes(b.take(8)) as int;
            lemma_chunks_written_back(b.subrange(8, 8 + 32 * n), n as nat);
            assert(b.take(8) + b.subrange(8, 8 + 32 * n) + b.skip(8 + 32 * n) =~= b);
        },
    }
}

/// Reading undoes writing, for one field: from the bytes of a field followed
/// by any bytes, the field is read and those bytes are left.
pub proof fn lemma_field_read_back(f: FieldView, rest: Seq<u8>)
    requires
        field_ok(f),
    ensures
        dec_field(kind_of(f), enc_field(f) + rest) == Some((f, rest)),
{
    lemma_auto_spec_u16_to_from_le_bytes();
    lemma_auto_spec_u32_to_from_le_bytes();
    lemma_auto_spec_u64_to_from_le_bytes();
    lemma_signed_casts();
    let b = enc_field(f) + rest;
    match f {
        FieldView::U8(x) => {
            assert(b.skip(1) =~= rest);
        },
        FieldView::U16(x) => {
            assert(b.take(2) =~= enc_u16(x));
            assert(b.skip(2) =~= rest);
        },
        FieldView::U32(x) => {
            assert(b.take(4) =~= enc_u32(x));
            assert(b.skip(4) =~= rest);
        },
        FieldView::U64(x) => {
            assert(b.take(8) =~= enc_u64(x));
            assert(b.skip(8) =~= rest);
        },
        FieldView::I32(x) => {
            assert(b.take(4) =~= enc_i32(x));
            assert(b.skip(4) =~= rest);
        },
        FieldView::I64(x) => {
            assert(b.take(8) =~= enc_i64(x));
            assert(b.skip(8) =~= rest);
        },
        FieldView::Key(k) => {
            assert(b.take(32) =~= k);
            assert(b.skip(32) =~= rest);
        },
        FieldView::Sig(s) => {
            assert(b.take(64) =~= s);
            assert(b.skip(64) =~= rest);
        },
        FieldView::Text(t) => {
            let n = t.len() as int;
            assert(b.take(8) =~= enc_u64(t.len() as u64));
            assert(b.subrange(8, 8 + n) =~= t);
            assert(b.skip(8 + n) =~= rest);
        },
        FieldView::Shares(s) => {
            let n = s.len() as int;
            lemma_shares_read_back(s);
            assert(b.take(8) =~= enc_u64(s.len() as u64));
            assert(b.subrange(8, 8 + 4 * n) =~= enc_shares(s));
            assert(b.skip(8 + 4 * n) =~= rest);
        },
        FieldView::Ids(s) => {
            let n = s.len() as int;
            lemma_ids_read_back(s);
            assert(b.take(8) =~= enc_u64(s.len() as u64));
            assert(b.subrange(8, 8 + 2 * n) =~= enc_ids(s));
            assert(b.skip(8 + 2 * n) =~= rest);
        },
        FieldView::Hashes(h) => {
            let n = h.len() as int;
            lemma_chunks_read_back(h);
            assert(b.take(8) =~= enc_u64(h.len() as u64));
            assert(b.subrange(8, 8 + 32 * n) =~= flat(h));
            assert(b.skip(8 + 32 * n) =~= rest);
        },
    }
}

/// Writing undoes reading: the fields read from `b` are of the kinds asked
/// for, can be written, and their bytes are `b`.
pub proof fn lemma_fields_written_back(schema: Seq<Kind>, b: Seq<u8>)
    requires
        dec_fields(schema, b) is Some,
    ensures
        enc_fields(dec_fields(schema, b)->0) == b,
        kinds_of(dec_fields(schema, b)->0) == schema,
        fields_ok(dec_fields(schema, b)->0),
    decreases schema.len(),
{
    if schema.len() == 0 {
        assert(b =~= Seq::<u8>::empty());
        assert(kinds_of(Seq::<FieldView>::empty()) =~= schema);
    } else {
        let (f, rest) = dec_field(schema[0], b)->0;
        lemma_field_written_back(schema[0], b);
        lemma_fields_written_back(schema.skip(1), rest);
        let tail = dec_fields(schema.skip(1), rest)->0;
        let fs = seq![f] + tail;
        assert(fs.skip(1) =~= tail);
        assert(fs[0] == f);
        assert(enc_fields(fs) =~= enc_field(f) + enc_fields(tail));
        assert(kinds_of(fs) =~= schema) by {
            assert forall|i: int| 0 <= i < schema.len() implies kinds_of(fs)[i] == schema[i] by {
                if i > 0 {
                    assert(kinds_of(tail)[i - 1] == schema.skip(1)[i - 1]);
                    assert(fs[i] == tail[i - 1]);
                }
            }
        }
        assert(fields_ok(fs)) by {
            assert forall|i: int| 0 <= i < fs.len() implies field_ok(#[trigger] fs[i]) by {
                if i > 0 {
                    assert(fs[i] == tail[i - 1]);
                }
            }
        }
    }
}

/// Reading undoes writing: from the bytes of a sequence of fields that can
/// be written, read by the fields' kinds, the fields come back.
pub proof fn lemma_fields_read_back(fs: Seq<FieldView>)
    requires
        fields_ok(fs),
    ensures
        dec_fields(kinds_of(fs), enc_fields(fs)) == Some(fs),
    decreases fs.len(),
{
    let schema = kinds_of(fs);
    if fs.len() == 0 {
        assert(fs =~= Seq::<FieldView>::empty());
    } else {
        let tail = fs.skip(1);
        assert(fields_ok(tail)) by {
            assert forall|i: int| 0 <= i < tail.len() implies field_ok(#[trigger] tail[i]) by {
                assert(tail[i] == fs[i + 1]);
            }
        }
        lemma_fields_read_back(tail);
        lemma_field_read_back(fs[0], enc_fields(tail));
        assert(schema.skip(1) =~= kinds_of(tail));
        assert(seq![fs[0]] + tail =~= fs);
    }
}

/// Two sequences of fields of the same kinds with the same bytes are equal.
pub proof fn lemma_fields_injective(a: Seq<FieldView>, b: Seq<FieldView>)
    requires
        fields_ok(a),
        fields_ok(b),
        kinds_of(a) == kinds_of(b),
        enc_fields(a) == enc_fields(b),
    ensures
        a == b,
{
    lemma_fields_read_back(a);
    lemma_fields_read_back(b);
}

/// The views of a sequence of field values.
pub open spec fn field_views(fs: Seq<Field>) -> Seq<FieldView> {
    Seq::new(fs.len(), |i: int| fs[i]@)
}

/// `acc` put before the fields in `r`, if there are any.
pub open spec fn prepend(acc: Seq<FieldView>, r: Option<Seq<FieldView>>) -> Option<Seq<FieldView>> {
    match r {
        Some(fs) => Some(acc + fs),
        None => None,
    }
}

/// The length that stands at `pos`, if eight bytes are there and `width`
/// times the length fits into what follows them.
fn read_count(data: &[u8], pos: usize, width: usize) -> (r: Option<usize>)
    requires
        pos <= data@.len(),
        1 <= width <= 32,
    ensures
        r is Some <==> data@.len() - pos >= 8 && data@.len() - pos - 8 >= width
            * spec_u64_from_le_bytes(data@.skip(pos as int).take(8)),
        r is Some ==> r->0 == spec_u64_from_le_bytes(data@.skip(pos as int).take(8)) && pos + 8
            + width * r->0 <= data@.len(),
{
    if data.len() - pos < 8 {
        return None;
    }
    assert(data@.subrange(pos as int, pos + 8) =~= data@.skip(pos as int).take(8));
    let n = crate::codec::get_u64(data, pos);
    let room = (data.len() - pos - 8) / width;
    assert(room * width <= data@.len() - pos - 8) by (nonlinear_arith)
        requires
            room == (data@.len() - pos - 8) / (width as int),
            width >= 1,
            data@.len() - pos - 8 >= 0,
    ;
    if n > room as u64 {
        assert(width * n > data@.len() - pos - 8) by (nonlinear_arith)
            requires
                room == (data@.len() - pos - 8) / (width as int),
                n > room,
                width >= 1,
                data@.len() - pos - 8 >= 0,
        ;
        return None;
    }
    assert(width * n <= data@.len() - pos - 8) by (nonlinear_arith)
        requires
            room * width <= data@.len() - pos - 8,
            n <= room,
            width >= 1,
    ;
    Some(n as usize)
}

/// Reads the field of kind `kind` that starts at `pos`.
pub fn parse_field(kind: Kind, data: &[u8], pos: usize) -> (r: Option<(Field, usize)>)
    requires
        pos <= data@.len(),
    ensures
        match r {
            Some((f, next)) => pos <= next <= data@.len() && dec_field(
                kind,
                data@.skip(pos as int),
            ) == Some((f@, data@.skip(next as int))),
            None => dec_field(kind, data@.skip(pos as int)) is None,
        },
{
    let ghost b = data@.skip(pos as int);
    let total = data.len();
    let left = total - pos;
    match kind {
        Kind::U8 => {
            if left < 1 {
                return None;
            }
            assert(b.skip(1) =~= data@.skip(pos + 1));
            Some((Field::U8(data[pos]), pos + 1))
        },
        Kind::U16 => {
            if left < 2 {
                return None;
            }
            assert(b.take(2) =~= data@.subrange(pos as int, pos + 2));
            assert(b.skip(2) =~= data@.skip(pos + 2));
            Some((Field::U16(crate::codec::get_u16(data, pos)), pos + 2))
        },
        Kind::U32 => {
            if left < 4 {
                return None;
            }
            assert(b.take(4) =~= data@.subrange(pos as int, pos + 4));
            assert(b.skip(4) =~= data@.skip(pos + 4));
            Some((Field::U32(crate::codec::get_u32(data, pos)), pos + 4))
        },
        Kind::U64 => {
            if left < 8 {
                return None;
            }
            assert(b.take(8) =~= data@.subrange(pos as int, pos + 8));
            assert(b.skip(8) =~= data@.skip(pos + 8));
            Some((Field::U64(crate::codec::get_u64(data, pos)), pos + 8))
        },
        Kind::I32 => {
            if left < 4 {
                return None;
            }
            assert(b.take(4) =~= data@.subrange(pos as int, pos + 4));
            assert(b.skip(4) =~= data@.skip(pos + 4));
            Some((Field::I32(crate::codec::get_i32(data, pos)), pos + 4))
        },
        Kind::I64 => {
            if left < 8 {
                return None;
            }
            assert(b.take(8) =~= data@.subrange(pos as int, pos + 8));
            assert(b.skip(8) =~= data@.skip(pos + 8));
            Some((Field::I64(crate::codec::get_i64(data, pos)), pos + 8))
        },
        Kind::Key => {
            if left < 32 {
                return None;
            }
            assert(b.take(32) =~= data@.subrange(pos as int, pos + 32));
            assert(b.skip(32) =~= data@.skip(pos + 32));
            Some((Field::Key(crate::codec::get_32(data, pos)), pos + 32))
        },
        Kind::Sig => {
            if left < 64 {
                return None;
            }
            assert(b.take(64) =~= data@.subrange(pos as int, pos + 64));
            assert(b.skip(64) =~= data@.skip(pos + 64));
            Some((Field::Sig(crate::codec::get_64(data, pos)), pos + 64))
        },
        Kind::Text => {
            let n = match read_count(data, pos, 1) {
                Some(n) => n,
                None => {
                    return None;
                },
            };
            assert(b.subrange(8, 8 + n) =~= data@.subrange(pos + 8, pos + 8 + n));
            assert(b.skip(8 + n) =~= data@.skip(pos + 8 + n));
            Some((Field::Text(crate::codec::get_bytes(data, pos + 8, n)), pos + 8 + n))
        },
        Kind::Shares => {
            let n = match read_count(data, pos, 4) {
                Some(n) => n,
                None => {
                    return None;
                },
            };
            let start = pos + 8;
            let ghost chunk = b.subrange(8, 8 + 4 * n);
            assert(chunk =~= data@.subrange(start as int, start + 4 * n));
            let mut out: Vec<ContentShare> = Vec::new();
            let mut i: usize = 0;
            while i < n
                invariant
                    i <= n,
                    start + 4 * n <= data@.len(),
                    data@.len() == total,
                    chunk == data@.subrange(start as int, start + 4 * n),
                    out@.len() == i,
                    forall|j: int| 0 <= j < i ==> out@[j] == share_at(chunk, j),
                decreases n - i,
            {
                let at = start + 4 * i;
                assert(chunk.subrange(4 * i, 4 * i + 2) =~= data@.subrange(at as int, at + 2));
                assert(chunk.subrange(4 * i + 2, 4 * i + 4) =~= data@.subrange(at + 2, at + 4));
                out.push(
                    ContentShare {
                        owner_id: crate::codec::get_u16(data, at),
                        share: crate::codec::get_u16(data, at + 2),
                    },
                );
                i += 1;
            }
            assert(out@ =~= dec_shares(chunk, n as nat));
            assert(b.skip(8 + 4 * n) =~= data@.skip(start + 4 * n));
            Some((Field::Shares(out), start + 4 * n))
        },
        Kind::Ids => {
            let n = match read_count(data, pos, 2) {
                Some(n) => n,
                None => {
                    return None;
                },
            };
            let start = pos + 8;
            let ghost chunk = b.subrange(8, 8 + 2 * n);
            assert(chunk =~= data@.subrange(start as int, start + 2 * n));
            let mut out: Vec<u16> = Vec::new();
            let mut i: usize = 0;
            while i < n
                invariant
                    i <= n,
                    start + 2 * n <= data@.len(),
                    data@.len() == total,
                    chunk == data@.subrange(start as int, start + 2 * n),
                    out@.len() == i,
                    forall|j: int|
                        0 <= j < i ==> out@[j] == spec_u16_from_le_bytes(
                            chunk.subrange(2 * j, 2 * j + 2),
                        ),
                decreases n - i,
            {
                let at = start + 2 * i;
                assert(chunk.subrange(2 * i, 2 * i + 2) =~= data@.subrange(at as int, at + 2));
                out.push(crate::codec::get_u16(data, at));
                i += 1;
            }
            assert(out@ =~= dec_ids(chunk, n as nat));
            assert(b.skip(8 + 2 * n) =~= data@.skip(start + 2 * n));
            Some((Field::Ids(out), start + 2 * n))
        },
        Kind::Hashes => {
            let n = match read_count(data, pos, 32) {
                Some(n) => n,
                None => {
                    return None;
                },
            };
            let start = pos + 8;
            let ghost chunk = b.subrange(8, 8 + 32 * n);
            assert(chunk =~= data@.subrange(start as int, start + 32 * n));
            let mut out: Vec<crypto::Hash> = Vec::new();
            let mut i: usize = 0;
            while i < n
                invariant
                    i <= n,
                    start + 32 * n <= data@.len(),
                    data@.len() == total,
                    chunk == data@.subrange(start as int, start + 32 * n),
                    out@.len() == i,
                    forall|j: int| 0 <= j < i ==> out@[j]@ == chunk.subrange(32 * j, 32 * j + 32),
                decreases n - i,
            {
                let at = start + 32 * i;
                assert(chunk.subrange(32 * i, 32 * i + 32) =~= data@.subrange(at as int, at + 32));
                out.push(crypto::Hash { bytes: crate::codec::get_32(data, at) });
                i += 1;
            }
            assert(hash_views(out@) =~= dec_chunks(chunk, n as nat));
            assert(b.skip(8 + 32 * n) =~= data@.skip(start + 32 * n));
            Some((Field::Hashes(out), start + 32 * n))
        },
    }
}

/// Reads `data` as fields of the kinds `schema`, with nothing left over.
pub fn parse_fields(schema: &[Kind], data: &[u8]) -> (r: Option<Vec<Field>>)
    ensures
        match r {
            Some(fs) => dec_fields(schema@, data@) == Some(field_views(fs@)),
            None => dec_fields(schema@, data@) is None,
        },
{
    let mut out: Vec<Field> = Vec::new();
    let mut pos: usize = 0;
    let mut i: usize = 0;
    let n = schema.len();
    assert(schema@.skip(0) =~= schema@);
    assert(data@.skip(0) =~= data@);
    assert(field_views(out@) =~= Seq::<FieldView>::empty());
    assert(dec_fields(schema@, data@) == prepend(
        Seq::<FieldView>::empty(),
        dec_fields(schema@, data@),
    )) by {
        if dec_fields(schema@, data@) is Some {
            assert(Seq::<FieldView>::empty() + dec_fields(schema@, data@)->0 =~= dec_fields(
                schema@,
                data@,
            )->0);
        }
    }
    while i < n
        invariant
            i <= n,
            n == schema@.len(),
            pos <= data@.len(),
            dec_fields(schema@, data@) == prepend(
                field_views(out@),
                dec_fields(schema@.skip(i as int), data@.skip(pos as int)),
            ),
        decreases n - i,
    {
        let ghost acc = field_views(out@);
        let ghost rest_schema = schema@.skip(i as int);
        assert(rest_schema[0] == schema@[i as int]);
        assert(rest_schema.skip(1) =~= schema@.skip(i + 1));
        match parse_field(schema[i], data, pos) {
            None => {
                return None;
            },
            Some((f, next)) => {
                out.push(f);
                proof {
                    let tail = dec_fields(schema@.skip(i + 1), data@.skip(next as int));
                    assert(field_views(out@) =~= acc.push(f@));
                    if tail is Some {
                        assert(acc + (seq![f@] + tail->0) =~= acc.push(f@) + tail->0);
                    }
                }
                pos = next;
            },
        }
        i += 1;
    }
    if pos != data.len() {
        return None;
    }
    proof {
        assert(schema@.skip(n as int).len() == 0);
        assert(data@.skip(pos as int).len() == 0);
        assert(field_views(out@) + Seq::<FieldView>::empty() =~= field_views(out@));
    }
    Some(out)
}

/// The bytes of a sequence of fields with one more field at the end.
pub proof fn lemma_enc_fields_push(fs: Seq<FieldView>, f: FieldView)
    ensures
        enc_fields(fs.push(f)) == enc_fields(fs) + enc_field(f),
    decreases fs.len(),
{
    let all = fs.push(f);
    if fs.len() == 0 {
        assert(all.skip(1) =~= Seq::<FieldView>::empty());
        assert(all[0] == f);
        assert(enc_fields(all.skip(1)) =~= Seq::<u8>::empty());
        assert(enc_fields(fs) =~= Seq::<u8>::empty());
        assert(enc_fields(all) =~= enc_field(f));
        assert(enc_fields(fs) + enc_field(f) =~= enc_field(f));
    } else {
        lemma_enc_fields_push(fs.skip(1), f);
        assert(all.skip(1) =~= fs.skip(1).push(f));
        assert(all[0] == fs[0]);
        assert(enc_field(fs[0]) + (enc_fields(fs.skip(1)) + enc_field(f)) =~= (enc_field(fs[0])
            + enc_fields(fs.skip(1))) + enc_field(f));
    }
}

/// The schema of a frame: one byte string with its length before it.
pub open spec fn frame_schema() -> Seq<Kind> {
    seq![Kind::Text]
}

/// The schema of a message: version byte, kind byte, framed body, signature.
pub open spec fn message_schema() -> Seq<Kind> {
    seq![Kind::U8, Kind::U8, Kind::Text, Kind::Sig]
}

/// A frame is the one-field sequence that holds its body.
pub proof fn lemma_frame_fields(body: Seq<u8>)
    ensures
        enc_fields(seq![FieldView::Text(body)]) == enc_bytes(body),
        kinds_of(seq![FieldView::Text(body)]) == frame_schema(),
{
    let fs = seq![FieldView::Text(body)];
    assert(fs =~= Seq::<FieldView>::empty().push(FieldView::Text(body)));
    lemma_enc_fields_push(Seq::<FieldView>::empty(), FieldView::Text(body));
    assert(Seq::<u8>::empty() + enc_bytes(body) =~= enc_bytes(body));
    assert(kinds_of(fs) =~= frame_schema());
}

/// The fields of a message with the given parts.
pub open spec fn message_fields(version: u8, kind: u8, body: Seq<u8>, signature: Seq<u8>) -> Seq<
    FieldView,
> {
    seq![
        FieldView::U8(version),
        FieldView::U8(kind),
        FieldView::Text(body),
        FieldView::Sig(signature),
    ]
}

/// A message is the four-field sequence of its parts.
pub proof fn lemma_message_fields(version: u8, kind: u8, body: Seq<u8>, signature: Seq<u8>)
    ensures
        enc_fields(message_fields(version, kind, body, signature)) == seq![version, kind]
            + enc_bytes(body) + signature,
        kinds_of(message_fields(version, kind, body, signature)) == message_schema(),
{
    let e = Seq::<FieldView>::empty();
    let f0 = FieldView::U8(version);
    let f1 = FieldView::U8(kind);
    let f2 = FieldView::Text(body);
    let f3 = FieldView::Sig(signature);
    let fs = message_fields(version, kind, body, signature);
    assert(fs =~= e.push(f0).push(f1).push(f2).push(f3));
    lemma_enc_fields_push(e, f0);
    lemma_enc_fields_push(e.push(f0), f1);
    lemma_enc_fields_push(e.push(f0).push(f1), f2);
    lemma_enc_fields_push(e.push(f0).push(f1).push(f2), f3);
    assert(Seq::<u8>::empty() + seq![version] + seq![kind] + enc_bytes(body) + signature
        =~= seq![version, kind] + enc_bytes(body) + signature);
    assert(kinds_of(fs) =~= message_schema());
}

/// Takes a byte from the end of a list of fields.
pub fn take_u8(fs: &mut Vec<Field>) -> (x: u8)
    requires
        old(fs)@.len() > 0,
        kind_of(old(fs)@.last()@) == Kind::U8,
    ensures
        final(fs)@ == old(fs)@.drop_last(),
        old(fs)@.last()@ == FieldView::U8(x),
{
    match fs.pop() {
        Some(Field::U8(x)) => x,
        _ => 0,
    }
}

/// Takes a 16-bit integer from the end of a list of fields.
pub fn take_u16(fs: &mut Vec<Field>) -> (x: u16)
    requires
        old(fs)@.len() > 0,
        kind_of(old(fs)@.last()@) == Kind::U16,
    ensures
        final(fs)@ == old(fs)@.drop_last(),
        old(fs)@.last()@ == FieldView::U16(x),
{
    match fs.pop() {
        Some(Field::U16(x)) => x,
        _ => 0,
    }
}

/// Takes a 32-bit integer from the end of a list of fields.
pub fn take_u32(fs: &mut Vec<Field>) -> (x: u32)
    requires
        old(fs)@.len() > 0,
        kind_of(old(fs)@.last()@) == Kind::U32,
    ensures
        final(fs)@ == old(fs)@.drop_last(),
        old(fs)@.last()@ == FieldView::U32(x),
{
    match fs.pop() {
        Some(Field::U32(x)) => x,
        _ => 0,
    }
}

/// Takes a 64-bit integer from the end of a list of fields.
pub fn take_u64(fs: &mut Vec<Field>) -> (x: u64)
    requires
        old(fs)@.len() > 0,
        kind_of(old(fs)@.last()@) == Kind::U64,
    ensures
        final(fs)@ == old(fs)@.drop_last(),
        old(fs)@.last()@ == FieldView::U64(x),
{
    match fs.pop() {
        Some(Field::U64(x)) => x,
        _ => 0,
    }
}

/// Takes a signed 32-bit integer from the end of a list of fields.
pub fn take_i32(fs: &mut Vec<Field>) -> (x: i32)
    requires
        old(fs)@.len() > 0,
        kind_of(old(fs)@.last()@) == Kind::I32,
    ensures
        final(fs)@ == old(fs)@.drop_last(),
        old(fs)@.last()@ == FieldView::I32(x),
{
    match fs.pop() {
        Some(Field::I32(x)) => x,
        _ => 0,
    }
}

/// Takes a signed 64-bit integer from the end of a list of fields.
pub fn take_i64(fs: &mut Vec<Field>) -> (x: i64)
    requires
        old(fs)@.len() > 0,
        kind_of(old(fs)@.last()@) == Kind::I64,
    ensures
        final(fs)@ == old(fs)@.drop_last(),
        old(fs)@.last()@ == FieldView::I64(x),
{
    match fs.pop() {
        Some(Field::I64(x)) => x,
        _ => 0,
    }
}

/// Takes 32 raw bytes from the end of a list of fields.
pub fn take_key(fs: &mut Vec<Field>) -> (x: [u8; 32])
    requires
        old(fs)@.len() > 0,
        kind_of(old(fs)@.last()@) == Kind::Key,
    ensures
        final(fs)@ == old(fs)@.drop_last(),
        old(fs)@.last()@ == FieldView::Key(x@),
{
    match fs.pop() {
        Some(Field::Key(x)) => x,
        _ => [0u8; 32],
    }
}

/// Takes 64 raw bytes from the end of a list of fields.
pub fn take_sig(fs: &mut Vec<Field>) -> (x: [u8; 64])
    requires
        old(fs)@.len() > 0,
        kind_of(old(fs)@.last()@) == Kind::Sig,
    ensures
        final(fs)@ == old(fs)@.drop_last(),
        old(fs)@.last()@ == FieldView::Sig(x@),
{
    match fs.pop() {
        Some(Field::Sig(x)) => x,
        _ => [0u8; 64],
    }
}

/// Takes a byte string from the end of a list of fields.
pub fn take_text(fs: &mut Vec<Field>) -> (x: Vec<u8>)
    requires
        old(fs)@.len() > 0,
        kind_of(old(fs)@.last()@) == Kind::Text,
    ensures
        final(fs)@ == old(fs)@.drop_last(),
        old(fs)@.last()@ == FieldView::Text(x@),
{
    match fs.pop() {
        Some(Field::Text(x)) => x,
        _ => Vec::new(),
    }
}

/// Takes a list of shares from the end of a list of fields.
pub fn take_shares(fs: &mut Vec<Field>) -> (x: Vec<ContentShare>)
    requires
        old(fs)@.len() > 0,
        kind_of(old(fs)@.last()@) == Kind::Shares,
    ensures
        final(fs)@ == old(fs)@.drop_last(),
        old(fs)@.last()@ == FieldView::Shares(x@),
{
    match fs.pop() {
        Some(Field::Shares(x)) => x,
        _ => Vec::new(),
    }
}

/// Takes a list of ids from the end of a list of fields.
pub fn take_ids(fs: &mut Vec<Field>) -> (x: Vec<u16>)
    requires
        old(fs)@.len() > 0,
        kind_of(old(fs)@.last()@) == Kind::Ids,
    ensures
        final(fs)@ == old(fs)@.drop_last(),
        old(fs)@.last()@ == FieldView::Ids(x@),
{
    match fs.pop() {
        Some(Field::Ids(x)) => x,
        _ => Vec::new(),
    }
}

/// Takes a list of hashes from the end of a list of fields.
pub fn take_hashes(fs: &mut Vec<Field>) -> (x: Vec<crypto::Hash>)
    requires
        old(fs)@.len() > 0,
        kind_of(old(fs)@.last()@) == Kind::Hashes,
    ensures
        final(fs)@ == old(fs)@.drop_last(),
        old(fs)@.last()@ == FieldView::Hashes(hash_views(x@)),
{
    match fs.pop() {
        Some(Field::Hashes(x)) => x,
        _ => Vec::new(),
    }
}

/// Reads `data` as one frame whose body is made of fields of the kinds
/// `schema`. Gives the fields if `data` is such a frame, and nothing if no
/// fields of these kinds are written so.
pub fn parse_record(schema: &[Kind], data: &[u8]) -> (r: Option<Vec<Field>>)
    ensures
        match r {
            Some(fs) => {
                &&& kinds_of(field_views(fs@)) == schema@
                &&& fields_ok(field_views(fs@))
                &&& enc_bytes(enc_fields(field_views(fs@))) == data@
            },
            None => forall|fs: Seq<FieldView>|
                kinds_of(fs) == schema@ && fields_ok(fs) ==> #[trigger] enc_bytes(enc_fields(fs))
                    != data@,
        },
{
    let frame = [Kind::Text];
    assert(frame@ =~= frame_schema());
    let total = data.len();
    let outer = parse_fields(frame.as_slice(), data);
    let r = match outer {
        None => None,
        Some(mut outer) => {
            proof {
                lemma_fields_written_back(frame_schema(), data@);
                assert(kinds_of(field_views(outer@))[0] == Kind::Text);
            }
            let body = take_text(&mut outer);
            proof {
                let found = dec_fields(frame_schema(), data@)->0;
                assert(found =~= seq![FieldView::Text(body@)]);
                lemma_frame_fields(body@);
            }
            match parse_fields(schema, body.as_slice()) {
                None => None,
                Some(fs) => {
                    proof {
                        lemma_fields_written_back(schema@, body@);
                    }
                    Some(fs)
                },
            }
        },
    };
    proof {
        if r is None {
            assert forall|fs: Seq<FieldView>|
                kinds_of(fs) == schema@ && fields_ok(fs) implies #[trigger] enc_bytes(
                enc_fields(fs),
            ) != data@ by {
                let body = enc_fields(fs);
                lemma_auto_spec_u64_to_from_le_bytes();
                if enc_bytes(body) == data@ {
                    assert(body.len() <= total);
                    let one = seq![FieldView::Text(body)];
                    lemma_frame_fields(body);
                    lemma_fields_read_back(one);
                    lemma_fields_read_back(fs);
                    assert(one[0] == FieldView::Text(body));
                }
            }
        }
    }
    r
}

/// Reads `data` as a message of kind `kind` whose body is made of fields of
/// the kinds `schema`. Gives the fields and the signature if `data` is such
/// a message, and nothing if no fields of these kinds and no signature are
/// written so.
pub fn parse_message(kind: u8, schema: &[Kind], data: &[u8]) -> (r: Option<
    (Vec<Field>, crypto::Signature),
>)
    ensures
        match r {
            Some((fs, signature)) => {
                &&& kinds_of(field_views(fs@)) == schema@
                &&& fields_ok(field_views(fs@))
                &&& crate::txs::payload_of(kind, enc_fields(field_views(fs@))) + signature@
                    == data@
            },
            None => forall|fs: Seq<FieldView>, signature: crypto::Signature|
                kinds_of(fs) == schema@ && fields_ok(fs) ==> #[trigger] (crate::txs::payload_of(
                    kind,
                    enc_fields(fs),
                ) + signature@) != data@,
        },
{
    let layout = [Kind::U8, Kind::U8, Kind::Text, Kind::Sig];
    assert(layout@ =~= message_schema());
    let total = data.len();
    let outer = parse_fields(layout.as_slice(), data);
    let r = match outer {
        None => None,
        Some(mut outer) => {
            proof {
                lemma_fields_written_back(message_schema(), data@);
                let ks = kinds_of(field_views(outer@));
                assert(ks[0] == Kind::U8 && ks[1] == Kind::U8 && ks[2] == Kind::Text && ks[3]
                    == Kind::Sig);
            }
            let ghost found = field_views(outer@);
            let signature = take_sig(&mut outer);
            let body = take_text(&mut outer);
            let got_kind = take_u8(&mut outer);
            let version = take_u8(&mut outer);
            proof {
                assert(found =~= message_fields(version, got_kind, body@, signature@));
                lemma_message_fields(version, got_kind, body@, signature@);
            }
            if version != crate::txs::MESSAGE_VERSION || got_kind != kind {
                None
            } else {
                match parse_fields(schema, body.as_slice()) {
                    None => None,
                    Some(fs) => {
                        proof {
                            lemma_fields_written_back(schema@, body@);
                        }
                        Some((fs, crypto::Signature { bytes: signature }))
                    },
                }
            }
        },
    };
    proof {
        if r is None {
            assert forall|fs: Seq<FieldView>, signature: crypto::Signature|
                kinds_of(fs) == schema@ && fields_ok(fs) implies #[trigger] (
            crate::txs::payload_of(kind, enc_fields(fs)) + signature@) != data@ by {
                let body = enc_fields(fs);
                lemma_auto_spec_u64_to_from_le_bytes();
                if crate::txs::payload_of(kind, body) + signature@ == data@ {
                    assert(body.len() <= total);
                    let all = message_fields(
                        crate::txs::MESSAGE_VERSION,
                        kind,
                        body,
                        signature@,
                    );
                    lemma_message_fields(crate::txs::MESSAGE_VERSION, kind, body, signature@);
                    assert(fields_ok(all));
                    lemma_fields_read_back(all);
                    lemma_fields_read_back(fs);
                    assert(all[0] == FieldView::U8(crate::txs::MESSAGE_VERSION));
                    assert(all[1] == FieldView::U8(kind));
                    assert(all[2] == FieldView::Text(body));
                    assert(all[3] == FieldView::Sig(signature@));
                }
            }
        }
    }
    r
}

} // verus!
