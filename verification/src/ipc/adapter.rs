//! Serializing a row batch into a byte-addressable source and
//! reconstructing it from a stored position.
//!
//! The persisted layout is: every column's value buffer followed by its
//! validity bitmap, column after column, then a header.  The header
//! holds the body length, the row count and the column count, then one
//! 48-byte entry per column giving the value range, a bitmap flag, the
//! bitmap range and the null count, every number a little-endian
//! `u64` and every offset relative to the batch's first byte.  The
//! position returned by a write is where the header begins.

use vstd::prelude::*;
use vstd::bytes::{
    lemma_auto_spec_u64_to_from_le_bytes, spec_u64_from_le_bytes, spec_u64_to_le_bytes,
    u64_from_le_bytes, u64_to_le_bytes,
};

use crate::array::Array;
use crate::buffer::Buffer;
use crate::error::{ArrowError, ErrorKind};
use crate::ipc::memory::{AccessMode, MemorySource};
use crate::table::{row_batch_valid, RowBatch};
use crate::ty::{fields_view, spec_value_size, DataTypeV, FieldV, Schema};

verus! {

broadcast use MemorySource::lemma_source_wf;

/// The bitmap bytes of an array, empty when it has none.
pub open spec fn validity_or_empty(a: Array) -> Seq<u8> {
    match a.spec_validity() {
        Some(b) => b,
        None => Seq::empty(),
    }
}

/// One column's slice of the body: value bytes, then bitmap bytes.
pub open spec fn col_body(a: Array) -> Seq<u8> {
    a.spec_values() + validity_or_empty(a)
}

/// The batch body: every column's slice, in order.
pub open spec fn body_bytes(arrays: Seq<Array>) -> Seq<u8>
    decreases arrays.len(),
{
    if arrays.len() == 0 {
        Seq::empty()
    } else {
        body_bytes(arrays.drop_last()) + col_body(arrays.last())
    }
}

/// One column's header entry, given the offset of its slice in the
/// body.
pub open spec fn entry_bytes(a: Array, off: nat) -> Seq<u8> {
    spec_u64_to_le_bytes(off as u64) + spec_u64_to_le_bytes(a.spec_values().len() as u64)
        + spec_u64_to_le_bytes(
        if a.spec_validity() is Some {
            1u64
        } else {
            0u64
        },
    ) + spec_u64_to_le_bytes((off + a.spec_values().len()) as u64) + spec_u64_to_le_bytes(
        validity_or_empty(a).len() as u64,
    ) + spec_u64_to_le_bytes(a.spec_null_count() as u64)
}

/// Every column's header entry, in order.
pub open spec fn entries_bytes(arrays: Seq<Array>) -> Seq<u8>
    decreases arrays.len(),
{
    if arrays.len() == 0 {
        Seq::empty()
    } else {
        entries_bytes(arrays.drop_last()) + entry_bytes(
            arrays.last(),
            body_bytes(arrays.drop_last()).len(),
        )
    }
}

/// The header: body length, row count, column count, entries.
pub open spec fn header_bytes(arrays: Seq<Array>, rows: nat) -> Seq<u8> {
    spec_u64_to_le_bytes(body_bytes(arrays).len() as u64) + spec_u64_to_le_bytes(rows as u64)
        + spec_u64_to_le_bytes(arrays.len() as u64) + entries_bytes(arrays)
}

/// The whole persisted batch: body, then header.
pub open spec fn encode_batch(arrays: Seq<Array>, rows: nat) -> Seq<u8> {
    body_bytes(arrays) + header_bytes(arrays, rows)
}

/// The number of bytes a persisted batch occupies.
pub open spec fn spec_batch_size(arrays: Seq<Array>, rows: nat) -> nat {
    encode_batch(arrays, rows).len()
}

pub proof fn lemma_entries_len(arrays: Seq<Array>)
    ensures
        entries_bytes(arrays).len() == 48 * arrays.len(),
    decreases arrays.len(),
{
    lemma_auto_spec_u64_to_from_le_bytes();
    if arrays.len() > 0 {
        lemma_entries_len(arrays.drop_last());
    }
}

pub proof fn lemma_encode_len(arrays: Seq<Array>, rows: nat)
    ensures
        spec_batch_size(arrays, rows) == body_bytes(arrays).len() + 24 + 48 * arrays.len(),
{
    lemma_auto_spec_u64_to_from_le_bytes();
    lemma_entries_len(arrays);
}

/// The body of a prefix is no longer than the body of the whole.
pub proof fn lemma_body_prefix(arrays: Seq<Array>, i: int)
    requires
        0 <= i <= arrays.len(),
    ensures
        body_bytes(arrays.take(i)).len() <= body_bytes(arrays).len(),
    decreases arrays.len() - i,
{
    if i == arrays.len() {
        assert(arrays.take(i) =~= arrays);
    } else {
        assert(arrays.take(i + 1).drop_last() =~= arrays.take(i));
        assert(arrays.take(i + 1).last() == arrays[i]);
        lemma_body_prefix(arrays, i + 1);
    }
}

proof fn lemma_subrange_concat_left(a: Seq<u8>, b: Seq<u8>, x: int, y: int)
    requires
        0 <= x <= y <= a.len(),
    ensures
        (a + b).subrange(x, y) == a.subrange(x, y),
{
    assert((a + b).subrange(x, y) =~= a.subrange(x, y));
}

proof fn lemma_subrange_concat_right(a: Seq<u8>, b: Seq<u8>, x: int, y: int)
    requires
        0 <= x <= y <= b.len(),
    ensures
        (a + b).subrange(a.len() + x, a.len() + y) == b.subrange(x, y),
{
    assert((a + b).subrange(a.len() + x, a.len() + y) =~= b.subrange(x, y));
}

/// Column `i`'s slice sits in the body at the offset the entries
/// record: the length of the body of the columns before it.
proof fn lemma_body_col_range(arrays: Seq<Array>, i: int)
    requires
        0 <= i < arrays.len(),
    ensures
        body_bytes(arrays.take(i)).len() + col_body(arrays[i]).len() <= body_bytes(arrays).len(),
        body_bytes(arrays).subrange(
            body_bytes(arrays.take(i)).len() as int,
            body_bytes(arrays.take(i)).len() + col_body(arrays[i]).len() as int,
        ) == col_body(arrays[i]),
    decreases arrays.len(),
{
    let pre = body_bytes(arrays.take(i));
    let col = col_body(arrays[i]);
    if i == arrays.len() - 1 {
        assert(arrays.drop_last() =~= arrays.take(i));
        assert(arrays.last() == arrays[i]);
        lemma_subrange_concat_right(pre, col, 0, col.len() as int);
        assert(col.subrange(0, col.len() as int) =~= col);
    } else {
        let d = arrays.drop_last();
        assert(d.take(i) =~= arrays.take(i));
        assert(d[i] == arrays[i]);
        lemma_body_col_range(d, i);
        lemma_subrange_concat_left(
            body_bytes(d),
            col_body(arrays.last()),
            pre.len() as int,
            pre.len() + col.len() as int,
        );
    }
}

/// Entry `i` sits in the entries block at offset `48 * i` and records
/// the offset of column `i`'s slice.
proof fn lemma_entries_range(arrays: Seq<Array>, i: int)
    requires
        0 <= i < arrays.len(),
    ensures
        entries_bytes(arrays).subrange(48 * i, 48 * i + 48) == entry_bytes(
            arrays[i],
            body_bytes(arrays.take(i)).len(),
        ),
    decreases arrays.len(),
{
    lemma_auto_spec_u64_to_from_le_bytes();
    lemma_entries_len(arrays);
    let ent = entry_bytes(arrays[i], body_bytes(arrays.take(i)).len());
    assert(ent.len() == 48);
    if i == arrays.len() - 1 {
        let d = arrays.drop_last();
        lemma_entries_len(d);
        assert(d =~= arrays.take(i));
        assert(arrays.last() == arrays[i]);
        lemma_subrange_concat_right(entries_bytes(d), ent, 0, 48);
        assert(ent.subrange(0, 48) =~= ent);
    } else {
        let d = arrays.drop_last();
        assert(d.take(i) =~= arrays.take(i));
        assert(d[i] == arrays[i]);
        lemma_entries_range(d, i);
        lemma_entries_len(d);
        lemma_subrange_concat_left(
            entries_bytes(d),
            entry_bytes(arrays.last(), body_bytes(d).len()),
            48 * i,
            48 * i + 48,
        );
    }
}

/// The six numbers an entry stores, at their byte offsets.
proof fn lemma_entry_fields(a: Array, off: nat)
    ensures
        entry_bytes(a, off).len() == 48,
        entry_bytes(a, off).subrange(0, 8) == spec_u64_to_le_bytes(off as u64),
        entry_bytes(a, off).subrange(8, 16) == spec_u64_to_le_bytes(a.spec_values().len() as u64),
        entry_bytes(a, off).subrange(16, 24) == spec_u64_to_le_bytes(
            if a.spec_validity() is Some {
                1u64
            } else {
                0u64
            },
        ),
        entry_bytes(a, off).subrange(24, 32) == spec_u64_to_le_bytes(
            (off + a.spec_values().len()) as u64,
        ),
        entry_bytes(a, off).subrange(32, 40) == spec_u64_to_le_bytes(
            validity_or_empty(a).len() as u64,
        ),
        entry_bytes(a, off).subrange(40, 48) == spec_u64_to_le_bytes(a.spec_null_count() as u64),
{
    lemma_auto_spec_u64_to_from_le_bytes();
    let ent = entry_bytes(a, off);
    assert(ent.subrange(0, 8) =~= spec_u64_to_le_bytes(off as u64));
    assert(ent.subrange(8, 16) =~= spec_u64_to_le_bytes(a.spec_values().len() as u64));
    assert(ent.subrange(16, 24) =~= spec_u64_to_le_bytes(
        if a.spec_validity() is Some {
            1u64
        } else {
            0u64
        },
    ));
    assert(ent.subrange(24, 32) =~= spec_u64_to_le_bytes((off + a.spec_values().len()) as u64));
    assert(ent.subrange(32, 40) =~= spec_u64_to_le_bytes(validity_or_empty(a).len() as u64));
    assert(ent.subrange(40, 48) =~= spec_u64_to_le_bytes(a.spec_null_count() as u64));
}

/// Byte ranges of a window held somewhere in a larger sequence equal
/// the window's own ranges.
proof fn lemma_view_window(view: Seq<u8>, pos: int, win: Seq<u8>, x: int, y: int)
    requires
        0 <= pos,
        pos + win.len() <= view.len(),
        view.subrange(pos, pos + win.len() as int) == win,
        0 <= x <= y <= win.len(),
    ensures
        view.subrange(pos + x, pos + y) == win.subrange(x, y),
{
    assert(view.subrange(pos + x, pos + y) =~= win.subrange(x, y));
}

/// The three numbers a stored header begins with.
proof fn lemma_header_fields(view: Seq<u8>, arrays: Seq<Array>, rows: nat, pos: int)
    requires
        0 <= pos,
        pos + spec_batch_size(arrays, rows) <= view.len(),
        view.len() <= i64::MAX,
        rows <= u64::MAX,
        view.subrange(pos, pos + spec_batch_size(arrays, rows) as int) == encode_batch(
            arrays,
            rows,
        ),
    ensures
        hdr_u64(view, pos + body_bytes(arrays).len() as int) == body_bytes(arrays).len() as u64,
        hdr_u64(view, pos + body_bytes(arrays).len() + 8) == rows as u64,
        hdr_u64(view, pos + body_bytes(arrays).len() + 16) == arrays.len() as u64,
{
    lemma_auto_spec_u64_to_from_le_bytes();
    lemma_encode_len(arrays, rows);
    let enc = encode_batch(arrays, rows);
    let body = body_bytes(arrays);
    let hdr = header_bytes(arrays, rows);
    let bl = body.len() as int;
    lemma_entries_len(arrays);
    assert(hdr.subrange(0, 8) =~= spec_u64_to_le_bytes(body.len() as u64));
    assert(hdr.subrange(8, 16) =~= spec_u64_to_le_bytes(rows as u64));
    assert(hdr.subrange(16, 24) =~= spec_u64_to_le_bytes(arrays.len() as u64));
    lemma_subrange_concat_right(body, hdr, 0, 8);
    lemma_subrange_concat_right(body, hdr, 8, 16);
    lemma_subrange_concat_right(body, hdr, 16, 24);
    lemma_view_window(view, pos, enc, bl, bl + 8);
    lemma_view_window(view, pos, enc, bl + 8, bl + 16);
    lemma_view_window(view, pos, enc, bl + 16, bl + 24);
}

/// Column `i` of a stored batch reads back: its entry is consistent,
/// and the stored byte ranges are exactly the original array's bytes.
proof fn lemma_round_trip_entry(
    view: Seq<u8>,
    arrays: Seq<Array>,
    rows: nat,
    schema: Seq<FieldV>,
    pos: int,
    i: int,
)
    requires
        0 <= pos,
        pos + spec_batch_size(arrays, rows) <= view.len(),
        view.len() <= i64::MAX,
        view.subrange(pos, pos + spec_batch_size(arrays, rows) as int) == encode_batch(
            arrays,
            rows,
        ),
        rows <= usize::MAX,
        arrays.len() == schema.len(),
        0 <= i < arrays.len(),
        arrays[i].spec_type() == schema[i].data_type,
        arrays[i].spec_len() == rows,
        arrays[i].spec_values().len() == rows * spec_value_size(schema[i].data_type),
        arrays[i].spec_values().len() <= usize::MAX,
        match arrays[i].spec_validity() {
            Some(b) => b.len() == (rows + 7) / 8,
            None => true,
        },
    ensures
        entry_ok(view, pos + body_bytes(arrays).len() as int, schema, i),
        array_decoded(view, pos + body_bytes(arrays).len() as int, schema, i, arrays[i]),
{
    lemma_auto_spec_u64_to_from_le_bytes();
    lemma_encode_len(arrays, rows);
    lemma_header_fields(view, arrays, rows, pos);
    lemma_body_col_range(arrays, i);
    lemma_entries_range(arrays, i);
    lemma_entries_len(arrays);
    let enc = encode_batch(arrays, rows);
    let body = body_bytes(arrays);
    let hdr = header_bytes(arrays, rows);
    let bl = body.len() as int;
    let hpos = pos + bl;
    let a = arrays[i];
    let off = body_bytes(arrays.take(i)).len() as int;
    let col = col_body(a);
    let vlen = a.spec_values().len() as int;
    let ve = validity_or_empty(a);
    let ent = entry_bytes(a, off as nat);
    lemma_entry_fields(a, off as nat);

    // Locate entry i's 48 bytes in the view.
    let h3 = spec_u64_to_le_bytes(body.len() as u64) + spec_u64_to_le_bytes(rows as u64)
        + spec_u64_to_le_bytes(arrays.len() as u64);
    assert(hdr == h3 + entries_bytes(arrays));
    lemma_subrange_concat_right(h3, entries_bytes(arrays), 48 * i, 48 * i + 48);
    lemma_subrange_concat_right(body, hdr, 24 + 48 * i, 24 + 48 * i + 48);
    let e = hpos + 24 + 48 * i;
    lemma_view_window(view, pos, enc, bl + 24 + 48 * i, bl + 24 + 48 * i + 48);
    assert(view.subrange(e, e + 48) == ent);

    // The six numbers the entry stores.
    lemma_view_window(view, e, ent, 0, 8);
    lemma_view_window(view, e, ent, 8, 16);
    lemma_view_window(view, e, ent, 16, 24);
    lemma_view_window(view, e, ent, 24, 32);
    lemma_view_window(view, e, ent, 32, 40);
    lemma_view_window(view, e, ent, 40, 48);
    assert(hdr_u64(view, e) == off as u64);
    assert(hdr_u64(view, e + 8) == vlen as u64);
    assert(hdr_u64(view, e + 24) == (off + vlen) as u64);
    assert(hdr_u64(view, e + 32) == ve.len() as u64);

    // The stored value bytes are the original ones.
    lemma_subrange_concat_left(body, hdr, off, off + vlen);
    lemma_view_window(view, pos, enc, off, off + vlen);
    assert(body.subrange(off, off + vlen) =~= col.subrange(0, vlen));
    assert(col.subrange(0, vlen) =~= a.spec_values());
    assert(view.subrange(pos + off, pos + off + vlen) == a.spec_values());

    // And so are the stored bitmap bytes, when there is a bitmap.
    if a.spec_validity() is Some {
        lemma_subrange_concat_left(body, hdr, off + vlen, off + vlen + ve.len() as int);
        lemma_view_window(view, pos, enc, off + vlen, off + vlen + ve.len() as int);
        assert(body.subrange(off + vlen, off + vlen + ve.len() as int) =~= col.subrange(
            vlen,
            vlen + ve.len() as int,
        ));
        assert(col.subrange(vlen, vlen + ve.len() as int) =~= ve);
        assert(view.subrange(pos + off + vlen, pos + off + vlen + ve.len() as int) == ve);
    }
}

/// Round trip: a source that holds an encoded batch at `pos` reads
/// back at the header position the writer returns.  The header is
/// consistent with the batch's own schema, and every column decodes to
/// exactly the original array's type, length, value bytes and bitmap.
pub proof fn lemma_round_trip(
    view: Seq<u8>,
    arrays: Seq<Array>,
    rows: nat,
    schema: Seq<FieldV>,
    pos: int,
)
    requires
        0 <= pos,
        pos + spec_batch_size(arrays, rows) <= view.len(),
        view.len() <= i64::MAX,
        view.subrange(pos, pos + spec_batch_size(arrays, rows) as int) == encode_batch(
            arrays,
            rows,
        ),
        rows <= usize::MAX,
        arrays.len() == schema.len(),
        forall|i: int|
            0 <= i < arrays.len() ==> (#[trigger] arrays[i]).spec_type() == schema[i].data_type,
        forall|i: int| 0 <= i < arrays.len() ==> (#[trigger] arrays[i]).spec_len() == rows,
        forall|i: int|
            0 <= i < arrays.len() ==> (#[trigger] arrays[i]).spec_values().len() == rows
                * spec_value_size(schema[i].data_type),
        forall|i: int|
            0 <= i < arrays.len() ==> (#[trigger] arrays[i]).spec_values().len() <= usize::MAX,
        forall|i: int|
            0 <= i < arrays.len() ==> match (#[trigger] arrays[i]).spec_validity() {
                Some(b) => b.len() == (rows + 7) / 8,
                None => true,
            },
    ensures
        read_ok(view, pos + body_bytes(arrays).len() as int, schema, true),
        forall|i: int|
            0 <= i < arrays.len() ==> array_decoded(
                view,
                pos + body_bytes(arrays).len() as int,
                schema,
                i,
                #[trigger] arrays[i],
            ),
{
    lemma_auto_spec_u64_to_from_le_bytes();
    lemma_encode_len(arrays, rows);
    lemma_header_fields(view, arrays, rows, pos);
    let hpos = pos + body_bytes(arrays).len() as int;
    assert forall|i: int| 0 <= i < schema.len() implies #[trigger] entry_ok(
        view,
        hpos,
        schema,
        i,
    ) by {
        lemma_round_trip_entry(view, arrays, rows, schema, pos, i);
    }
    assert forall|i: int| 0 <= i < arrays.len() implies array_decoded(
        view,
        hpos,
        schema,
        i,
        #[trigger] arrays[i],
    ) by {
        lemma_round_trip_entry(view, arrays, rows, schema, pos, i);
    }
}

/// Two arrays that decode the same stored column are equal: same type,
/// length, value bytes and bitmap bytes.  With `lemma_round_trip` this
/// makes every array a reader returns equal to the one that was
/// written.
pub proof fn lemma_decoded_equal(
    view: Seq<u8>,
    hpos: int,
    schema: Seq<FieldV>,
    i: int,
    a: Array,
    b: Array,
)
    requires
        array_decoded(view, hpos, schema, i, a),
        array_decoded(view, hpos, schema, i, b),
    ensures
        crate::array::spec_arrays_equal(a, b),
{
}

/// How deep a data type nests: 1 for a leaf, one more for each struct
/// level.
pub open spec fn type_depth(d: DataTypeV) -> nat
    decreases d,
{
    match d {
        DataTypeV::Primitive { .. } => 1,
        DataTypeV::Utf8 => 1,
        DataTypeV::Struct { fields } => 1 + fields_depth(fields),
    }
}

/// The deepest nesting among a sequence of fields, 0 for none.
pub open spec fn fields_depth(s: Seq<FieldV>) -> nat
    decreases s,
{
    if s.len() == 0 {
        0
    } else if fields_depth(s.drop_last()) >= type_depth(s.last().data_type) {
        fields_depth(s.drop_last())
    } else {
        type_depth(s.last().data_type)
    }
}

proof fn lemma_type_depth_pos(d: DataTypeV)
    ensures
        type_depth(d) >= 1,
{
    match d {
        DataTypeV::Primitive { .. } => {},
        DataTypeV::Utf8 => {},
        DataTypeV::Struct { .. } => {},
    }
}

proof fn lemma_fields_depth(s: Seq<FieldV>)
    ensures
        forall|i: int| 0 <= i < s.len() ==> type_depth(s[i].data_type) <= fields_depth(s),
        s.len() > 0 ==> exists|i: int|
            0 <= i < s.len() && fields_depth(s) == type_depth(s[i].data_type),
    decreases s.len(),
{
    if s.len() > 0 {
        lemma_fields_depth(s.drop_last());
        lemma_type_depth_pos(s.last().data_type);
        assert forall|i: int| 0 <= i < s.len() implies type_depth(s[i].data_type) <= fields_depth(
            s,
        ) by {
            if i < s.len() - 1 {
                assert(s.drop_last()[i] == s[i]);
                assert(type_depth(s[i].data_type) <= fields_depth(s.drop_last()));
            } else {
                assert(s[i] == s.last());
            }
        }
        if fields_depth(s.drop_last()) >= type_depth(s.last().data_type) {
            assert(s.len() > 1) by {
                if s.len() == 1 {
                    assert(fields_depth(s.drop_last()) == 0);
                }
            }
            let i = choose|i: int|
                0 <= i < s.drop_last().len() && fields_depth(s.drop_last()) == type_depth(
                    s.drop_last()[i].data_type,
                );
            assert(s.drop_last()[i] == s[i]);
            assert(fields_depth(s) == type_depth(s[i].data_type));
        } else {
            assert(fields_depth(s) == type_depth(s[s.len() - 1].data_type));
        }
    }
}

/// Whether a data type nests deeper than `limit` struct levels.
fn depth_exceeds(dt: &crate::ty::DataType, limit: i32) -> (r: bool)
    ensures
        r == (type_depth(dt@) > limit as int),
    decreases *dt,
{
    if limit <= 0 {
        return true;
    }
    match dt {
        crate::ty::DataType::Primitive(_) => false,
        crate::ty::DataType::Utf8 => false,
        crate::ty::DataType::Struct(fields) => fields_exceed(fields, limit - 1),
    }
}

/// Whether any field's type nests deeper than `limit` levels.
fn fields_exceed(fields: &Vec<crate::ty::Field>, limit: i32) -> (r: bool)
    requires
        limit >= 0,
    ensures
        r == (fields_depth(fields_view(fields@)) > limit as int),
    decreases *fields,
{
    let ghost fv = fields_view(fields@);
    proof {
        crate::ty::lemma_fields_view(fields@);
        lemma_fields_depth(fv);
    }
    let mut i: usize = 0;
    while i < fields.len()
        invariant
            limit >= 0,
            i <= fields@.len(),
            fv == fields_view(fields@),
            fv.len() == fields@.len(),
            forall|j: int| 0 <= j < fields@.len() ==> fv[j] == crate::ty::field_view(fields@[j]),
            forall|j: int| 0 <= j < fv.len() ==> type_depth(fv[j].data_type) <= fields_depth(fv),
            fv.len() > 0 ==> exists|j: int|
                0 <= j < fv.len() && fields_depth(fv) == type_depth(fv[j].data_type),
            forall|j: int| 0 <= j < i ==> type_depth(fv[j].data_type) <= limit as int,
        decreases fields@.len() - i,
    {
        if depth_exceeds(&fields[i].data_type, limit) {
            proof {
                assert(fv[i as int] == crate::ty::field_view(fields@[i as int]));
                assert(type_depth(fv[i as int].data_type) <= fields_depth(fv));
            }
            return true;
        }
        i = i + 1;
    }
    false
}

/// The number of bytes `write_row_batch` needs for this batch.
///
/// Fails with a validation error when that number does not fit the
/// addressable range of a source.
pub fn row_batch_size(batch: &RowBatch) -> (r: Result<i64, ArrowError>)
    requires
        batch.wf(),
    ensures
        r is Ok <==> spec_batch_size(batch.spec_arrays(), batch.spec_rows()) <= i64::MAX,
        match r {
            Ok(n) => n == spec_batch_size(batch.spec_arrays(), batch.spec_rows()),
            Err(e) => e.kind == ErrorKind::Validation,
        },
{
    let ghost arrays = batch.spec_arrays();
    proof {
        lemma_encode_len(arrays, batch.spec_rows());
    }
    let ncols = batch.num_cols();
    if ncols as u64 > ((i64::MAX as u64) - 24) / 48 {
        proof {
            let q: int = ((i64::MAX as u64) - 24) as int / 48;
            assert(48 * (ncols as int) >= 48 * (q + 1));
            assert(i64::MAX - 24 < 48 * (q + 1));
        }
        return Err(ArrowError::new(ErrorKind::Validation, "batch exceeds the addressable range"));
    }
    let mut total: u64 = 24 + 48 * (ncols as u64);
    proof {
        let q: int = ((i64::MAX as u64) - 24) as int / 48;
        assert(48 * (ncols as int) <= 48 * q);
        assert(48 * q <= i64::MAX - 24);
        assert(body_bytes(arrays.take(0)) =~= Seq::<u8>::empty());
    }
    let mut i: usize = 0;
    while i < ncols
        invariant
            batch.wf(),
            arrays == batch.spec_arrays(),
            ncols == arrays.len(),
            i <= ncols,
            total == 24 + 48 * (ncols as int) + body_bytes(arrays.take(i as int)).len(),
            total <= i64::MAX as u64,
        decreases ncols - i,
    {
        let arr = batch.column(i);
        let vlen = arr.values_size() as u64;
        let blen = match arr.validity_size() {
            Some(n) => n as u64,
            None => 0u64,
        };
        proof {
            assert(arrays.take(i + 1).drop_last() =~= arrays.take(i as int));
            assert(arrays.take(i + 1).last() == arrays[i as int]);
        }
        if vlen > i64::MAX as u64 - total || blen > i64::MAX as u64 - total - vlen {
            proof {
                lemma_body_prefix(arrays, i + 1);
                lemma_encode_len(arrays, batch.spec_rows());
            }
            return Err(
                ArrowError::new(ErrorKind::Validation, "batch exceeds the addressable range"),
            );
        }
        total = total + vlen + blen;
        i = i + 1;
    }
    proof {
        assert(arrays.take(ncols as int) =~= arrays);
        lemma_encode_len(arrays, batch.spec_rows());
    }
    Ok(total as i64)
}

/// Serializes `batch` into `src` starting at `pos` and returns the
/// position of the batch's header.
///
/// `max_recursion_depth` bounds how many nested struct levels the
/// serializer descends into; a schema nesting deeper fails with a
/// recursion-limit error.  A batch too large for the addressable range
/// fails with a validation error, and a source that is closed, not
/// open for writing, or too small for the batch at `pos` fails with an
/// I/O error.  On success exactly the batch's range of the source is
/// replaced by the encoded batch.
pub fn write_row_batch(src: &mut MemorySource, batch: &RowBatch, pos: i64, max_recursion_depth: i32) -> (r:
    Result<i64, ArrowError>)
    requires
        old(src).wf(),
        batch.wf(),
    ensures
        final(src).wf(),
        final(src).spec_mode() == old(src).spec_mode(),
        final(src).is_open() == old(src).is_open(),
        r is Ok <==> ({
            &&& forall|i: int|
                0 <= i < batch.spec_schema().len() ==> type_depth(
                    #[trigger] batch.spec_schema()[i].data_type,
                ) <= max_recursion_depth as int
            &&& spec_batch_size(batch.spec_arrays(), batch.spec_rows()) <= i64::MAX
            &&& old(src).is_open()
            &&& old(src).spec_mode() == AccessMode::READ_WRITE
            &&& 0 <= pos
            &&& pos + spec_batch_size(batch.spec_arrays(), batch.spec_rows()) <= old(
                src,
            )@.len()
        }),
        match r {
            Ok(hpos) => {
                &&& final(src)@.len() == old(src)@.len()
                &&& final(src)@.subrange(
                    pos as int,
                    pos + spec_batch_size(batch.spec_arrays(), batch.spec_rows()),
                ) == encode_batch(batch.spec_arrays(), batch.spec_rows())
                &&& forall|i: int|
                    0 <= i < old(src)@.len() && !(pos <= i < pos + spec_batch_size(
                        batch.spec_arrays(),
                        batch.spec_rows(),
                    )) ==> final(src)@[i] == old(src)@[i]
                &&& hpos == pos + body_bytes(batch.spec_arrays()).len()
            },
            Err(e) => {
                &&& final(src)@ == old(src)@
                &&& (e.kind == ErrorKind::RecursionLimit || e.kind == ErrorKind::Validation
                    || e.kind == ErrorKind::Io)
            },
        },
{
    let ghost arrays = batch.spec_arrays();
    let ghost rows = batch.spec_rows();

    // The schema may not nest deeper than the configured limit.
    let schema = batch.schema();
    let nfields = schema.num_fields();
    let mut i: usize = 0;
    while i < nfields
        invariant
            nfields == batch.spec_schema().len(),
            schema@ == batch.spec_schema(),
            i <= nfields,
            src.wf(),
            src@ == old(src)@,
            src.spec_mode() == old(src).spec_mode(),
            src.is_open() == old(src).is_open(),
            forall|j: int|
                0 <= j < i ==> type_depth(#[trigger] batch.spec_schema()[j].data_type)
                    <= max_recursion_depth as int,
        decreases nfields - i,
    {
        if depth_exceeds(&schema.field(i).data_type, max_recursion_depth) {
            proof {
                assert(type_depth(batch.spec_schema()[i as int].data_type)
                    > max_recursion_depth as int);
            }
            return Err(
                ArrowError::new(ErrorKind::RecursionLimit, "schema nests deeper than the limit"),
            );
        }
        i = i + 1;
    }

    let total = match row_batch_size(batch) {
        Ok(n) => n,
        Err(e) => {
            return Err(e);
        },
    };

    if !src.is_open_now() || !matches!(src.mode(), AccessMode::READ_WRITE) {
        return Err(ArrowError::new(ErrorKind::Io, "source is not open for writing"));
    }
    let src_size = src.size();
    if pos < 0 || total > src_size || pos > src_size - total {
        return Err(ArrowError::new(ErrorKind::Io, "batch does not fit the source at this position"));
    }

    // Assemble the body and the header entries column by column.
    let ncols = batch.num_cols();
    let mut body: Vec<u8> = Vec::new();
    let mut entries: Vec<u8> = Vec::new();
    let mut i: usize = 0;
    proof {
        assert(body_bytes(arrays.take(0)) =~= Seq::<u8>::empty());
        assert(entries_bytes(arrays.take(0)) =~= Seq::<u8>::empty());
        assert(body@ =~= body_bytes(arrays.take(0)));
        assert(entries@ =~= entries_bytes(arrays.take(0)));
    }
    while i < ncols
        invariant
            batch.wf(),
            arrays == batch.spec_arrays(),
            ncols == arrays.len(),
            i <= ncols,
            src.wf(),
            src@ == old(src)@,
            src.spec_mode() == old(src).spec_mode(),
            src.is_open() == old(src).is_open(),
            src.is_open(),
            src.spec_mode() == AccessMode::READ_WRITE,
            0 <= pos,
            pos + spec_batch_size(arrays, batch.spec_rows()) <= src@.len(),
            body@ == body_bytes(arrays.take(i as int)),
            entries@ == entries_bytes(arrays.take(i as int)),
        decreases ncols - i,
    {
        let arr = batch.column(i);
        let value_off = body.len() as u64;
        let mut vbytes = arr.values_to_vec();
        let value_len = vbytes.len() as u64;
        body.append(&mut vbytes);
        let validity_off = body.len() as u64;
        let has: u64;
        let validity_len: u64;
        match arr.validity_bytes() {
            Some(mut bm) => {
                has = 1;
                validity_len = bm.len() as u64;
                body.append(&mut bm);
            },
            None => {
                has = 0;
                validity_len = 0;
            },
        }
        let null_count = arr.null_count() as u64;
        let mut e0 = u64_to_le_bytes(value_off);
        entries.append(&mut e0);
        let mut e1 = u64_to_le_bytes(value_len);
        entries.append(&mut e1);
        let mut e2 = u64_to_le_bytes(has);
        entries.append(&mut e2);
        let mut e3 = u64_to_le_bytes(validity_off);
        entries.append(&mut e3);
        let mut e4 = u64_to_le_bytes(validity_len);
        entries.append(&mut e4);
        let mut e5 = u64_to_le_bytes(null_count);
        entries.append(&mut e5);
        proof {
            assert(arrays.take(i + 1).drop_last() =~= arrays.take(i as int));
            assert(arrays.take(i + 1).last() == arrays[i as int]);
            assert(body@ =~= body_bytes(arrays.take(i + 1)));
            assert(entries@ =~= entries_bytes(arrays.take(i + 1)));
        }
        i = i + 1;
    }
    proof {
        assert(arrays.take(ncols as int) =~= arrays);
    }

    let body_len = body.len() as u64;
    let mut out = body;
    let mut h0 = u64_to_le_bytes(body_len);
    out.append(&mut h0);
    let mut h1 = u64_to_le_bytes(batch.num_rows() as u64);
    out.append(&mut h1);
    let mut h2 = u64_to_le_bytes(ncols as u64);
    out.append(&mut h2);
    out.append(&mut entries);
    proof {
        assert(out@ =~= encode_batch(arrays, rows));
        lemma_encode_len(arrays, rows);
    }

    match src.write(pos, out.as_slice()) {
        Ok(()) => {},
        Err(_) => {
            proof {
                assert(false);
            }
        },
    }
    Ok(pos + (body_len as i64))
}

/// The little-endian `u64` stored at byte position `at`.
pub open spec fn hdr_u64(data: Seq<u8>, at: int) -> u64 {
    spec_u64_from_le_bytes(data.subrange(at, at + 8))
}

/// Whether a stored batch at header position `hpos` can be read back
/// against `schema`: the header lies within the source, announces one
/// column per schema field, and each entry announces buffers of the
/// sizes the schema and row count imply, lying within the body.
pub open spec fn read_ok(view: Seq<u8>, hpos: int, schema: Seq<FieldV>, open: bool) -> bool {
    &&& open
    &&& 0 <= hpos
    &&& hpos + 24 <= view.len()
    &&& hdr_u64(view, hpos + 16) == schema.len() as u64
    &&& hpos + 24 + 48 * schema.len() <= view.len()
    &&& hdr_u64(view, hpos) as int <= hpos
    &&& hdr_u64(view, hpos + 8) as int <= usize::MAX
    &&& forall|i: int| 0 <= i < schema.len() ==> entry_ok(view, hpos, schema, i)
}

/// Whether column `i`'s header entry is consistent with the schema and
/// the announced row count.
pub open spec fn entry_ok(view: Seq<u8>, hpos: int, schema: Seq<FieldV>, i: int) -> bool {
    let blen = hdr_u64(view, hpos) as int;
    let rows = hdr_u64(view, hpos + 8) as int;
    let e = hpos + 24 + 48 * i;
    let voff = hdr_u64(view, e) as int;
    let vlen = hdr_u64(view, e + 8) as int;
    let has = hdr_u64(view, e + 16) as int;
    let boff = hdr_u64(view, e + 24) as int;
    let blen2 = hdr_u64(view, e + 32) as int;
    &&& rows * spec_value_size(schema[i].data_type) <= usize::MAX
    &&& vlen == rows * spec_value_size(schema[i].data_type)
    &&& voff + vlen <= blen
    &&& (has == 0 || has == 1)
    &&& (has == 1 ==> blen2 == (rows + 7) / 8 && boff + blen2 <= blen)
}

/// Whether array `a` is the zero-copy reconstruction of column `i` of
/// the batch stored at `hpos`: its type is the field's, its length the
/// announced row count, and its buffers are exactly the stored byte
/// ranges.
pub open spec fn array_decoded(
    view: Seq<u8>,
    hpos: int,
    schema: Seq<FieldV>,
    i: int,
    a: Array,
) -> bool {
    let blen = hdr_u64(view, hpos) as int;
    let rows = hdr_u64(view, hpos + 8) as int;
    let start = hpos - blen;
    let e = hpos + 24 + 48 * i;
    let voff = hdr_u64(view, e) as int;
    let vlen = hdr_u64(view, e + 8) as int;
    let has = hdr_u64(view, e + 16) as int;
    let boff = hdr_u64(view, e + 24) as int;
    let blen2 = hdr_u64(view, e + 32) as int;
    &&& a.spec_type() == schema[i].data_type
    &&& a.spec_len() == rows
    &&& a.spec_values() == view.subrange(start + voff, start + voff + vlen)
    &&& (if has == 1 {
        a.spec_validity() == Some(view.subrange(start + boff, start + boff + blen2))
    } else {
        a.spec_validity() is None
    })
}

/// For a positive divisor, `a <= m / w` exactly when `a * w <= m`.
proof fn lemma_le_div_iff_mul_le(a: nat, w: nat, m: nat)
    requires
        w >= 1,
    ensures
        a <= m / w <==> a * w <= m,
{
    vstd::arithmetic::div_mod::lemma_fundamental_div_mod(m as int, w as int);
    assert(0 <= (m as int) % (w as int) < w as int) by (nonlinear_arith)
        requires
            w >= 1,
    ;
    if a <= m / w {
        assert(a * w <= (m / w) * w) by (nonlinear_arith)
            requires
                a <= m / w,
                w >= 1,
        ;
        assert((m as int / w as int) * (w as int) <= m as int);
    }
    if a > m / w {
        assert(a * w >= (m / w + 1) * w) by (nonlinear_arith)
            requires
                a >= m / w + 1,
                w >= 1,
        ;
        assert((m as int / w as int + 1) * (w as int) == (m as int / w as int) * (w as int)
            + w as int) by (nonlinear_arith);
        assert((m as int / w as int) * (w as int) == (w as int) * (m as int / w as int))
            by (nonlinear_arith);
        assert((m as int / w as int + 1) * (w as int) > m as int);
    }
}

/// Reads the little-endian `u64` stored at position `at`.
fn read_u64_at(src: &MemorySource, at: i64) -> (r: Result<u64, ArrowError>)
    requires
        src.wf(),
    ensures
        r is Ok <==> (src.is_open() && 0 <= at && at + 8 <= src@.len()),
        match r {
            Ok(x) => x == hdr_u64(src@, at as int),
            Err(e) => e.kind == ErrorKind::Io,
        },
{
    match src.read_at(at, 8) {
        Ok(buf) => {
            let v = buf.to_vec();
            Ok(u64_from_le_bytes(v.as_slice()))
        },
        Err(e) => Err(e),
    }
}

/// A live, exclusively-owned handle onto a stored batch: the source
/// and the header position a write returned.
///
/// The reader holds the source for its whole lifetime; dropping the
/// reader releases it.
pub struct RowBatchReader {
    src: MemorySource,
    pos: i64,
}

impl RowBatchReader {
    pub closed spec fn spec_src(self) -> MemorySource {
        self.src
    }

    pub closed spec fn spec_pos(self) -> int {
        self.pos as int
    }

    pub closed spec fn wf(self) -> bool {
        self.src.wf()
    }

    /// Opens a handle at a previously returned header position; no
    /// array is materialized yet.
    pub fn open(src: MemorySource, pos: i64) -> (r: RowBatchReader)
        requires
            src.wf(),
        ensures
            r.wf(),
            r.spec_src() == src,
            r.spec_pos() == pos,
    {
        RowBatchReader { src, pos }
    }

    /// Releases the handle, handing the source back.
    pub fn into_source(self) -> (src: MemorySource)
        ensures
            src == self.spec_src(),
    {
        let RowBatchReader { src, pos: _ } = self;
        src
    }

    /// Reconstructs the stored batch against the expected schema.
    ///
    /// Succeeds exactly when the stored header is consistent with the
    /// schema; each reconstructed array's buffers are then exactly the
    /// stored byte ranges, with the null count re-derived from the
    /// stored bitmap.
    pub fn read(&self, schema: &Schema) -> (r: Result<RowBatch, ArrowError>)
        requires
            self.wf(),
        ensures
            r is Ok <==> read_ok(
                self.spec_src()@,
                self.spec_pos(),
                schema@,
                self.spec_src().is_open(),
            ),
            match r {
                Ok(b) => {
                    &&& b.wf()
                    &&& b.spec_schema() == schema@
                    &&& row_batch_valid(b)
                    &&& b.spec_rows() == hdr_u64(self.spec_src()@, self.spec_pos() + 8)
                    &&& b.spec_arrays().len() == schema@.len()
                    &&& forall|i: int|
                        0 <= i < schema@.len() ==> array_decoded(
                            self.spec_src()@,
                            self.spec_pos(),
                            schema@,
                            i,
                            #[trigger] b.spec_arrays()[i],
                        )
                },
                Err(e) => (e.kind == ErrorKind::Io || e.kind == ErrorKind::TypeMismatch || e.kind
                    == ErrorKind::Validation),
            },
    {
        let ghost view = self.spec_src()@;
        let hpos = self.pos;
        match self.src.read_at(hpos, 24) {
            Ok(_) => {},
            Err(e) => {
                return Err(e);
            },
        }
        let blen64 = match read_u64_at(&self.src, hpos) {
            Ok(x) => x,
            Err(e) => {
                proof {
                    assert(false);
                }
                return Err(e);
            },
        };
        let rows64 = match read_u64_at(&self.src, hpos + 8) {
            Ok(x) => x,
            Err(e) => {
                proof {
                    assert(false);
                }
                return Err(e);
            },
        };
        let ncols64 = match read_u64_at(&self.src, hpos + 16) {
            Ok(x) => x,
            Err(e) => {
                proof {
                    assert(false);
                }
                return Err(e);
            },
        };
        let ncols = schema.num_fields();
        if ncols64 != ncols as u64 {
            return Err(
                ArrowError::new(
                    ErrorKind::TypeMismatch,
                    "stored column count does not match the schema",
                ),
            );
        }
        let len = self.src.size();
        let avail = ((len - hpos) as u64) - 24;
        if ncols as u64 > avail / 48 {
            return Err(ArrowError::new(ErrorKind::Io, "header runs past the end of the source"));
        }
        if blen64 > hpos as u64 {
            return Err(ArrowError::new(ErrorKind::Io, "body runs before the source"));
        }
        if rows64 > usize::MAX as u64 {
            return Err(ArrowError::new(ErrorKind::Validation, "row count over the limit"));
        }
        let rows = rows64 as usize;
        let start = hpos - (blen64 as i64);
        let mut arrays: Vec<Array> = Vec::new();
        let mut e: i64 = hpos + 24;
        let mut i: usize = 0;
        while i < ncols
            invariant
                self.wf(),
                view == self.spec_src()@,
                hpos == self.spec_pos(),
                self.spec_src().is_open(),
                0 <= hpos,
                hpos + 24 <= view.len(),
                ncols == schema@.len(),
                hdr_u64(view, hpos + 16) == ncols as u64,
                hpos + 24 + 48 * ncols <= view.len(),
                blen64 == hdr_u64(view, hpos as int),
                rows64 == hdr_u64(view, hpos + 8),
                blen64 <= hpos as u64,
                rows64 <= usize::MAX as u64,
                rows == rows64 as usize,
                start == hpos - blen64 as int,
                i <= ncols,
                e == hpos + 24 + 48 * i,
                arrays@.len() == i,
                forall|j: int| 0 <= j < i ==> entry_ok(view, hpos as int, schema@, j),
                forall|j: int| 0 <= j < i ==> (#[trigger] arrays@[j]).wf(),
                forall|j: int|
                    0 <= j < i ==> array_decoded(view, hpos as int, schema@, j, arrays@[j]),
            decreases ncols - i,
        {
            let voff64 = match read_u64_at(&self.src, e) {
                Ok(x) => x,
                Err(er) => {
                    proof {
                        assert(false);
                    }
                    return Err(er);
                },
            };
            let vlen64 = match read_u64_at(&self.src, e + 8) {
                Ok(x) => x,
                Err(er) => {
                    proof {
                        assert(false);
                    }
                    return Err(er);
                },
            };
            let has64 = match read_u64_at(&self.src, e + 16) {
                Ok(x) => x,
                Err(er) => {
                    proof {
                        assert(false);
                    }
                    return Err(er);
                },
            };
            let boff64 = match read_u64_at(&self.src, e + 24) {
                Ok(x) => x,
                Err(er) => {
                    proof {
                        assert(false);
                    }
                    return Err(er);
                },
            };
            let blen264 = match read_u64_at(&self.src, e + 32) {
                Ok(x) => x,
                Err(er) => {
                    proof {
                        assert(false);
                    }
                    return Err(er);
                },
            };
            let width = schema.field(i).data_type.value_size();
            if width > 0 && rows > usize::MAX / width {
                proof {
                    lemma_le_div_iff_mul_le(rows as nat, width as nat, usize::MAX as nat);
                    assert(!entry_ok(view, hpos as int, schema@, i as int));
                }
                return Err(ArrowError::new(ErrorKind::Validation, "row count over the limit"));
            }
            proof {
                if width > 0 {
                    lemma_le_div_iff_mul_le(rows as nat, width as nat, usize::MAX as nat);
                } else {
                    assert((rows64 as int) * 0 == 0) by (nonlinear_arith);
                }
            }
            let expected_vlen: u64 = (rows as u64) * (width as u64);
            if vlen64 != expected_vlen {
                proof {
                    assert(!entry_ok(view, hpos as int, schema@, i as int));
                }
                return Err(
                    ArrowError::new(
                        ErrorKind::Validation,
                        "stored value buffer does not match the schema",
                    ),
                );
            }
            if voff64 > blen64 || vlen64 > blen64 - voff64 {
                proof {
                    assert(!entry_ok(view, hpos as int, schema@, i as int));
                }
                return Err(
                    ArrowError::new(ErrorKind::Validation, "stored value buffer out of range"),
                );
            }
            if has64 > 1 {
                proof {
                    assert(!entry_ok(view, hpos as int, schema@, i as int));
                }
                return Err(ArrowError::new(ErrorKind::Validation, "malformed bitmap flag"));
            }
            let vbuf = match self.src.read_at(start + voff64 as i64, vlen64 as i64) {
                Ok(b) => b,
                Err(er) => {
                    proof {
                        assert(false);
                    }
                    return Err(er);
                },
            };
            let validity: Option<Buffer>;
            if has64 == 1 {
                let expected_bm: u64 = if rows == 0 {
                    0
                } else {
                    ((rows - 1) / 8 + 1) as u64
                };
                assert(expected_bm as int == (rows64 as int + 7) / 8);
                if blen264 != expected_bm {
                    proof {
                        assert(!entry_ok(view, hpos as int, schema@, i as int));
                    }
                    return Err(
                        ArrowError::new(
                            ErrorKind::Validation,
                            "stored bitmap does not match the row count",
                        ),
                    );
                }
                if boff64 > blen64 || blen264 > blen64 - boff64 {
                    proof {
                        assert(!entry_ok(view, hpos as int, schema@, i as int));
                    }
                    return Err(
                        ArrowError::new(ErrorKind::Validation, "stored bitmap out of range"),
                    );
                }
                let bbuf = match self.src.read_at(start + boff64 as i64, blen264 as i64) {
                    Ok(b) => b,
                    Err(er) => {
                        proof {
                            assert(false);
                        }
                        return Err(er);
                    },
                };
                validity = Some(bbuf);
            } else {
                validity = None;
            }
            let arr = match Array::from_parts(
                schema.field(i).data_type.duplicate(),
                rows,
                vbuf,
                validity,
            ) {
                Ok(arr) => arr,
                Err(er) => {
                    proof {
                        assert(false);
                    }
                    return Err(er);
                },
            };
            arrays.push(arr);
            proof {
                assert(entry_ok(view, hpos as int, schema@, i as int));
                assert(array_decoded(view, hpos as int, schema@, i as int, arrays@[i as int]));
            }
            e = e + 48;
            i = i + 1;
        }
        let batch = RowBatch::new(schema.duplicate(), rows, arrays);
        Ok(batch)
    }
}

} // verus!
