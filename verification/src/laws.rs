//! Properties of the wire format, stated and proved against the
//! mathematical decoder in [`crate::wire`].

use vstd::bytes::{
    lemma_auto_spec_u16_to_from_le_bytes, lemma_auto_spec_u32_to_from_le_bytes,
    lemma_auto_spec_u64_to_from_le_bytes, spec_u16_to_le_bytes, spec_u32_from_le_bytes,
    spec_u32_to_le_bytes, spec_u64_to_le_bytes,
};
use vstd::prelude::*;
use vstd::utf8::{decode_utf8, valid_utf8};

use crate::data_type::DataTypeV;
use crate::field_info::{FieldCaseV, FieldV};
use crate::message_path::PathView;
use crate::msg::MsgV;
use crate::value::ValueV;
use crate::wire::{
    align_pad, align_up, dec_elems, dec_field, dec_fields, dec_message, dec_string, dec_value,
    dep_lookup, MsgR, SeqR, ValueR, WireFault,
};

verus! {

/// Any header other than `00 01 00 00` is rejected, before any field is
/// decoded, and the rejection names the header's second byte.
pub proof fn lemma_header_rejected(
    data: Seq<u8>,
    deps: Seq<(PathView, MsgV)>,
    m: MsgV,
    fuel: nat,
)
    requires
        data.len() >= 4,
        !(data[0] == 0 && data[1] == 1 && data[2] == 0 && data[3] == 0),
    ensures
        dec_message(data, deps, m, fuel) == (MsgR::BadHeader { kind: data[1] }),
{
}

/// A payload shorter than the four byte header is rejected outright.
pub proof fn lemma_short_header_rejected(
    data: Seq<u8>,
    deps: Seq<(PathView, MsgV)>,
    m: MsgV,
    fuel: nat,
)
    requires
        data.len() < 4,
    ensures
        dec_message(data, deps, m, fuel) == MsgR::ShortHeader,
{
}

/// When the fields of the root message decode but bytes remain after the
/// final skip to four byte alignment, the payload is rejected as a leftover,
/// with the decoded values and the offset of the first leftover byte, and it
/// is never reported as a success.
pub proof fn lemma_leftover_detected(
    data: Seq<u8>,
    deps: Seq<(PathView, MsgV)>,
    m: MsgV,
    fuel: nat,
    vs: Seq<ValueV>,
    pos: int,
)
    requires
        data.len() >= 4,
        data[0] == 0 && data[1] == 1 && data[2] == 0 && data[3] == 0,
        dec_fields(data, 4, deps, m, 0, fuel) == (SeqR::Vals { vs, pos }),
        ({
            let end = if align_up(pos, 4) <= data.len() {
                align_up(pos, 4)
            } else {
                pos
            };
            end < data.len()
        }),
    ensures
        ({
            let end = if align_up(pos, 4) <= data.len() {
                align_up(pos, 4)
            } else {
                pos
            };
            dec_message(data, deps, m, fuel) == (MsgR::Leftover { vs, pos: end })
        }),
        !(dec_message(data, deps, m, fuel) is Vals),
{
}

/// And conversely: when nothing is left after the final alignment skip, the
/// decode succeeds with exactly the fields' values.
pub proof fn lemma_exact_payload_accepted(
    data: Seq<u8>,
    deps: Seq<(PathView, MsgV)>,
    m: MsgV,
    fuel: nat,
    vs: Seq<ValueV>,
    pos: int,
)
    requires
        data.len() >= 4,
        data[0] == 0 && data[1] == 1 && data[2] == 0 && data[3] == 0,
        dec_fields(data, 4, deps, m, 0, fuel) == (SeqR::Vals { vs, pos }),
        ({
            let end = if align_up(pos, 4) <= data.len() {
                align_up(pos, 4)
            } else {
                pos
            };
            end >= data.len()
        }),
    ensures
        dec_message(data, deps, m, fuel) == (MsgR::Vals { vs }),
{
}

/// A string whose four byte length prefix is zero decodes to the empty
/// string; no payload byte and no terminator byte is consumed.
pub proof fn lemma_empty_string(data: Seq<u8>, pos: int)
    requires
        0 <= pos,
        align_up(pos, 4) + 4 <= data.len(),
        spec_u32_from_le_bytes(data.subrange(align_up(pos, 4), align_up(pos, 4) + 4)) == 0,
    ensures
        dec_string(data, pos) == (ValueR::Val {
            v: ValueV::String(Seq::empty()),
            pos: align_up(pos, 4) + 4,
        }),
{
}

/// A string with length prefix `L > 0` consumes exactly `L - 1` payload
/// bytes plus one mandatory zero terminator, and decodes to the payload's
/// text.
pub proof fn lemma_string_consumption(data: Seq<u8>, pos: int, l: int)
    requires
        0 <= pos,
        l == spec_u32_from_le_bytes(data.subrange(align_up(pos, 4), align_up(pos, 4) + 4)),
        l > 0,
        align_up(pos, 4) + 4 + l <= data.len(),
        data[align_up(pos, 4) + 4 + (l - 1)] == 0,
        valid_utf8(data.subrange(align_up(pos, 4) + 4, align_up(pos, 4) + 4 + (l - 1))),
    ensures
        dec_string(data, pos) == (ValueR::Val {
            v: ValueV::String(
                decode_utf8(data.subrange(align_up(pos, 4) + 4, align_up(pos, 4) + 4 + (l - 1))),
            ),
            pos: align_up(pos, 4) + 4 + l,
        }),
{
}

/// A non-zero terminator byte after a string's payload is a decode failure.
pub proof fn lemma_string_bad_terminator(data: Seq<u8>, pos: int, l: int)
    requires
        0 <= pos,
        l == spec_u32_from_le_bytes(data.subrange(align_up(pos, 4), align_up(pos, 4) + 4)),
        l > 0,
        align_up(pos, 4) + 4 + l <= data.len(),
        data[align_up(pos, 4) + 4 + (l - 1)] != 0,
    ensures
        dec_string(data, pos) == (ValueR::RawFail {
            fault: WireFault::BadTerminator,
            pos: align_up(pos, 4) + 4 + l,
        }),
{
}

/// A vector field reads its own four byte element count (after alignment)
/// and then that many elements; a fixed-length array field of the same
/// element type reads exactly its declared count with no prefix, from the
/// unaligned position. Elementwise, the two decode identically.
pub proof fn lemma_vector_vs_array(
    data: Seq<u8>,
    pos: int,
    deps: Seq<(PathView, MsgV)>,
    pkg: Seq<char>,
    vector_field: FieldV,
    array_field: FieldV,
    fuel: nat,
)
    requires
        vector_field.case is Vector,
        array_field.case matches FieldCaseV::Array(n) && n
            == spec_u32_from_le_bytes(
            data.subrange(align_up(pos, 4), align_up(pos, 4) + 4),
        ) as usize,
        array_field.datatype == vector_field.datatype,
        align_up(pos, 4) + 4 <= data.len(),
    ensures
        dec_field(data, pos, deps, pkg, vector_field, fuel) == (match dec_elems(
            data,
            align_up(pos, 4) + 4,
            deps,
            pkg,
            vector_field.datatype,
            spec_u32_from_le_bytes(data.subrange(align_up(pos, 4), align_up(pos, 4) + 4)) as int,
            fuel,
        ) {
            SeqR::Vals { vs, pos } => ValueR::Val { v: ValueV::Array(vs), pos },
            SeqR::Missing { path } => ValueR::Missing { path },
            SeqR::RawFail { fault, pos } => ValueR::RawFail { fault, pos },
            SeqR::CtxFail { fault, m, f, pos } => ValueR::CtxFail { fault, m, f, pos },
        }),
        dec_field(data, pos, deps, pkg, array_field, fuel) == (match dec_elems(
            data,
            pos,
            deps,
            pkg,
            vector_field.datatype,
            array_field.case->Array_0 as int,
            fuel,
        ) {
            SeqR::Vals { vs, pos } => ValueR::Val { v: ValueV::Array(vs), pos },
            SeqR::Missing { path } => ValueR::Missing { path },
            SeqR::RawFail { fault, pos } => ValueR::RawFail { fault, pos },
            SeqR::CtxFail { fault, m, f, pos } => ValueR::CtxFail { fault, m, f, pos },
        }),
{
}

/// A field referencing a message absent from the dependency table fails with
/// exactly that path — never with a byte-level fault.
pub proof fn lemma_missing_dependency(
    data: Seq<u8>,
    pos: int,
    deps: Seq<(PathView, MsgV)>,
    pkg: Seq<char>,
    dt: DataTypeV,
    fuel: nat,
)
    requires
        match dt {
            DataTypeV::LocalMessage(n) => dep_lookup(
                deps,
                PathView { package: pkg, name: n },
            ) is None,
            DataTypeV::GlobalMessage(p) => dep_lookup(deps, p) is None,
            _ => false,
        },
    ensures
        dec_value(data, pos, deps, pkg, dt, fuel) == (ValueR::Missing {
            path: match dt {
                DataTypeV::LocalMessage(n) => PathView { package: pkg, name: n },
                DataTypeV::GlobalMessage(p) => p,
                _ => arbitrary(),
            },
        }),
{
}

/// A fixed-width scalar data type: everything a field can hold in place,
/// strings, times and message references aside.
pub open spec fn is_fixed_scalar(dt: DataTypeV) -> bool {
    match dt {
        DataTypeV::Bool => true,
        DataTypeV::I8(_) => true,
        DataTypeV::U8(_) => true,
        DataTypeV::I16 => true,
        DataTypeV::U16 => true,
        DataTypeV::I32 => true,
        DataTypeV::U32 => true,
        DataTypeV::F32 => true,
        DataTypeV::I64 => true,
        DataTypeV::U64 => true,
        DataTypeV::F64 => true,
        _ => false,
    }
}

/// The alignment of a fixed-width scalar.
pub open spec fn scalar_align(dt: DataTypeV) -> int {
    match dt {
        DataTypeV::Bool => 1,
        DataTypeV::I8(_) => 1,
        DataTypeV::U8(_) => 1,
        DataTypeV::I16 => 2,
        DataTypeV::U16 => 2,
        DataTypeV::I32 => 4,
        DataTypeV::U32 => 4,
        DataTypeV::F32 => 4,
        _ => 8,
    }
}

/// Whether `v` is a value of the fixed-width scalar type `dt`.
pub open spec fn value_fits(dt: DataTypeV, v: ValueV) -> bool {
    match dt {
        DataTypeV::Bool => v is Bool,
        DataTypeV::I8(_) => v is I8,
        DataTypeV::U8(_) => v is U8,
        DataTypeV::I16 => v is I16,
        DataTypeV::U16 => v is U16,
        DataTypeV::I32 => v is I32,
        DataTypeV::U32 => v is U32,
        DataTypeV::F32 => v is F32,
        DataTypeV::I64 => v is I64,
        DataTypeV::U64 => v is U64,
        DataTypeV::F64 => v is F64,
        _ => false,
    }
}

/// The little-endian bytes of one fixed-width scalar value, unpadded.
pub open spec fn enc_scalar(v: ValueV) -> Seq<u8> {
    match v {
        ValueV::Bool(b) => seq![
            if b {
                1u8
            } else {
                0u8
            },
        ],
        ValueV::I8(x) => seq![x as u8],
        ValueV::U8(x) => seq![x],
        ValueV::I16(x) => spec_u16_to_le_bytes(x as u16),
        ValueV::U16(x) => spec_u16_to_le_bytes(x),
        ValueV::I32(x) => spec_u32_to_le_bytes(x as u32),
        ValueV::U32(x) => spec_u32_to_le_bytes(x),
        ValueV::F32(x) => spec_u32_to_le_bytes(x),
        ValueV::I64(x) => spec_u64_to_le_bytes(x as u64),
        ValueV::U64(x) => spec_u64_to_le_bytes(x),
        ValueV::F64(x) => spec_u64_to_le_bytes(x),
        _ => Seq::empty(),
    }
}

/// The wire bytes of the fields of `m` from index `i` on, holding the values
/// `vals` in field order, when encoding starts at position `pos`: for each
/// field, zero filler up to the type's alignment, then the value's bytes.
pub open spec fn enc_run(m: MsgV, vals: Seq<ValueV>, i: int, pos: int) -> Seq<u8>
    decreases m.fields.len() - i,
{
    if i < 0 || i >= m.fields.len() {
        Seq::empty()
    } else {
        let a = scalar_align(m.fields[i].datatype);
        let piece = Seq::new(align_pad(pos, a) as nat, |j: int| 0u8) + enc_scalar(vals[i]);
        piece + enc_run(m, vals, i + 1, pos + piece.len())
    }
}

/// The round trip of a run of scalar fields: a buffer that holds, from
/// `pos` on, the aligned encoding of values for the fields of `m` from `i`
/// on decodes to exactly those values, whatever the filler bytes hold and
/// whatever follows the run, consuming exactly the encoding's length.
pub proof fn lemma_scalar_run_round_trip(
    data: Seq<u8>,
    pos: int,
    deps: Seq<(PathView, MsgV)>,
    m: MsgV,
    vals: Seq<ValueV>,
    i: int,
    fuel: nat,
)
    requires
        0 <= i <= m.fields.len(),
        0 <= pos <= data.len(),
        vals.len() == m.fields.len(),
        forall|j: int|
            i <= j < m.fields.len() ==> (#[trigger] m.fields[j]).case is Unit && is_fixed_scalar(
                m.fields[j].datatype,
            ) && value_fits(m.fields[j].datatype, vals[j]),
        pos + enc_run(m, vals, i, pos).len() <= data.len(),
        data.subrange(pos, pos + enc_run(m, vals, i, pos).len()) == enc_run(m, vals, i, pos),
    ensures
        dec_fields(data, pos, deps, m, i, fuel) == (SeqR::Vals {
            vs: vals.skip(i),
            pos: pos + enc_run(m, vals, i, pos).len(),
        }),
    decreases m.fields.len() - i,
{
    lemma_auto_spec_u16_to_from_le_bytes();
    lemma_auto_spec_u32_to_from_le_bytes();
    lemma_auto_spec_u64_to_from_le_bytes();
    if i >= m.fields.len() {
        assert(vals.skip(i) =~= Seq::<ValueV>::empty());
        assert(enc_run(m, vals, i, pos).len() == 0);
    } else {
        let f = m.fields[i];
        let a = scalar_align(f.datatype);
        let pad = align_pad(pos, a);
        let piece = Seq::new(pad as nat, |j: int| 0u8) + enc_scalar(vals[i]);
        let enc = enc_run(m, vals, i, pos);
        let rest = enc_run(m, vals, i + 1, pos + piece.len());
        assert(enc == piece + rest);
        let w = enc_scalar(vals[i]).len() as int;
        let p = pos + pad;
        assert(p == align_up(pos, a));
        assert(data.subrange(p, p + w) =~= enc_scalar(vals[i])) by {
            assert(forall|j: int|
                0 <= j < w ==> data.subrange(pos, pos + enc.len())[pad + j] == #[trigger] data[p
                    + j]);
            assert(forall|j: int| 0 <= j < w ==> enc[pad + j] == #[trigger] enc_scalar(vals[i])[j]);
        }
        let decoded = dec_value(data, pos, deps, m.path.package, f.datatype, fuel);
        assert(decoded == (ValueR::Val { v: vals[i], pos: p + w })) by {
            match vals[i] {
                ValueV::Bool(b) => {
                    assert(data[p] == enc_scalar(vals[i])[0]);
                    assert((data[p] != 0) == b);
                },
                ValueV::I8(x) => {
                    assert(data[p] == enc_scalar(vals[i])[0]);
                    assert((x as u8) as i8 == x) by (bit_vector);
                },
                ValueV::U8(x) => {
                    assert(data[p] == enc_scalar(vals[i])[0]);
                },
                ValueV::I16(x) => {
                    assert(vstd::bytes::spec_u16_from_le_bytes(spec_u16_to_le_bytes(x as u16)) == (
                    x as u16));
                    assert((x as u16) as i16 == x) by (bit_vector);
                },
                ValueV::U16(x) => {
                    assert(vstd::bytes::spec_u16_from_le_bytes(spec_u16_to_le_bytes(x)) == x);
                },
                ValueV::I32(x) => {
                    assert(spec_u32_from_le_bytes(spec_u32_to_le_bytes(x as u32)) == (x as u32));
                    assert((x as u32) as i32 == x) by (bit_vector);
                },
                ValueV::U32(x) => {
                    assert(spec_u32_from_le_bytes(spec_u32_to_le_bytes(x)) == x);
                },
                ValueV::F32(x) => {
                    assert(spec_u32_from_le_bytes(spec_u32_to_le_bytes(x)) == x);
                },
                ValueV::I64(x) => {
                    assert(vstd::bytes::spec_u64_from_le_bytes(spec_u64_to_le_bytes(x as u64)) == (
                    x as u64));
                    assert((x as u64) as i64 == x) by (bit_vector);
                },
                ValueV::U64(x) => {
                    assert(vstd::bytes::spec_u64_from_le_bytes(spec_u64_to_le_bytes(x)) == x);
                },
                ValueV::F64(x) => {
                    assert(vstd::bytes::spec_u64_from_le_bytes(spec_u64_to_le_bytes(x)) == x);
                },
                _ => {
                    assert(false);
                },
            }
        }
        assert(dec_field(data, pos, deps, m.path.package, f, fuel) == decoded);
        assert(data.subrange(p + w, p + w + rest.len()) =~= rest) by {
            assert(forall|j: int|
                0 <= j < rest.len() ==> data.subrange(pos, pos + enc.len())[piece.len() + j]
                    == #[trigger] data[p + w + j]);
            assert(forall|j: int| 0 <= j < rest.len() ==> enc[piece.len() + j] == #[trigger] rest[j]);
        }
        lemma_scalar_run_round_trip(data, p + w, deps, m, vals, i + 1, fuel);
        assert(seq![vals[i]] + vals.skip(i + 1) =~= vals.skip(i));
    }
}

/// The round trip of a whole message of scalar fields: a payload holding the
/// header and then exactly the aligned encoding of the fields' values (padded
/// at most to the final four byte alignment) decodes to exactly those values.
pub proof fn lemma_scalar_message_round_trip(
    data: Seq<u8>,
    deps: Seq<(PathView, MsgV)>,
    m: MsgV,
    vals: Seq<ValueV>,
    fuel: nat,
)
    requires
        data.len() >= 4,
        data[0] == 0 && data[1] == 1 && data[2] == 0 && data[3] == 0,
        vals.len() == m.fields.len(),
        forall|j: int|
            0 <= j < m.fields.len() ==> (#[trigger] m.fields[j]).case is Unit && is_fixed_scalar(
                m.fields[j].datatype,
            ) && value_fits(m.fields[j].datatype, vals[j]),
        4 + enc_run(m, vals, 0, 4).len() <= data.len(),
        data.subrange(4, 4 + enc_run(m, vals, 0, 4).len() as int) == enc_run(m, vals, 0, 4),
        ({
            let endpos = 4 + enc_run(m, vals, 0, 4).len() as int;
            let end = if align_up(endpos, 4) <= data.len() {
                align_up(endpos, 4)
            } else {
                endpos
            };
            end >= data.len()
        }),
    ensures
        dec_message(data, deps, m, fuel) == (MsgR::Vals { vs: vals }),
{
    lemma_scalar_run_round_trip(data, 4, deps, m, vals, 0, fuel);
    assert(vals.skip(0) =~= vals);
}

/// Every numeric scalar survives the round trip: a buffer that holds the
/// value's little-endian bytes right after the alignment padding decodes to
/// exactly that value, whatever the padding bytes hold, consuming the
/// padding and the value's width and nothing more.
pub proof fn lemma_u16_round_trip(
    data: Seq<u8>,
    pos: int,
    deps: Seq<(PathView, MsgV)>,
    pkg: Seq<char>,
    x: u16,
)
    requires
        0 <= pos,
        align_up(pos, 2) + 2 <= data.len(),
        data.subrange(align_up(pos, 2), align_up(pos, 2) + 2) == spec_u16_to_le_bytes(x),
    ensures
        forall|fuel: nat|
            dec_value(data, pos, deps, pkg, DataTypeV::U16, fuel) == (ValueR::Val {
                v: ValueV::U16(x),
                pos: align_up(pos, 2) + 2,
            }),
{
    lemma_auto_spec_u16_to_from_le_bytes();
    assert forall|fuel: nat|
        dec_value(data, pos, deps, pkg, DataTypeV::U16, fuel) == (ValueR::Val {
            v: ValueV::U16(x),
            pos: align_up(pos, 2) + 2,
        }) by {
        assert(spec_u16_to_le_bytes(x).len() == 2);
        assert(vstd::bytes::spec_u16_from_le_bytes(spec_u16_to_le_bytes(x)) == x);
        assert(vstd::bytes::spec_u16_from_le_bytes(
            data.subrange(align_up(pos, 2), align_up(pos, 2) + 2),
        ) == x);
    }
}

/// See [`lemma_u16_round_trip`], for 32 bit values.
pub proof fn lemma_u32_round_trip(
    data: Seq<u8>,
    pos: int,
    deps: Seq<(PathView, MsgV)>,
    pkg: Seq<char>,
    x: u32,
)
    requires
        0 <= pos,
        align_up(pos, 4) + 4 <= data.len(),
        data.subrange(align_up(pos, 4), align_up(pos, 4) + 4) == spec_u32_to_le_bytes(x),
    ensures
        forall|fuel: nat|
            dec_value(data, pos, deps, pkg, DataTypeV::U32, fuel) == (ValueR::Val {
                v: ValueV::U32(x),
                pos: align_up(pos, 4) + 4,
            }),
{
    lemma_auto_spec_u32_to_from_le_bytes();
    assert forall|fuel: nat|
        dec_value(data, pos, deps, pkg, DataTypeV::U32, fuel) == (ValueR::Val {
            v: ValueV::U32(x),
            pos: align_up(pos, 4) + 4,
        }) by {
        assert(spec_u32_to_le_bytes(x).len() == 4);
        assert(spec_u32_from_le_bytes(spec_u32_to_le_bytes(x)) == x);
        assert(spec_u32_from_le_bytes(
            data.subrange(align_up(pos, 4), align_up(pos, 4) + 4),
        ) == x);
    }
}

/// See [`lemma_u16_round_trip`], for 64 bit values, which align to eight.
pub proof fn lemma_u64_round_trip(
    data: Seq<u8>,
    pos: int,
    deps: Seq<(PathView, MsgV)>,
    pkg: Seq<char>,
    x: u64,
)
    requires
        0 <= pos,
        align_up(pos, 8) + 8 <= data.len(),
        data.subrange(align_up(pos, 8), align_up(pos, 8) + 8) == spec_u64_to_le_bytes(x),
    ensures
        forall|fuel: nat|
            dec_value(data, pos, deps, pkg, DataTypeV::U64, fuel) == (ValueR::Val {
                v: ValueV::U64(x),
                pos: align_up(pos, 8) + 8,
            }),
{
    lemma_auto_spec_u64_to_from_le_bytes();
}

/// See [`lemma_u16_round_trip`], for single bytes, which need no alignment.
pub proof fn lemma_u8_round_trip(
    data: Seq<u8>,
    pos: int,
    deps: Seq<(PathView, MsgV)>,
    pkg: Seq<char>,
)
    requires
        0 <= pos,
        pos + 1 <= data.len(),
    ensures
        forall|fuel: nat|
            dec_value(data, pos, deps, pkg, DataTypeV::U8(crate::data_type::U8Variant::Alias), fuel)
                == (ValueR::Val { v: ValueV::U8(data[pos]), pos: pos + 1 }),
{
}

} // verus!
