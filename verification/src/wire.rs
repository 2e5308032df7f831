//! The wire format, mathematically: what a byte sequence decodes to under a
//! schema. The definitions here are the reference that the runtime decoder is
//! proved against.
//!
//! Values are encoded in little-endian CDR behind a four byte encapsulation
//! header. Alignment is measured from the start of the whole payload, header
//! included: before a read of width `n` the position is padded up to a
//! multiple of `n` (eight for 64 bit values). Nested messages are decoded in
//! place by the definition of the referenced message; a chain of references
//! deeper than the `fuel` budget fails rather than diverge.

use vstd::bytes::{spec_u16_from_le_bytes, spec_u32_from_le_bytes, spec_u64_from_le_bytes};
use vstd::prelude::*;
use vstd::utf8::{decode_utf8, valid_utf8};

use crate::data_type::DataTypeV;
use crate::field_info::{FieldCaseV, FieldV};
use crate::message_path::PathView;
use crate::msg::MsgV;
use crate::time::Time;
use crate::value::ValueV;

verus! {

/// Index of the first dependency entry for `p`, or `deps.len()` if absent.
pub open spec fn dep_index(deps: Seq<(PathView, MsgV)>, p: PathView) -> int
    decreases deps.len(),
{
    if deps.len() == 0 {
        0
    } else if deps[0].0 == p {
        0
    } else {
        1 + dep_index(deps.drop_first(), p)
    }
}

/// The dependency stored for `p`, if any.
pub open spec fn dep_lookup(deps: Seq<(PathView, MsgV)>, p: PathView) -> Option<MsgV> {
    if dep_index(deps, p) < deps.len() {
        Some(deps[dep_index(deps, p)].1)
    } else {
        None
    }
}

pub proof fn lemma_dep_index_is(deps: Seq<(PathView, MsgV)>, p: PathView, k: int)
    requires
        0 <= k <= deps.len(),
        forall|j: int| 0 <= j < k ==> deps[j].0 != p,
        k < deps.len() ==> deps[k].0 == p,
    ensures
        dep_index(deps, p) == k,
    decreases deps.len(),
{
    if deps.len() == 0 {
    } else if deps[0].0 == p {
        assert(k == 0);
    } else {
        assert(k >= 1);
        let t = deps.drop_first();
        assert(forall|j: int| 0 <= j < k - 1 ==> t[j].0 != p);
        lemma_dep_index_is(t, p, k - 1);
    }
}

/// The filler bytes needed before a read of width `n` at position `pos`.
pub open spec fn align_pad(pos: int, n: int) -> int {
    if pos % n == 0 {
        0
    } else {
        n - pos % n
    }
}

/// The position after padding `pos` up to a multiple of `n`.
pub open spec fn align_up(pos: int, n: int) -> int {
    pos + align_pad(pos, n)
}

/// What can go wrong at the byte level.
#[derive(Clone, Copy, Debug)]
pub enum WireFault {
    /// The bytes ran out.
    Eof,
    /// A string's terminator byte was not zero.
    BadTerminator,
    /// A string's payload was not valid UTF-8.
    BadText,
    /// A duration field was met; durations are unsupported.
    NoDuration,
    /// A chain of message references deeper than the dependency count.
    TooDeep,
    /// A constant field without a stored value.
    NoConstant,
}

/// The outcome of decoding one value.
pub enum ValueR {
    /// The value, and the position after it.
    Val { v: ValueV, pos: int },
    /// A message reference with no entry in the dependency table.
    Missing { path: PathView },
    /// A fault not yet attributed to a field.
    RawFail { fault: WireFault, pos: int },
    /// A fault attributed to the innermost field it struck.
    CtxFail { fault: WireFault, m: MsgV, f: FieldV, pos: int },
}

/// The outcome of decoding a run of values.
pub enum SeqR {
    /// The values, and the position after them.
    Vals { vs: Seq<ValueV>, pos: int },
    /// A message reference with no entry in the dependency table.
    Missing { path: PathView },
    /// A fault not yet attributed to a field.
    RawFail { fault: WireFault, pos: int },
    /// A fault attributed to the innermost field it struck.
    CtxFail { fault: WireFault, m: MsgV, f: FieldV, pos: int },
}

/// One value of data type `dt` read at `pos`. Scalars pad to their width and
/// read little-endian; a string pads to four, reads its length `L`, and for
/// nonzero `L` takes `L - 1` payload bytes and a zero terminator; a time is
/// two consecutive 32 bit reads; a message reference decodes the referenced
/// definition in place, as an unnamed run of values.
pub open spec fn dec_value(
    data: Seq<u8>,
    pos: int,
    deps: Seq<(PathView, MsgV)>,
    pkg: Seq<char>,
    dt: DataTypeV,
    fuel: nat,
) -> ValueR
    decreases fuel, 3int, 0int,
{
    let len = data.len() as int;
    match dt {
        DataTypeV::Bool => if pos + 1 <= len {
            ValueR::Val { v: ValueV::Bool(data[pos] != 0), pos: pos + 1 }
        } else {
            ValueR::RawFail { fault: WireFault::Eof, pos }
        },
        DataTypeV::I8(_) => if pos + 1 <= len {
            ValueR::Val { v: ValueV::I8(data[pos] as i8), pos: pos + 1 }
        } else {
            ValueR::RawFail { fault: WireFault::Eof, pos }
        },
        DataTypeV::U8(_) => if pos + 1 <= len {
            ValueR::Val { v: ValueV::U8(data[pos]), pos: pos + 1 }
        } else {
            ValueR::RawFail { fault: WireFault::Eof, pos }
        },
        DataTypeV::I16 => {
            let p = align_up(pos, 2);
            if p > len {
                ValueR::RawFail { fault: WireFault::Eof, pos }
            } else if p + 2 > len {
                ValueR::RawFail { fault: WireFault::Eof, pos: p }
            } else {
                ValueR::Val {
                    v: ValueV::I16(spec_u16_from_le_bytes(data.subrange(p, p + 2)) as i16),
                    pos: p + 2,
                }
            }
        },
        DataTypeV::U16 => {
            let p = align_up(pos, 2);
            if p > len {
                ValueR::RawFail { fault: WireFault::Eof, pos }
            } else if p + 2 > len {
                ValueR::RawFail { fault: WireFault::Eof, pos: p }
            } else {
                ValueR::Val {
                    v: ValueV::U16(spec_u16_from_le_bytes(data.subrange(p, p + 2))),
                    pos: p + 2,
                }
            }
        },
        DataTypeV::I32 => {
            let p = align_up(pos, 4);
            if p > len {
                ValueR::RawFail { fault: WireFault::Eof, pos }
            } else if p + 4 > len {
                ValueR::RawFail { fault: WireFault::Eof, pos: p }
            } else {
                ValueR::Val {
                    v: ValueV::I32(spec_u32_from_le_bytes(data.subrange(p, p + 4)) as i32),
                    pos: p + 4,
                }
            }
        },
        DataTypeV::U32 => {
            let p = align_up(pos, 4);
            if p > len {
                ValueR::RawFail { fault: WireFault::Eof, pos }
            } else if p + 4 > len {
                ValueR::RawFail { fault: WireFault::Eof, pos: p }
            } else {
                ValueR::Val {
                    v: ValueV::U32(spec_u32_from_le_bytes(data.subrange(p, p + 4))),
                    pos: p + 4,
                }
            }
        },
        DataTypeV::F32 => {
            let p = align_up(pos, 4);
            if p > len {
                ValueR::RawFail { fault: WireFault::Eof, pos }
            } else if p + 4 > len {
                ValueR::RawFail { fault: WireFault::Eof, pos: p }
            } else {
                ValueR::Val {
                    v: ValueV::F32(spec_u32_from_le_bytes(data.subrange(p, p + 4))),
                    pos: p + 4,
                }
            }
        },
        DataTypeV::I64 => {
            let p = align_up(pos, 8);
            if p > len {
                ValueR::RawFail { fault: WireFault::Eof, pos }
            } else if p + 8 > len {
                ValueR::RawFail { fault: WireFault::Eof, pos: p }
            } else {
                ValueR::Val {
                    v: ValueV::I64(spec_u64_from_le_bytes(data.subrange(p, p + 8)) as i64),
                    pos: p + 8,
                }
            }
        },
        DataTypeV::U64 => {
            let p = align_up(pos, 8);
            if p > len {
                ValueR::RawFail { fault: WireFault::Eof, pos }
            } else if p + 8 > len {
                ValueR::RawFail { fault: WireFault::Eof, pos: p }
            } else {
                ValueR::Val {
                    v: ValueV::U64(spec_u64_from_le_bytes(data.subrange(p, p + 8))),
                    pos: p + 8,
                }
            }
        },
        DataTypeV::F64 => {
            let p = align_up(pos, 8);
            if p > len {
                ValueR::RawFail { fault: WireFault::Eof, pos }
            } else if p + 8 > len {
                ValueR::RawFail { fault: WireFault::Eof, pos: p }
            } else {
                ValueR::Val {
                    v: ValueV::F64(spec_u64_from_le_bytes(data.subrange(p, p + 8))),
                    pos: p + 8,
                }
            }
        },
        DataTypeV::String => dec_string(data, pos),
        DataTypeV::Time => {
            let p = align_up(pos, 4);
            if p > len {
                ValueR::RawFail { fault: WireFault::Eof, pos }
            } else if p + 4 > len {
                ValueR::RawFail { fault: WireFault::Eof, pos: p }
            } else if p + 8 > len {
                ValueR::RawFail { fault: WireFault::Eof, pos: p + 4 }
            } else {
                ValueR::Val {
                    v: ValueV::Time(
                        Time {
                            sec: spec_u32_from_le_bytes(data.subrange(p, p + 4)),
                            nsec: spec_u32_from_le_bytes(data.subrange(p + 4, p + 8)),
                        },
                    ),
                    pos: p + 8,
                }
            }
        },
        DataTypeV::Duration => ValueR::RawFail { fault: WireFault::NoDuration, pos },
        DataTypeV::LocalMessage(n) => {
            let path = PathView { package: pkg, name: n };
            match dep_lookup(deps, path) {
                None => ValueR::Missing { path },
                Some(dep) => if fuel == 0 {
                    ValueR::RawFail { fault: WireFault::TooDeep, pos }
                } else {
                    match dec_fields(data, pos, deps, dep, 0, (fuel - 1) as nat) {
                        SeqR::Vals { vs, pos } => ValueR::Val { v: ValueV::Array(vs), pos },
                        SeqR::Missing { path } => ValueR::Missing { path },
                        SeqR::RawFail { fault, pos } => ValueR::RawFail { fault, pos },
                        SeqR::CtxFail { fault, m, f, pos } => ValueR::CtxFail {
                            fault,
                            m,
                            f,
                            pos,
                        },
                    }
                },
            }
        },
        DataTypeV::GlobalMessage(path) => {
            match dep_lookup(deps, path) {
                None => ValueR::Missing { path },
                Some(dep) => if fuel == 0 {
                    ValueR::RawFail { fault: WireFault::TooDeep, pos }
                } else {
                    match dec_fields(data, pos, deps, dep, 0, (fuel - 1) as nat) {
                        SeqR::Vals { vs, pos } => ValueR::Val { v: ValueV::Array(vs), pos },
                        SeqR::Missing { path } => ValueR::Missing { path },
                        SeqR::RawFail { fault, pos } => ValueR::RawFail { fault, pos },
                        SeqR::CtxFail { fault, m, f, pos } => ValueR::CtxFail {
                            fault,
                            m,
                            f,
                            pos,
                        },
                    }
                },
            }
        },
    }
}

/// One string read at `pos`: pad to four, read the 32 bit length `L`; a zero
/// `L` is the empty string with nothing more read; otherwise `L - 1` payload
/// bytes of UTF-8 text and one zero terminator byte follow.
pub open spec fn dec_string(data: Seq<u8>, pos: int) -> ValueR {
    let len = data.len() as int;
    let p = align_up(pos, 4);
    if p > len {
        ValueR::RawFail { fault: WireFault::Eof, pos }
    } else if p + 4 > len {
        ValueR::RawFail { fault: WireFault::Eof, pos: p }
    } else {
        let l = spec_u32_from_le_bytes(data.subrange(p, p + 4)) as int;
        if l == 0 {
            ValueR::Val { v: ValueV::String(Seq::empty()), pos: p + 4 }
        } else if p + 4 + (l - 1) > len {
            ValueR::RawFail { fault: WireFault::Eof, pos: p + 4 }
        } else if p + 4 + l > len {
            ValueR::RawFail { fault: WireFault::Eof, pos: p + 4 + (l - 1) }
        } else if data[p + 4 + (l - 1)] != 0 {
            ValueR::RawFail { fault: WireFault::BadTerminator, pos: p + 4 + l }
        } else {
            let payload = data.subrange(p + 4, p + 4 + (l - 1));
            if valid_utf8(payload) {
                ValueR::Val { v: ValueV::String(decode_utf8(payload)), pos: p + 4 + l }
            } else {
                ValueR::RawFail { fault: WireFault::BadText, pos: p + 4 + l }
            }
        }
    }
}

/// `count` values of data type `dt`, one after the other.
pub open spec fn dec_elems(
    data: Seq<u8>,
    pos: int,
    deps: Seq<(PathView, MsgV)>,
    pkg: Seq<char>,
    dt: DataTypeV,
    count: int,
    fuel: nat,
) -> SeqR
    decreases fuel, 4int, count,
{
    if count <= 0 {
        SeqR::Vals { vs: Seq::empty(), pos }
    } else {
        match dec_value(data, pos, deps, pkg, dt, fuel) {
            ValueR::Val { v, pos } => match dec_elems(data, pos, deps, pkg, dt, count - 1, fuel) {
                SeqR::Vals { vs, pos } => SeqR::Vals { vs: seq![v] + vs, pos },
                e => e,
            },
            ValueR::Missing { path } => SeqR::Missing { path },
            ValueR::RawFail { fault, pos } => SeqR::RawFail { fault, pos },
            ValueR::CtxFail { fault, m, f, pos } => SeqR::CtxFail { fault, m, f, pos },
        }
    }
}

/// One field. A constant consumes nothing and yields its stored value; a
/// vector pads to four, reads a 32 bit element count and that many elements;
/// a fixed-length array reads exactly its declared count, with no prefix.
pub open spec fn dec_field(
    data: Seq<u8>,
    pos: int,
    deps: Seq<(PathView, MsgV)>,
    pkg: Seq<char>,
    f: FieldV,
    fuel: nat,
) -> ValueR
    decreases fuel, 5int, 0int,
{
    let len = data.len() as int;
    match f.case {
        FieldCaseV::Const(_) => match f.const_value {
            Some(v) => ValueR::Val { v, pos },
            None => ValueR::RawFail { fault: WireFault::NoConstant, pos },
        },
        FieldCaseV::Vector => {
            let p = align_up(pos, 4);
            if p > len {
                ValueR::RawFail { fault: WireFault::Eof, pos }
            } else if p + 4 > len {
                ValueR::RawFail { fault: WireFault::Eof, pos: p }
            } else {
                let count = spec_u32_from_le_bytes(data.subrange(p, p + 4)) as int;
                match dec_elems(data, p + 4, deps, pkg, f.datatype, count, fuel) {
                    SeqR::Vals { vs, pos } => ValueR::Val { v: ValueV::Array(vs), pos },
                    SeqR::Missing { path } => ValueR::Missing { path },
                    SeqR::RawFail { fault, pos } => ValueR::RawFail { fault, pos },
                    SeqR::CtxFail { fault, m, f, pos } => ValueR::CtxFail { fault, m, f, pos },
                }
            }
        },
        FieldCaseV::Array(l) => {
            match dec_elems(data, pos, deps, pkg, f.datatype, l as int, fuel) {
                SeqR::Vals { vs, pos } => ValueR::Val { v: ValueV::Array(vs), pos },
                SeqR::Missing { path } => ValueR::Missing { path },
                SeqR::RawFail { fault, pos } => ValueR::RawFail { fault, pos },
                SeqR::CtxFail { fault, m, f, pos } => ValueR::CtxFail { fault, m, f, pos },
            }
        },
        _ => dec_value(data, pos, deps, pkg, f.datatype, fuel),
    }
}

/// The fields of `m` from index `i` on, in declared order. A fault without
/// context is attributed here to the field it struck, and never re-attributed
/// further out.
pub open spec fn dec_fields(
    data: Seq<u8>,
    pos: int,
    deps: Seq<(PathView, MsgV)>,
    m: MsgV,
    i: int,
    fuel: nat,
) -> SeqR
    decreases fuel, 6int, m.fields.len() - i,
{
    if i < 0 || i >= m.fields.len() {
        SeqR::Vals { vs: Seq::empty(), pos }
    } else {
        match dec_field(data, pos, deps, m.path.package, m.fields[i], fuel) {
            ValueR::Val { v, pos } => match dec_fields(data, pos, deps, m, i + 1, fuel) {
                SeqR::Vals { vs, pos } => SeqR::Vals { vs: seq![v] + vs, pos },
                e => e,
            },
            ValueR::Missing { path } => SeqR::Missing { path },
            ValueR::RawFail { fault, pos } => SeqR::CtxFail {
                fault,
                m,
                f: m.fields[i],
                pos,
            },
            ValueR::CtxFail { fault, m, f, pos } => SeqR::CtxFail { fault, m, f, pos },
        }
    }
}

/// A run of fields never leaves a fault without context.
pub proof fn lemma_dec_fields_no_raw(
    data: Seq<u8>,
    pos: int,
    deps: Seq<(PathView, MsgV)>,
    m: MsgV,
    i: int,
    fuel: nat,
)
    ensures
        !(dec_fields(data, pos, deps, m, i, fuel) is RawFail),
    decreases m.fields.len() - i,
{
    if 0 <= i < m.fields.len() {
        match dec_field(data, pos, deps, m.path.package, m.fields[i], fuel) {
            ValueR::Val { v, pos: p2 } => {
                lemma_dec_fields_no_raw(data, p2, deps, m, i + 1, fuel);
            },
            _ => {
            },
        }
    }
}

/// The outcome of decoding a whole message payload.
pub enum MsgR {
    /// The values of the root message's fields, in order.
    Vals { vs: Seq<ValueV> },
    /// A message reference with no entry in the dependency table.
    Missing { path: PathView },
    /// A wire fault, attributed to the innermost field it struck.
    CtxFail { fault: WireFault, m: MsgV, f: FieldV, pos: int },
    /// Fewer than four bytes of header.
    ShortHeader,
    /// A header other than `00 01 00 00`; carries its second byte.
    BadHeader { kind: u8 },
    /// Bytes left after the message and the final alignment skip.
    Leftover { vs: Seq<ValueV>, pos: int },
}

/// A whole payload against the root message `m`: the four byte header
/// `00 01 00 00`, the fields of `m`, a best-effort skip to four byte
/// alignment, and nothing after that.
pub open spec fn dec_message(
    data: Seq<u8>,
    deps: Seq<(PathView, MsgV)>,
    m: MsgV,
    fuel: nat,
) -> MsgR {
    let len = data.len() as int;
    if len < 4 {
        MsgR::ShortHeader
    } else if !(data[0] == 0 && data[1] == 1 && data[2] == 0 && data[3] == 0) {
        MsgR::BadHeader { kind: data[1] }
    } else {
        match dec_fields(data, 4, deps, m, 0, fuel) {
            SeqR::Vals { vs, pos } => {
                let end = if align_up(pos, 4) <= len {
                    align_up(pos, 4)
                } else {
                    pos
                };
                if end < len {
                    MsgR::Leftover { vs, pos: end }
                } else {
                    MsgR::Vals { vs }
                }
            },
            SeqR::Missing { path } => MsgR::Missing { path },
            // A run of fields never leaves a fault without context
            // ([`lemma_dec_fields_no_raw`]); this arm only keeps the match total.
            SeqR::RawFail { fault, pos } => MsgR::CtxFail {
                fault,
                m,
                f: m.fields[0],
                pos,
            },
            SeqR::CtxFail { fault, m, f, pos } => MsgR::CtxFail { fault, m, f, pos },
        }
    }
}

} // verus!
