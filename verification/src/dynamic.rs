//! Decoding binary payloads against a schema known only at runtime.

use vstd::bytes::{u16_from_le_bytes, u32_from_le_bytes, u64_from_le_bytes};
use vstd::prelude::*;
use vstd::slice::slice_subrange;

use crate::data_type::DataType;
use crate::error::{cause_matches, DecodeCause, Error, Result};
use crate::field_info::{FieldCase, FieldInfo, FieldV};
use crate::message_path::{MessagePath, PathView};
use crate::msg::{Msg, MsgV};
use crate::text::str_eq;
use crate::value::{
    clone_value, lemma_values_view, value_view, values_view, MessageValue, Value, ValueV,
};
use crate::wire::{
    align_up, dec_elems, dec_field, dec_fields, dec_message, dec_string, dec_value, dep_lookup,
    lemma_dep_index_is, MsgR, SeqR, ValueR, WireFault,
};

verus! {

/// The mathematical content of a [`DynamicMsg`]: the root message and the
/// dependency table.
pub struct RegistryV {
    pub msg: MsgV,
    pub deps: Seq<(PathView, MsgV)>,
}

/// The views of a dependency table, elementwise.
pub open spec fn deps_view(s: Seq<(MessagePath, Msg)>) -> Seq<(PathView, MsgV)>
    decreases s,
{
    if s.len() == 0 {
        Seq::empty()
    } else {
        seq![(s[0].0@, s[0].1@)] + deps_view(s.drop_first())
    }
}

pub proof fn lemma_deps_view(s: Seq<(MessagePath, Msg)>)
    ensures
        #[trigger] deps_view(s).len() == s.len(),
        forall|i: int| 0 <= i < s.len() ==> deps_view(s)[i] == (#[trigger] s[i].0@, s[i].1@),
    decreases s,
{
    if s.len() > 0 {
        let t = s.drop_first();
        lemma_deps_view(t);
        assert forall|i: int| 0 <= i < s.len() implies deps_view(s)[i] == (
        #[trigger] s[i].0@,
        s[i].1@,
        ) by {
            if i > 0 {
                assert(t[i - 1] == s[i]);
                assert(deps_view(s)[i] == deps_view(t)[i - 1]);
            }
        }
    }
}

/// A message definition bound to every message definition it needs, decoding
/// payloads against schema text known only at runtime.
#[derive(Debug)]
pub struct DynamicMsg {
    msg: Msg,
    dependencies: Vec<(MessagePath, Msg)>,
}

impl View for DynamicMsg {
    type V = RegistryV;

    closed spec fn view(&self) -> RegistryV {
        RegistryV { msg: self.msg@, deps: deps_view(self.dependencies@) }
    }
}

/// A failure on the way out of the decoder, before or after a field could be
/// blamed.
enum DecFail {
    /// A message reference with no entry in the dependency table.
    Missing { path: MessagePath },
    /// A fault not yet attributed to a field.
    Raw { fault: WireFault, pos: usize },
    /// A fault attributed to the innermost field it struck.
    Ctx { fault: WireFault, msg: Msg, field: FieldInfo, pos: usize },
}

/// Whether a runtime single-value outcome renders the mathematical one, with
/// `pos` the cursor position after a successful decode.
spec fn value_outcome_matches(r: core::result::Result<Value, DecFail>, pos: int, s: ValueR) -> bool {
    match s {
        ValueR::Val { v, pos: p } => r is Ok && r->Ok_0@ == v && pos == p,
        ValueR::Missing { path } => r matches Err(DecFail::Missing { path: q }) && q@ == path,
        ValueR::RawFail { fault, pos: p } => r matches Err(
            DecFail::Raw { fault: f2, pos: p2 },
        ) && f2 == fault && p2 == p,
        ValueR::CtxFail { fault, m, f, pos: p } => r matches Err(
            DecFail::Ctx { fault: f2, msg: m2, field: f3, pos: p2 },
        ) && f2 == fault && m2@ == m && f3@ == f && p2 == p,
    }
}

/// Whether a runtime multi-value outcome renders the mathematical one.
spec fn seq_outcome_matches(
    r: core::result::Result<Vec<Value>, DecFail>,
    pos: int,
    s: SeqR,
) -> bool {
    match s {
        SeqR::Vals { vs, pos: p } => r is Ok && values_view(r->Ok_0@) == vs && pos == p,
        SeqR::Missing { path } => r matches Err(DecFail::Missing { path: q }) && q@ == path,
        SeqR::RawFail { fault, pos: p } => r matches Err(
            DecFail::Raw { fault: f2, pos: p2 },
        ) && f2 == fault && p2 == p,
        SeqR::CtxFail { fault, m, f, pos: p } => r matches Err(
            DecFail::Ctx { fault: f2, msg: m2, field: f3, pos: p2 },
        ) && f2 == fault && m2@ == m && f3@ == f && p2 == p,
    }
}

/// The texts of a bundle's segments: separator lines split, the other lines
/// are joined back with single newlines, in order.
fn split_segments(message_definition: &str) -> (r: Vec<String>)
    ensures
        ({
            let lv = crate::text::split_lines_spec(message_definition@);
            let segs = segs_upto(lv, lv.len() as int);
            &&& r@.len() == segs.len()
            &&& forall|k: int|
                0 <= k < segs.len() ==> #[trigger] r@[k]@ == crate::msg::join_upto(
                    segs[k],
                    segs[k].len() as int,
                )
        }),
{
    let lines = crate::text::split_lines(message_definition);
    let ghost lv = crate::text::split_lines_spec(message_definition@);
    let n = lines.len();
    let mut seg_texts: Vec<String> = Vec::new();
    let mut cur = String::new();
    let mut started = false;
    let mut i: usize = 0;
    proof {
        lemma_segs_upto_len(lv, 0);
    }
    while i < n
        invariant
            0 <= i <= n,
            n == lines@.len(),
            lv == crate::text::split_lines_spec(message_definition@),
            lv == lines@.map_values(|x: String| x@),
            lv.len() == n,
            segs_upto(lv, i as int).len() >= 1,
            seg_texts@.len() == segs_upto(lv, i as int).len() - 1,
            forall|k: int|
                0 <= k < seg_texts@.len() ==> #[trigger] seg_texts@[k]@
                    == crate::msg::join_upto(
                    segs_upto(lv, i as int)[k],
                    segs_upto(lv, i as int)[k].len() as int,
                ),
            cur@ == crate::msg::join_upto(
                segs_upto(lv, i as int).last(),
                segs_upto(lv, i as int).last().len() as int,
            ),
            started == (segs_upto(lv, i as int).last().len() > 0),
        decreases n - i,
    {
        let ghost segs = segs_upto(lv, i as int);
        proof {
            assert(lv[i as int] == lines@[i as int]@);
        }
        if is_separator_line_str(lines[i].as_str()) {
            seg_texts.push(cur);
            cur = String::new();
            started = false;
            proof {
                let segs2 = segs_upto(lv, i + 1);
                assert(segs2 == segs.push(Seq::<Seq<char>>::empty()));
                assert forall|k: int|
                    0 <= k < seg_texts@.len() implies #[trigger] seg_texts@[k]@
                    == crate::msg::join_upto(segs2[k], segs2[k].len() as int) by {
                    if k < seg_texts@.len() - 1 {
                        assert(segs2[k] == segs[k]);
                    } else {
                        assert(segs2[k] == segs.last());
                    }
                }
            }
        } else {
            let ghost last = segs.last();
            if started {
                cur.append("\n");
                cur.append(lines[i].as_str());
            } else {
                cur.append(lines[i].as_str());
            }
            started = true;
            proof {
                reveal_strlit("\n");
                let segs2 = segs_upto(lv, i + 1);
                let last2 = last.push(lv[i as int]);
                assert(segs2 == segs.update(segs.len() - 1, last2));
                assert(segs2.last() == last2);
                lemma_join_upto_prefix(last2, last, last.len() as int);
                if last.len() > 0 {
                    assert(crate::msg::join_upto(last2, last2.len() as int)
                        == crate::msg::join_upto(last2, last.len() as int) + seq!['\n']
                        + last2[last.len() as int]);
                    assert(cur@ =~= crate::msg::join_upto(last2, last2.len() as int));
                } else {
                    assert(crate::msg::join_upto(last2, 1) == last2[0]);
                    assert(cur@ =~= crate::msg::join_upto(last2, last2.len() as int));
                }
                assert forall|k: int|
                    0 <= k < seg_texts@.len() implies #[trigger] seg_texts@[k]@
                    == crate::msg::join_upto(segs2[k], segs2[k].len() as int) by {
                    assert(segs2[k] == segs[k]);
                }
            }
        }
        i = i + 1;
    }
    seg_texts.push(cur);
    let ghost segs = segs_upto(lv, n as int);
    proof {
        assert(seg_texts@.len() == segs.len());
        assert forall|k: int|
            0 <= k < segs.len() implies #[trigger] seg_texts@[k]@ == crate::msg::join_upto(
            segs[k],
            segs[k].len() as int,
        ) by {
            if k < segs.len() - 1 {
            } else {
                assert(seg_texts@[k] == cur);
            }
        }
    }
    seg_texts
}

impl DynamicMsg {
    /// Builds a registry from a root type name and a schema bundle: the text
    /// before the first separator line is the root message's body, each
    /// later part declares one dependency with a `MSG: <path>` line followed
    /// by its body. A later declaration of the same path replaces an earlier
    /// one.
    pub fn new(message_name: &str, message_definition: &str) -> (r: Result<DynamicMsg>)
        ensures
            ({
                let lines = crate::text::split_lines_spec(message_definition@);
                let segs = segs_upto(lines, lines.len() as int);
                let root_src = crate::msg::join_upto(segs[0], segs[0].len() as int);
                let dep_texts = Seq::new(
                    (segs.len() - 1) as nat,
                    |k: int| crate::msg::join_upto(segs[k + 1], segs[k + 1].len() as int),
                );
                match crate::message_path::spec_from_combined(message_name@) {
                    crate::message_path::CombinedParse::Invalid => r is Err
                        && r->Err_0 is InvalidMessagePath,
                    crate::message_path::CombinedParse::Path { package, name } => {
                        match crate::parse_msg::spec_match_lines(
                            crate::text::trim_chars(root_src),
                        ) {
                            crate::parse_msg::LinesR::Failed(k) => r is Err && lines_error_matches(
                                k,
                                r->Err_0,
                            ),
                            crate::parse_msg::LinesR::Fields(fs) => {
                                match spec_deps_upto(dep_texts, dep_texts.len() as int) {
                                    DepsParse::Failed(k) => r is Err && dep_error_matches(
                                        k,
                                        r->Err_0,
                                    ),
                                    DepsParse::Deps(ds) => r is Ok && r->Ok_0@.msg == (MsgV {
                                        path: PathView { package, name },
                                        fields: fs,
                                        source: crate::text::trim_chars(root_src),
                                    }) && r->Ok_0@.deps == ds,
                                }
                            },
                        }
                    },
                }
            }),
    {
        let seg_texts = split_segments(message_definition);
        let ghost lv = crate::text::split_lines_spec(message_definition@);
        let ghost segs = segs_upto(lv, lv.len() as int);
        proof {
            lemma_segs_upto_len(lv, lv.len() as int);
        }
        let root_path = match MessagePath::from_combined(message_name) {
            Ok(p) => p,
            Err(e) => {
                return Err(e);
            },
        };
        let msg = match Msg::new(root_path, seg_texts[0].as_str()) {
            Ok(m) => m,
            Err(e) => {
                return Err(e);
            },
        };
        let ghost dep_texts = Seq::new(
            (segs.len() - 1) as nat,
            |k: int| crate::msg::join_upto(segs[k + 1], segs[k + 1].len() as int),
        );
        let m = seg_texts.len();
        let mut dependencies: Vec<(MessagePath, Msg)> = Vec::new();
        let mut j: usize = 1;
        while j < m
            invariant
                1 <= j <= m,
                m == seg_texts@.len(),
                m == segs.len(),
                segs == segs_upto(lv, lv.len() as int),
                dep_texts == Seq::new(
                    (segs.len() - 1) as nat,
                    |k: int| crate::msg::join_upto(segs[k + 1], segs[k + 1].len() as int),
                ),
                forall|k: int|
                    0 <= k < m ==> #[trigger] seg_texts@[k]@ == crate::msg::join_upto(
                        segs[k],
                        segs[k].len() as int,
                    ),
                spec_deps_upto(dep_texts, j - 1) == DepsParse::Deps(deps_view(dependencies@)),
            decreases m - j,
        {
            proof {
                assert(dep_texts[j - 1] == seg_texts@[j as int]@);
            }
            let (path, depmsg) = match parse_dependency(seg_texts[j].as_str()) {
                Ok(p) => p,
                Err(e) => {
                    proof {
                        assert(spec_deps_upto(dep_texts, j as int) is Failed);
                        lemma_deps_failed(dep_texts, j as int, dep_texts.len() as int);
                    }
                    return Err(e);
                },
            };
            upsert_dep(&mut dependencies, path, depmsg);
            j = j + 1;
        }
        Ok(DynamicMsg { msg, dependencies })
    }

    /// Pairs decoded values with the field names of `msg`, by position,
    /// mapping the unnamed run behind each message-typed field recursively.
    fn map_field_names(&self, msg: &Msg, values: &Vec<Value>, fuel: usize) -> (r: Result<
        MessageValue,
    >)
        ensures
            map_outcome_matches(
                r,
                spec_map_values(self@.deps, msg@, values_view(values@), fuel as nat),
            ),
        decreases fuel,
    {
        let ghost mv = msg@;
        let ghost vsv = values_view(values@);
        let fields = msg.fields();
        proof {
            crate::field_info::lemma_fields_view(fields@);
            lemma_values_view(values@);
        }
        let n = fields.len();
        let mut out: MessageValue = Vec::new();
        let mut i: usize = 0;
        while i < n
            invariant
                0 <= i <= n,
                n == fields@.len(),
                mv == msg@,
                vsv == values_view(values@),
                vsv.len() == values@.len(),
                forall|j: int| 0 <= j < vsv.len() ==> vsv[j] == value_view(#[trigger] values@[j]),
                mv.fields == crate::field_info::fields_view(fields@),
                mv.fields.len() == n,
                forall|j: int| 0 <= j < n ==> mv.fields[j] == #[trigger] fields@[j]@,
                map_upto(self@.deps, mv, vsv, i as int, fuel as nat) == MapR::Mapped(
                    crate::value::message_value_view(out),
                ),
            decreases n - i,
        {
            let field = &fields[i];
            if i >= values.len() {
                proof {
                    assert(map_upto(self@.deps, mv, vsv, i + 1, fuel as nat) is Mismatch);
                    lemma_map_failed(self@.deps, mv, vsv, i + 1, n as int, fuel as nat);
                }
                return Err(
                    Error::DecodingError {
                        msg: msg.clone(),
                        field: Some(field.clone()),
                        offset: 0,
                        cause: DecodeCause::StructureMismatch,
                    },
                );
            }
            let value = &values[i];
            match field.datatype() {
                DataType::LocalMessage(name) => {
                    let path = msg.path().peer(name.as_str());
                    let entry = self.map_message_field(msg, field, &path, value, fuel);
                    match entry {
                        Ok(v) => {
                            crate::value::message_upsert(&mut out, field.name().to_owned(), v);
                        },
                        Err(e) => {
                            proof {
                                assert(!(map_upto(self@.deps, mv, vsv, i + 1, fuel as nat)
                                    is Mapped));
                                lemma_map_failed(
                                    self@.deps,
                                    mv,
                                    vsv,
                                    i + 1,
                                    n as int,
                                    fuel as nat,
                                );
                            }
                            return Err(e);
                        },
                    }
                },
                DataType::GlobalMessage(p) => {
                    let path = p.clone();
                    let entry = self.map_message_field(msg, field, &path, value, fuel);
                    match entry {
                        Ok(v) => {
                            crate::value::message_upsert(&mut out, field.name().to_owned(), v);
                        },
                        Err(e) => {
                            proof {
                                assert(!(map_upto(self@.deps, mv, vsv, i + 1, fuel as nat)
                                    is Mapped));
                                lemma_map_failed(
                                    self@.deps,
                                    mv,
                                    vsv,
                                    i + 1,
                                    n as int,
                                    fuel as nat,
                                );
                            }
                            return Err(e);
                        },
                    }
                },
                _ => {
                    let v = clone_value(value);
                    crate::value::message_upsert(&mut out, field.name().to_owned(), v);
                },
            }
            i = i + 1;
        }
        Ok(out)
    }

    /// One message-typed field mapped: the referenced definition is resolved
    /// and the value, an unnamed run, is mapped against it.
    fn map_message_field(
        &self,
        msg: &Msg,
        field: &FieldInfo,
        path: &MessagePath,
        value: &Value,
        fuel: usize,
    ) -> (r: Result<Value>)
        ensures
            ({
                let s = map_nested(self@.deps, msg@, field@, path@, value@, fuel as nat);
                match s {
                    NestR::Value(w) => r is Ok && r->Ok_0@ == w,
                    NestR::Missing { path: q } => r matches Err(
                        Error::MessageDependencyMissing { package, name },
                    ) && package@ == q.package && name@ == q.name,
                    NestR::Mismatch { m, f } => r matches Err(
                        Error::DecodingError { msg: em, field: ef, offset, cause },
                    ) && em@ == m && (ef matches Some(fi) && fi@ == f) && offset == 0
                        && cause is StructureMismatch,
                }
            }),
        decreases fuel, 0int,
    {
        let dep = match self.dependency(path) {
            Some(m) => m,
            None => {
                return Err(
                    Error::MessageDependencyMissing {
                        package: path.package().to_owned(),
                        name: path.name().to_owned(),
                    },
                );
            },
        };
        if fuel == 0 {
            return Err(
                Error::DecodingError {
                    msg: msg.clone(),
                    field: Some(field.clone()),
                    offset: 0,
                    cause: DecodeCause::StructureMismatch,
                },
            );
        }
        match value {
            Value::Array(nested) => {
                match self.map_field_names(dep, nested, fuel - 1) {
                    Ok(entries) => Ok(Value::Message(entries)),
                    Err(e) => Err(e),
                }
            },
            _ => Err(
                Error::DecodingError {
                    msg: msg.clone(),
                    field: Some(field.clone()),
                    offset: 0,
                    cause: DecodeCause::StructureMismatch,
                },
            ),
        }
    }

    /// Decodes a whole payload against the root message and returns the
    /// values of its fields in field order, nested messages still unnamed.
    pub fn decode_unmapped(&self, data: &[u8]) -> (r: Result<Vec<Value>>)
        ensures
            message_outcome_matches(
                r,
                self@.msg,
                dec_message(data@, self@.deps, self@.msg, reg_fuel(self@.deps)),
            ),
    {
        self.decode_message(&self.msg, data)
    }

    /// Pairs the values of [`Self::decode_unmapped`] with their field names.
    pub fn map_values(&self, values: Vec<Value>) -> (r: Result<MessageValue>)
        ensures
            map_outcome_matches(
                r,
                spec_map_values(
                    self@.deps,
                    self@.msg,
                    values_view(values@),
                    reg_fuel(self@.deps),
                ),
            ),
    {
        let n = self.dependencies.len();
        let fuel = if n < usize::MAX {
            n + 1
        } else {
            n
        };
        proof {
            lemma_deps_view(self.dependencies@);
            assert(fuel as nat == reg_fuel(self@.deps));
        }
        self.map_field_names(&self.msg, &values, fuel)
    }

    /// Decodes a whole payload against the root message and returns its
    /// fields by name, nested messages mapped recursively.
    pub fn decode(&self, data: &[u8]) -> (r: Result<MessageValue>)
        ensures
            ({
                let fuel = reg_fuel(self@.deps);
                match dec_message(data@, self@.deps, self@.msg, fuel) {
                    MsgR::Vals { vs } => map_outcome_matches(
                        r,
                        spec_map_values(self@.deps, self@.msg, vs, fuel),
                    ),
                    s => r is Err && message_outcome_matches(Err(r->Err_0), self@.msg, s),
                }
            }),
    {
        let values = match self.decode_message(&self.msg, data) {
            Ok(vs) => vs,
            Err(e) => {
                return Err(e);
            },
        };
        self.map_values(values)
    }

    /// The root message definition.
    pub fn msg(&self) -> (r: &Msg)
        ensures
            r@ == self@.msg,
    {
        &self.msg
    }

    /// The dependency stored for `path`, if any.
    pub fn dependency(&self, path: &MessagePath) -> (r: Option<&Msg>)
        ensures
            match r {
                Some(m) => dep_lookup(self@.deps, path@) == Some(m@),
                None => dep_lookup(self@.deps, path@) is None,
            },
    {
        let ghost dv = self@.deps;
        proof {
            lemma_deps_view(self.dependencies@);
        }
        let n = self.dependencies.len();
        let mut i: usize = 0;
        while i < n
            invariant
                0 <= i <= n,
                n == self.dependencies@.len(),
                dv == deps_view(self.dependencies@),
                dv.len() == n,
                forall|j: int|
                    0 <= j < n ==> dv[j] == (
                    #[trigger] self.dependencies@[j].0@,
                    self.dependencies@[j].1@,
                    ),
                forall|j: int| 0 <= j < i ==> dv[j].0 != path@,
            decreases n - i,
        {
            if self.dependencies[i].0.eq(path) {
                proof {
                    lemma_dep_index_is(dv, path@, i as int);
                }
                return Some(&self.dependencies[i].1);
            }
            i = i + 1;
        }
        proof {
            lemma_dep_index_is(dv, path@, n as int);
        }
        None
    }

    /// The dependency stored for `path`, or `MessageDependencyMissing`.
    fn get_dependency(&self, path: &MessagePath) -> (r: core::result::Result<&Msg, DecFail>)
        ensures
            match r {
                Ok(m) => dep_lookup(self@.deps, path@) == Some(m@),
                Err(e) => dep_lookup(self@.deps, path@) is None && (e matches DecFail::Missing {
                    path: q,
                } && q@ == path@),
            },
    {
        match self.dependency(path) {
            Some(m) => Ok(m),
            None => Err(DecFail::Missing { path: path.clone() }),
        }
    }

    /// One value of data type `dt`, read at the cursor; local message
    /// references resolve against the package of `parent`.
    #[verifier::rlimit(80)]
    #[verifier::spinoff_prover]
    fn decode_value(
        &self,
        parent: &MessagePath,
        dt: &DataType,
        r: &mut ByteCounter<'_>,
        fuel: usize,
    ) -> (res: core::result::Result<Value, DecFail>)
        requires
            old(r).wf(),
        ensures
            final(r).wf(),
            final(r)@.data == old(r)@.data,
            value_outcome_matches(
                res,
                final(r)@.pos,
                dec_value(
                    old(r)@.data,
                    old(r)@.pos,
                    self@.deps,
                    parent@.package,
                    dt@,
                    fuel as nat,
                ),
            ),
        decreases fuel, 3int, 0int,
    {
        match dt {
            DataType::String => read_string(r),
            DataType::Duration => Err(
                DecFail::Raw { fault: WireFault::NoDuration, pos: r.bytes_read() },
            ),
            DataType::LocalMessage(name) => {
                let path = parent.peer(name.as_str());
                let dep = match self.get_dependency(&path) {
                    Ok(m) => m,
                    Err(e) => {
                        return Err(e);
                    },
                };
                if fuel == 0 {
                    return Err(DecFail::Raw { fault: WireFault::TooDeep, pos: r.bytes_read() });
                }
                match self.decode_message_inner(dep, r, fuel - 1) {
                    Ok(vs) => Ok(Value::Array(vs)),
                    Err(e) => Err(e),
                }
            },
            DataType::GlobalMessage(path) => {
                let dep = match self.get_dependency(path) {
                    Ok(m) => m,
                    Err(e) => {
                        return Err(e);
                    },
                };
                if fuel == 0 {
                    return Err(DecFail::Raw { fault: WireFault::TooDeep, pos: r.bytes_read() });
                }
                match self.decode_message_inner(dep, r, fuel - 1) {
                    Ok(vs) => Ok(Value::Array(vs)),
                    Err(e) => Err(e),
                }
            },
            _ => decode_scalar(
                dt,
                r,
                Ghost(self@.deps),
                Ghost(parent@.package),
                Ghost(fuel as nat),
            ),
        }
    }
    /// `count` values of the element type of `field`, one after the other.
    fn decode_field_array(
        &self,
        parent: &MessagePath,
        dt: &DataType,
        count: usize,
        r: &mut ByteCounter<'_>,
        fuel: usize,
    ) -> (res: core::result::Result<Vec<Value>, DecFail>)
        requires
            old(r).wf(),
        ensures
            final(r).wf(),
            final(r)@.data == old(r)@.data,
            seq_outcome_matches(
                res,
                final(r)@.pos,
                dec_elems(
                    old(r)@.data,
                    old(r)@.pos,
                    self@.deps,
                    parent@.package,
                    dt@,
                    count as int,
                    fuel as nat,
                ),
            ),
        decreases fuel, 4int, 0int,
    {
        let ghost data = old(r)@.data;
        let ghost pkg = parent@.package;
        let ghost pos0 = old(r)@.pos;
        let mut out: Vec<Value> = Vec::new();
        let mut i: usize = 0;
        while i < count
            invariant
                0 <= i <= count,
                r.wf(),
                r@.data == data,
                out@.len() == i,
                dec_elems(data, pos0, self@.deps, pkg, dt@, count as int, fuel as nat) == (
                match dec_elems(
                    data,
                    r@.pos,
                    self@.deps,
                    pkg,
                    dt@,
                    count - i,
                    fuel as nat,
                ) {
                    SeqR::Vals { vs, pos } => SeqR::Vals { vs: values_view(out@) + vs, pos },
                    e => e,
                }),
            decreases count - i,
        {
            let v = match self.decode_value(parent, dt, r, fuel) {
                Ok(v) => v,
                Err(e) => {
                    return Err(e);
                },
            };
            proof {
                lemma_values_view(out@);
                lemma_values_view(out@.push(v));
                assert forall|k: int|
                    0 <= k < out@.push(v).len() implies values_view(out@.push(v))[k]
                    == values_view(out@).push(v@)[k] by {
                    assert(values_view(out@.push(v))[k] == out@.push(v)[k]@);
                    if k < out@.len() {
                        assert(out@.push(v)[k] == out@[k]);
                        assert(values_view(out@)[k] == out@[k]@);
                    }
                }
                assert(values_view(out@.push(v)) =~= values_view(out@).push(v@));
                match dec_elems(data, r@.pos, self@.deps, pkg, dt@, count - i - 1, fuel as nat) {
                    SeqR::Vals { vs, pos } => {
                        assert(values_view(out@).push(v@) + vs =~= values_view(out@) + (seq![v@]
                            + vs));
                    },
                    _ => {
                    },
                }
            }
            out.push(v);
            i = i + 1;
        }
        proof {
            assert(values_view(out@) + Seq::<crate::value::ValueV>::empty() =~= values_view(
                out@,
            ));
        }
        Ok(out)
    }

    /// One field at the cursor: a constant yields its stored value and
    /// consumes nothing; a vector reads its element count first; an array
    /// reads exactly its declared count.
    fn decode_field(
        &self,
        parent: &MessagePath,
        field: &FieldInfo,
        r: &mut ByteCounter<'_>,
        fuel: usize,
    ) -> (res: core::result::Result<Value, DecFail>)
        requires
            old(r).wf(),
        ensures
            final(r).wf(),
            final(r)@.data == old(r)@.data,
            value_outcome_matches(
                res,
                final(r)@.pos,
                dec_field(
                    old(r)@.data,
                    old(r)@.pos,
                    self@.deps,
                    parent@.package,
                    field@,
                    fuel as nat,
                ),
            ),
        decreases fuel, 5int, 0int,
    {
        match field.case() {
            FieldCase::Const(_) => match field.const_value() {
                Some(v) => Ok(clone_value(v)),
                None => Err(DecFail::Raw { fault: WireFault::NoConstant, pos: r.bytes_read() }),
            },
            FieldCase::Vector => {
                if !r.align_to(4) {
                    return Err(DecFail::Raw { fault: WireFault::Eof, pos: r.bytes_read() });
                }
                let count = match r.read_u32_le() {
                    Some(x) => x,
                    None => {
                        return Err(DecFail::Raw { fault: WireFault::Eof, pos: r.bytes_read() });
                    },
                };
                match self.decode_field_array(parent, field.datatype(), count as usize, r, fuel) {
                    Ok(vs) => Ok(Value::Array(vs)),
                    Err(e) => Err(e),
                }
            },
            FieldCase::Array(l) => {
                match self.decode_field_array(parent, field.datatype(), *l, r, fuel) {
                    Ok(vs) => Ok(Value::Array(vs)),
                    Err(e) => Err(e),
                }
            },
            _ => self.decode_value(parent, field.datatype(), r, fuel),
        }
    }

    /// The fields of `msg` in declared order, reading at the cursor. A fault
    /// without context is attributed here to the field it struck, and passed
    /// on unchanged from nested messages.
    fn decode_message_inner(
        &self,
        msg: &Msg,
        r: &mut ByteCounter<'_>,
        fuel: usize,
    ) -> (res: core::result::Result<Vec<Value>, DecFail>)
        requires
            old(r).wf(),
        ensures
            final(r).wf(),
            final(r)@.data == old(r)@.data,
            seq_outcome_matches(
                res,
                final(r)@.pos,
                dec_fields(old(r)@.data, old(r)@.pos, self@.deps, msg@, 0, fuel as nat),
            ),
        decreases fuel, 6int, 0int,
    {
        let ghost data = old(r)@.data;
        let ghost pos0 = old(r)@.pos;
        let ghost mv = msg@;
        let fields = msg.fields();
        proof {
            crate::field_info::lemma_fields_view(fields@);
        }
        let n = fields.len();
        let mut out: Vec<Value> = Vec::new();
        let mut i: usize = 0;
        while i < n
            invariant
                0 <= i <= n,
                r.wf(),
                r@.data == data,
                n == fields@.len(),
                mv == msg@,
                mv.fields == crate::field_info::fields_view(fields@),
                mv.fields.len() == n,
                forall|j: int| 0 <= j < n ==> mv.fields[j] == #[trigger] fields@[j]@,
                out@.len() == i,
                dec_fields(data, pos0, self@.deps, mv, 0, fuel as nat) == (match dec_fields(
                    data,
                    r@.pos,
                    self@.deps,
                    mv,
                    i as int,
                    fuel as nat,
                ) {
                    SeqR::Vals { vs, pos } => SeqR::Vals { vs: values_view(out@) + vs, pos },
                    e => e,
                }),
            decreases n - i,
        {
            let v = match self.decode_field(msg.path(), &fields[i], r, fuel) {
                Ok(v) => v,
                Err(DecFail::Raw { fault, pos }) => {
                    return Err(
                        DecFail::Ctx { fault, msg: msg.clone(), field: fields[i].clone(), pos },
                    );
                },
                Err(e) => {
                    return Err(e);
                },
            };
            proof {
                lemma_values_view(out@);
                lemma_values_view(out@.push(v));
                assert forall|k: int|
                    0 <= k < out@.push(v).len() implies values_view(out@.push(v))[k]
                    == values_view(out@).push(v@)[k] by {
                    assert(values_view(out@.push(v))[k] == out@.push(v)[k]@);
                    if k < out@.len() {
                        assert(out@.push(v)[k] == out@[k]);
                        assert(values_view(out@)[k] == out@[k]@);
                    }
                }
                assert(values_view(out@.push(v)) =~= values_view(out@).push(v@));
                match dec_fields(data, r@.pos, self@.deps, mv, i + 1, fuel as nat) {
                    SeqR::Vals { vs, pos } => {
                        assert(values_view(out@).push(v@) + vs =~= values_view(out@) + (seq![v@]
                            + vs));
                    },
                    _ => {
                    },
                }
            }
            out.push(v);
            i = i + 1;
        }
        proof {
            assert(values_view(out@) + Seq::<crate::value::ValueV>::empty() =~= values_view(
                out@,
            ));
        }
        Ok(out)
    }
}

/// One scalar value of data type `dt` at the cursor: everything but the
/// message references, which need the dependency table.
#[verifier::rlimit(100)]
#[verifier::spinoff_prover]
fn decode_scalar(
    dt: &DataType,
    r: &mut ByteCounter<'_>,
    Ghost(deps): Ghost<Seq<(PathView, MsgV)>>,
    Ghost(pkg): Ghost<Seq<char>>,
    Ghost(fuel): Ghost<nat>,
) -> (res: core::result::Result<Value, DecFail>)
    requires
        old(r).wf(),
        !(dt@ is LocalMessage),
        !(dt@ is GlobalMessage),
        !(dt@ is String),
        !(dt@ is Duration),
    ensures
        final(r).wf(),
        final(r)@.data == old(r)@.data,
        value_outcome_matches(
            res,
            final(r)@.pos,
            dec_value(old(r)@.data, old(r)@.pos, deps, pkg, dt@, fuel),
        ),
{
    match dt {
            DataType::Bool => match r.read_u8() {
                Some(b) => Ok(Value::Bool(b != 0)),
                None => Err(DecFail::Raw { fault: WireFault::Eof, pos: r.bytes_read() }),
            },
            DataType::I8(_) => match r.read_u8() {
                Some(b) => Ok(Value::I8(b as i8)),
                None => Err(DecFail::Raw { fault: WireFault::Eof, pos: r.bytes_read() }),
            },
            DataType::U8(_) => match r.read_u8() {
                Some(b) => Ok(Value::U8(b)),
                None => Err(DecFail::Raw { fault: WireFault::Eof, pos: r.bytes_read() }),
            },
            DataType::I16 => {
                if !r.align_to(2) {
                    return Err(DecFail::Raw { fault: WireFault::Eof, pos: r.bytes_read() });
                }
                match r.read_u16_le() {
                    Some(x) => Ok(Value::I16(x as i16)),
                    None => Err(DecFail::Raw { fault: WireFault::Eof, pos: r.bytes_read() }),
                }
            },
            DataType::U16 => {
                if !r.align_to(2) {
                    return Err(DecFail::Raw { fault: WireFault::Eof, pos: r.bytes_read() });
                }
                match r.read_u16_le() {
                    Some(x) => Ok(Value::U16(x)),
                    None => Err(DecFail::Raw { fault: WireFault::Eof, pos: r.bytes_read() }),
                }
            },
            DataType::I32 => {
                if !r.align_to(4) {
                    return Err(DecFail::Raw { fault: WireFault::Eof, pos: r.bytes_read() });
                }
                match r.read_u32_le() {
                    Some(x) => Ok(Value::I32(x as i32)),
                    None => Err(DecFail::Raw { fault: WireFault::Eof, pos: r.bytes_read() }),
                }
            },
            DataType::U32 => {
                if !r.align_to(4) {
                    return Err(DecFail::Raw { fault: WireFault::Eof, pos: r.bytes_read() });
                }
                match r.read_u32_le() {
                    Some(x) => Ok(Value::U32(x)),
                    None => Err(DecFail::Raw { fault: WireFault::Eof, pos: r.bytes_read() }),
                }
            },
            DataType::F32 => decode_scalar_wide(dt, r, Ghost(deps), Ghost(pkg), Ghost(fuel)),
            DataType::F64 => decode_scalar_wide(dt, r, Ghost(deps), Ghost(pkg), Ghost(fuel)),
            DataType::I64 => decode_scalar_wide(dt, r, Ghost(deps), Ghost(pkg), Ghost(fuel)),
            DataType::U64 => decode_scalar_wide(dt, r, Ghost(deps), Ghost(pkg), Ghost(fuel)),
            DataType::Time => decode_scalar_wide(dt, r, Ghost(deps), Ghost(pkg), Ghost(fuel)),
            DataType::String => {
                proof {
                    assert(false);
                }
                Err(DecFail::Raw { fault: WireFault::Eof, pos: r.bytes_read() })
            },
            DataType::Duration => {
                proof {
                    assert(false);
                }
                Err(DecFail::Raw { fault: WireFault::Eof, pos: r.bytes_read() })
            },
            DataType::LocalMessage(_) => {
                proof {
                    assert(false);
                }
                Err(DecFail::Raw { fault: WireFault::Eof, pos: r.bytes_read() })
            },
            DataType::GlobalMessage(_) => {
                proof {
                    assert(false);
                }
                Err(DecFail::Raw { fault: WireFault::Eof, pos: r.bytes_read() })
            },
    }
}

/// The wide scalars: the 64 bit integers, the floating-point bit patterns
/// and time.
#[verifier::rlimit(100)]
#[verifier::spinoff_prover]
fn decode_scalar_wide(
    dt: &DataType,
    r: &mut ByteCounter<'_>,
    Ghost(deps): Ghost<Seq<(PathView, MsgV)>>,
    Ghost(pkg): Ghost<Seq<char>>,
    Ghost(fuel): Ghost<nat>,
) -> (res: core::result::Result<Value, DecFail>)
    requires
        old(r).wf(),
        dt@ is F32 || dt@ is F64 || dt@ is I64 || dt@ is U64 || dt@ is Time,
    ensures
        final(r).wf(),
        final(r)@.data == old(r)@.data,
        value_outcome_matches(
            res,
            final(r)@.pos,
            dec_value(old(r)@.data, old(r)@.pos, deps, pkg, dt@, fuel),
        ),
{
    match dt {
            DataType::F32 => {
                if !r.align_to(4) {
                    return Err(DecFail::Raw { fault: WireFault::Eof, pos: r.bytes_read() });
                }
                match r.read_u32_le() {
                    Some(x) => Ok(Value::F32(x)),
                    None => Err(DecFail::Raw { fault: WireFault::Eof, pos: r.bytes_read() }),
                }
            },
            DataType::I64 => {
                if !r.align_to(8) {
                    return Err(DecFail::Raw { fault: WireFault::Eof, pos: r.bytes_read() });
                }
                match r.read_u64_le() {
                    Some(x) => Ok(Value::I64(x as i64)),
                    None => Err(DecFail::Raw { fault: WireFault::Eof, pos: r.bytes_read() }),
                }
            },
            DataType::U64 => {
                if !r.align_to(8) {
                    return Err(DecFail::Raw { fault: WireFault::Eof, pos: r.bytes_read() });
                }
                match r.read_u64_le() {
                    Some(x) => Ok(Value::U64(x)),
                    None => Err(DecFail::Raw { fault: WireFault::Eof, pos: r.bytes_read() }),
                }
            },
            DataType::F64 => {
                if !r.align_to(8) {
                    return Err(DecFail::Raw { fault: WireFault::Eof, pos: r.bytes_read() });
                }
                match r.read_u64_le() {
                    Some(x) => Ok(Value::F64(x)),
                    None => Err(DecFail::Raw { fault: WireFault::Eof, pos: r.bytes_read() }),
                }
            },
            DataType::String => read_string(r),
            DataType::Time => {
                if !r.align_to(4) {
                    return Err(DecFail::Raw { fault: WireFault::Eof, pos: r.bytes_read() });
                }
                let sec = match r.read_u32_le() {
                    Some(x) => x,
                    None => {
                        return Err(DecFail::Raw { fault: WireFault::Eof, pos: r.bytes_read() });
                    },
                };
                let nsec = match r.read_u32_le() {
                    Some(x) => x,
                    None => {
                        return Err(DecFail::Raw { fault: WireFault::Eof, pos: r.bytes_read() });
                    },
                };
                Ok(Value::Time(crate::time::Time { sec, nsec }))
            },
            _ => {
                proof {
                    assert(false);
                }
                Err(DecFail::Raw { fault: WireFault::Eof, pos: r.bytes_read() })
            },
    }
}

/// A separator between the bodies of a schema bundle: a line holding one or
/// more `=` characters and nothing else but whitespace.
pub open spec fn is_separator_line(l: Seq<char>) -> bool {
    let t = crate::text::trim_chars(l);
    t.len() > 0 && forall|i: int| 0 <= i < t.len() ==> t[i] == '='
}

/// Runtime check of [`is_separator_line`].
fn is_separator_line_str(l: &str) -> (r: bool)
    ensures
        r == is_separator_line(l@),
{
    let t = crate::text::trim_str(l);
    let n = t.unicode_len();
    if n == 0 {
        return false;
    }
    let mut i: usize = 0;
    while i < n
        invariant
            0 <= i <= n,
            n == t@.len(),
            t@ == crate::text::trim_chars(l@),
            forall|j: int| 0 <= j < i ==> t@[j] == '=',
        decreases n - i,
    {
        if t.as_str().get_char(i) != '=' {
            return false;
        }
        i = i + 1;
    }
    true
}

/// The first `i` lines grouped into segments: separator lines close a
/// segment, every other line joins the one being built. There is always at
/// least the segment being built.
pub open spec fn segs_upto(lines: Seq<Seq<char>>, i: int) -> Seq<Seq<Seq<char>>>
    decreases i,
{
    if i <= 0 {
        seq![Seq::empty()]
    } else {
        let prev = segs_upto(lines, i - 1);
        if is_separator_line(lines[i - 1]) {
            prev.push(Seq::empty())
        } else {
            prev.update(prev.len() - 1, prev.last().push(lines[i - 1]))
        }
    }
}

pub proof fn lemma_segs_upto_len(lines: Seq<Seq<char>>, i: int)
    ensures
        segs_upto(lines, i).len() >= 1,
    decreases i,
{
    if i > 0 {
        lemma_segs_upto_len(lines, i - 1);
    }
}

/// Joining depends only on the lines joined.
pub proof fn lemma_join_upto_prefix(a: Seq<Seq<char>>, b: Seq<Seq<char>>, i: int)
    requires
        0 <= i <= a.len(),
        i <= b.len(),
        forall|j: int| 0 <= j < i ==> a[j] == b[j],
    ensures
        crate::msg::join_upto(a, i) == crate::msg::join_upto(b, i),
    decreases i,
{
    if i > 0 {
        lemma_join_upto_prefix(a, b, i - 1);
    }
}

/// A bundle without separator lines is one single segment, so it yields a
/// registry with an empty dependency table.
pub proof fn lemma_no_separators_single_segment(lines: Seq<Seq<char>>, i: int)
    requires
        forall|j: int| 0 <= j < i ==> !is_separator_line(#[trigger] lines[j]),
    ensures
        segs_upto(lines, i).len() == 1,
    decreases i,
{
    if i > 0 {
        lemma_no_separators_single_segment(lines, i - 1);
    }
}

/// How one dependency body reads.
pub enum DepParse {
    /// The declared path and the message parsed from the remaining lines.
    Dep { path: PathView, fields: Seq<crate::field_info::FieldV>, source: Seq<char> },
    /// No line break after the declaration line, so no body at all.
    NoBody,
    /// A first line that is not `MSG: <path>`.
    BadDeclaration,
    /// A declared path outside the path grammar.
    BadPath,
    /// A body whose lines do not parse; carries the parser's failure.
    BadBody(crate::parse_msg::LineOutcome),
}

/// The path text of a declaration line `MSG: <path>`, whitespace-tolerant,
/// or nothing when the line has another shape.
pub open spec fn spec_msg_decl(line: Seq<char>) -> Option<Seq<char>> {
    let t = crate::text::trim_chars(line);
    if t.len() >= 4 && t.take(4) == "MSG:"@ {
        let p = crate::text::trim_chars(t.skip(4));
        if p.len() > 0 && (forall|i: int| 0 <= i < p.len() ==> !crate::text::is_ws(#[trigger] p[i])) {
            Some(p)
        } else {
            None
        }
    } else {
        None
    }
}

/// How a whole dependency body reads: its first non-blank line declares the
/// dependency's path, the rest is the dependency's schema text.
pub open spec fn spec_parse_dep(text: Seq<char>) -> DepParse {
    let t = crate::text::trim_chars(text);
    let nl = crate::text::find_char(t, '\n');
    if nl == t.len() {
        DepParse::NoBody
    } else {
        let decl = t.take(nl);
        let body = t.skip(nl + 1);
        match spec_msg_decl(decl) {
            None => DepParse::BadDeclaration,
            Some(ptxt) => match crate::message_path::spec_from_combined(ptxt) {
                crate::message_path::CombinedParse::Invalid => DepParse::BadPath,
                crate::message_path::CombinedParse::Path { package, name } => {
                    let trimmed = crate::text::trim_chars(body);
                    match crate::parse_msg::spec_match_lines(trimmed) {
                        crate::parse_msg::LinesR::Fields(fs) => DepParse::Dep {
                            path: PathView { package, name },
                            fields: fs,
                            source: trimmed,
                        },
                        crate::parse_msg::LinesR::Failed(k) => DepParse::BadBody(k),
                    }
                },
            },
        }
    }
}

/// `deps` with the entry for `path` set to `m`: the first entry of that path
/// is replaced, or a new entry appended, so a later declaration of the same
/// path wins.
pub open spec fn dep_upsert(
    deps: Seq<(PathView, MsgV)>,
    path: PathView,
    m: MsgV,
) -> Seq<(PathView, MsgV)> {
    if crate::wire::dep_index(deps, path) < deps.len() {
        deps.update(crate::wire::dep_index(deps, path), (path, m))
    } else {
        deps.push((path, m))
    }
}

/// The dependency table built from the segment texts after the first, read
/// in order; or the first failure.
pub enum DepsParse {
    /// The table.
    Deps(Seq<(PathView, MsgV)>),
    /// The first failing segment's failure.
    Failed(DepParse),
}

/// The table after reading the first `i` segment texts.
pub open spec fn spec_deps_upto(texts: Seq<Seq<char>>, i: int) -> DepsParse
    decreases i,
{
    if i <= 0 {
        DepsParse::Deps(Seq::empty())
    } else {
        match spec_deps_upto(texts, i - 1) {
            DepsParse::Failed(k) => DepsParse::Failed(k),
            DepsParse::Deps(ds) => match spec_parse_dep(texts[i - 1]) {
                DepParse::Dep { path, fields, source } => DepsParse::Deps(
                    dep_upsert(ds, path, MsgV { path, fields, source }),
                ),
                k => DepsParse::Failed(k),
            },
        }
    }
}

/// Whether a schema parsing error renders the parser's failure.
pub open spec fn lines_error_matches(k: crate::parse_msg::LineOutcome, e: Error) -> bool {
    match k {
        crate::parse_msg::LineOutcome::BadContent => e is BadMessageContent,
        crate::parse_msg::LineOutcome::BadPath => e is InvalidMessagePath,
        crate::parse_msg::LineOutcome::UnsupportedType => e is UnsupportedDataType,
        crate::parse_msg::LineOutcome::BadLiteral => e is BadConstant,
        _ => false,
    }
}

/// Whether an error renders a dependency body's failure.
pub open spec fn dep_error_matches(k: DepParse, e: Error) -> bool {
    match k {
        DepParse::NoBody => e is BadMessageContent,
        DepParse::BadDeclaration => e is BadMessageContent,
        DepParse::BadPath => e is InvalidMessagePath,
        DepParse::BadBody(b) => lines_error_matches(b, e),
        DepParse::Dep { .. } => false,
    }
}

/// The path text of a `MSG: <path>` declaration line, if it is one.
fn msg_decl(line: &str) -> (r: Option<String>)
    ensures
        match r {
            Some(p) => spec_msg_decl(line@) == Some(p@),
            None => spec_msg_decl(line@) is None,
        },
{
    let t = crate::text::trim_str(line);
    let n = t.unicode_len();
    if n < 4 {
        return None;
    }
    let head = t.as_str().substring_char(0, 4);
    proof {
        assert(head@ =~= t@.take(4));
    }
    if !str_eq(head, "MSG:") {
        return None;
    }
    let rest = t.as_str().substring_char(4, n);
    proof {
        assert(rest@ =~= t@.skip(4));
    }
    let p = crate::text::trim_str(rest);
    let pn = p.unicode_len();
    if pn == 0 {
        return None;
    }
    let mut i: usize = 0;
    while i < pn
        invariant
            0 <= i <= pn,
            pn == p@.len(),
            p@ == crate::text::trim_chars(rest@),
            forall|j: int| 0 <= j < i ==> !crate::text::is_ws(#[trigger] p@[j]),
        decreases pn - i,
    {
        if crate::text::is_ws_char(p.as_str().get_char(i)) {
            return None;
        }
        i = i + 1;
    }
    Some(p)
}

/// Reads one dependency body: its `MSG: <path>` declaration line, then the
/// dependency's schema text.
fn parse_dependency(text: &str) -> (r: Result<(MessagePath, Msg)>)
    ensures
        match spec_parse_dep(text@) {
            DepParse::Dep { path, fields, source } => r is Ok && r->Ok_0.0@ == path && r->Ok_0.1@
                == (MsgV { path, fields, source }),
            k => r is Err && dep_error_matches(k, r->Err_0),
        },
{
    let t = crate::text::trim_str(text);
    let n = t.unicode_len();
    let nl = crate::text::find_char_str(t.as_str(), '\n');
    proof {
        crate::text::lemma_find_char(t@, '\n');
    }
    if nl == n {
        return Err(
            Error::BadMessageContent(
                ("message dependency is missing its type declaration").to_owned(),
            ),
        );
    }
    let decl = t.as_str().substring_char(0, nl);
    let body = t.as_str().substring_char(nl + 1, n);
    proof {
        assert(decl@ =~= t@.take(nl as int));
        assert(body@ =~= t@.skip(nl + 1));
    }
    let ptxt = match msg_decl(decl) {
        Some(p) => p,
        None => {
            let mut m = ("dependency declaration line is not `MSG: <path>`: `").to_owned();
            m.append(decl);
            m.append("`");
            return Err(Error::BadMessageContent(m));
        },
    };
    let path = match MessagePath::from_combined(ptxt.as_str()) {
        Ok(p) => p,
        Err(e) => {
            return Err(e);
        },
    };
    let msg = match Msg::new(path.clone(), body) {
        Ok(m) => m,
        Err(e) => {
            return Err(e);
        },
    };
    Ok((path, msg))
}

/// Sets the dependency for `path` to `m`, replacing an earlier entry of that
/// path.
fn upsert_dep(deps: &mut Vec<(MessagePath, Msg)>, path: MessagePath, m: Msg)
    ensures
        deps_view(final(deps)@) == dep_upsert(deps_view(old(deps)@), path@, m@),
{
    let ghost dv = deps_view(deps@);
    proof {
        lemma_deps_view(deps@);
    }
    let n = deps.len();
    let mut i: usize = 0;
    while i < n
        invariant
            0 <= i <= n,
            n == deps@.len(),
            dv == deps_view(deps@),
            dv.len() == n,
            forall|j: int|
                0 <= j < n ==> dv[j] == (#[trigger] deps@[j].0@, deps@[j].1@),
            forall|j: int| 0 <= j < i ==> dv[j].0 != path@,
        decreases n - i,
    {
        if deps[i].0.eq(&path) {
            proof {
                lemma_dep_index_is(dv, path@, i as int);
            }
            let ghost before = deps@;
            let ghost pathv = path@;
            let ghost mv2 = m@;
            deps.set(i, (path, m));
            proof {
                lemma_deps_view(deps@);
                assert forall|k: int|
                    0 <= k < n implies deps_view(deps@)[k] == dep_upsert(dv, pathv, mv2)[k] by {
                    assert(deps_view(deps@)[k] == (deps@[k].0@, deps@[k].1@));
                    if k != i {
                        assert(deps@[k] == before[k]);
                        assert(dv[k] == (before[k].0@, before[k].1@));
                    }
                }
                assert(deps_view(deps@) =~= dep_upsert(dv, pathv, mv2));
            }
            return ;
        }
        i = i + 1;
    }
    proof {
        lemma_dep_index_is(dv, path@, n as int);
    }
    let ghost before = deps@;
    let ghost pathv = path@;
    let ghost mv2 = m@;
    deps.push((path, m));
    proof {
        lemma_deps_view(deps@);
        assert forall|k: int|
            0 <= k < deps@.len() implies deps_view(deps@)[k] == dep_upsert(dv, pathv, mv2)[k] by {
            assert(deps_view(deps@)[k] == (deps@[k].0@, deps@[k].1@));
            if k < n {
                assert(deps@[k] == before[k]);
                assert(dv[k] == (before[k].0@, before[k].1@));
            }
        }
        assert(deps_view(deps@) =~= dep_upsert(dv, pathv, mv2));
    }
}

/// Once the table fails at some prefix, it fails the same way for every
/// longer prefix.
pub proof fn lemma_deps_failed(texts: Seq<Seq<char>>, i: int, j: int)
    requires
        0 <= i <= j,
        spec_deps_upto(texts, i) is Failed,
    ensures
        spec_deps_upto(texts, j) == spec_deps_upto(texts, i),
    decreases j - i,
{
    if i < j {
        lemma_deps_failed(texts, i + 1, j);
    }
}

/// The outcome of pairing decoded values with their field names.
pub enum MapR {
    /// The named fields, a later duplicate name replacing an earlier one.
    Mapped(Seq<(Seq<char>, ValueV)>),
    /// A message reference with no entry in the dependency table.
    Missing { path: PathView },
    /// A positional value without the shape its field requires.
    Mismatch { m: MsgV, f: FieldV },
}

/// The first `i` fields of `m` paired with the values `vs` by position. The
/// value of a message-typed field must be an unnamed run of values, which is
/// mapped recursively against the referenced definition.
pub open spec fn map_upto(
    deps: Seq<(PathView, MsgV)>,
    m: MsgV,
    vs: Seq<ValueV>,
    i: int,
    fuel: nat,
) -> MapR
    decreases fuel, i,
{
    if i <= 0 {
        MapR::Mapped(Seq::empty())
    } else {
        match map_upto(deps, m, vs, i - 1, fuel) {
            MapR::Mapped(acc) => {
                let f = m.fields[i - 1];
                if i - 1 >= vs.len() {
                    MapR::Mismatch { m, f }
                } else {
                    let v = vs[i - 1];
                    match f.datatype {
                        crate::data_type::DataTypeV::LocalMessage(n) => {
                            let path = PathView { package: m.path.package, name: n };
                            match map_nested(deps, m, f, path, v, fuel) {
                                NestR::Value(w) => MapR::Mapped(
                                    crate::value::field_upsert(acc, f.name, w),
                                ),
                                NestR::Missing { path } => MapR::Missing { path },
                                NestR::Mismatch { m, f } => MapR::Mismatch { m, f },
                            }
                        },
                        crate::data_type::DataTypeV::GlobalMessage(path) => {
                            match map_nested(deps, m, f, path, v, fuel) {
                                NestR::Value(w) => MapR::Mapped(
                                    crate::value::field_upsert(acc, f.name, w),
                                ),
                                NestR::Missing { path } => MapR::Missing { path },
                                NestR::Mismatch { m, f } => MapR::Mismatch { m, f },
                            }
                        },
                        _ => MapR::Mapped(crate::value::field_upsert(acc, f.name, v)),
                    }
                }
            },
            e => e,
        }
    }
}

/// How one message-typed field maps.
pub enum NestR {
    /// The nested message, as a named value.
    Value(ValueV),
    /// A message reference with no entry in the dependency table.
    Missing { path: PathView },
    /// A positional value without the shape its field requires.
    Mismatch { m: MsgV, f: FieldV },
}

/// One message-typed field paired with its value: the referenced definition
/// is resolved and the value, an unnamed run, is mapped against it.
pub open spec fn map_nested(
    deps: Seq<(PathView, MsgV)>,
    m: MsgV,
    f: FieldV,
    path: PathView,
    v: ValueV,
    fuel: nat,
) -> NestR
    decreases fuel, 0int,
{
    match dep_lookup(deps, path) {
        None => NestR::Missing { path },
        Some(dep) => if fuel == 0 {
            NestR::Mismatch { m, f }
        } else {
            match v {
                ValueV::Array(nested) => match map_upto(
                    deps,
                    dep,
                    nested,
                    dep.fields.len() as int,
                    (fuel - 1) as nat,
                ) {
                    MapR::Mapped(entries) => NestR::Value(ValueV::Message(entries)),
                    MapR::Missing { path } => NestR::Missing { path },
                    MapR::Mismatch { m, f } => NestR::Mismatch { m, f },
                },
                _ => NestR::Mismatch { m, f },
            }
        },
    }
}

/// Once the pairing fails at some prefix, it fails the same way for every
/// longer prefix.
pub proof fn lemma_map_failed(
    deps: Seq<(PathView, MsgV)>,
    m: MsgV,
    vs: Seq<ValueV>,
    i: int,
    j: int,
    fuel: nat,
)
    requires
        0 <= i <= j,
        !(map_upto(deps, m, vs, i, fuel) is Mapped),
    ensures
        map_upto(deps, m, vs, j, fuel) == map_upto(deps, m, vs, i, fuel),
    decreases j - i,
{
    if i < j {
        lemma_map_failed(deps, m, vs, i + 1, j, fuel);
    }
}

/// The whole of `m` paired with the values `vs`.
pub open spec fn spec_map_values(
    deps: Seq<(PathView, MsgV)>,
    m: MsgV,
    vs: Seq<ValueV>,
    fuel: nat,
) -> MapR {
    map_upto(deps, m, vs, m.fields.len() as int, fuel)
}

/// Whether a runtime mapping outcome renders the mathematical one.
pub open spec fn map_outcome_matches(r: core::result::Result<MessageValue, Error>, s: MapR) -> bool {
    match s {
        MapR::Mapped(entries) => r is Ok && crate::value::message_value_view(r->Ok_0) == entries,
        MapR::Missing { path } => r matches Err(
            Error::MessageDependencyMissing { package, name },
        ) && package@ == path.package && name@ == path.name,
        MapR::Mismatch { m, f } => r matches Err(
            Error::DecodingError { msg, field, offset, cause },
        ) && msg@ == m && (field matches Some(fi) && fi@ == f) && offset == 0
            && cause is StructureMismatch,
    }
}

/// The decode cause that renders a wire fault.
fn cause_of(fault: WireFault) -> (r: DecodeCause)
    ensures
        cause_matches(r, fault),
{
    match fault {
        WireFault::Eof => DecodeCause::UnexpectedEof,
        WireFault::BadTerminator => DecodeCause::BadStringTerminator,
        WireFault::BadText => DecodeCause::InvalidText,
        WireFault::NoDuration => DecodeCause::DurationUnsupported,
        WireFault::TooDeep => DecodeCause::RecursionLimit,
        WireFault::NoConstant => DecodeCause::MissingConstant,
    }
}

/// Whether a whole-payload runtime outcome renders the mathematical one.
pub open spec fn message_outcome_matches(
    r: core::result::Result<Vec<Value>, Error>,
    root: MsgV,
    s: MsgR,
) -> bool {
    match s {
        MsgR::Vals { vs } => r is Ok && values_view(r->Ok_0@) == vs,
        MsgR::Missing { path } => r matches Err(
            Error::MessageDependencyMissing { package, name },
        ) && package@ == path.package && name@ == path.name,
        MsgR::CtxFail { fault, m, f, pos } => r matches Err(
            Error::DecodingError { msg, field, offset, cause },
        ) && msg@ == m && (field matches Some(fi) && fi@ == f) && offset == pos && cause_matches(
            cause,
            fault,
        ),
        MsgR::ShortHeader => r matches Err(Error::DecodingError { msg, field, offset, cause })
            && msg@ == root && field is None && offset == 0 && cause is UnexpectedEof,
        MsgR::BadHeader { kind } => r matches Err(
            Error::DecodingError { msg, field, offset, cause },
        ) && msg@ == root && field is None && offset == 4 && (cause matches DecodeCause::BadHeader(
            b,
        ) && b == kind),
        MsgR::Leftover { vs, pos } => r matches Err(
            Error::DecodingError { msg, field, offset, cause },
        ) && msg@ == root && field is None && offset == pos && (
        cause matches DecodeCause::Leftover(values) && values_view(values@) == vs),
    }
}

/// The recursion budget for nested message references: one more than the
/// dependency count, so that only a cyclic reference chain can exhaust it.
pub open spec fn reg_fuel(deps: Seq<(PathView, MsgV)>) -> nat {
    if deps.len() + 1 <= usize::MAX {
        (deps.len() + 1) as nat
    } else {
        usize::MAX as nat
    }
}

impl DynamicMsg {
    /// A whole payload decoded against the message definition `msg`: the
    /// four byte header `00 01 00 00`, the fields of `msg` in order, and
    /// nothing left after a final skip to four byte alignment. Fails with
    /// `MessageDependencyMissing` when a referenced message is absent from
    /// the dependency table, and with `DecodingError` for every wire-level
    /// mismatch, naming the innermost field and offset where it struck.
    fn decode_message(&self, msg: &Msg, data: &[u8]) -> (res: Result<Vec<Value>>)
        ensures
            message_outcome_matches(
                res,
                msg@,
                dec_message(data@, self@.deps, msg@, reg_fuel(self@.deps)),
            ),
    {
        let n = self.dependencies.len();
        let fuel = if n < usize::MAX {
            n + 1
        } else {
            n
        };
        proof {
            lemma_deps_view(self.dependencies@);
            assert(fuel as nat == reg_fuel(self@.deps));
        }
        let mut r = ByteCounter::new(data);
        let header = match r.read(4) {
            Some(h) => h,
            None => {
                return Err(
                    Error::DecodingError {
                        msg: msg.clone(),
                        field: None,
                        offset: 0,
                        cause: DecodeCause::UnexpectedEof,
                    },
                );
            },
        };
        if !(header[0] == 0 && header[1] == 1 && header[2] == 0 && header[3] == 0) {
            return Err(
                Error::DecodingError {
                    msg: msg.clone(),
                    field: None,
                    offset: 4,
                    cause: DecodeCause::BadHeader(header[1]),
                },
            );
        }
        let values = match self.decode_message_inner(msg, &mut r, fuel) {
            Ok(vs) => vs,
            Err(DecFail::Missing { path }) => {
                return Err(
                    Error::MessageDependencyMissing {
                        package: path.package().to_owned(),
                        name: path.name().to_owned(),
                    },
                );
            },
            Err(DecFail::Ctx { fault, msg: m, field, pos }) => {
                return Err(
                    Error::DecodingError {
                        msg: m,
                        field: Some(field),
                        offset: pos,
                        cause: cause_of(fault),
                    },
                );
            },
            Err(DecFail::Raw { fault, pos }) => {
                proof {
                    crate::wire::lemma_dec_fields_no_raw(
                        data@,
                        4,
                        self@.deps,
                        msg@,
                        0,
                        fuel as nat,
                    );
                }
                return Err(
                    Error::DecodingError {
                        msg: msg.clone(),
                        field: None,
                        offset: pos,
                        cause: cause_of(fault),
                    },
                );
            },
        };
        let _ = r.align_to(4);
        let end = r.bytes_read();
        if end < data.len() {
            return Err(
                Error::DecodingError {
                    msg: msg.clone(),
                    field: None,
                    offset: end,
                    cause: DecodeCause::Leftover(values),
                },
            );
        }
        Ok(values)
    }
}

/// One string value at the cursor, by the string rule of the wire format.
fn read_string(r: &mut ByteCounter<'_>) -> (res: core::result::Result<Value, DecFail>)
    requires
        old(r).wf(),
    ensures
        final(r).wf(),
        final(r)@.data == old(r)@.data,
        value_outcome_matches(res, final(r)@.pos, dec_string(old(r)@.data, old(r)@.pos)),
{
    if !r.align_to(4) {
        return Err(DecFail::Raw { fault: WireFault::Eof, pos: r.bytes_read() });
    }
    let l = match r.read_u32_le() {
        Some(x) => x,
        None => {
            return Err(DecFail::Raw { fault: WireFault::Eof, pos: r.bytes_read() });
        },
    };
    if l == 0 {
        proof {
            reveal_strlit("");
            assert(""@ =~= Seq::<char>::empty());
        }
        return Ok(Value::String(("").to_owned()));
    }
    let payload = match r.read((l - 1) as usize) {
        Some(v) => v,
        None => {
            return Err(DecFail::Raw { fault: WireFault::Eof, pos: r.bytes_read() });
        },
    };
    let terminator = match r.read_u8() {
        Some(b) => b,
        None => {
            return Err(DecFail::Raw { fault: WireFault::Eof, pos: r.bytes_read() });
        },
    };
    if terminator != 0 {
        return Err(DecFail::Raw { fault: WireFault::BadTerminator, pos: r.bytes_read() });
    }
    match bytes_to_string(payload) {
        Some(text) => {
            proof {
                vstd::utf8::decode_utf8_encode_utf8(vstd::utf8::encode_utf8(text@));
                vstd::utf8::encode_utf8_decode_utf8(text@);
            }
            Ok(Value::String(text))
        },
        None => Err(DecFail::Raw { fault: WireFault::BadText, pos: r.bytes_read() }),
    }
}

/// Relies on `String::from_utf8`: it succeeds exactly when the bytes are
/// valid UTF-8, and then the string's UTF-8 encoding is the input.
#[verifier::external_body]
fn bytes_to_string(bytes: Vec<u8>) -> (r: Option<String>)
    ensures
        r is Some <==> vstd::utf8::valid_utf8(bytes@),
        r is Some ==> vstd::utf8::encode_utf8(r->0@) == bytes@,
{
    String::from_utf8(bytes).ok()
}

/// The mathematical content of a [`ByteCounter`]: the bytes it walks and the
/// position reached.
pub struct CounterV {
    pub data: Seq<u8>,
    pub pos: int,
}

/// A cursor over a byte slice that tracks how many bytes were consumed since
/// the start. Failed reads consume nothing.
pub struct ByteCounter<'a> {
    data: &'a [u8],
    count: usize,
}

impl<'a> View for ByteCounter<'a> {
    type V = CounterV;

    closed spec fn view(&self) -> CounterV {
        CounterV { data: self.data@, pos: self.count as int }
    }
}

impl<'a> ByteCounter<'a> {
    /// The position never runs past the data.
    pub open spec fn wf(&self) -> bool {
        0 <= self@.pos <= self@.data.len()
    }

    /// A cursor at the start of `data`.
    pub fn new(data: &'a [u8]) -> (r: Self)
        ensures
            r@.data == data@,
            r@.pos == 0,
            r.wf(),
    {
        ByteCounter { data, count: 0 }
    }

    /// How many bytes were consumed so far.
    pub fn bytes_read(&self) -> (r: usize)
        ensures
            r == self@.pos,
    {
        self.count
    }

    /// The next `n` bytes, if that many remain; the position advances exactly
    /// on success.
    pub fn read(&mut self, n: usize) -> (r: Option<Vec<u8>>)
        requires
            old(self).wf(),
        ensures
            final(self).wf(),
            final(self)@.data == old(self)@.data,
            match r {
                Some(v) => old(self)@.pos + n <= old(self)@.data.len() && v@ == old(
                    self,
                )@.data.subrange(old(self)@.pos, old(self)@.pos + n) && final(self)@.pos == old(
                    self,
                )@.pos + n,
                None => old(self)@.pos + n > old(self)@.data.len() && final(self)@.pos == old(
                    self,
                )@.pos,
            },
    {
        if n <= self.data.len() && self.count <= self.data.len() - n {
            let piece = slice_subrange(self.data, self.count, self.count + n);
            let out = vstd::slice::slice_to_vec(piece);
            self.count = self.count + n;
            Some(out)
        } else {
            None
        }
    }

    /// One byte, if one remains.
    pub fn read_u8(&mut self) -> (r: Option<u8>)
        requires
            old(self).wf(),
        ensures
            final(self).wf(),
            final(self)@.data == old(self)@.data,
            match r {
                Some(b) => old(self)@.pos + 1 <= old(self)@.data.len() && b == old(
                    self,
                )@.data[old(self)@.pos] && final(self)@.pos == old(self)@.pos + 1,
                None => old(self)@.pos + 1 > old(self)@.data.len() && final(self)@.pos == old(
                    self,
                )@.pos,
            },
    {
        if self.count < self.data.len() {
            let b = *vstd::slice::slice_index_get(self.data, self.count);
            self.count = self.count + 1;
            Some(b)
        } else {
            None
        }
    }

    /// Skips filler so that the next read is aligned to `size` bytes from
    /// the start. Consumes nothing and reports failure when the filler bytes
    /// run past the end.
    pub fn align_to(&mut self, size: usize) -> (r: bool)
        requires
            old(self).wf(),
            size >= 1,
        ensures
            final(self).wf(),
            final(self)@.data == old(self)@.data,
            r == (align_up(old(self)@.pos, size as int) <= old(self)@.data.len()),
            r ==> final(self)@.pos == align_up(old(self)@.pos, size as int),
            !r ==> final(self)@.pos == old(self)@.pos,
    {
        let cur = self.count % size;
        if cur == 0 {
            return true;
        }
        let needed = size - cur;
        if needed <= self.data.len() && self.count <= self.data.len() - needed {
            self.count = self.count + needed;
            true
        } else {
            false
        }
    }

    /// A little-endian 16 bit read, unaligned.
    pub fn read_u16_le(&mut self) -> (r: Option<u16>)
        requires
            old(self).wf(),
        ensures
            final(self).wf(),
            final(self)@.data == old(self)@.data,
            match r {
                Some(x) => old(self)@.pos + 2 <= old(self)@.data.len() && x
                    == vstd::bytes::spec_u16_from_le_bytes(
                    old(self)@.data.subrange(old(self)@.pos, old(self)@.pos + 2),
                ) && final(self)@.pos == old(self)@.pos + 2,
                None => old(self)@.pos + 2 > old(self)@.data.len() && final(self)@.pos == old(
                    self,
                )@.pos,
            },
    {
        match self.read(2) {
            Some(v) => Some(u16_from_le_bytes(v.as_slice())),
            None => None,
        }
    }

    /// A little-endian 32 bit read, unaligned.
    pub fn read_u32_le(&mut self) -> (r: Option<u32>)
        requires
            old(self).wf(),
        ensures
            final(self).wf(),
            final(self)@.data == old(self)@.data,
            match r {
                Some(x) => old(self)@.pos + 4 <= old(self)@.data.len() && x
                    == vstd::bytes::spec_u32_from_le_bytes(
                    old(self)@.data.subrange(old(self)@.pos, old(self)@.pos + 4),
                ) && final(self)@.pos == old(self)@.pos + 4,
                None => old(self)@.pos + 4 > old(self)@.data.len() && final(self)@.pos == old(
                    self,
                )@.pos,
            },
    {
        match self.read(4) {
            Some(v) => Some(u32_from_le_bytes(v.as_slice())),
            None => None,
        }
    }

    /// A little-endian 64 bit read, unaligned.
    pub fn read_u64_le(&mut self) -> (r: Option<u64>)
        requires
            old(self).wf(),
        ensures
            final(self).wf(),
            final(self)@.data == old(self)@.data,
            match r {
                Some(x) => old(self)@.pos + 8 <= old(self)@.data.len() && x
                    == vstd::bytes::spec_u64_from_le_bytes(
                    old(self)@.data.subrange(old(self)@.pos, old(self)@.pos + 8),
                ) && final(self)@.pos == old(self)@.pos + 8,
                None => old(self)@.pos + 8 > old(self)@.data.len() && final(self)@.pos == old(
                    self,
                )@.pos,
            },
    {
        match self.read(8) {
            Some(v) => Some(u64_from_le_bytes(v.as_slice())),
            None => None,
        }
    }
}

} // verus!
