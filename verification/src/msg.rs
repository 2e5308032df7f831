use vstd::prelude::*;
use vstd::string::StrSliceExecFns;
use vstd::string::StringExecFns;

use crate::data_type::{hashes_view, DataType, DataTypeV, HashTable};
use crate::digest::{hex_chars, hex_encode, md5_digest, md5_of};
use crate::error::{Error, Result};
use crate::field_info::{
    fields_view, lemma_fields_view, spec_is_header, spec_md5_string, FieldInfo, FieldV,
};
use crate::message_path::{paths_view, MessagePath, PathView};
use crate::parse_msg::{match_lines, spec_match_lines, LineOutcome, LinesR};
use crate::value::{
    field_upsert, message_upsert, message_value_view, clone_value, FieldValue, MessageValue,
};

verus! {

/// The mathematical content of a [`Msg`].
pub struct MsgV {
    pub path: PathView,
    pub fields: Seq<FieldV>,
    pub source: Seq<char>,
}

/// A message definition parsed from schema text.
#[derive(Debug)]
pub struct Msg {
    path: MessagePath,
    fields: Vec<FieldInfo>,
    source: String,
}

impl View for Msg {
    type V = MsgV;

    closed spec fn view(&self) -> MsgV {
        MsgV { path: self.path@, fields: fields_view(self.fields@), source: self.source@ }
    }
}

impl Clone for Msg {
    fn clone(&self) -> (r: Self)
        ensures
            r@ == self@,
    {
        let mut fields: Vec<FieldInfo> = Vec::new();
        let n = self.fields.len();
        let mut i: usize = 0;
        proof {
            lemma_fields_view(self.fields@);
        }
        while i < n
            invariant
                0 <= i <= n,
                n == self.fields@.len(),
                fields@.len() == i,
                forall|j: int| 0 <= j < n ==> fields_view(self.fields@)[j] == #[trigger] self.fields@[j]@,
                forall|j: int| 0 <= j < i ==> fields@[j]@ == #[trigger] self.fields@[j]@,
            decreases n - i,
        {
            let f = self.fields[i].clone();
            fields.push(f);
            i = i + 1;
        }
        proof {
            lemma_fields_view(fields@);
            assert forall|j: int|
                0 <= j < n implies fields_view(fields@)[j] == fields_view(self.fields@)[j] by {
                assert(fields_view(fields@)[j] == fields@[j]@);
                assert(fields_view(self.fields@)[j] == self.fields@[j]@);
            }
            assert(fields_view(fields@) =~= fields_view(self.fields@));
        }
        Msg { path: self.path.clone(), fields, source: self.source.clone() }
    }
}

/// The constant fields of a message, each with its parsed value, reading the
/// first `i` fields in order; a later constant of the same name replaces an
/// earlier one.
pub open spec fn constants_upto(fs: Seq<FieldV>, i: int) -> Seq<(Seq<char>, ValueV)>
    decreases i,
{
    if i <= 0 {
        Seq::empty()
    } else {
        let prev = constants_upto(fs, i - 1);
        match fs[i - 1].const_value {
            Some(v) => field_upsert(prev, fs[i - 1].name, v),
            None => prev,
        }
    }
}

/// The paths of the messages that the first `i` fields reference, in field
/// order, duplicates kept; local references resolve against `package`.
pub open spec fn dependencies_upto(package: Seq<char>, fs: Seq<FieldV>, i: int) -> Seq<PathView>
    decreases i,
{
    if i <= 0 {
        Seq::empty()
    } else {
        let prev = dependencies_upto(package, fs, i - 1);
        match fs[i - 1].datatype {
            DataTypeV::LocalMessage(n) => prev.push(PathView { package, name: n }),
            DataTypeV::GlobalMessage(p) => prev.push(p),
            _ => prev,
        }
    }
}

/// The hashable lines of the first `i` fields: one line for each field whose
/// constant-ness equals `want_const`, or nothing when a referenced hash is
/// missing.
pub open spec fn md5_lines_upto(
    fs: Seq<FieldV>,
    package: Seq<char>,
    hs: Seq<(PathView, Seq<char>)>,
    want_const: bool,
    i: int,
) -> Option<Seq<Seq<char>>>
    decreases i,
{
    if i <= 0 {
        Some(Seq::empty())
    } else {
        match md5_lines_upto(fs, package, hs, want_const, i - 1) {
            None => None,
            Some(ls) => if (fs[i - 1].case is Const) == want_const {
                match spec_md5_string(fs[i - 1], package, hs) {
                    Some(l) => Some(ls.push(l)),
                    None => None,
                }
            } else {
                Some(ls)
            },
        }
    }
}

/// Once the lines fail at some prefix, they fail for every longer prefix.
pub proof fn lemma_md5_lines_none(
    fs: Seq<FieldV>,
    package: Seq<char>,
    hs: Seq<(PathView, Seq<char>)>,
    want_const: bool,
    i: int,
    j: int,
)
    requires
        0 <= i <= j,
        md5_lines_upto(fs, package, hs, want_const, i) is None,
    ensures
        md5_lines_upto(fs, package, hs, want_const, j) is None,
    decreases j - i,
{
    if i < j {
        lemma_md5_lines_none(fs, package, hs, want_const, i + 1, j);
    }
}

/// The first `i` lines joined with single newlines.
pub open spec fn join_upto(ls: Seq<Seq<char>>, i: int) -> Seq<char>
    decreases i,
{
    if i <= 0 {
        Seq::empty()
    } else if i == 1 {
        ls[0]
    } else {
        join_upto(ls, i - 1) + seq!['\n'] + ls[i - 1]
    }
}

/// The hashable rendering of a whole message: the lines of its constant
/// fields, then those of its other fields, joined with newlines.
pub open spec fn spec_md5_repr(m: MsgV, hs: Seq<(PathView, Seq<char>)>) -> Option<Seq<char>> {
    let n = m.fields.len() as int;
    match (md5_lines_upto(m.fields, m.path.package, hs, true, n), md5_lines_upto(
        m.fields,
        m.path.package,
        hs,
        false,
        n,
    )) {
        (Some(cs), Some(os)) => Some(join_upto(cs + os, (cs + os).len() as int)),
        _ => None,
    }
}

use crate::value::ValueV;

impl Msg {
    /// Parses a message from its path and its schema source text. The source
    /// is trimmed and kept; the fields are its non-blank lines, in order.
    pub fn new(path: MessagePath, source: &str) -> (r: Result<Msg>)
        ensures
            match r {
                Ok(m) => {
                    &&& m@.path == path@
                    &&& m@.source == crate::text::trim_chars(source@)
                    &&& spec_match_lines(crate::text::trim_chars(source@)) == LinesR::Fields(
                        m@.fields,
                    )
                },
                Err(e) => spec_match_lines(crate::text::trim_chars(source@)) is Failed && (
                match spec_match_lines(crate::text::trim_chars(source@))->Failed_0 {
                    LineOutcome::BadContent => e is BadMessageContent,
                    LineOutcome::BadPath => e is InvalidMessagePath,
                    LineOutcome::UnsupportedType => e is UnsupportedDataType,
                    LineOutcome::BadLiteral => e is BadConstant,
                    _ => false,
                }),
            },
    {
        let source = crate::text::trim_str(source);
        let fields = match match_lines(source.as_str()) {
            Ok(fields) => fields,
            Err(e) => {
                return Err(e);
            },
        };
        Ok(Msg { path, fields, source })
    }

    /// The path of the message.
    pub fn path(&self) -> (r: &MessagePath)
        ensures
            r@ == self@.path,
    {
        &self.path
    }

    /// The fields of the message, in wire order.
    pub fn fields(&self) -> (r: &Vec<FieldInfo>)
        ensures
            fields_view(r@) == self@.fields,
    {
        &self.fields
    }

    /// The trimmed source text of the message.
    pub fn source(&self) -> (r: &str)
        ensures
            r@ == self@.source,
    {
        self.source.as_str()
    }

    /// The constant fields of the message with their parsed values, in field
    /// order.
    pub fn constants(&self) -> (r: MessageValue)
        ensures
            message_value_view(r) == constants_upto(self@.fields, self@.fields.len() as int),
    {
        let ghost fv = self@.fields;
        proof {
            lemma_fields_view(self.fields@);
        }
        let n = self.fields.len();
        let mut out: MessageValue = Vec::new();
        let mut i: usize = 0;
        while i < n
            invariant
                0 <= i <= n,
                n == self.fields@.len(),
                fv == fields_view(self.fields@),
                fv.len() == n,
                forall|j: int| 0 <= j < n ==> fv[j] == #[trigger] self.fields@[j]@,
                message_value_view(out) == constants_upto(fv, i as int),
            decreases n - i,
        {
            match self.fields[i].const_value() {
                Some(v) => {
                    let value = clone_value(v);
                    let name = self.fields[i].name().to_owned();
                    message_upsert(&mut out, name, value);
                },
                None => {
                },
            }
            i = i + 1;
        }
        out
    }

    /// The paths of the messages this message directly references, in field
    /// order, duplicates kept.
    pub fn dependencies(&self) -> (r: Vec<MessagePath>)
        ensures
            paths_view(r@) == dependencies_upto(
                self@.path.package,
                self@.fields,
                self@.fields.len() as int,
            ),
    {
        let ghost fv = self@.fields;
        proof {
            lemma_fields_view(self.fields@);
        }
        let n = self.fields.len();
        let mut out: Vec<MessagePath> = Vec::new();
        let mut i: usize = 0;
        proof {
            crate::message_path::lemma_paths_view(out@);
        }
        while i < n
            invariant
                0 <= i <= n,
                n == self.fields@.len(),
                fv == fields_view(self.fields@),
                fv.len() == n,
                forall|j: int| 0 <= j < n ==> fv[j] == #[trigger] self.fields@[j]@,
                paths_view(out@) == dependencies_upto(self@.path.package, fv, i as int),
            decreases n - i,
        {
            let ghost before = out@;
            match self.fields[i].datatype() {
                DataType::LocalMessage(name) => {
                    let p = self.path.peer(name.as_str());
                    out.push(p);
                },
                DataType::GlobalMessage(p) => {
                    let c = p.clone();
                    out.push(c);
                },
                _ => {
                },
            }
            proof {
                crate::message_path::lemma_paths_view(out@);
                crate::message_path::lemma_paths_view(before);
                if out@.len() > before.len() {
                    assert forall|k: int|
                        0 <= k < out@.len() implies paths_view(out@)[k] == paths_view(before).push(
                        out@[out@.len() - 1]@,
                    )[k] by {
                        assert(paths_view(out@)[k] == out@[k]@);
                        if k < before.len() {
                            assert(out@[k] == before[k]);
                            assert(paths_view(before)[k] == before[k]@);
                        }
                    }
                    assert(paths_view(out@) =~= paths_view(before).push(out@[out@.len() - 1]@));
                }
            }
            i = i + 1;
        }
        out
    }

    /// True when some field of the message is the special header field.
    pub fn has_header(&self) -> (r: bool)
        ensures
            r == exists|i: int|
                0 <= i < self@.fields.len() && spec_is_header(#[trigger] self@.fields[i]),
    {
        let ghost fv = self@.fields;
        proof {
            lemma_fields_view(self.fields@);
        }
        let n = self.fields.len();
        let mut i: usize = 0;
        while i < n
            invariant
                0 <= i <= n,
                n == self.fields@.len(),
                fv == fields_view(self.fields@),
                fv.len() == n,
                forall|j: int| 0 <= j < n ==> fv[j] == #[trigger] self.fields@[j]@,
                forall|j: int| 0 <= j < i ==> !spec_is_header(#[trigger] fv[j]),
            decreases n - i,
        {
            if self.fields[i].is_header() {
                proof {
                    assert(spec_is_header(fv[i as int]));
                }
                return true;
            }
            i = i + 1;
        }
        false
    }

    /// The hashable rendering of the message: one line for each constant
    /// field first, then one for each other field, joined with newlines.
    /// Fails with `MessageDependencyMissing` exactly when a referenced
    /// message has no entry in `hashes`.
    pub fn get_md5_representation(&self, hashes: &HashTable) -> (r: Result<String>)
        ensures
            match r {
                Ok(s) => spec_md5_repr(self@, hashes_view(hashes@)) == Some(s@),
                Err(e) => spec_md5_repr(self@, hashes_view(hashes@)) is None
                    && e is MessageDependencyMissing,
            },
    {
        let ghost fv = self@.fields;
        let ghost hv = hashes_view(hashes@);
        let ghost pkg = self@.path.package;
        proof {
            lemma_fields_view(self.fields@);
        }
        let n = self.fields.len();
        let mut lines: Vec<String> = Vec::new();
        let mut i: usize = 0;
        while i < n
            invariant
                0 <= i <= n,
                n == self.fields@.len(),
                fv == fields_view(self.fields@),
                hv == hashes_view(hashes@),
                pkg == self@.path.package,
                fv.len() == n,
                forall|j: int| 0 <= j < n ==> fv[j] == #[trigger] self.fields@[j]@,
                md5_lines_upto(fv, pkg, hv, true, i as int) == Some(
                    lines@.map_values(|x: String| x@),
                ),
            decreases n - i,
        {
            if self.fields[i].is_constant() {
                let line = match self.fields[i].md5_string(self.path.package(), hashes) {
                    Ok(l) => l,
                    Err(e) => {
                        proof {
                            assert(md5_lines_upto(fv, pkg, hv, true, i + 1) is None);
                            lemma_md5_lines_none(fv, pkg, hv, true, i + 1, n as int);
                        }
                        return Err(e);
                    },
                };
                proof {
                    assert(lines@.push(line).map_values(|x: String| x@) =~= lines@.map_values(
                        |x: String| x@,
                    ).push(line@));
                }
                lines.push(line);
            }
            i = i + 1;
        }
        let ghost const_lines = lines@.map_values(|x: String| x@);
        let split = lines.len();
        let mut i: usize = 0;
        while i < n
            invariant
                0 <= i <= n,
                n == self.fields@.len(),
                fv == fields_view(self.fields@),
                hv == hashes_view(hashes@),
                pkg == self@.path.package,
                fv.len() == n,
                forall|j: int| 0 <= j < n ==> fv[j] == #[trigger] self.fields@[j]@,
                md5_lines_upto(fv, pkg, hv, true, n as int) == Some(const_lines),
                split == const_lines.len(),
                split <= lines@.len(),
                lines@.map_values(|x: String| x@).take(split as int) == const_lines,
                md5_lines_upto(fv, pkg, hv, false, i as int) == Some(
                    lines@.map_values(|x: String| x@).skip(split as int),
                ),
            decreases n - i,
        {
            if !self.fields[i].is_constant() {
                let line = match self.fields[i].md5_string(self.path.package(), hashes) {
                    Ok(l) => l,
                    Err(e) => {
                        proof {
                            assert(md5_lines_upto(fv, pkg, hv, false, i + 1) is None);
                            lemma_md5_lines_none(fv, pkg, hv, false, i + 1, n as int);
                        }
                        return Err(e);
                    },
                };
                proof {
                    assert(lines@.push(line).map_values(|x: String| x@) =~= lines@.map_values(
                        |x: String| x@,
                    ).push(line@));
                    assert(lines@.push(line).map_values(|x: String| x@).take(split as int)
                        =~= lines@.map_values(|x: String| x@).take(split as int));
                    assert(lines@.push(line).map_values(|x: String| x@).skip(split as int)
                        =~= lines@.map_values(|x: String| x@).skip(split as int).push(line@));
                }
                lines.push(line);
            }
            i = i + 1;
        }
        let ghost all_lines = const_lines + lines@.map_values(|x: String| x@).skip(split as int);
        proof {
            assert(all_lines =~= lines@.map_values(|x: String| x@));
        }
        let m = lines.len();
        let mut out = String::new();
        let mut i: usize = 0;
        while i < m
            invariant
                0 <= i <= m,
                m == lines@.len(),
                all_lines == lines@.map_values(|x: String| x@),
                all_lines.len() == m,
                out@ == join_upto(all_lines, i as int),
            decreases m - i,
        {
            if i > 0 {
                out.append("\n");
                proof {
                    reveal_strlit("\n");
                    assert(out@ =~= join_upto(all_lines, i as int) + seq!['\n']);
                }
            }
            out.append(lines[i].as_str());
            proof {
                if i == 0 {
                    assert(out@ =~= all_lines[0]);
                } else {
                    assert(out@ =~= join_upto(all_lines, i as int) + seq!['\n']
                        + all_lines[i as int]);
                }
            }
            i = i + 1;
        }
        Ok(out)
    }

    /// The content identity of the message: the MD5 digest of its hashable
    /// rendering, in lowercase hex. Every message this one references must
    /// have its own identity in `hashes`.
    pub fn calculate_md5(&self, hashes: &HashTable) -> (r: Result<String>)
        ensures
            match r {
                Ok(s) => spec_md5_repr(self@, hashes_view(hashes@)) is Some && s@ == hex_chars(
                    md5_digest(
                        vstd::utf8::encode_utf8(
                            spec_md5_repr(self@, hashes_view(hashes@))->Some_0,
                        ),
                    ),
                ),
                Err(e) => spec_md5_repr(self@, hashes_view(hashes@)) is None
                    && e is MessageDependencyMissing,
            },
    {
        let repr = match self.get_md5_representation(hashes) {
            Ok(s) => s,
            Err(e) => {
                return Err(e);
            },
        };
        let digest = md5_of(repr.as_str().as_bytes());
        Ok(hex_encode(digest.as_slice()))
    }
}

} // verus!
