use vstd::prelude::*;
use vstd::string::StrSliceExecFns;
use vstd::string::StringExecFns;

use crate::error::{Error, Result};
use crate::message_path::{valid_package_name, MessagePath, PathView};
use crate::text::{find_char, find_char_str, lemma_find_char, str_eq};

verus! {

/// The spelling behind an 8 bit signed integer field.
#[derive(Clone, Copy, Debug, PartialEq, Eq, Structural)]
pub enum I8Variant {
    /// Spelled `int8`.
    Alias,
    /// Spelled `byte`.
    Byte,
}

/// The spelling behind an 8 bit unsigned integer field.
#[derive(Clone, Copy, Debug, PartialEq, Eq, Structural)]
pub enum U8Variant {
    /// Spelled `uint8`.
    Alias,
    /// Spelled `char`.
    Char,
}

/// The mathematical content of a [`DataType`].
pub enum DataTypeV {
    Bool,
    I8(I8Variant),
    I16,
    I32,
    I64,
    U8(U8Variant),
    U16,
    U32,
    U64,
    F32,
    F64,
    String,
    Time,
    Duration,
    LocalMessage(Seq<char>),
    GlobalMessage(PathView),
}

/// The data type of one schema field.
#[derive(Debug)]
pub enum DataType {
    /// `bool`.
    Bool,
    /// `int8` or `byte`, which differ in display only.
    I8(I8Variant),
    /// `int16`.
    I16,
    /// `int32`.
    I32,
    /// `int64`.
    I64,
    /// `uint8` or `char`, which differ in display only.
    U8(U8Variant),
    /// `uint16`.
    U16,
    /// `uint32`.
    U32,
    /// `uint64`.
    U64,
    /// `float32`.
    F32,
    /// `float64`.
    F64,
    /// `string`.
    String,
    /// `time`.
    Time,
    /// `duration`.
    Duration,
    /// A message in the same package, by bare name.
    LocalMessage(String),
    /// A message anywhere, by `package/Name`.
    GlobalMessage(MessagePath),
}

impl View for DataType {
    type V = DataTypeV;

    open spec fn view(&self) -> DataTypeV {
        match self {
            DataType::Bool => DataTypeV::Bool,
            DataType::I8(v) => DataTypeV::I8(*v),
            DataType::I16 => DataTypeV::I16,
            DataType::I32 => DataTypeV::I32,
            DataType::I64 => DataTypeV::I64,
            DataType::U8(v) => DataTypeV::U8(*v),
            DataType::U16 => DataTypeV::U16,
            DataType::U32 => DataTypeV::U32,
            DataType::U64 => DataTypeV::U64,
            DataType::F32 => DataTypeV::F32,
            DataType::F64 => DataTypeV::F64,
            DataType::String => DataTypeV::String,
            DataType::Time => DataTypeV::Time,
            DataType::Duration => DataTypeV::Duration,
            DataType::LocalMessage(n) => DataTypeV::LocalMessage(n@),
            DataType::GlobalMessage(p) => DataTypeV::GlobalMessage(p@),
        }
    }
}

impl Clone for DataType {
    fn clone(&self) -> (r: Self)
        ensures
            r@ == self@,
    {
        match self {
            DataType::Bool => DataType::Bool,
            DataType::I8(v) => DataType::I8(*v),
            DataType::I16 => DataType::I16,
            DataType::I32 => DataType::I32,
            DataType::I64 => DataType::I64,
            DataType::U8(v) => DataType::U8(*v),
            DataType::U16 => DataType::U16,
            DataType::U32 => DataType::U32,
            DataType::U64 => DataType::U64,
            DataType::F32 => DataType::F32,
            DataType::F64 => DataType::F64,
            DataType::String => DataType::String,
            DataType::Time => DataType::Time,
            DataType::Duration => DataType::Duration,
            DataType::LocalMessage(n) => DataType::LocalMessage(n.clone()),
            DataType::GlobalMessage(p) => DataType::GlobalMessage(p.clone()),
        }
    }
}

/// The token that a data type displays as: the built-in spelling, the bare
/// name of a local message, or `package/Name` for a global one.
pub open spec fn token_chars(d: DataTypeV) -> Seq<char> {
    match d {
        DataTypeV::Bool => "bool"@,
        DataTypeV::I8(I8Variant::Alias) => "int8"@,
        DataTypeV::I8(I8Variant::Byte) => "byte"@,
        DataTypeV::I16 => "int16"@,
        DataTypeV::I32 => "int32"@,
        DataTypeV::I64 => "int64"@,
        DataTypeV::U8(U8Variant::Alias) => "uint8"@,
        DataTypeV::U8(U8Variant::Char) => "char"@,
        DataTypeV::U16 => "uint16"@,
        DataTypeV::U32 => "uint32"@,
        DataTypeV::U64 => "uint64"@,
        DataTypeV::F32 => "float32"@,
        DataTypeV::F64 => "float64"@,
        DataTypeV::String => "string"@,
        DataTypeV::Time => "time"@,
        DataTypeV::Duration => "duration"@,
        DataTypeV::LocalMessage(n) => n,
        DataTypeV::GlobalMessage(p) => p.package + seq!['/'] + p.name,
    }
}

/// Everything but a message reference is built in.
pub open spec fn spec_is_builtin(d: DataTypeV) -> bool {
    !(d is LocalMessage || d is GlobalMessage)
}

/// The hashes of the messages a message depends on, keyed by path. Earlier
/// entries win, so keys are meant to be distinct.
pub type HashTable = Vec<(MessagePath, String)>;

/// The view of a hash table, elementwise.
pub open spec fn hashes_view(s: Seq<(MessagePath, String)>) -> Seq<(PathView, Seq<char>)>
    decreases s,
{
    if s.len() == 0 {
        Seq::empty()
    } else {
        seq![(s[0].0@, s[0].1@)] + hashes_view(s.drop_first())
    }
}

pub proof fn lemma_hashes_view(s: Seq<(MessagePath, String)>)
    ensures
        #[trigger] hashes_view(s).len() == s.len(),
        forall|i: int| 0 <= i < s.len() ==> hashes_view(s)[i] == (#[trigger] s[i].0@, s[i].1@),
    decreases s,
{
    if s.len() > 0 {
        let t = s.drop_first();
        lemma_hashes_view(t);
        assert forall|i: int| 0 <= i < s.len() implies hashes_view(s)[i] == (
        #[trigger] s[i].0@,
        s[i].1@,
        ) by {
            if i > 0 {
                assert(t[i - 1] == s[i]);
                assert(hashes_view(s)[i] == hashes_view(t)[i - 1]);
            }
        }
    }
}

/// Index of the first entry for `p` in `hs`, or `hs.len()` if absent.
pub open spec fn hash_index(hs: Seq<(PathView, Seq<char>)>, p: PathView) -> int
    decreases hs.len(),
{
    if hs.len() == 0 {
        0
    } else if hs[0].0 == p {
        0
    } else {
        1 + hash_index(hs.drop_first(), p)
    }
}

pub proof fn lemma_hash_index_is(hs: Seq<(PathView, Seq<char>)>, p: PathView, k: int)
    requires
        0 <= k <= hs.len(),
        forall|j: int| 0 <= j < k ==> hs[j].0 != p,
        k < hs.len() ==> hs[k].0 == p,
    ensures
        hash_index(hs, p) == k,
    decreases hs.len(),
{
    if hs.len() == 0 {
    } else if hs[0].0 == p {
        assert(k == 0);
    } else {
        assert(k >= 1);
        let t = hs.drop_first();
        assert(forall|j: int| 0 <= j < k - 1 ==> t[j].0 != p);
        lemma_hash_index_is(t, p, k - 1);
    }
}

/// The hash stored for `p`, if any.
pub open spec fn hash_lookup(hs: Seq<(PathView, Seq<char>)>, p: PathView) -> Option<Seq<char>> {
    if hash_index(hs, p) < hs.len() {
        Some(hs[hash_index(hs, p)].1)
    } else {
        None
    }
}

/// Looks up the hash stored for the path `package/name`.
pub fn find_hash<'a>(hashes: &'a HashTable, package: &str, name: &str) -> (r: Option<&'a String>)
    ensures
        match r {
            Some(h) => hash_lookup(
                hashes_view(hashes@),
                PathView { package: package@, name: name@ },
            ) == Some(h@),
            None => hash_lookup(
                hashes_view(hashes@),
                PathView { package: package@, name: name@ },
            ) is None,
        },
{
    let ghost pv = PathView { package: package@, name: name@ };
    let ghost hv = hashes_view(hashes@);
    proof {
        lemma_hashes_view(hashes@);
    }
    let n = hashes.len();
    let mut i: usize = 0;
    while i < n
        invariant
            0 <= i <= n,
            n == hashes@.len(),
            pv == (PathView { package: package@, name: name@ }),
            hv == hashes_view(hashes@),
            hv.len() == n,
            forall|j: int| 0 <= j < n ==> hv[j] == (#[trigger] hashes@[j].0@, hashes@[j].1@),
            forall|j: int| 0 <= j < i ==> hv[j].0 != pv,
        decreases n - i,
    {
        let same = str_eq(hashes[i].0.package(), package) && str_eq(hashes[i].0.name(), name);
        if same {
            proof {
                assert(hv[i as int].0 =~= pv);
                lemma_hash_index_is(hv, pv, i as int);
            }
            return Some(&hashes[i].1);
        }
        i = i + 1;
    }
    proof {
        lemma_hash_index_is(hv, pv, n as int);
    }
    None
}

/// The text a data type contributes to the hashable rendering of a field:
/// its own token for a built-in type, the dependency's hash for a message
/// reference, or nothing when that hash is absent.
pub open spec fn spec_md5_str(
    d: DataTypeV,
    package: Seq<char>,
    hs: Seq<(PathView, Seq<char>)>,
) -> Option<Seq<char>> {
    match d {
        DataTypeV::LocalMessage(n) => hash_lookup(hs, PathView { package, name: n }),
        DataTypeV::GlobalMessage(p) => hash_lookup(hs, p),
        _ => Some(token_chars(d)),
    }
}

/// How a type token reads.
pub enum DataTypeParse {
    /// A recognized data type.
    Parsed(DataTypeV),
    /// `package/Name` whose package breaks the naming rule.
    BadPath,
    /// No data type at all, such as a token with two or more slashes.
    Unsupported,
}

/// The grammar of a type token: the built-in spellings; `Header`, which is
/// shorthand for `std_msgs/Header`; a bare name for a message in the same
/// package; and `package/Name` for a message anywhere.
pub open spec fn spec_parse_datatype(tok: Seq<char>) -> DataTypeParse {
    if tok == "bool"@ {
        DataTypeParse::Parsed(DataTypeV::Bool)
    } else if tok == "int8"@ {
        DataTypeParse::Parsed(DataTypeV::I8(I8Variant::Alias))
    } else if tok == "byte"@ {
        DataTypeParse::Parsed(DataTypeV::I8(I8Variant::Byte))
    } else if tok == "int16"@ {
        DataTypeParse::Parsed(DataTypeV::I16)
    } else if tok == "int32"@ {
        DataTypeParse::Parsed(DataTypeV::I32)
    } else if tok == "int64"@ {
        DataTypeParse::Parsed(DataTypeV::I64)
    } else if tok == "uint8"@ {
        DataTypeParse::Parsed(DataTypeV::U8(U8Variant::Alias))
    } else if tok == "char"@ {
        DataTypeParse::Parsed(DataTypeV::U8(U8Variant::Char))
    } else if tok == "uint16"@ {
        DataTypeParse::Parsed(DataTypeV::U16)
    } else if tok == "uint32"@ {
        DataTypeParse::Parsed(DataTypeV::U32)
    } else if tok == "uint64"@ {
        DataTypeParse::Parsed(DataTypeV::U64)
    } else if tok == "float32"@ {
        DataTypeParse::Parsed(DataTypeV::F32)
    } else if tok == "float64"@ {
        DataTypeParse::Parsed(DataTypeV::F64)
    } else if tok == "string"@ {
        DataTypeParse::Parsed(DataTypeV::String)
    } else if tok == "time"@ {
        DataTypeParse::Parsed(DataTypeV::Time)
    } else if tok == "duration"@ {
        DataTypeParse::Parsed(DataTypeV::Duration)
    } else if tok == "Header"@ {
        DataTypeParse::Parsed(
            DataTypeV::GlobalMessage(PathView { package: "std_msgs"@, name: "Header"@ }),
        )
    } else {
        let i = find_char(tok, '/');
        if i == tok.len() {
            DataTypeParse::Parsed(DataTypeV::LocalMessage(tok))
        } else {
            let package = tok.take(i);
            let rest = tok.skip(i + 1);
            if find_char(rest, '/') != rest.len() {
                DataTypeParse::Unsupported
            } else if valid_package_name(package) {
                DataTypeParse::Parsed(
                    DataTypeV::GlobalMessage(PathView { package, name: rest }),
                )
            } else {
                DataTypeParse::BadPath
            }
        }
    }
}

impl DataType {
    /// Reads a type token. Returns `UnsupportedDataType` for a token outside
    /// the grammar and `InvalidMessagePath` for a `package/Name` reference
    /// whose package breaks the naming rule.
    pub fn parse(token: &str) -> (r: Result<DataType>)
        ensures
            match spec_parse_datatype(token@) {
                DataTypeParse::Parsed(d) => r is Ok && r->Ok_0@ == d,
                DataTypeParse::BadPath => r is Err && r->Err_0 is InvalidMessagePath,
                DataTypeParse::Unsupported => r is Err && r->Err_0 is UnsupportedDataType,
            },
    {
        if str_eq(token, "bool") {
            Ok(DataType::Bool)
        } else if str_eq(token, "int8") {
            Ok(DataType::I8(I8Variant::Alias))
        } else if str_eq(token, "byte") {
            Ok(DataType::I8(I8Variant::Byte))
        } else if str_eq(token, "int16") {
            Ok(DataType::I16)
        } else if str_eq(token, "int32") {
            Ok(DataType::I32)
        } else if str_eq(token, "int64") {
            Ok(DataType::I64)
        } else if str_eq(token, "uint8") {
            Ok(DataType::U8(U8Variant::Alias))
        } else if str_eq(token, "char") {
            Ok(DataType::U8(U8Variant::Char))
        } else if str_eq(token, "uint16") {
            Ok(DataType::U16)
        } else if str_eq(token, "uint32") {
            Ok(DataType::U32)
        } else if str_eq(token, "uint64") {
            Ok(DataType::U64)
        } else if str_eq(token, "float32") {
            Ok(DataType::F32)
        } else if str_eq(token, "float64") {
            Ok(DataType::F64)
        } else if str_eq(token, "string") {
            Ok(DataType::String)
        } else if str_eq(token, "time") {
            Ok(DataType::Time)
        } else if str_eq(token, "duration") {
            Ok(DataType::Duration)
        } else if str_eq(token, "Header") {
            let path = match MessagePath::new("std_msgs", "Header") {
                Ok(p) => p,
                Err(_) => {
                    proof {
                        reveal_strlit("std_msgs");
                        assert(valid_package_name("std_msgs"@));
                    }
                    return Err(
                        Error::UnsupportedDataType {
                            name: token.to_owned(),
                            reason: ("unreachable").to_owned(),
                        },
                    );
                },
            };
            Ok(DataType::GlobalMessage(path))
        } else {
            let n = token.unicode_len();
            let i = find_char_str(token, '/');
            proof {
                lemma_find_char(token@, '/');
            }
            if i == n {
                Ok(DataType::LocalMessage(token.to_owned()))
            } else {
                let package = token.substring_char(0, i);
                let rest = token.substring_char(i + 1, n);
                proof {
                    assert(package@ =~= token@.take(i as int));
                    assert(rest@ =~= token@.skip(i + 1));
                }
                let j = find_char_str(rest, '/');
                if j != rest.unicode_len() {
                    return Err(
                        Error::UnsupportedDataType {
                            name: token.to_owned(),
                            reason: (
                            "a type token is a bare name or `package/Name`, with one slash at most").to_owned(),
                        },
                    );
                }
                match MessagePath::new(package, rest) {
                    Ok(p) => Ok(DataType::GlobalMessage(p)),
                    Err(e) => Err(e),
                }
            }
        }
    }

    /// True for every data type that is not a message reference.
    pub fn is_builtin(&self) -> (r: bool)
        ensures
            r == spec_is_builtin(self@),
    {
        match self {
            DataType::LocalMessage(_) => false,
            DataType::GlobalMessage(_) => false,
            _ => true,
        }
    }

    /// The token this data type displays as.
    pub fn to_token(&self) -> (r: String)
        ensures
            r@ == token_chars(self@),
    {
        match self {
            DataType::Bool => ("bool").to_owned(),
            DataType::I8(I8Variant::Alias) => ("int8").to_owned(),
            DataType::I8(I8Variant::Byte) => ("byte").to_owned(),
            DataType::I16 => ("int16").to_owned(),
            DataType::I32 => ("int32").to_owned(),
            DataType::I64 => ("int64").to_owned(),
            DataType::U8(U8Variant::Alias) => ("uint8").to_owned(),
            DataType::U8(U8Variant::Char) => ("char").to_owned(),
            DataType::U16 => ("uint16").to_owned(),
            DataType::U32 => ("uint32").to_owned(),
            DataType::U64 => ("uint64").to_owned(),
            DataType::F32 => ("float32").to_owned(),
            DataType::F64 => ("float64").to_owned(),
            DataType::String => ("string").to_owned(),
            DataType::Time => ("time").to_owned(),
            DataType::Duration => ("duration").to_owned(),
            DataType::LocalMessage(n) => n.clone(),
            DataType::GlobalMessage(p) => p.combined(),
        }
    }

    /// The text this data type contributes to the hashable rendering of a
    /// field. `package` is the package of the message the field stands in,
    /// used to resolve local message references. Fails with
    /// `MessageDependencyMissing` exactly when the referenced message has no
    /// entry in `hashes`.
    pub fn md5_str(&self, package: &str, hashes: &HashTable) -> (r: Result<String>)
        ensures
            match r {
                Ok(s) => spec_md5_str(self@, package@, hashes_view(hashes@)) == Some(s@),
                Err(e) => spec_md5_str(self@, package@, hashes_view(hashes@)) is None && (match e {
                    Error::MessageDependencyMissing { package: ep, name: en } => match self@ {
                        DataTypeV::LocalMessage(n) => ep@ == package@ && en@ == n,
                        DataTypeV::GlobalMessage(p) => ep@ == p.package && en@ == p.name,
                        _ => false,
                    },
                    _ => false,
                }),
            },
    {
        match self {
            DataType::LocalMessage(n) => {
                match find_hash(hashes, package, n.as_str()) {
                    Some(h) => Ok(h.clone()),
                    None => Err(
                        Error::MessageDependencyMissing {
                            package: package.to_owned(),
                            name: n.clone(),
                        },
                    ),
                }
            },
            DataType::GlobalMessage(p) => {
                match find_hash(hashes, p.package(), p.name()) {
                    Some(h) => Ok(h.clone()),
                    None => Err(
                        Error::MessageDependencyMissing {
                            package: p.package().to_owned(),
                            name: p.name().to_owned(),
                        },
                    ),
                }
            },
            _ => Ok(self.to_token()),
        }
    }
}

} // verus!
