use vstd::prelude::*;
use vstd::string::StrSliceExecFns;
use vstd::string::StringExecFns;

use crate::data_type::{
    hashes_view, spec_is_builtin, spec_md5_str, spec_parse_datatype, token_chars, DataType,
    DataTypeParse, DataTypeV, HashTable,
};
use crate::error::{Error, Result};
use crate::text::{dec_chars, parse_i64, parse_u64, spec_parse_i64, spec_parse_u64, str_eq,
    usize_to_string};
use crate::value::{Value, ValueV};

verus! {

/// The mathematical content of a [`FieldCase`].
pub enum FieldCaseV {
    Unit,
    Vector,
    Array(usize),
    Const(Seq<char>),
    Default(Seq<char>),
}

/// The cardinality of a message field.
#[derive(Debug)]
pub enum FieldCase {
    /// Field of a single item, such as `float32 x`.
    Unit,
    /// Field of an arbitrary length array, such as `float32[] xs`.
    Vector,
    /// Field of a fixed length array, such as `float32[64] xs`. The contained
    /// number is the array length.
    Array(usize),
    /// Field describing a constant value, such as `int32 FOO=123`. The
    /// contained string is the unparsed value.
    Const(String),
    /// Field of a single item with a default, such as `int32 foo 123`. The
    /// contained string is the unparsed value.
    Default(String),
}

impl View for FieldCase {
    type V = FieldCaseV;

    open spec fn view(&self) -> FieldCaseV {
        match self {
            FieldCase::Unit => FieldCaseV::Unit,
            FieldCase::Vector => FieldCaseV::Vector,
            FieldCase::Array(l) => FieldCaseV::Array(*l),
            FieldCase::Const(v) => FieldCaseV::Const(v@),
            FieldCase::Default(v) => FieldCaseV::Default(v@),
        }
    }
}

impl Clone for FieldCase {
    fn clone(&self) -> (r: Self)
        ensures
            r@ == self@,
    {
        match self {
            FieldCase::Unit => FieldCase::Unit,
            FieldCase::Vector => FieldCase::Vector,
            FieldCase::Array(l) => FieldCase::Array(*l),
            FieldCase::Const(v) => FieldCase::Const(v.clone()),
            FieldCase::Default(v) => FieldCase::Default(v.clone()),
        }
    }
}

/// What a constant or default literal parses to under a data type, or
/// nothing when the literal does not parse. A `bool` literal is `true`
/// exactly when it is not `0`; integers follow their type's range; a string
/// literal is taken as it stands. Floating-point, time, duration and message
/// typed constants are not supported.
pub open spec fn spec_parse_const(dt: DataTypeV, raw: Seq<char>) -> Option<ValueV> {
    match dt {
        DataTypeV::Bool => Some(ValueV::Bool(raw != "0"@)),
        DataTypeV::I8(_) => match spec_parse_i64(raw) {
            Some(v) => if i8::MIN <= v <= i8::MAX {
                Some(ValueV::I8(v as i8))
            } else {
                None
            },
            None => None,
        },
        DataTypeV::I16 => match spec_parse_i64(raw) {
            Some(v) => if i16::MIN <= v <= i16::MAX {
                Some(ValueV::I16(v as i16))
            } else {
                None
            },
            None => None,
        },
        DataTypeV::I32 => match spec_parse_i64(raw) {
            Some(v) => if i32::MIN <= v <= i32::MAX {
                Some(ValueV::I32(v as i32))
            } else {
                None
            },
            None => None,
        },
        DataTypeV::I64 => match spec_parse_i64(raw) {
            Some(v) => Some(ValueV::I64(v)),
            None => None,
        },
        DataTypeV::U8(_) => match spec_parse_u64(raw) {
            Some(v) => if v <= u8::MAX {
                Some(ValueV::U8(v as u8))
            } else {
                None
            },
            None => None,
        },
        DataTypeV::U16 => match spec_parse_u64(raw) {
            Some(v) => if v <= u16::MAX {
                Some(ValueV::U16(v as u16))
            } else {
                None
            },
            None => None,
        },
        DataTypeV::U32 => match spec_parse_u64(raw) {
            Some(v) => if v <= u32::MAX {
                Some(ValueV::U32(v as u32))
            } else {
                None
            },
            None => None,
        },
        DataTypeV::U64 => match spec_parse_u64(raw) {
            Some(v) => Some(ValueV::U64(v)),
            None => None,
        },
        DataTypeV::String => Some(ValueV::String(raw)),
        _ => None,
    }
}

/// Parses a constant or default literal under a data type.
fn parse_const(dt: &DataType, raw: &str) -> (r: Option<Value>)
    ensures
        match r {
            Some(v) => spec_parse_const(dt@, raw@) == Some(v@),
            None => spec_parse_const(dt@, raw@) is None,
        },
{
    match dt {
        DataType::Bool => Some(Value::Bool(!str_eq(raw, "0"))),
        DataType::I8(_) => match parse_i64(raw) {
            Some(v) => if i8::MIN as i64 <= v && v <= i8::MAX as i64 {
                Some(Value::I8(v as i8))
            } else {
                None
            },
            None => None,
        },
        DataType::I16 => match parse_i64(raw) {
            Some(v) => if i16::MIN as i64 <= v && v <= i16::MAX as i64 {
                Some(Value::I16(v as i16))
            } else {
                None
            },
            None => None,
        },
        DataType::I32 => match parse_i64(raw) {
            Some(v) => if i32::MIN as i64 <= v && v <= i32::MAX as i64 {
                Some(Value::I32(v as i32))
            } else {
                None
            },
            None => None,
        },
        DataType::I64 => match parse_i64(raw) {
            Some(v) => Some(Value::I64(v)),
            None => None,
        },
        DataType::U8(_) => match parse_u64(raw) {
            Some(v) => if v <= u8::MAX as u64 {
                Some(Value::U8(v as u8))
            } else {
                None
            },
            None => None,
        },
        DataType::U16 => match parse_u64(raw) {
            Some(v) => if v <= u16::MAX as u64 {
                Some(Value::U16(v as u16))
            } else {
                None
            },
            None => None,
        },
        DataType::U32 => match parse_u64(raw) {
            Some(v) => if v <= u32::MAX as u64 {
                Some(Value::U32(v as u32))
            } else {
                None
            },
            None => None,
        },
        DataType::U64 => match parse_u64(raw) {
            Some(v) => Some(Value::U64(v)),
            None => None,
        },
        DataType::String => Some(Value::String(raw.to_owned())),
        _ => None,
    }
}

/// The mathematical content of a [`FieldInfo`].
pub struct FieldV {
    pub datatype: DataTypeV,
    pub name: Seq<char>,
    pub case: FieldCaseV,
    pub const_value: Option<ValueV>,
    pub default_value: Option<ValueV>,
}

/// Full description of one field of a message.
#[derive(Debug)]
pub struct FieldInfo {
    datatype: DataType,
    name: String,
    case: FieldCase,
    const_value: Option<Value>,
    default_value: Option<Value>,
}

impl View for FieldInfo {
    type V = FieldV;

    closed spec fn view(&self) -> FieldV {
        FieldV {
            datatype: self.datatype@,
            name: self.name@,
            case: self.case@,
            const_value: match self.const_value {
                Some(v) => Some(v@),
                None => None,
            },
            default_value: match self.default_value {
                Some(v) => Some(v@),
                None => None,
            },
        }
    }
}

/// The field that a data type, a name and a case describe: constant and
/// default literals are parsed eagerly, and a field whose literal does not
/// parse describes nothing.
pub open spec fn spec_evaluate(dt: DataTypeV, name: Seq<char>, case: FieldCaseV) -> Option<
    FieldV,
> {
    match case {
        FieldCaseV::Const(raw) => match spec_parse_const(dt, raw) {
            Some(v) => Some(
                FieldV {
                    datatype: dt,
                    name,
                    case,
                    const_value: Some(v),
                    default_value: None,
                },
            ),
            None => None,
        },
        FieldCaseV::Default(raw) => match spec_parse_const(dt, raw) {
            Some(v) => Some(
                FieldV {
                    datatype: dt,
                    name,
                    case,
                    const_value: None,
                    default_value: Some(v),
                },
            ),
            None => None,
        },
        _ => Some(FieldV { datatype: dt, name, case, const_value: None, default_value: None }),
    }
}

impl FieldInfo {
    /// Builds a field from an already parsed data type. Fails with
    /// `BadConstant` exactly when a constant or default literal does not
    /// parse under the data type.
    pub fn evaluate(datatype: DataType, name: String, case: FieldCase) -> (r: Result<FieldInfo>)
        ensures
            match r {
                Ok(f) => spec_evaluate(datatype@, name@, case@) == Some(f@),
                Err(e) => spec_evaluate(datatype@, name@, case@) is None && e is BadConstant,
            },
    {
        let const_value: Option<Value> = match &case {
            FieldCase::Const(raw) => match parse_const(&datatype, raw.as_str()) {
                Some(v) => Some(v),
                None => {
                    return Err(
                        Error::BadConstant {
                            name,
                            datatype: datatype.to_token(),
                            value: raw.clone(),
                        },
                    );
                },
            },
            _ => None,
        };
        let default_value: Option<Value> = match &case {
            FieldCase::Default(raw) => match parse_const(&datatype, raw.as_str()) {
                Some(v) => Some(v),
                None => {
                    return Err(
                        Error::BadConstant {
                            name,
                            datatype: datatype.to_token(),
                            value: raw.clone(),
                        },
                    );
                },
            },
            _ => None,
        };
        Ok(FieldInfo { datatype, name, case, const_value, default_value })
    }

    /// Builds a field from a textual type token, a name and a case.
    pub fn new(datatype: &str, name: &str, case: FieldCase) -> (r: Result<FieldInfo>)
        ensures
            match spec_parse_datatype(datatype@) {
                DataTypeParse::Parsed(dt) => match r {
                    Ok(f) => spec_evaluate(dt, name@, case@) == Some(f@),
                    Err(e) => spec_evaluate(dt, name@, case@) is None && e is BadConstant,
                },
                DataTypeParse::BadPath => r is Err && r->Err_0 is InvalidMessagePath,
                DataTypeParse::Unsupported => r is Err && r->Err_0 is UnsupportedDataType,
            },
    {
        let dt = match DataType::parse(datatype) {
            Ok(dt) => dt,
            Err(e) => {
                return Err(e);
            },
        };
        Self::evaluate(dt, name.to_owned(), case)
    }

    /// The data type of the field.
    pub fn datatype(&self) -> (r: &DataType)
        ensures
            r@ == self@.datatype,
    {
        &self.datatype
    }

    /// The name of the field.
    pub fn name(&self) -> (r: &str)
        ensures
            r@ == self@.name,
    {
        self.name.as_str()
    }

    /// The case of the field.
    pub fn case(&self) -> (r: &FieldCase)
        ensures
            r@ == self@.case,
    {
        &self.case
    }

    /// The stored value of a constant field.
    pub fn const_value(&self) -> (r: Option<&Value>)
        ensures
            match r {
                Some(v) => self@.const_value == Some(v@),
                None => self@.const_value is None,
            },
    {
        match &self.const_value {
            Some(v) => Some(v),
            None => None,
        }
    }

    /// The stored value of a defaulted field.
    pub fn default_value(&self) -> (r: Option<&Value>)
        ensures
            match r {
                Some(v) => self@.default_value == Some(v@),
                None => self@.default_value is None,
            },
    {
        match &self.default_value {
            Some(v) => Some(v),
            None => None,
        }
    }

    /// True when the field describes a constant.
    pub fn is_constant(&self) -> (r: bool)
        ensures
            r == (self@.case is Const),
    {
        match self.case {
            FieldCase::Const(_) => true,
            _ => false,
        }
    }

    /// The line this field contributes to the hashable rendering of its
    /// message. `package` is the package of the message the field stands in.
    /// Fails with `MessageDependencyMissing` exactly when the field
    /// references a message whose hash is absent from `hashes`.
    pub fn md5_string(&self, package: &str, hashes: &HashTable) -> (r: Result<String>)
        ensures
            match r {
                Ok(s) => spec_md5_string(self@, package@, hashes_view(hashes@)) == Some(s@),
                Err(e) => spec_md5_string(self@, package@, hashes_view(hashes@)) is None
                    && e is MessageDependencyMissing,
            },
    {
        let dt = match self.datatype.md5_str(package, hashes) {
            Ok(s) => s,
            Err(e) => {
                return Err(e);
            },
        };
        let builtin = self.datatype.is_builtin();
        let mut out = dt;
        match &self.case {
            FieldCase::Const(v) => {
                out.append(" ");
                out.append(self.name.as_str());
                out.append("=");
                out.append(v.as_str());
                proof {
                    reveal_strlit(" ");
                    reveal_strlit("=");
                    assert(out@ =~= spec_md5_string(
                        self@,
                        package@,
                        hashes_view(hashes@),
                    )->Some_0);
                }
            },
            FieldCase::Default(v) => {
                out.append(" ");
                out.append(self.name.as_str());
                out.append(" ");
                out.append(v.as_str());
                proof {
                    reveal_strlit(" ");
                    assert(out@ =~= spec_md5_string(
                        self@,
                        package@,
                        hashes_view(hashes@),
                    )->Some_0);
                }
            },
            FieldCase::Vector => {
                if builtin {
                    out.append("[] ");
                    out.append(self.name.as_str());
                    proof {
                        reveal_strlit("[] ");
                        assert(out@ =~= spec_md5_string(
                            self@,
                            package@,
                            hashes_view(hashes@),
                        )->Some_0);
                    }
                } else {
                    out.append(" ");
                    out.append(self.name.as_str());
                    proof {
                        reveal_strlit(" ");
                        assert(out@ =~= spec_md5_string(
                            self@,
                            package@,
                            hashes_view(hashes@),
                        )->Some_0);
                    }
                }
            },
            FieldCase::Array(l) => {
                if builtin {
                    out.append("[");
                    let rendered = usize_to_string(*l);
                    out.append(rendered.as_str());
                    out.append("] ");
                    out.append(self.name.as_str());
                    proof {
                        reveal_strlit("[");
                        reveal_strlit("] ");
                        assert(out@ =~= spec_md5_string(
                            self@,
                            package@,
                            hashes_view(hashes@),
                        )->Some_0);
                    }
                } else {
                    out.append(" ");
                    out.append(self.name.as_str());
                    proof {
                        reveal_strlit(" ");
                        assert(out@ =~= spec_md5_string(
                            self@,
                            package@,
                            hashes_view(hashes@),
                        )->Some_0);
                    }
                }
            },
            FieldCase::Unit => {
                out.append(" ");
                out.append(self.name.as_str());
                proof {
                    reveal_strlit(" ");
                    assert(out@ =~= spec_md5_string(
                        self@,
                        package@,
                        hashes_view(hashes@),
                    )->Some_0);
                }
            },
        }
        Ok(out)
    }

    /// True for the one special header field: a unit field named `header`
    /// whose type is `std_msgs/Header`.
    pub fn is_header(&self) -> (r: bool)
        ensures
            r == spec_is_header(self@),
    {
        let unit = match self.case {
            FieldCase::Unit => true,
            _ => false,
        };
        if !unit {
            return false;
        }
        if !str_eq(self.name.as_str(), "header") {
            return false;
        }
        match &self.datatype {
            DataType::GlobalMessage(p) => {
                str_eq(p.package(), "std_msgs") && str_eq(p.name(), "Header")
            },
            _ => false,
        }
    }
}

/// The views of a sequence of fields, elementwise.
pub open spec fn fields_view(s: Seq<FieldInfo>) -> Seq<FieldV>
    decreases s,
{
    if s.len() == 0 {
        Seq::empty()
    } else {
        seq![s[0]@] + fields_view(s.drop_first())
    }
}

pub proof fn lemma_fields_view(s: Seq<FieldInfo>)
    ensures
        #[trigger] fields_view(s).len() == s.len(),
        forall|i: int| 0 <= i < s.len() ==> fields_view(s)[i] == #[trigger] s[i]@,
    decreases s,
{
    if s.len() > 0 {
        let t = s.drop_first();
        lemma_fields_view(t);
        assert forall|i: int| 0 <= i < s.len() implies fields_view(s)[i] == #[trigger] s[i]@ by {
            if i > 0 {
                assert(t[i - 1] == s[i]);
                assert(fields_view(s)[i] == fields_view(t)[i - 1]);
            }
        }
    }
}

/// The header field: a unit field named `header` of type `std_msgs/Header`.
pub open spec fn spec_is_header(f: FieldV) -> bool {
    &&& f.case is Unit
    &&& f.name == "header"@
    &&& match f.datatype {
        DataTypeV::GlobalMessage(p) => p.package == "std_msgs"@ && p.name == "Header"@,
        _ => false,
    }
}

/// The line a field contributes to the hashable rendering of its message:
/// the type's own text (the dependency hash for message references), then
/// the name, then the literal for constant and default fields. The array
/// suffix is kept for built-in element types only.
pub open spec fn spec_md5_string(
    f: FieldV,
    package: Seq<char>,
    hs: Seq<(crate::message_path::PathView, Seq<char>)>,
) -> Option<Seq<char>> {
    match spec_md5_str(f.datatype, package, hs) {
        None => None,
        Some(dt) => Some(
            match f.case {
                FieldCaseV::Const(v) => dt + seq![' '] + f.name + seq!['='] + v,
                FieldCaseV::Default(v) => dt + seq![' '] + f.name + seq![' '] + v,
                FieldCaseV::Unit => dt + seq![' '] + f.name,
                FieldCaseV::Vector => if spec_is_builtin(f.datatype) {
                    dt + seq!['[', ']', ' '] + f.name
                } else {
                    dt + seq![' '] + f.name
                },
                FieldCaseV::Array(l) => if spec_is_builtin(f.datatype) {
                    dt + seq!['['] + dec_chars(l as int) + seq![']', ' '] + f.name
                } else {
                    dt + seq![' '] + f.name
                },
            },
        ),
    }
}

impl Clone for FieldInfo {
    fn clone(&self) -> (r: Self)
        ensures
            r@ == self@,
    {
        FieldInfo {
            datatype: self.datatype.clone(),
            name: self.name.clone(),
            case: self.case.clone(),
            const_value: match &self.const_value {
                Some(v) => Some(crate::value::clone_value(v)),
                None => None,
            },
            default_value: match &self.default_value {
                Some(v) => Some(crate::value::clone_value(v)),
                None => None,
            },
        }
    }
}

} // verus!
