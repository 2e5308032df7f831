//! The line grammar of message schema text.
//!
//! Each non-blank line declares one field: `type name`, `type[] name`,
//! `type[N] name`, `type name=literal` for a constant, or
//! `type name literal` for a defaulted field. A `#` outside the literal of a
//! string constant starts a comment that runs to the end of the line.

use vstd::prelude::*;
use vstd::string::StrSliceExecFns;
use vstd::string::StringExecFns;

use crate::data_type::{spec_parse_datatype, DataTypeParse};
use crate::error::{Error, Result};
use crate::field_info::{
    fields_view, lemma_fields_view, spec_evaluate, FieldCase, FieldCaseV, FieldInfo, FieldV,
};
use crate::text::{
    all_digits, digits_value, find_char, find_char_str, is_digit, is_identifier,
    is_identifier_str, is_letter, lemma_find_char, parse_u64, split_lines, split_lines_spec,
    str_eq, tokens_of, tokenize, trim_chars, trim_str,
};

verus! {

/// A character allowed in a type token: letters, digits, underscores and the
/// slash of a `package/Name` reference.
pub open spec fn is_type_char(c: char) -> bool {
    is_letter(c) || is_digit(c) || c == '_' || c == '/'
}

/// A plausible type token: nonempty, of type characters only.
pub open spec fn is_type_token(s: Seq<char>) -> bool {
    s.len() > 0 && forall|i: int| 0 <= i < s.len() ==> is_type_char(#[trigger] s[i])
}

/// Runtime check of [`is_type_token`].
fn is_type_token_str(s: &str) -> (r: bool)
    ensures
        r == is_type_token(s@),
{
    let n = s.unicode_len();
    if n == 0 {
        return false;
    }
    let mut i: usize = 0;
    while i < n
        invariant
            0 <= i <= n,
            n == s@.len(),
            forall|j: int| 0 <= j < i ==> is_type_char(#[trigger] s@[j]),
        decreases n - i,
    {
        let c = s.get_char(i);
        let cu = c as u32;
        if !(97 <= cu && cu <= 122 || 65 <= cu && cu <= 90 || 48 <= cu && cu <= 57 || c == '_'
            || c == '/') {
            return false;
        }
        i = i + 1;
    }
    true
}

/// How the array suffix of a type token reads: `base[]` is a vector,
/// `base[N]` a fixed-length array, a token without brackets a single value.
/// Anything else is no field type at all.
pub open spec fn spec_array_suffix(tok: Seq<char>) -> Option<(Seq<char>, FieldCaseV)> {
    let lb = find_char(tok, '[');
    if lb == tok.len() {
        if find_char(tok, ']') == tok.len() {
            Some((tok, FieldCaseV::Unit))
        } else {
            None
        }
    } else if tok.len() >= 2 && lb <= tok.len() - 2 && tok.last() == ']' {
        let digits = tok.subrange(lb + 1, tok.len() - 1);
        if digits.len() == 0 {
            Some((tok.take(lb), FieldCaseV::Vector))
        } else if all_digits(digits) && digits_value(digits) <= usize::MAX {
            Some((tok.take(lb), FieldCaseV::Array(digits_value(digits) as usize)))
        } else {
            None
        }
    } else {
        None
    }
}

/// Splits the array suffix off a type token.
#[verifier::loop_isolation(false)]
fn split_array_suffix(tok: &str) -> (r: Option<(String, FieldCase)>)
    ensures
        match r {
            Some((base, case)) => spec_array_suffix(tok@) == Some((base@, case@)),
            None => spec_array_suffix(tok@) is None,
        },
{
    let n = tok.unicode_len();
    let lb = find_char_str(tok, '[');
    proof {
        lemma_find_char(tok@, '[');
    }
    if lb == n {
        if find_char_str(tok, ']') == n {
            let owned = tok.to_owned();
            proof {
                assert(spec_array_suffix(tok@) == Some((owned@, FieldCaseV::Unit)));
            }
            Some((owned, FieldCase::Unit))
        } else {
            None
        }
    } else if n >= 2 && lb <= n - 2 && tok.get_char(n - 1) == ']' {
        let base = tok.substring_char(0, lb);
        proof {
            assert(base@ =~= tok@.take(lb as int));
        }
        if lb + 1 == n - 1 {
            let owned = base.to_owned();
            proof {
                assert(tok@.subrange(lb + 1, n - 1).len() == 0);
                assert(spec_array_suffix(tok@) == Some((owned@, FieldCaseV::Vector)));
            }
            Some((owned, FieldCase::Vector))
        } else {
            let digits = tok.substring_char(lb + 1, n - 1);
            proof {
                assert(digits@ =~= tok@.subrange(lb + 1, n - 1));
            }
            let dn = digits.unicode_len();
            let mut i: usize = 0;
            while i < dn
                invariant
                    0 <= i <= dn,
                    dn == digits@.len(),
                    forall|j: int| 0 <= j < i ==> is_digit(#[trigger] digits@[j]),
                decreases dn - i,
            {
                let c = digits.get_char(i);
                if !(48 <= c as u32 && c as u32 <= 57) {
                    return None;
                }
                i = i + 1;
            }
            match parse_u64(digits) {
                Some(v) => {
                    proof {
                        assert(is_digit(digits@[0]));
                        assert(digits@[0] != '+');
                        assert(crate::text::unsigned_digits(digits@) == digits@);
                        crate::text::lemma_digits_value_nonneg(digits@);
                    }
                    if v <= usize::MAX as u64 {
                        let owned = base.to_owned();
                        proof {
                            assert(spec_array_suffix(tok@) == Some((
                                owned@,
                                FieldCaseV::Array(v as usize),
                            )));
                        }
                        Some((owned, FieldCase::Array(v as usize)))
                    } else {
                        None
                    }
                },
                None => {
                    proof {
                        assert(crate::text::unsigned_digits(digits@) == digits@);
                        assert(digits_value(digits@) > u64::MAX);
                        assert(usize::MAX <= u64::MAX);
                    }
                    None
                },
            }
        }
    } else {
        None
    }
}

/// How one schema line reads: nothing, a field declaration, or a malformed
/// line.
pub enum LineShape {
    /// Blank, or a comment only.
    Blank,
    /// A field: its type token, its name and its case.
    Field { token: Seq<char>, name: Seq<char>, case: FieldCaseV },
    /// None of the above.
    Malformed,
}

/// Whether a prefix (the text before a `=`) declares a string constant:
/// exactly the tokens `string` and a field name.
pub open spec fn is_string_const_prefix(pre: Seq<char>) -> bool {
    let toks = tokens_of(pre);
    toks.len() == 2 && toks[0] == "string"@ && is_identifier(toks[1])
}

/// The shape of one line. A string constant keeps everything after the `=`
/// (whitespace trimmed) as its literal, a `#` in it included; on every other
/// line a `#` starts a comment. After comment stripping, a line with a `=`
/// declares a constant, three tokens declare a defaulted field, two declare
/// a plain field whose type token carries the array suffix.
pub open spec fn spec_line_shape(line: Seq<char>) -> LineShape {
    let eq = find_char(line, '=');
    let hash = find_char(line, '#');
    if eq < hash && is_string_const_prefix(line.take(eq)) {
        LineShape::Field {
            token: "string"@,
            name: tokens_of(line.take(eq))[1],
            case: FieldCaseV::Const(trim_chars(line.skip(eq + 1))),
        }
    } else {
        let stripped = trim_chars(line.take(hash));
        if stripped.len() == 0 {
            LineShape::Blank
        } else {
            let eq2 = find_char(stripped, '=');
            if eq2 < stripped.len() {
                let toks = tokens_of(stripped.take(eq2));
                if toks.len() == 2 && is_type_token(toks[0]) && is_identifier(toks[1]) {
                    LineShape::Field {
                        token: toks[0],
                        name: toks[1],
                        case: FieldCaseV::Const(trim_chars(stripped.skip(eq2 + 1))),
                    }
                } else {
                    LineShape::Malformed
                }
            } else {
                let toks = tokens_of(stripped);
                if toks.len() == 2 && is_identifier(toks[1]) {
                    match spec_array_suffix(toks[0]) {
                        Some((base, case)) => if is_type_token(base) {
                            LineShape::Field { token: base, name: toks[1], case }
                        } else {
                            LineShape::Malformed
                        },
                        None => LineShape::Malformed,
                    }
                } else if toks.len() == 3 && is_type_token(toks[0]) && is_identifier(toks[1]) {
                    LineShape::Field {
                        token: toks[0],
                        name: toks[1],
                        case: FieldCaseV::Default(toks[2]),
                    }
                } else {
                    LineShape::Malformed
                }
            }
        }
    }
}

/// What one line contributes to a message: nothing, a field, or one of the
/// parser's failures.
pub enum LineOutcome {
    /// Nothing: the line is blank or a comment.
    Skip,
    /// One parsed field.
    Field(FieldV),
    /// The line fits no rule of the grammar.
    BadContent,
    /// The line names a message reference with an invalid package.
    BadPath,
    /// The line names no known data type.
    UnsupportedType,
    /// The line's constant or default literal does not parse under its type.
    BadLiteral,
}

/// The outcome of one line: its shape, then the type token, then the
/// literal.
pub open spec fn spec_line_outcome(line: Seq<char>) -> LineOutcome {
    match spec_line_shape(line) {
        LineShape::Blank => LineOutcome::Skip,
        LineShape::Malformed => LineOutcome::BadContent,
        LineShape::Field { token, name, case } => match spec_parse_datatype(token) {
            DataTypeParse::BadPath => LineOutcome::BadPath,
            DataTypeParse::Unsupported => LineOutcome::UnsupportedType,
            DataTypeParse::Parsed(dt) => match spec_evaluate(dt, name, case) {
                Some(f) => LineOutcome::Field(f),
                None => LineOutcome::BadLiteral,
            },
        },
    }
}

/// One parsed line at runtime.
enum ParsedLine {
    Skip,
    Field(FieldInfo),
}

/// Reads one schema line.
fn parse_line(line: &str) -> (r: Result<ParsedLine>)
    ensures
        match spec_line_outcome(line@) {
            LineOutcome::Skip => r is Ok && r->Ok_0 is Skip,
            LineOutcome::Field(f) => r is Ok && r->Ok_0 is Field && r->Ok_0->Field_0@ == f,
            LineOutcome::BadContent => r is Err && r->Err_0 is BadMessageContent,
            LineOutcome::BadPath => r is Err && r->Err_0 is InvalidMessagePath,
            LineOutcome::UnsupportedType => r is Err && r->Err_0 is UnsupportedDataType,
            LineOutcome::BadLiteral => r is Err && r->Err_0 is BadConstant,
        },
{
    let n = line.unicode_len();
    let eq = find_char_str(line, '=');
    let hash = find_char_str(line, '#');
    proof {
        lemma_find_char(line@, '=');
        lemma_find_char(line@, '#');
    }
    if eq < hash {
        let pre = line.substring_char(0, eq);
        proof {
            assert(pre@ =~= line@.take(eq as int));
        }
        let toks = tokenize(pre);
        proof {
            assert(toks@.map_values(|x: String| x@) == tokens_of(pre@));
        }
        if toks.len() == 2 && str_eq(toks[0].as_str(), "string") && is_identifier_str(
            toks[1].as_str(),
        ) {
            proof {
                assert(tokens_of(pre@)[0] == toks@[0]@);
                assert(tokens_of(pre@)[1] == toks@[1]@);
            }
            let rest = line.substring_char(eq + 1, n);
            proof {
                assert(rest@ =~= line@.skip(eq + 1));
            }
            let literal = trim_str(rest);
            let field = match FieldInfo::new(
                toks[0].as_str(),
                toks[1].as_str(),
                FieldCase::Const(literal),
            ) {
                Ok(f) => f,
                Err(e) => {
                    return Err(e);
                },
            };
            return Ok(ParsedLine::Field(field));
        }
        proof {
            assert(!is_string_const_prefix(line@.take(eq as int)));
        }
        parse_stripped_line(line, hash)
    } else {
        parse_stripped_line(line, hash)
    }
}

/// Reads a line that is no string constant, from its comment-stripped form.
fn parse_stripped_line(line: &str, hash: usize) -> (r: Result<ParsedLine>)
    requires
        hash == find_char(line@, '#'),
        hash <= line@.len(),
        match spec_line_shape(line@) {
            LineShape::Field { token, .. } => token != "string"@ || find_char(line@, '=')
                >= find_char(line@, '#') || !is_string_const_prefix(
                line@.take(find_char(line@, '=')),
            ),
            _ => true,
        },
        !(find_char(line@, '=') < find_char(line@, '#') && is_string_const_prefix(
            line@.take(find_char(line@, '=')),
        )),
    ensures
        match spec_line_outcome(line@) {
            LineOutcome::Skip => r is Ok && r->Ok_0 is Skip,
            LineOutcome::Field(f) => r is Ok && r->Ok_0 is Field && r->Ok_0->Field_0@ == f,
            LineOutcome::BadContent => r is Err && r->Err_0 is BadMessageContent,
            LineOutcome::BadPath => r is Err && r->Err_0 is InvalidMessagePath,
            LineOutcome::UnsupportedType => r is Err && r->Err_0 is UnsupportedDataType,
            LineOutcome::BadLiteral => r is Err && r->Err_0 is BadConstant,
        },
{
    let pre = line.substring_char(0, hash);
    proof {
        assert(pre@ =~= line@.take(hash as int));
    }
    let stripped = trim_str(pre);
    let sn = stripped.unicode_len();
    if sn == 0 {
        return Ok(ParsedLine::Skip);
    }
    let eq2 = find_char_str(stripped.as_str(), '=');
    proof {
        lemma_find_char(stripped@, '=');
    }
    if eq2 < sn {
        let head = stripped.as_str().substring_char(0, eq2);
        proof {
            assert(head@ =~= stripped@.take(eq2 as int));
        }
        let toks = tokenize(head);
        if !(toks.len() == 2 && is_type_token_str(toks[0].as_str()) && is_identifier_str(
            toks[1].as_str(),
        )) {
            return Err(bad_line(line));
        }
        proof {
            assert(tokens_of(head@)[0] == toks@[0]@);
            assert(tokens_of(head@)[1] == toks@[1]@);
        }
        let rest = stripped.as_str().substring_char(eq2 + 1, sn);
        proof {
            assert(rest@ =~= stripped@.skip(eq2 + 1));
        }
        let literal = trim_str(rest);
        match FieldInfo::new(toks[0].as_str(), toks[1].as_str(), FieldCase::Const(literal)) {
            Ok(f) => Ok(ParsedLine::Field(f)),
            Err(e) => Err(e),
        }
    } else {
        let toks = tokenize(stripped.as_str());
        if toks.len() == 2 && is_identifier_str(toks[1].as_str()) {
            proof {
                assert(tokens_of(stripped@)[0] == toks@[0]@);
                assert(tokens_of(stripped@)[1] == toks@[1]@);
            }
            let (base, case) = match split_array_suffix(toks[0].as_str()) {
                Some(p) => p,
                None => {
                    return Err(bad_line(line));
                },
            };
            if !is_type_token_str(base.as_str()) {
                return Err(bad_line(line));
            }
            match FieldInfo::new(base.as_str(), toks[1].as_str(), case) {
                Ok(f) => Ok(ParsedLine::Field(f)),
                Err(e) => Err(e),
            }
        } else if toks.len() == 3 && is_type_token_str(toks[0].as_str()) && is_identifier_str(
            toks[1].as_str(),
        ) {
            proof {
                assert(tokens_of(stripped@)[0] == toks@[0]@);
                assert(tokens_of(stripped@)[1] == toks@[1]@);
                assert(tokens_of(stripped@)[2] == toks@[2]@);
            }
            let literal = toks[2].clone();
            match FieldInfo::new(
                toks[0].as_str(),
                toks[1].as_str(),
                FieldCase::Default(literal),
            ) {
                Ok(f) => Ok(ParsedLine::Field(f)),
                Err(e) => Err(e),
            }
        } else {
            Err(bad_line(line))
        }
    }
}

/// The parser's complaint about one line.
fn bad_line(line: &str) -> (r: Error)
    ensures
        r is BadMessageContent,
{
    let mut msg = ("field line does not match the grammar: `").to_owned();
    msg.append(line);
    msg.append("`");
    Error::BadMessageContent(msg)
}

/// What a sequence of lines, read from position `i` on, contributes to a
/// message.
pub enum LinesR {
    /// Every line read; these fields in order.
    Fields(Seq<FieldV>),
    /// Reading stopped at the first offending line, with this outcome.
    Failed(LineOutcome),
}

/// Reads lines from `i` on, collecting fields until the first failure.
pub open spec fn spec_match_from(lines: Seq<Seq<char>>, i: int) -> LinesR
    decreases lines.len() - i,
{
    if i < 0 || i >= lines.len() {
        LinesR::Fields(Seq::empty())
    } else {
        match spec_line_outcome(lines[i]) {
            LineOutcome::Skip => spec_match_from(lines, i + 1),
            LineOutcome::Field(f) => match spec_match_from(lines, i + 1) {
                LinesR::Fields(fs) => LinesR::Fields(seq![f] + fs),
                LinesR::Failed(k) => LinesR::Failed(k),
            },
            k => LinesR::Failed(k),
        }
    }
}

/// What a whole schema text parses to: its lines read in order.
pub open spec fn spec_match_lines(src: Seq<char>) -> LinesR {
    spec_match_from(split_lines_spec(src), 0)
}

/// Reads schema text into its fields, in line order.
pub fn match_lines(src: &str) -> (r: Result<Vec<FieldInfo>>)
    ensures
        match r {
            Ok(fields) => spec_match_lines(src@) == LinesR::Fields(fields_view(fields@)),
            Err(e) => spec_match_lines(src@) is Failed && (match spec_match_lines(
                src@,
            )->Failed_0 {
                LineOutcome::BadContent => e is BadMessageContent,
                LineOutcome::BadPath => e is InvalidMessagePath,
                LineOutcome::UnsupportedType => e is UnsupportedDataType,
                LineOutcome::BadLiteral => e is BadConstant,
                _ => false,
            }),
        },
{
    let lines = split_lines(src);
    let ghost lv = split_lines_spec(src@);
    let n = lines.len();
    let mut fields: Vec<FieldInfo> = Vec::new();
    let mut i: usize = 0;
    proof {
        assert(lines@.map_values(|x: String| x@).len() == n);
    }
    while i < n
        invariant
            0 <= i <= n,
            n == lines@.len(),
            lv == split_lines_spec(src@),
            lv == lines@.map_values(|x: String| x@),
            lv.len() == n,
            spec_match_from(lv, 0) == (match spec_match_from(lv, i as int) {
                LinesR::Fields(fs) => LinesR::Fields(fields_view(fields@) + fs),
                LinesR::Failed(k) => LinesR::Failed(k),
            }),
        decreases n - i,
    {
        proof {
            assert(lv[i as int] == lines@[i as int]@);
        }
        match parse_line(lines[i].as_str()) {
            Ok(ParsedLine::Skip) => {
            },
            Ok(ParsedLine::Field(f)) => {
                proof {
                    lemma_fields_view(fields@);
                    lemma_fields_view(fields@.push(f));
                    assert forall|k: int|
                        0 <= k < fields@.push(f).len() implies fields_view(fields@.push(f))[k]
                        == fields@.push(f)[k]@ by {}
                    match spec_match_from(lv, i + 1) {
                        LinesR::Fields(fs) => {
                            assert(fields_view(fields@.push(f)) + fs =~= fields_view(fields@) + (
                            seq![f@] + fs));
                        },
                        LinesR::Failed(_) => {
                        },
                    }
                }
                fields.push(f);
            },
            Err(e) => {
                return Err(e);
            },
        }
        i = i + 1;
    }
    proof {
        lemma_fields_view(fields@);
        assert(fields_view(fields@) + Seq::<FieldV>::empty() =~= fields_view(fields@));
    }
    Ok(fields)
}

} // verus!
