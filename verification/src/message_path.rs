use vstd::prelude::*;
use vstd::string::StrSliceExecFns;
use vstd::string::StringExecFns;

use crate::error::{Error, Result};
use crate::text::{is_digit, is_lower};

verus! {

/// A character allowed in a package name after the first one.
pub open spec fn is_package_char(c: char) -> bool {
    is_lower(c) || is_digit(c) || c as u32 == 95
}

/// Two underscores in a row somewhere in the sequence.
pub open spec fn has_consecutive_underscores(s: Seq<char>) -> bool {
    exists|i: int| 0 <= i && i + 1 < s.len() && s[i] as u32 == 95 && #[trigger] s[i + 1] as u32
        == 95
}

/// The package naming rule: at least two characters, starting with a
/// lowercase letter, then lowercase letters, digits or underscores, and
/// never two underscores in a row.
pub open spec fn valid_package_name(s: Seq<char>) -> bool {
    &&& s.len() >= 2
    &&& is_lower(s[0])
    &&& forall|i: int| 1 <= i < s.len() ==> is_package_char(#[trigger] s[i])
    &&& !has_consecutive_underscores(s)
}

/// Checks a package name against the package naming rule.
pub fn is_valid_package_name(package: &str) -> (r: bool)
    ensures
        r == valid_package_name(package@),
{
    let n = package.unicode_len();
    if n < 2 {
        return false;
    }
    let first = package.get_char(0);
    if !(97 <= first as u32 && first as u32 <= 122) {
        return false;
    }
    let mut i: usize = 1;
    while i < n
        invariant
            1 <= i <= n,
            n == package@.len(),
            forall|j: int| 1 <= j < i ==> is_package_char(#[trigger] package@[j]),
            forall|j: int| 0 <= j && j + 1 < i ==> !(package@[j] as u32 == 95 && #[trigger] package@[j
                + 1] as u32 == 95),
        decreases n - i,
    {
        let c = package.get_char(i);
        let cu = c as u32;
        if !((97 <= cu && cu <= 122) || (48 <= cu && cu <= 57) || cu == 95) {
            return false;
        }
        if cu == 95 && i >= 1 {
            let prev = package.get_char(i - 1);
            if prev as u32 == 95 {
                proof {
                    let j = i - 1;
                    assert(package@[j] as u32 == 95 && package@[j + 1] as u32 == 95);
                }
                return false;
            }
        }
        i = i + 1;
    }
    true
}

/// The mathematical content of a [`MessagePath`]: the package and the
/// message name, as character sequences.
#[verifier::ext_equal]
pub struct PathView {
    pub package: Seq<char>,
    pub name: Seq<char>,
}

/// Path to a message, `<package>/<name>`, with the package checked against
/// the naming conventions.
#[derive(Debug)]
pub struct MessagePath {
    package: String,
    name: String,
}

impl View for MessagePath {
    type V = PathView;

    closed spec fn view(&self) -> PathView {
        PathView { package: self.package@, name: self.name@ }
    }
}

impl Clone for MessagePath {
    fn clone(&self) -> (r: Self)
        ensures
            r@ == self@,
    {
        MessagePath { package: self.package.clone(), name: self.name.clone() }
    }
}

impl PartialEq for MessagePath {
    fn eq(&self, other: &Self) -> (r: bool)
        ensures
            r == (self@ == other@),
    {
        let r = self.package == other.package && self.name == other.name;
        if r {
            assert(self@ =~= other@);
        }
        r
    }
}

impl Eq for MessagePath {

}

impl vstd::std_specs::cmp::PartialEqSpecImpl for MessagePath {
    open spec fn obeys_eq_spec() -> bool {
        true
    }

    open spec fn eq_spec(&self, other: &Self) -> bool {
        self@ == other@
    }
}

/// How a combined path reads.
pub enum CombinedParse {
    /// `package/name`, or `package/msg/name`, with a valid package.
    Path { package: Seq<char>, name: Seq<char> },
    /// Anything else, a `package/srv/name` service path included.
    Invalid,
}

/// The grammar of a combined path: `package/name` or `package/msg/name`,
/// where the package obeys the naming rule. The name keeps any further
/// slashes.
pub open spec fn spec_from_combined(s: Seq<char>) -> CombinedParse {
    let i1 = crate::text::find_char(s, '/');
    if i1 == s.len() {
        CombinedParse::Invalid
    } else {
        let p1 = s.take(i1);
        let rest = s.skip(i1 + 1);
        let i2 = crate::text::find_char(rest, '/');
        if i2 == rest.len() {
            if valid_package_name(p1) {
                CombinedParse::Path { package: p1, name: rest }
            } else {
                CombinedParse::Invalid
            }
        } else {
            let mid = rest.take(i2);
            let tail = rest.skip(i2 + 1);
            if mid == "msg"@ && valid_package_name(p1) {
                CombinedParse::Path { package: p1, name: tail }
            } else {
                CombinedParse::Invalid
            }
        }
    }
}

/// The views of a sequence of paths, elementwise.
pub open spec fn paths_view(s: Seq<MessagePath>) -> Seq<PathView>
    decreases s,
{
    if s.len() == 0 {
        Seq::empty()
    } else {
        seq![s[0]@] + paths_view(s.drop_first())
    }
}

pub proof fn lemma_paths_view(s: Seq<MessagePath>)
    ensures
        #[trigger] paths_view(s).len() == s.len(),
        forall|i: int| 0 <= i < s.len() ==> paths_view(s)[i] == #[trigger] s[i]@,
    decreases s,
{
    if s.len() > 0 {
        let t = s.drop_first();
        lemma_paths_view(t);
        assert forall|i: int| 0 <= i < s.len() implies paths_view(s)[i] == #[trigger] s[i]@ by {
            if i > 0 {
                assert(t[i - 1] == s[i]);
                assert(paths_view(s)[i] == paths_view(t)[i - 1]);
            }
        }
    }
}

impl MessagePath {
    /// A path is well formed when its package obeys the naming rule.
    pub open spec fn wf(&self) -> bool {
        valid_package_name(self@.package)
    }

    /// Create a full message path, with naming rules checked.
    ///
    /// Returns `InvalidMessagePath` exactly when the package breaks the
    /// naming rule.
    pub fn new(package: &str, name: &str) -> (r: Result<Self>)
        ensures
            match r {
                Ok(p) => p@.package == package@ && p@.name == name@ && valid_package_name(
                    package@,
                ),
                Err(e) => !valid_package_name(package@) && e is InvalidMessagePath,
            },
    {
        if !is_valid_package_name(package) {
            let mut full = package.to_owned();
            full.append("/");
            full.append(name);
            return Err(
                Error::InvalidMessagePath {
                    name: full,
                    reason: (
                    "package names start with a lowercase letter and use only lowercase letters, digits and single underscores").to_owned(),
                },
            );
        }
        Ok(MessagePath { package: package.to_owned(), name: name.to_owned() })
    }

    /// Create a new message path inside the same package.
    ///
    /// Prevents the need for re-checking of package names.
    pub fn peer(&self, name: &str) -> (r: Self)
        ensures
            r@.package == self@.package,
            r@.name == name@,
    {
        MessagePath { package: self.package.clone(), name: name.to_owned() }
    }

    /// Package that the message is located in.
    pub fn package(&self) -> (r: &str)
        ensures
            r@ == self@.package,
    {
        self.package.as_str()
    }

    /// Name of the message inside the package.
    pub fn name(&self) -> (r: &str)
        ensures
            r@ == self@.name,
    {
        self.name.as_str()
    }

    /// Reads a combined path: `package/name`, or `package/msg/name` as it
    /// appears in schema declarations. A `package/srv/name` service path and
    /// any other shape are rejected.
    pub fn from_combined(input: &str) -> (r: Result<Self>)
        ensures
            match spec_from_combined(input@) {
                CombinedParse::Path { package, name } => r is Ok && r->Ok_0@ == (PathView {
                    package,
                    name,
                }),
                CombinedParse::Invalid => r is Err && r->Err_0 is InvalidMessagePath,
            },
    {
        let n = input.unicode_len();
        let i1 = crate::text::find_char_str(input, '/');
        proof {
            crate::text::lemma_find_char(input@, '/');
        }
        if i1 == n {
            return Err(
                Error::InvalidMessagePath {
                    name: input.to_owned(),
                    reason: ("a message path has the shape `package/name`").to_owned(),
                },
            );
        }
        let p1 = input.substring_char(0, i1);
        let rest = input.substring_char(i1 + 1, n);
        proof {
            assert(p1@ =~= input@.take(i1 as int));
            assert(rest@ =~= input@.skip(i1 + 1));
        }
        let rn = rest.unicode_len();
        let i2 = crate::text::find_char_str(rest, '/');
        proof {
            crate::text::lemma_find_char(rest@, '/');
        }
        if i2 == rn {
            return Self::new(p1, rest);
        }
        let mid = rest.substring_char(0, i2);
        let tail = rest.substring_char(i2 + 1, rn);
        proof {
            assert(mid@ =~= rest@.take(i2 as int));
            assert(tail@ =~= rest@.skip(i2 + 1));
        }
        if crate::text::str_eq(mid, "msg") {
            Self::new(p1, tail)
        } else {
            Err(
                Error::InvalidMessagePath {
                    name: input.to_owned(),
                    reason: (
                    "a message path has the shape `package/name` or `package/msg/name`").to_owned(),
                },
            )
        }
    }

    /// The combined `<package>/<name>` rendering of the path.
    pub fn combined(&self) -> (r: String)
        ensures
            r@ == self@.package + seq!['/'] + self@.name,
    {
        let mut s = self.package.clone();
        s.append("/");
        s.append(self.name.as_str());
        proof {
            reveal_strlit("/");
            assert(s@ =~= self@.package + seq!['/'] + self@.name);
        }
        s
    }
}

} // verus!
