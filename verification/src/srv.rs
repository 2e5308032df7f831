use vstd::prelude::*;
use vstd::string::StrSliceExecFns;
use vstd::string::StringExecFns;

use crate::error::{Error, Result};
use crate::message_path::{MessagePath, PathView};
use crate::msg::{Msg, MsgV};
use crate::parse_msg::{spec_match_lines, LinesR};
use crate::text::{split_lines, split_lines_spec, str_eq, trim_chars};

verus! {

/// The separator between a service's request and response bodies: a line
/// that holds exactly `---`.
pub open spec fn is_service_separator(l: Seq<char>) -> bool {
    l == "---"@
}

/// The first `i` lines grouped into parts, split at `---` lines.
pub open spec fn srv_segs_upto(lines: Seq<Seq<char>>, i: int) -> Seq<Seq<Seq<char>>>
    decreases i,
{
    if i <= 0 {
        seq![Seq::empty()]
    } else {
        let prev = srv_segs_upto(lines, i - 1);
        if is_service_separator(lines[i - 1]) {
            prev.push(Seq::empty())
        } else {
            prev.update(prev.len() - 1, prev.last().push(lines[i - 1]))
        }
    }
}

pub proof fn lemma_srv_segs_upto_len(lines: Seq<Seq<char>>, i: int)
    ensures
        srv_segs_upto(lines, i).len() >= 1,
    decreases i,
{
    if i > 0 {
        lemma_srv_segs_upto_len(lines, i - 1);
    }
}

/// The request and response bodies of a service's source text: the parts
/// around a single `---` line, the response empty when there is none.
/// More than one `---` line is a failure.
pub open spec fn spec_srv_split(src: Seq<char>) -> Option<(Seq<char>, Seq<char>)> {
    let lines = split_lines_spec(src);
    let segs = srv_segs_upto(lines, lines.len() as int);
    if segs.len() == 1 {
        Some((crate::msg::join_upto(segs[0], segs[0].len() as int), Seq::empty()))
    } else if segs.len() == 2 {
        Some(
            (
                crate::msg::join_upto(segs[0], segs[0].len() as int),
                crate::msg::join_upto(segs[1], segs[1].len() as int),
            ),
        )
    } else {
        None
    }
}

/// The mathematical content of a [`Srv`].
pub struct SrvV {
    pub path: PathView,
    pub source: Seq<char>,
    pub req: MsgV,
    pub res: MsgV,
}

/// A service definition parsed from a `srv` file: a request message and a
/// response message around a `---` line.
#[derive(Debug)]
pub struct Srv {
    path: MessagePath,
    source: String,
    req: Msg,
    res: Msg,
}

impl View for Srv {
    type V = SrvV;

    closed spec fn view(&self) -> SrvV {
        SrvV { path: self.path@, source: self.source@, req: self.req@, res: self.res@ }
    }
}

impl Srv {
    /// Parses a service from its path and source text. The request and
    /// response messages take the service's name with `Req` and `Res`
    /// appended, in the service's package.
    pub fn new(path: MessagePath, source: &str) -> (r: Result<Srv>)
        ensures
            match spec_srv_split(source@) {
                None => r is Err && r->Err_0 is BadMessageContent,
                Some((req_src, res_src)) => {
                    match spec_match_lines(trim_chars(req_src)) {
                        LinesR::Failed(k) => r is Err && crate::dynamic::lines_error_matches(
                            k,
                            r->Err_0,
                        ),
                        LinesR::Fields(req_fields) => match spec_match_lines(
                            trim_chars(res_src),
                        ) {
                            LinesR::Failed(k) => r is Err && crate::dynamic::lines_error_matches(
                                k,
                                r->Err_0,
                            ),
                            LinesR::Fields(res_fields) => r is Ok && r->Ok_0@ == (SrvV {
                                path: path@,
                                source: source@,
                                req: MsgV {
                                    path: PathView {
                                        package: path@.package,
                                        name: path@.name + "Req"@,
                                    },
                                    fields: req_fields,
                                    source: trim_chars(req_src),
                                },
                                res: MsgV {
                                    path: PathView {
                                        package: path@.package,
                                        name: path@.name + "Res"@,
                                    },
                                    fields: res_fields,
                                    source: trim_chars(res_src),
                                },
                            }),
                        },
                    }
                },
            },
    {
        let (req_src, res_src) = match Self::split_source(source) {
            Some(p) => p,
            None => {
                let mut m = ("service source is split by more than one `---` line").to_owned();
                return Err(Error::BadMessageContent(m));
            },
        };
        let mut req_name = path.name().to_owned();
        req_name.append("Req");
        let mut res_name = path.name().to_owned();
        res_name.append("Res");
        let req = match Msg::new(path.peer(req_name.as_str()), req_src.as_str()) {
            Ok(m) => m,
            Err(e) => {
                return Err(e);
            },
        };
        let res = match Msg::new(path.peer(res_name.as_str()), res_src.as_str()) {
            Ok(m) => m,
            Err(e) => {
                return Err(e);
            },
        };
        proof {
            reveal_strlit("Req");
            reveal_strlit("Res");
        }
        Ok(Srv { path, source: source.to_owned(), req, res })
    }

    /// The request and response texts of the source, split at one `---`
    /// line.
    fn split_source(source: &str) -> (r: Option<(String, String)>)
        ensures
            match r {
                Some((a, b)) => spec_srv_split(source@) == Some((a@, b@)),
                None => spec_srv_split(source@) is None,
            },
    {
        let lines = split_lines(source);
        let ghost lv = split_lines_spec(source@);
        let n = lines.len();
        let mut parts: Vec<String> = Vec::new();
        let mut cur = String::new();
        let mut started = false;
        let mut i: usize = 0;
        proof {
            lemma_srv_segs_upto_len(lv, 0);
        }
        while i < n
            invariant
                0 <= i <= n,
                n == lines@.len(),
                lv == split_lines_spec(source@),
                lv == lines@.map_values(|x: String| x@),
                lv.len() == n,
                srv_segs_upto(lv, i as int).len() >= 1,
                parts@.len() == srv_segs_upto(lv, i as int).len() - 1,
                forall|k: int|
                    0 <= k < parts@.len() ==> #[trigger] parts@[k]@ == crate::msg::join_upto(
                        srv_segs_upto(lv, i as int)[k],
                        srv_segs_upto(lv, i as int)[k].len() as int,
                    ),
                cur@ == crate::msg::join_upto(
                    srv_segs_upto(lv, i as int).last(),
                    srv_segs_upto(lv, i as int).last().len() as int,
                ),
                started == (srv_segs_upto(lv, i as int).last().len() > 0),
            decreases n - i,
        {
            let ghost segs = srv_segs_upto(lv, i as int);
            proof {
                assert(lv[i as int] == lines@[i as int]@);
            }
            if str_eq(lines[i].as_str(), "---") {
                parts.push(cur);
                cur = String::new();
                started = false;
                proof {
                    let segs2 = srv_segs_upto(lv, i + 1);
                    assert(segs2 == segs.push(Seq::<Seq<char>>::empty()));
                    assert forall|k: int|
                        0 <= k < parts@.len() implies #[trigger] parts@[k]@
                        == crate::msg::join_upto(segs2[k], segs2[k].len() as int) by {
                        if k < parts@.len() - 1 {
                            assert(segs2[k] == segs[k]);
                        } else {
                            assert(segs2[k] == segs.last());
                        }
                    }
                }
            } else {
                let ghost last = segs.last();
                if started {
                    cur.append("\n");
                    cur.append(lines[i].as_str());
                } else {
                    cur.append(lines[i].as_str());
                }
                started = true;
                proof {
                    reveal_strlit("\n");
                    let segs2 = srv_segs_upto(lv, i + 1);
                    let last2 = last.push(lv[i as int]);
                    assert(segs2 == segs.update(segs.len() - 1, last2));
                    assert(segs2.last() == last2);
                    crate::dynamic::lemma_join_upto_prefix(last2, last, last.len() as int);
                    if last.len() > 0 {
                        assert(crate::msg::join_upto(last2, last2.len() as int)
                            == crate::msg::join_upto(last2, last.len() as int) + seq!['\n']
                            + last2[last.len() as int]);
                        assert(cur@ =~= crate::msg::join_upto(last2, last2.len() as int));
                    } else {
                        assert(crate::msg::join_upto(last2, 1) == last2[0]);
                        assert(cur@ =~= crate::msg::join_upto(last2, last2.len() as int));
                    }
                    assert forall|k: int|
                        0 <= k < parts@.len() implies #[trigger] parts@[k]@
                        == crate::msg::join_upto(segs2[k], segs2[k].len() as int) by {
                        assert(segs2[k] == segs[k]);
                    }
                }
            }
            i = i + 1;
        }
        let ghost segs = srv_segs_upto(lv, n as int);
        if parts.len() == 0 {
            proof {
                assert(segs.len() == 1);
                assert(segs[0] == segs.last());
                reveal_strlit("");
                assert(""@ =~= Seq::<char>::empty());
            }
            Some((cur, ("").to_owned()))
        } else if parts.len() == 1 {
            proof {
                assert(segs.len() == 2);
                assert(segs[0] == srv_segs_upto(lv, n as int)[0]);
                assert(segs[1] == segs.last());
            }
            let first = match parts.pop() {
                Some(p) => p,
                None => {
                    proof {
                        assert(false);
                    }
                    ("").to_owned()
                },
            };
            Some((first, cur))
        } else {
            None
        }
    }

    /// The path of the service.
    pub fn path(&self) -> (r: &MessagePath)
        ensures
            r@ == self@.path,
    {
        &self.path
    }

    /// The original source text of the service.
    pub fn source(&self) -> (r: &str)
        ensures
            r@ == self@.source,
    {
        self.source.as_str()
    }

    /// The request message.
    pub fn request(&self) -> (r: &Msg)
        ensures
            r@ == self@.req,
    {
        &self.req
    }

    /// The response message.
    pub fn response(&self) -> (r: &Msg)
        ensures
            r@ == self@.res,
    {
        &self.res
    }
}

} // verus!
