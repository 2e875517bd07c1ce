//! Router predicates: `<path> <op> <literal>`, or the literals `true` and
//! `false`. Parsing and equality live here; the ordered comparisons coerce
//! to floating point and are done by the caller.

use vstd::prelude::*;
use vstd::string::*;
use crate::text::{find, find_from, strip, strip_exec, literal_eq};

verus! {

/// The comparison operators, in the order in which a condition is probed.
#[derive(PartialEq, Eq, Structural, Clone, Copy, Debug)]
pub enum CompareOp {
    Ge,
    Le,
    Ne,
    Eq,
    Gt,
    Lt,
}

pub open spec fn op_symbol(op: CompareOp) -> Seq<char> {
    match op {
        CompareOp::Ge => ">="@,
        CompareOp::Le => "<="@,
        CompareOp::Ne => "!="@,
        CompareOp::Eq => "=="@,
        CompareOp::Gt => ">"@,
        CompareOp::Lt => "<"@,
    }
}

impl CompareOp {
    /// The operator written as `s`, if any.
    pub fn from_symbol(s: &str) -> (r: Option<CompareOp>)
        ensures
            r matches Some(op) ==> op_symbol(op) == s@,
            r is None ==> forall|op: CompareOp| op_symbol(op) != s@,
    {
        proof {
            reveal_strlit(">=");
            reveal_strlit("<=");
            reveal_strlit("!=");
            reveal_strlit("==");
            reveal_strlit(">");
            reveal_strlit("<");
        }
        let n = s.unicode_len();
        if n == 1 {
            let c = s.get_char(0);
            if c == '>' {
                assert(s@ =~= ">"@);
                return Some(CompareOp::Gt);
            } else if c == '<' {
                assert(s@ =~= "<"@);
                return Some(CompareOp::Lt);
            }
        } else if n == 2 && s.get_char(1) == '=' {
            let c = s.get_char(0);
            if c == '>' {
                assert(s@ =~= ">="@);
                return Some(CompareOp::Ge);
            } else if c == '<' {
                assert(s@ =~= "<="@);
                return Some(CompareOp::Le);
            } else if c == '!' {
                assert(s@ =~= "!="@);
                return Some(CompareOp::Ne);
            } else if c == '=' {
                assert(s@ =~= "=="@);
                return Some(CompareOp::Eq);
            }
        }
        assert forall|op: CompareOp| op_symbol(op) != s@ by {
            if op_symbol(op) == s@ {
                assert(s@.len() == op_symbol(op).len());
                assert(s@[0] == op_symbol(op)[0]);
                if s@.len() == 2 {
                    assert(s@[1] == op_symbol(op)[1]);
                }
            }
        }
        None
    }
}

/// Split of a condition at the first occurrence of `op`: the trimmed path,
/// the operator, and the trimmed literal with its double quotes removed.
pub open spec fn split_at_op(c: Seq<char>, op: Seq<char>) -> Option<(Seq<char>, Seq<char>, Seq<char>)> {
    match find_from(c, op, 0) {
        Some(pos) => Some((
            strip(c.subrange(0, pos), false),
            op,
            strip(strip(c.subrange(pos + op.len(), c.len() as int), false), true),
        )),
        None => None,
    }
}

/// The parse of a condition: the first operator, in probing order, that
/// occurs anywhere in it decides the split.
pub open spec fn parsed_condition(c: Seq<char>) -> Option<(Seq<char>, Seq<char>, Seq<char>)> {
    if split_at_op(c, ">="@) is Some {
        split_at_op(c, ">="@)
    } else if split_at_op(c, "<="@) is Some {
        split_at_op(c, "<="@)
    } else if split_at_op(c, "!="@) is Some {
        split_at_op(c, "!="@)
    } else if split_at_op(c, "=="@) is Some {
        split_at_op(c, "=="@)
    } else if split_at_op(c, ">"@) is Some {
        split_at_op(c, ">"@)
    } else {
        split_at_op(c, "<"@)
    }
}

pub open spec fn view3(o: Option<(String, String, String)>) -> Option<(Seq<char>, Seq<char>, Seq<char>)> {
    match o {
        Some(t) => Some((t.0@, t.1@, t.2@)),
        None => None,
    }
}

fn split_exec(c: &str, op: &str) -> (r: Option<(String, String, String)>)
    ensures
        view3(r) == split_at_op(c@, op@),
{
    match find(c, op) {
        Some(pos) => {
            let n = c.unicode_len();
            let m = op.unicode_len();
            let path = strip_exec(c.substring_char(0, pos), false);
            let rest = strip_exec(c.substring_char(pos + m, n), false);
            let value = strip_exec(rest.as_str(), true);
            Some((path, String::from_str(op), value))
        },
        None => None,
    }
}

/// Splits `<path> <op> <literal>`; `None` where no operator occurs.
pub fn parse_condition(condition: &str) -> (r: Option<(String, String, String)>)
    ensures
        view3(r) == parsed_condition(condition@),
{
    let r = split_exec(condition, ">=");
    if r.is_some() {
        return r;
    }
    let r = split_exec(condition, "<=");
    if r.is_some() {
        return r;
    }
    let r = split_exec(condition, "!=");
    if r.is_some() {
        return r;
    }
    let r = split_exec(condition, "==");
    if r.is_some() {
        return r;
    }
    let r = split_exec(condition, ">");
    if r.is_some() {
        return r;
    }
    split_exec(condition, "<")
}

/// The value found at a condition's path, as far as equality reads it.
/// `Composite` holds the compact JSON text of an array or object.
#[derive(PartialEq, Eq, Debug)]
pub enum JsonLeaf {
    Null,
    Bool(bool),
    Number(String),
    Text(String),
    Composite(String),
}

/// Type-aware equality of a JSON value with a condition's literal.
pub open spec fn leaf_equals(a: JsonLeaf, b: Seq<char>) -> bool {
    match a {
        JsonLeaf::Null => b == "null"@,
        JsonLeaf::Bool(v) => (b == "true"@ && v) || (b == "false"@ && !v),
        JsonLeaf::Number(t) => t@ == b,
        JsonLeaf::Text(t) => t@ == b,
        JsonLeaf::Composite(t) => t@ == b,
    }
}

/// Whether the value `a` equals the literal `b` (booleans by their text,
/// numbers by their decimal text, strings by content).
pub fn json_equals(a: &JsonLeaf, b: &str) -> (r: bool)
    ensures
        r == leaf_equals(*a, b@),
{
    match a {
        JsonLeaf::Null => literal_eq(b, "null"),
        JsonLeaf::Bool(v) => (literal_eq(b, "true") && *v) || (literal_eq(b, "false") && !*v),
        JsonLeaf::Number(t) => literal_eq(t.as_str(), b),
        JsonLeaf::Text(t) => literal_eq(t.as_str(), b),
        JsonLeaf::Composite(t) => literal_eq(t.as_str(), b),
    }
}

} // verus!
