//! Constants and expressions as the parser reports them, and their
//! simplified form.
use vstd::prelude::*;

verus! {

/// A constant of the C source, each as its token is written.
#[derive(Clone, Debug)]
pub enum CConstant {
    Integer(String),
    Float(String),
    /// The whole token, encoding prefix and quotes included (`'x'`, `L'x'`).
    Character(String),
}

/// An expression of the C source. Forms that are not simplified are carried
/// as their textual dump.
#[derive(Clone, Debug)]
pub enum CExpression {
    Constant(CConstant),
    /// Adjacent string-literal tokens, each whole: encoding prefix and
    /// quotes included (`"hi"`, `u8"hi"`).
    StringLiteral(Vec<String>),
    Other(String),
}

/// The simplified expression kinds.
#[derive(Clone, Debug, PartialEq, Eq)]
pub enum MyExpression {
    Integer(String),
    Float(String),
    String(String),
    StringLiteral(Vec<String>),
    Other(String),
}

/// What a [`MyExpression`] holds, as text.
pub enum ExprV {
    Integer(Seq<char>),
    Float(Seq<char>),
    Text(Seq<char>),
    StringLiteral(Seq<Seq<char>>),
    Other(Seq<char>),
}

pub open spec fn strings_view(v: Seq<String>) -> Seq<Seq<char>> {
    v.map_values(|s: String| s@)
}

impl View for MyExpression {
    type V = ExprV;

    open spec fn view(&self) -> ExprV {
        match self {
            MyExpression::Integer(s) => ExprV::Integer(s@),
            MyExpression::Float(s) => ExprV::Float(s@),
            MyExpression::String(s) => ExprV::Text(s@),
            MyExpression::StringLiteral(v) => ExprV::StringLiteral(strings_view(v@)),
            MyExpression::Other(s) => ExprV::Other(s@),
        }
    }
}

pub open spec fn is_quote(c: char) -> bool {
    c == '\'' || c == '"'
}

/// The position of the first quote of `t` at or after `i`; the length of
/// `t` when there is none.
pub open spec fn first_quote(t: Seq<char>, i: int) -> int
    decreases t.len() - i,
{
    if i < 0 || i >= t.len() {
        t.len() as int
    } else if is_quote(t[i]) {
        i
    } else {
        first_quote(t, i + 1)
    }
}

/// The payload of a quoted token: the text between the opening quote, which
/// follows any encoding prefix, and the closing quote. A text not quoted so
/// is its own payload.
pub open spec fn payload(t: Seq<char>) -> Seq<char> {
    let q = first_quote(t, 0);
    if q + 2 <= t.len() && is_quote(t[t.len() - 1]) {
        t.subrange(q + 1, t.len() - 1)
    } else {
        t
    }
}

/// The simplified form of an expression.
pub open spec fn simplify(e: CExpression) -> ExprV {
    match e {
        CExpression::Constant(CConstant::Integer(t)) => ExprV::Integer(t@),
        CExpression::Constant(CConstant::Float(t)) => ExprV::Float(t@),
        CExpression::Constant(CConstant::Character(t)) => ExprV::Text(payload(t@)),
        CExpression::StringLiteral(v) => ExprV::StringLiteral(strings_view(v@).map_values(|p: Seq<char>| payload(p))),
        CExpression::Other(s) => ExprV::Other(s@),
    }
}

/// A copy of a string.
fn copy_string(s: &String) -> (r: String)
    ensures
        r@ == s@,
{
    s.clone()
}

fn is_quote_char(c: char) -> (r: bool)
    ensures
        r == is_quote(c),
{
    c == '\'' || c == '"'
}

/// The payload of a quoted token.
pub fn quoted_payload(t: &String) -> (r: String)
    ensures
        r@ == payload(t@),
{
    let s = t.as_str();
    let n = s.unicode_len();
    let mut i: usize = 0;
    while i < n && !is_quote_char(s.get_char(i))
        invariant
            s@ == t@,
            n == t@.len(),
            i <= n,
            first_quote(t@, 0) == first_quote(t@, i as int),
        decreases n - i,
    {
        i = i + 1;
    }
    assert(first_quote(t@, 0) == i);
    if n >= 2 && i <= n - 2 && is_quote_char(s.get_char(n - 1)) {
        String::from_str(s.substring_char(i + 1, n - 1))
    } else {
        copy_string(t)
    }
}

/// The payloads of the parts of a string literal, in order.
pub fn literal_payloads(v: &Vec<String>) -> (r: Vec<String>)
    ensures
        strings_view(r@) == strings_view(v@).map_values(|p: Seq<char>| payload(p)),
{
    let mut r: Vec<String> = Vec::new();
    let mut i: usize = 0;
    while i < v.len()
        invariant
            i <= v.len(),
            r@.len() == i,
            forall|j: int| 0 <= j < i ==> (#[trigger] r@[j])@ == payload(v@[j]@),
        decreases v.len() - i,
    {
        r.push(quoted_payload(&v[i]));
        i = i + 1;
    }
    assert(strings_view(r@) =~= strings_view(v@).map_values(|p: Seq<char>| payload(p)));
    r
}

/// Simplifies an expression: numeric constants keep their token as written,
/// a character constant and each part of a string literal keep their
/// payload, any other form keeps its dump.
pub fn transform(expr: &CExpression) -> (r: MyExpression)
    ensures
        r@ == simplify(*expr),
{
    match expr {
        CExpression::Constant(CConstant::Integer(t)) => MyExpression::Integer(copy_string(t)),
        CExpression::Constant(CConstant::Float(t)) => MyExpression::Float(copy_string(t)),
        CExpression::Constant(CConstant::Character(t)) => MyExpression::String(quoted_payload(t)),
        CExpression::StringLiteral(v) => MyExpression::StringLiteral(literal_payloads(v)),
        CExpression::Other(s) => MyExpression::Other(copy_string(s)),
    }
}

} // verus!
