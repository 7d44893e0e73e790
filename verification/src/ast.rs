//! The abstract syntax tree of the `srcsrv` macro language, its
//! mathematical counterpart, and the recursive-descent parser that turns
//! a macro string into a tree.

use vstd::prelude::*;

use crate::chars::chars_eq;
use crate::chars::copy_range;
use crate::chars::find_char;
use crate::chars::lower_chars;
use crate::chars::lower_seq;
use crate::chars::spec_find;
use crate::errors::ParseError;
use crate::errors::ParseErrorView;
use crate::text::chars_to_string;
use crate::text::str_to_chars;

verus! {

broadcast use vstd::std_specs::vec::axiom_vec_index_decreases;

/// One node of a parsed macro string.
#[derive(Debug, PartialEq, Eq)]
pub enum AstNode {
    /// String concatenation of the evaluated child nodes.
    Sequence(Vec<AstNode>),
    /// A literal string.
    LiteralString(Vec<char>),
    /// Substitute with the value of the variable with this name.
    Variable(Vec<char>),
    /// Substitute with the value of the variable whose name is given by the
    /// value of the variable with this name.
    FnVar(Box<AstNode>),
    /// Substitute with the string but with all slashes replaced by backslashes.
    FnBackslash(Box<AstNode>),
    /// Substitute with the file name extracted from the path.
    FnFile(Box<AstNode>),
}

/// The mathematical shape of an [`AstNode`]: the same tree over
/// character sequences.
pub enum AstView {
    Sequence(Seq<AstView>),
    LiteralString(Seq<char>),
    Variable(Seq<char>),
    FnVar(Box<AstView>),
    FnBackslash(Box<AstView>),
    FnFile(Box<AstView>),
}

impl View for AstNode {
    type V = AstView;

    open spec fn view(&self) -> AstView
        decreases self, 0nat,
    {
        match self {
            AstNode::Sequence(children) => AstView::Sequence(view_list(children, 0)),
            AstNode::LiteralString(s) => AstView::LiteralString(s@),
            AstNode::Variable(s) => AstView::Variable(s@),
            AstNode::FnVar(n) => AstView::FnVar(Box::new((**n)@)),
            AstNode::FnBackslash(n) => AstView::FnBackslash(Box::new((**n)@)),
            AstNode::FnFile(n) => AstView::FnFile(Box::new((**n)@)),
        }
    }
}

/// The views of the child nodes from position `i` on.
pub open spec fn view_list(l: &Vec<AstNode>, i: int) -> Seq<AstView>
    decreases l, l@.len() - i,
{
    if i < 0 || i >= l@.len() {
        Seq::empty()
    } else {
        seq![l[i]@] + view_list(l, i + 1)
    }
}

/// The height of a tree, used as a termination measure by the evaluator.
pub open spec fn ast_height(n: AstView) -> nat
    decreases n,
{
    match n {
        AstView::Sequence(children) => 1 + ast_heights(children),
        AstView::LiteralString(_) => 1,
        AstView::Variable(_) => 1,
        AstView::FnVar(c) => 1 + ast_height(*c),
        AstView::FnBackslash(c) => 1 + ast_height(*c),
        AstView::FnFile(c) => 1 + ast_height(*c),
    }
}

/// The summed heights of a list of trees.
pub open spec fn ast_heights(l: Seq<AstView>) -> nat
    decreases l,
{
    if l.len() == 0 {
        0
    } else {
        ast_height(l[0]) + ast_heights(l.drop_first())
    }
}

/// The views of the child nodes, one for each node.
pub proof fn lemma_view_list(l: &Vec<AstNode>, i: int)
    requires
        0 <= i <= l@.len(),
    ensures
        view_list(l, i).len() == l@.len() - i,
        forall|j: int| i <= j < l@.len() ==> view_list(l, i)[j - i] == l[j]@,
    decreases l@.len() - i,
{
    if i < l@.len() {
        lemma_view_list(l, i + 1);
        assert(view_list(l, i) =~= seq![l[i]@] + view_list(l, i + 1));
        assert forall|j: int| i <= j < l@.len() implies view_list(l, i)[j - i] == l[j]@ by {
            if j == i {
                assert(view_list(l, i)[0] == l[i]@);
            } else {
                assert(view_list(l, i)[j - i] == view_list(l, i + 1)[j - i - 1]);
            }
        }
    }
}

/// Appending a node appends its view.
pub proof fn lemma_view_list_push(a: &Vec<AstNode>, b: &Vec<AstNode>)
    requires
        b@.len() == a@.len() + 1,
        forall|j: int| 0 <= j < a@.len() ==> b@[j] == a@[j],
    ensures
        view_list(b, 0) == view_list(a, 0) + seq![b[a@.len() as int]@],
{
    lemma_view_list(a, 0);
    lemma_view_list(b, 0);
    assert forall|j: int|
        0 <= j < b@.len() implies view_list(b, 0)[j] == (view_list(a, 0) + seq![
        b[a@.len() as int]@,
    ])[j] by {
        assert(view_list(b, 0)[j - 0] == b[j]@);
        if j < a@.len() {
            assert(view_list(a, 0)[j - 0] == a[j]@);
            assert(b[j]@ == a[j]@);
        }
    }
    assert(view_list(b, 0) =~= view_list(a, 0) + seq![b[a@.len() as int]@]);
}

/// One term, parsed from position `pos` on: a literal up to the next
/// delimiter, a `%name%` variable reference, or one of the three
/// reserved `%name%(...)` function forms. Returns the term and the
/// position just after it.
pub open spec fn spec_parse_term(s: Seq<char>, pos: int, nested: bool) -> Result<
    (AstView, int),
    ParseErrorView,
>
    decreases s.len() - pos, 0nat,
{
    if pos < 0 || pos >= s.len() {
        Ok((AstView::LiteralString(Seq::empty()), pos))
    } else if s[pos] != '%' {
        let end = literal_end(s, pos, nested);
        Ok((AstView::LiteralString(s.subrange(pos, end)), end))
    } else {
        let close = spec_find(s, pos + 1, '%');
        if close >= s.len() {
            Err(ParseErrorView::MissingPercent)
        } else if close < pos + 1 {
            // a scan never stops short of its start; this arm is not taken
            Err(ParseErrorView::MissingPercent)
        } else {
            let name = s.subrange(pos + 1, close);
            let rest = close + 1;
            if lower_seq(name) == "fnvar"@ {
                match spec_parse_args(s, rest, name) {
                    Ok((child, p)) => Ok((AstView::FnVar(Box::new(child)), p)),
                    Err(e) => Err(e),
                }
            } else if lower_seq(name) == "fnbksl"@ {
                match spec_parse_args(s, rest, name) {
                    Ok((child, p)) => Ok((AstView::FnBackslash(Box::new(child)), p)),
                    Err(e) => Err(e),
                }
            } else if lower_seq(name) == "fnfile"@ {
                match spec_parse_args(s, rest, name) {
                    Ok((child, p)) => Ok((AstView::FnFile(Box::new(child)), p)),
                    Err(e) => Err(e),
                }
            } else {
                Ok((AstView::Variable(name), rest))
            }
        }
    }
}

/// Where the literal that starts at `pos` ends: at the next `%`, inside
/// a function argument also at the next `)`, else at the end of input.
pub open spec fn literal_end(s: Seq<char>, pos: int, nested: bool) -> int {
    let e1 = spec_find(s, pos, '%');
    if nested {
        let e2 = spec_find(s, pos, ')');
        if e2 < e1 {
            e2
        } else {
            e1
        }
    } else {
        e1
    }
}

/// A parenthesised argument following the reserved function `name`:
/// requires `(`, parses terms up to the matching `)`, and returns the
/// collapsed argument tree and the position just after the `)`.
pub open spec fn spec_parse_args(s: Seq<char>, pos: int, name: Seq<char>) -> Result<
    (AstView, int),
    ParseErrorView,
>
    decreases s.len() - pos, 1nat,
{
    if pos < 0 {
        Err(ParseErrorView::MissingOpeningParen(name))
    } else if pos >= s.len() || s[pos] != '(' {
        Err(ParseErrorView::MissingOpeningParen(name))
    } else {
        match spec_parse_terms(s, pos + 1, true) {
            Err(e) => Err(e),
            Ok((list, p)) => if p >= s.len() || s[p] != ')' {
                Err(ParseErrorView::MissingClosingParen(name))
            } else {
                Ok((collapse(list), p + 1))
            },
        }
    }
}

/// One or more terms from position `pos` on, up to the end of input or,
/// inside a function argument, up to the first unmatched `)`.
pub open spec fn spec_parse_terms(s: Seq<char>, pos: int, nested: bool) -> Result<
    (Seq<AstView>, int),
    ParseErrorView,
>
    decreases s.len() - pos, 2nat,
{
    match spec_parse_term(s, pos, nested) {
        Err(e) => Err(e),
        Ok((node, p1)) => {
            if p1 >= s.len() || (nested && 0 <= p1 && s[p1] == ')') {
                Ok((seq![node], p1))
            } else if pos < p1 {
                match spec_parse_terms(s, p1, nested) {
                    Err(e) => Err(e),
                    Ok((nodes, p2)) => Ok((seq![node] + nodes, p2)),
                }
            } else {
                // a term that stands before further input always advances;
                // this arm is not taken
                Ok((seq![node], p1))
            }
        },
    }
}

/// A list of one term is that term; a longer list concatenates.
pub open spec fn collapse(list: Seq<AstView>) -> AstView {
    if list.len() == 1 {
        list[0]
    } else {
        AstView::Sequence(list)
    }
}

/// The whole macro string `s` as a tree: empty input is an empty
/// literal, anything else is the parse of all its terms.
pub open spec fn spec_parse_macro(s: Seq<char>) -> Result<AstView, ParseErrorView> {
    if s.len() == 0 {
        Ok(AstView::LiteralString(Seq::empty()))
    } else {
        match spec_parse_terms(s, 0, false) {
            Err(e) => Err(e),
            Ok((list, _)) => Ok(collapse(list)),
        }
    }
}

impl AstNode {
    /// Parse a whole macro string into a tree.
    pub fn try_from_str(s: &str) -> (r: Result<AstNode, ParseError>)
        ensures
            match r {
                Ok(node) => spec_parse_macro(s@) matches Ok(v) && node@ == v,
                Err(e) => spec_parse_macro(s@) matches Err(se) && e@ == se,
            },
    {
        let chars = str_to_chars(s);
        Self::parse_macro_chars(&chars)
    }

    /// Parse a whole macro string, given as a word.
    pub(crate) fn parse_macro_chars(s: &Vec<char>) -> (r: Result<AstNode, ParseError>)
        ensures
            match r {
                Ok(node) => spec_parse_macro(s@) matches Ok(v) && node@ == v,
                Err(e) => spec_parse_macro(s@) matches Err(se) && e@ == se,
            },
    {
        if s.len() == 0 {
            let node = AstNode::LiteralString(Vec::new());
            proof {
                assert(node@ == AstView::LiteralString(Seq::<char>::empty()));
            }
            return Ok(node);
        }
        match Self::try_parse_all(s, 0, false) {
            Ok((node, _rest)) => Ok(node),
            Err(e) => Err(e),
        }
    }

    /// Parse terms from `pos` on and collapse them into one node.
    fn try_parse_all(s: &Vec<char>, pos: usize, nested: bool) -> (r: Result<
        (AstNode, usize),
        ParseError,
    >)
        requires
            pos <= s@.len(),
        ensures
            ({
                let sr = spec_parse_terms(s@, pos as int, nested);
                match r {
                    Ok(t) => sr matches Ok(st) && t.0@ == collapse(st.0) && t.1 as int == st.1
                        && pos <= t.1 <= s@.len(),
                    Err(e) => sr matches Err(se) && e@ == se,
                }
            }),
        decreases s@.len() - pos, 2nat,
    {
        let first = match Self::try_parse(s, pos, nested) {
            Ok(t) => t,
            Err(e) => {
                return Err(e);
            },
        };
        let mut cur = first.1;
        let mut stop = cur >= s.len() || (nested && s[cur] == ')');
        if stop {
            return Ok((first.0, cur));
        }
        let mut nodes: Vec<AstNode> = Vec::new();
        proof {
            lemma_view_list(&nodes, 0);
        }
        let ghost first_view = first.0@;
        nodes.push(first.0);
        proof {
            lemma_view_list(&nodes, 0);
            assert(view_list(&nodes, 0) =~= seq![first_view]);
        }
        while !stop
            invariant
                pos < cur <= s@.len(),
                nodes@.len() >= 1,
                stop ==> nodes@.len() >= 2,
                stop == (cur >= s@.len() || (nested && s@[cur as int] == ')')),
                stop ==> (spec_parse_terms(s@, pos as int, nested) matches Ok(t) && t.0
                    == view_list(&nodes, 0) && t.1 == cur as int),
                !stop ==> (match spec_parse_terms(s@, cur as int, nested) {
                    Ok(t2) => spec_parse_terms(s@, pos as int, nested) matches Ok(t) && t.0
                        == view_list(&nodes, 0) + t2.0 && t.1 == t2.1,
                    Err(e) => spec_parse_terms(s@, pos as int, nested) matches Err(e2) && e2 == e,
                }),
            decreases s@.len() - cur,
        {
            let step = match Self::try_parse(s, cur, nested) {
                Ok(t) => t,
                Err(e) => {
                    return Err(e);
                },
            };
            let ghost prev_nodes = nodes;
            let ghost prev_cur = cur as int;
            let ghost step_view = step.0@;
            nodes.push(step.0);
            proof {
                lemma_view_list_push(&prev_nodes, &nodes);
                assert(view_list(&nodes, 0) == view_list(&prev_nodes, 0) + seq![step_view]);
            }
            cur = step.1;
            stop = cur >= s.len() || (nested && s[cur] == ')');
            proof {
                if stop {
                    assert(spec_parse_terms(s@, prev_cur, nested) matches Ok(t2) && t2.0 == seq![
                        step_view,
                    ] && t2.1 == cur as int);
                    assert(view_list(&prev_nodes, 0) + seq![step_view] == view_list(&nodes, 0));
                } else {
                    assert(prev_cur < cur as int);
                    let ghost t2 = spec_parse_terms(s@, cur as int, nested);
                    if t2 is Ok {
                        let ghost tl = t2->Ok_0.0;
                        assert(view_list(&prev_nodes, 0) + (seq![step_view] + tl) =~= view_list(
                            &nodes,
                            0,
                        ) + tl) by {
                            assert(view_list(&prev_nodes, 0) + seq![step_view] == view_list(
                                &nodes,
                                0,
                            ));
                        }
                    }
                }
            }
        }
        proof {
            assert(collapse(view_list(&nodes, 0)) == AstView::Sequence(view_list(&nodes, 0)));
        }
        Ok((AstNode::Sequence(nodes), cur))
    }

    /// Parse one term: a literal, a `%name%` reference, or a reserved
    /// `%name%(...)` function form.
    fn try_parse(s: &Vec<char>, pos: usize, nested: bool) -> (r: Result<
        (AstNode, usize),
        ParseError,
    >)
        requires
            pos <= s@.len(),
        ensures
            ({
                let sr = spec_parse_term(s@, pos as int, nested);
                match r {
                    Ok(t) => sr matches Ok(st) && t.0@ == st.0 && t.1 as int == st.1 && pos <= t.1
                        <= s@.len() && (t.1 == pos ==> pos >= s@.len() || (nested && s@[pos as int]
                        == ')')),
                    Err(e) => sr matches Err(se) && e@ == se,
                }
            }),
        decreases s@.len() - pos, 0nat,
    {
        if pos >= s.len() {
            let node = AstNode::LiteralString(Vec::new());
            proof {
                assert(node@ == AstView::LiteralString(Seq::<char>::empty()));
            }
            return Ok((node, pos));
        }
        if s[pos] != '%' {
            let e1 = find_char(s, pos, '%');
            let end = if nested {
                let e2 = find_char(s, pos, ')');
                if e2 < e1 {
                    e2
                } else {
                    e1
                }
            } else {
                e1
            };
            let lit = copy_range(s, pos, end);
            return Ok((AstNode::LiteralString(lit), end));
        }
        let close = find_char(s, pos + 1, '%');
        if close >= s.len() {
            return Err(ParseError::MissingPercent);
        }
        let name = copy_range(s, pos + 1, close);
        let low = lower_chars(&name);
        let rest = close + 1;
        let w_fnvar = str_to_chars("fnvar");
        if chars_eq(&low, &w_fnvar) {
            return match Self::try_parse_args(s, rest, &name) {
                Ok(t) => Ok((AstNode::FnVar(Box::new(t.0)), t.1)),
                Err(e) => Err(e),
            };
        }
        let w_fnbksl = str_to_chars("fnbksl");
        if chars_eq(&low, &w_fnbksl) {
            return match Self::try_parse_args(s, rest, &name) {
                Ok(t) => Ok((AstNode::FnBackslash(Box::new(t.0)), t.1)),
                Err(e) => Err(e),
            };
        }
        let w_fnfile = str_to_chars("fnfile");
        if chars_eq(&low, &w_fnfile) {
            return match Self::try_parse_args(s, rest, &name) {
                Ok(t) => Ok((AstNode::FnFile(Box::new(t.0)), t.1)),
                Err(e) => Err(e),
            };
        }
        Ok((AstNode::Variable(name), rest))
    }

    /// Parse the parenthesised argument of the reserved function `name`.
    fn try_parse_args(s: &Vec<char>, pos: usize, name: &Vec<char>) -> (r: Result<
        (AstNode, usize),
        ParseError,
    >)
        requires
            pos <= s@.len(),
        ensures
            ({
                let sr = spec_parse_args(s@, pos as int, name@);
                match r {
                    Ok(t) => sr matches Ok(st) && t.0@ == st.0 && t.1 as int == st.1 && pos < t.1
                        <= s@.len(),
                    Err(e) => sr matches Err(se) && e@ == se,
                }
            }),
        decreases s@.len() - pos, 1nat,
    {
        if pos >= s.len() || s[pos] != '(' {
            return Err(ParseError::MissingOpeningParen(chars_to_string(name)));
        }
        let inner = match Self::try_parse_all(s, pos + 1, true) {
            Ok(t) => t,
            Err(e) => {
                return Err(e);
            },
        };
        let p = inner.1;
        if p >= s.len() || s[p] != ')' {
            return Err(ParseError::MissingClosingParen(chars_to_string(name)));
        }
        Ok((inner.0, p + 1))
    }
}

/// Every tree has a positive height.
pub proof fn lemma_ast_height_pos(n: AstView)
    ensures
        ast_height(n) >= 1,
{
    match n {
        AstView::Sequence(_) => {},
        AstView::LiteralString(_) => {},
        AstView::Variable(_) => {},
        AstView::FnVar(_) => {},
        AstView::FnBackslash(_) => {},
        AstView::FnFile(_) => {},
    }
}

} // verus!
