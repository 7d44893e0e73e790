//! The evaluator: a tree walk that resolves variable references against
//! the stream's variable table, memoizes every resolved name in a
//! per-lookup bindings map, and detects cyclic references with a stack
//! of the names being resolved.

use vstd::prelude::*;

use crate::ast::ast_height;
use crate::ast::ast_heights;
use crate::ast::lemma_ast_height_pos;
use crate::ast::lemma_view_list;
use crate::ast::view_list;
use crate::ast::AstNode;
use crate::ast::AstView;
use crate::chars::append_chars;
use crate::chars::chars_eq;
use crate::chars::copy_chars;
use crate::chars::copy_range;
use crate::chars::lower_chars;
use crate::chars::lower_seq;
use crate::chars::rfind_char;
use crate::chars::spec_rfind;
use crate::errors::EvalError;
use crate::errors::EvalErrorView;
use crate::maps::WordMap;
use crate::text::chars_to_string;

verus! {

broadcast use crate::chars::lemma_deep_view_chars;

/// The value a tree denotes.
pub type EvalValue = Result<(Seq<char>, Map<Seq<char>, Seq<char>>), EvalErrorView>;

/// `s` with every forward slash replaced by a backslash.
pub open spec fn backslashed(s: Seq<char>) -> Seq<char> {
    s.map_values(
        |c: char|
            if c == '/' {
                '\\'
            } else {
                c
            },
    )
}

/// The part of `s` after its last backslash, or all of `s` when it has
/// none.
pub open spec fn file_part(s: Seq<char>) -> Seq<char> {
    let i = spec_rfind(s, '\\');
    if i >= 0 {
        s.subrange(i + 1, s.len() as int)
    } else {
        s
    }
}

/// How many variables of the table are not yet being resolved: the
/// termination measure of resolution.
pub open spec fn eval_measure(vars: Map<Seq<char>, AstView>, stack: Seq<Seq<char>>) -> nat {
    vars.dom().difference(stack.to_set()).len()
}

/// Resolve the (lowercased) variable `name`: a memoized binding is
/// returned as it stands; a name already being resolved is a cycle; a
/// name absent from the table is unknown; otherwise the table's tree for
/// the name is evaluated with `name` pushed on the stack and the result
/// is memoized. Returns the value and the bindings map as it has grown.
pub open spec fn spec_resolve(
    name: Seq<char>,
    vars: Map<Seq<char>, AstView>,
    binds: Map<Seq<char>, Seq<char>>,
    stack: Seq<Seq<char>>,
) -> EvalValue
    decreases eval_measure(vars, stack), 0nat, 0nat,
        when vars.dom().finite()
        via spec_resolve_decreases
{
    if binds.contains_key(name) {
        Ok((binds[name], binds))
    } else if stack.contains(name) {
        Err(EvalErrorView::Recursion(name))
    } else if !vars.contains_key(name) {
        Err(EvalErrorView::UnknownVariable(name))
    } else {
        match spec_eval(vars[name], vars, binds, stack.push(name)) {
            Err(e) => Err(e),
            Ok((v, b2)) => Ok((v, b2.insert(name, v))),
        }
    }
}

#[via_fn]
proof fn spec_resolve_decreases(
    name: Seq<char>,
    vars: Map<Seq<char>, AstView>,
    binds: Map<Seq<char>, Seq<char>>,
    stack: Seq<Seq<char>>,
) {
    if !binds.contains_key(name) && !stack.contains(name) && vars.contains_key(name) {
        lemma_measure_push(vars, stack, name);
    }
}

/// Pushing an unresolved table name on the stack shrinks the measure.
pub proof fn lemma_measure_push(vars: Map<Seq<char>, AstView>, stack: Seq<Seq<char>>, name: Seq<char>)
    requires
        vars.dom().finite(),
        vars.contains_key(name),
        !stack.contains(name),
    ensures
        eval_measure(vars, stack.push(name)) < eval_measure(vars, stack),
{
    assert forall|x: Seq<char>|
        #[trigger] stack.push(name).to_set().contains(x) implies stack.to_set().insert(
        name,
    ).contains(x) by {
        assert(stack.push(name).contains(x));
        let i = choose|i: int| 0 <= i < stack.push(name).len() && stack.push(name)[i] == x;
        if i < stack.len() {
            assert(stack[i] == x);
            assert(stack.contains(x));
        } else {
            assert(x == name);
        }
    }
    assert forall|x: Seq<char>|
        stack.to_set().insert(name).contains(x) implies #[trigger] stack.push(
        name,
    ).to_set().contains(x) by {
        if x == name {
            assert(stack.push(name)[stack.len() as int] == x);
            assert(stack.push(name).contains(x));
        } else {
            assert(stack.contains(x));
            let i = choose|i: int| 0 <= i < stack.len() && stack[i] == x;
            assert(stack.push(name)[i] == x);
            assert(stack.push(name).contains(x));
        }
    }
    assert(stack.push(name).to_set() =~= stack.to_set().insert(name));
    vars.dom().lemma_set_insert_diff_decreases(stack.to_set(), name);
}

/// The value of one tree: literals stand for themselves, a variable for
/// its resolved value, `fnvar` for the value of the variable its child
/// names, `fnbksl` for its child's value with slashes turned around, and
/// `fnfile` for the file-name part of its child's value. A sequence
/// concatenates its children, left to right, threading the bindings.
pub open spec fn spec_eval(
    node: AstView,
    vars: Map<Seq<char>, AstView>,
    binds: Map<Seq<char>, Seq<char>>,
    stack: Seq<Seq<char>>,
) -> EvalValue
    decreases eval_measure(vars, stack), ast_height(node), 0nat,
        when vars.dom().finite()
{
    match node {
        AstView::Sequence(children) => spec_eval_list(children, vars, binds, stack),
        AstView::LiteralString(s) => Ok((s, binds)),
        AstView::Variable(name) => spec_resolve(lower_seq(name), vars, binds, stack),
        AstView::FnVar(c) => match spec_eval(*c, vars, binds, stack) {
            Err(e) => Err(e),
            Ok((name, b2)) => spec_resolve(lower_seq(name), vars, b2, stack),
        },
        AstView::FnBackslash(c) => match spec_eval(*c, vars, binds, stack) {
            Err(e) => Err(e),
            Ok((v, b2)) => Ok((backslashed(v), b2)),
        },
        AstView::FnFile(c) => match spec_eval(*c, vars, binds, stack) {
            Err(e) => Err(e),
            Ok((v, b2)) => Ok((file_part(v), b2)),
        },
    }
}

/// The values of a list of trees, concatenated left to right; the first
/// failure aborts the walk.
pub open spec fn spec_eval_list(
    nodes: Seq<AstView>,
    vars: Map<Seq<char>, AstView>,
    binds: Map<Seq<char>, Seq<char>>,
    stack: Seq<Seq<char>>,
) -> EvalValue
    decreases eval_measure(vars, stack), ast_heights(nodes), 1nat,
        when vars.dom().finite()
        via spec_eval_list_decreases
{
    if nodes.len() == 0 {
        Ok((Seq::empty(), binds))
    } else {
        match spec_eval(nodes[0], vars, binds, stack) {
            Err(e) => Err(e),
            Ok((v, b2)) => match spec_eval_list(nodes.drop_first(), vars, b2, stack) {
                Err(e) => Err(e),
                Ok((rest, b3)) => Ok((v + rest, b3)),
            },
        }
    }
}

#[via_fn]
proof fn spec_eval_list_decreases(
    nodes: Seq<AstView>,
    vars: Map<Seq<char>, AstView>,
    binds: Map<Seq<char>, Seq<char>>,
    stack: Seq<Seq<char>>,
) {
    if nodes.len() > 0 {
        lemma_ast_height_pos(nodes[0]);
    }
}

/// One variable of the stream: its raw text and the tree it parses to.
#[derive(Debug)]
pub struct VarEntry {
    pub raw: Vec<char>,
    pub node: AstNode,
}

impl DeepView for VarEntry {
    type V = (Seq<char>, AstView);

    open spec fn deep_view(&self) -> (Seq<char>, AstView) {
        (self.raw@, self.node@)
    }
}

/// The trees of a variable table, with the raw texts dropped.
pub open spec fn ast_table(m: Map<Seq<char>, (Seq<char>, AstView)>) -> Map<Seq<char>, AstView> {
    Map::new(|k: Seq<char>| m.dom().contains(k), |k: Seq<char>| m[k].1)
}

/// The deep view of a list of words, one word at a time.
pub proof fn lemma_words_deep(v: &Vec<Vec<char>>)
    ensures
        v.deep_view().len() == v@.len(),
        forall|i: int| 0 <= i < v@.len() ==> v.deep_view()[i] == v@[i]@,
{
}

/// Whether `name` is on the resolution stack.
fn stack_contains(stack: &Vec<Vec<char>>, name: &Vec<char>) -> (r: bool)
    ensures
        r == stack.deep_view().contains(name@),
{
    proof {
        lemma_words_deep(stack);
    }
    let mut i: usize = 0;
    while i < stack.len()
        invariant
            i <= stack@.len(),
            stack.deep_view().len() == stack@.len(),
            forall|j: int| 0 <= j < stack@.len() ==> stack.deep_view()[j] == stack@[j]@,
            forall|j: int| 0 <= j < i ==> stack.deep_view()[j] != name@,
        decreases stack@.len() - i,
    {
        if chars_eq(&stack[i], name) {
            proof {
                assert(stack.deep_view()[i as int] == name@);
            }
            return true;
        }
        i += 1;
    }
    proof {
        if stack.deep_view().contains(name@) {
            let j = choose|j: int|
                0 <= j < stack.deep_view().len() && stack.deep_view()[j] == name@;
            assert(false);
        }
    }
    false
}

/// `s` with every forward slash replaced by a backslash.
fn replace_slashes(s: &Vec<char>) -> (r: Vec<char>)
    ensures
        r@ == backslashed(s@),
{
    let mut r: Vec<char> = Vec::new();
    let mut i: usize = 0;
    while i < s.len()
        invariant
            i <= s@.len(),
            r@ =~= backslashed(s@).take(i as int),
        decreases s@.len() - i,
    {
        if s[i] == '/' {
            r.push('\\');
        } else {
            r.push(s[i]);
        }
        i += 1;
    }
    proof {
        assert(r@ =~= backslashed(s@));
    }
    r
}

/// The part of `s` after its last backslash, or all of it.
fn file_name_part(s: Vec<char>) -> (r: Vec<char>)
    ensures
        r@ == file_part(s@),
{
    let n = s.len();
    match rfind_char(&s, '\\') {
        Some(i) => copy_range(&s, i + 1, n),
        None => s,
    }
}

/// Resolve one (lowercased) variable name against the table, with
/// memoization in `binds` and cycle detection through `stack`. On
/// success the stack is as it was; on failure the whole lookup is
/// abandoned.
pub(crate) fn resolve_var(
    vars: &WordMap<VarEntry>,
    name: Vec<char>,
    binds: &mut WordMap<Vec<char>>,
    stack: &mut Vec<Vec<char>>,
) -> (r: Result<Vec<char>, EvalError>)
    ensures
        ({
            let sr = spec_resolve(name@, ast_table(vars@), old(binds)@, old(stack).deep_view());
            match r {
                Ok(v) => sr matches Ok(t) && v@ == t.0 && final(binds)@ == t.1
                    && final(stack).deep_view() == old(stack).deep_view(),
                Err(e) => sr matches Err(se) && e@ == se,
            }
        }),
    decreases eval_measure(ast_table(vars@), stack.deep_view()), 0nat,
{
    proof {
        vars.lemma_finite();
        assert(ast_table(vars@).dom() =~= vars@.dom());
    }
    let memo = binds.get(&name);
    if let Some(v) = memo {
        return Ok(copy_chars(v));
    }
    if stack_contains(stack, &name) {
        return Err(EvalError::Recursion(chars_to_string(&name)));
    }
    let entry = match vars.get(&name) {
        Some(e) => e,
        None => {
            return Err(EvalError::UnknownVariable(chars_to_string(&name)));
        },
    };
    let ghost stack0 = stack.deep_view();
    proof {
        lemma_words_deep(stack);
    }
    stack.push(copy_chars(&name));
    proof {
        lemma_words_deep(stack);
        assert(stack.deep_view() =~= stack0.push(name@));
        lemma_measure_push(ast_table(vars@), stack0, name@);
    }
    let v = match eval_node(&entry.node, vars, binds, stack) {
        Ok(v) => v,
        Err(e) => {
            return Err(e);
        },
    };
    binds.set(name, copy_chars(&v));
    let ghost before_pop = stack.deep_view();
    let ghost before_pop_vec = stack@;
    proof {
        lemma_words_deep(stack);
    }
    let _ = stack.pop();
    proof {
        lemma_words_deep(stack);
        assert(stack@ =~= before_pop_vec.drop_last());
        assert(stack.deep_view() =~= before_pop.drop_last());
        assert(before_pop.drop_last() =~= stack0);
    }
    Ok(v)
}

/// Evaluate one tree against the table, memoizing in `binds` and
/// guarding against cycles through `stack`.
pub(crate) fn eval_node(
    node: &AstNode,
    vars: &WordMap<VarEntry>,
    binds: &mut WordMap<Vec<char>>,
    stack: &mut Vec<Vec<char>>,
) -> (r: Result<Vec<char>, EvalError>)
    ensures
        ({
            let sr = spec_eval(node@, ast_table(vars@), old(binds)@, old(stack).deep_view());
            match r {
                Ok(v) => sr matches Ok(t) && v@ == t.0 && final(binds)@ == t.1
                    && final(stack).deep_view() == old(stack).deep_view(),
                Err(e) => sr matches Err(se) && e@ == se,
            }
        }),
    decreases eval_measure(ast_table(vars@), stack.deep_view()), ast_height(node@),
{
    proof {
        vars.lemma_finite();
        assert(ast_table(vars@).dom() =~= vars@.dom());
    }
    match node {
        AstNode::LiteralString(s) => Ok(copy_chars(s)),
        AstNode::Variable(nm) => {
            let low = lower_chars(nm);
            resolve_var(vars, low, binds, stack)
        },
        AstNode::FnVar(c) => {
            let v = match eval_node(&**c, vars, binds, stack) {
                Ok(v) => v,
                Err(e) => {
                    return Err(e);
                },
            };
            let low = lower_chars(&v);
            resolve_var(vars, low, binds, stack)
        },
        AstNode::FnBackslash(c) => {
            let v = match eval_node(&**c, vars, binds, stack) {
                Ok(v) => v,
                Err(e) => {
                    return Err(e);
                },
            };
            Ok(replace_slashes(&v))
        },
        AstNode::FnFile(c) => {
            let v = match eval_node(&**c, vars, binds, stack) {
                Ok(v) => v,
                Err(e) => {
                    return Err(e);
                },
            };
            Ok(file_name_part(v))
        },
        AstNode::Sequence(children) => {
            let ghost csv = view_list(children, 0);
            let ghost tbl = ast_table(vars@);
            let ghost binds0 = binds@;
            let ghost stack0 = stack.deep_view();
            proof {
                lemma_view_list(children, 0);
                assert(csv.skip(0) =~= csv);
                assert(node@ == AstView::Sequence(csv));
            }
            let mut out: Vec<char> = Vec::new();
            let mut i: usize = 0;
            while i < children.len()
                invariant
                    i <= children@.len(),
                    tbl == ast_table(vars@),
                    tbl.dom().finite(),
                    node@ == AstView::Sequence(csv),
                    binds0 == old(binds)@,
                    stack0 == old(stack).deep_view(),
                    csv == view_list(children, 0),
                    csv.len() == children@.len(),
                    forall|j: int| 0 <= j < children@.len() ==> csv[j] == children[j]@,
                    stack.deep_view() == stack0,
                    match spec_eval_list(csv.skip(i as int), tbl, binds@, stack0) {
                        Ok(t2) => spec_eval_list(csv, tbl, binds0, stack0) matches Ok(t) && t.0
                            == out@ + t2.0 && t.1 == t2.1,
                        Err(e) => spec_eval_list(csv, tbl, binds0, stack0) matches Err(e2) && e2
                            == e,
                    },
                decreases children@.len() - i,
            {
                proof {
                    lemma_heights_bound(csv, i as int);
                    assert(ast_height(node@) == 1 + ast_heights(csv));
                    assert(ast_height(children[i as int]@) < ast_height(node@));
                    assert(csv.skip(i as int)[0] == csv[i as int]);
                    assert(csv.skip(i as int).drop_first() =~= csv.skip(i as int + 1));
                }
                let v = match eval_node(&children[i], vars, binds, stack) {
                    Ok(v) => v,
                    Err(e) => {
                        return Err(e);
                    },
                };
                append_chars(&mut out, &v);
                i += 1;
            }
            proof {
                assert(csv.skip(i as int) =~= Seq::<AstView>::empty());
                assert(out@ + Seq::<char>::empty() =~= out@);
            }
            Ok(out)
        },
    }
}

/// Each tree of a list weighs at most the whole list.
pub proof fn lemma_heights_bound(nodes: Seq<AstView>, i: int)
    requires
        0 <= i < nodes.len(),
    ensures
        ast_height(nodes[i]) <= ast_heights(nodes),
    decreases nodes.len(),
{
    if i > 0 {
        lemma_heights_bound(nodes.drop_first(), i - 1);
        assert(nodes.drop_first()[i - 1] == nodes[i]);
    }
}

} // verus!
