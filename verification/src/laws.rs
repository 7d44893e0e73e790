//! Laws of the macro language and of the stream format: facts that
//! relate parsing, evaluation, memoization and the stream's structure,
//! each proved from the specifications the public functions carry.

use vstd::prelude::*;

use crate::ast::spec_parse_macro;
use crate::ast::spec_parse_term;
use crate::ast::spec_parse_terms;
use crate::ast::AstView;
use crate::chars::has_prefix;
use crate::chars::lemma_spec_find;
use crate::chars::lower_seq;
use crate::chars::spec_find;
use crate::errors::EvalErrorView;
use crate::eval::spec_eval;
use crate::eval::spec_resolve;
use crate::stream::spec_collect_files;
use crate::stream::spec_lines;
use crate::stream::spec_parse_stream;

verus! {

/// A macro string without `%` parses to a literal, and evaluating that
/// literal returns the string unchanged, whatever the variable table,
/// the bindings and the resolution stack.
pub proof fn lemma_literal_roundtrip(
    s: Seq<char>,
    vars: Map<Seq<char>, AstView>,
    binds: Map<Seq<char>, Seq<char>>,
    stack: Seq<Seq<char>>,
)
    requires
        forall|i: int| 0 <= i < s.len() ==> s[i] != '%',
        vars.dom().finite(),
    ensures
        spec_parse_macro(s) matches Ok(node) && spec_eval(node, vars, binds, stack) == Ok::<
            (Seq<char>, Map<Seq<char>, Seq<char>>),
            EvalErrorView,
        >((s, binds)),
{
    if s.len() == 0 {
        assert(spec_parse_macro(s) == Ok::<AstView, crate::errors::ParseErrorView>(
            AstView::LiteralString(Seq::<char>::empty()),
        ));
        assert(Seq::<char>::empty() =~= s);
    } else {
        lemma_spec_find(s, 0, '%');
        assert(spec_find(s, 0, '%') == s.len()) by {
            if spec_find(s, 0, '%') < s.len() {
                assert(s[spec_find(s, 0, '%')] == '%');
            }
        }
        assert(s.subrange(0, s.len() as int) =~= s);
        assert(spec_parse_term(s, 0, false) == Ok::<(AstView, int), crate::errors::ParseErrorView>(
            (AstView::LiteralString(s), s.len() as int),
        ));
        assert(spec_parse_terms(s, 0, false) == Ok::<(Seq<AstView>, int), crate::errors::ParseErrorView>(
            (seq![AstView::LiteralString(s)], s.len() as int),
        ));
    }
}

/// Within one lookup, resolving a name a second time returns the value
/// the first resolution produced, without growing the bindings: after a
/// successful resolution the name is memoized, and a later resolution,
/// from any stack, is a read of that binding.
pub proof fn lemma_resolve_memoized(
    name: Seq<char>,
    vars: Map<Seq<char>, AstView>,
    binds: Map<Seq<char>, Seq<char>>,
    stack: Seq<Seq<char>>,
    stack2: Seq<Seq<char>>,
    v: Seq<char>,
    b2: Map<Seq<char>, Seq<char>>,
)
    requires
        vars.dom().finite(),
        spec_resolve(name, vars, binds, stack) == Ok::<
            (Seq<char>, Map<Seq<char>, Seq<char>>),
            EvalErrorView,
        >((v, b2)),
    ensures
        b2.contains_key(name) && b2[name] == v,
        spec_resolve(name, vars, b2, stack2) == Ok::<
            (Seq<char>, Map<Seq<char>, Seq<char>>),
            EvalErrorView,
        >((v, b2)),
{
}

/// A table where variable `a` is a reference to variable `b` and `b` a
/// reference back to `a` fails to resolve with a recursion error; the
/// resolution terminates, as every resolution does.
pub proof fn lemma_mutual_recursion(
    a: Seq<char>,
    b: Seq<char>,
    vars: Map<Seq<char>, AstView>,
    binds: Map<Seq<char>, Seq<char>>,
)
    requires
        vars.dom().finite(),
        vars.contains_key(a) && vars[a] == AstView::Variable(b),
        vars.contains_key(b) && vars[b] == AstView::Variable(a),
        lower_seq(a) == a,
        lower_seq(b) == b,
        !binds.contains_key(a),
        !binds.contains_key(b),
    ensures
        spec_resolve(a, vars, binds, Seq::empty()) == Err::<
            (Seq<char>, Map<Seq<char>, Seq<char>>),
            EvalErrorView,
        >(EvalErrorView::Recursion(a)),
{
    let s0 = Seq::<Seq<char>>::empty();
    let s1 = s0.push(a);
    assert(!s0.contains(a));
    assert(s1.contains(b) ==> b == a) by {
        if s1.contains(b) {
            let i = choose|i: int| 0 <= i < s1.len() && s1[i] == b;
            assert(s1[0] == a);
        }
    }
    if b == a {
        assert(s1[0] == a);
        assert(s1.contains(a));
        assert(spec_eval(AstView::Variable(b), vars, binds, s1) == Err::<
            (Seq<char>, Map<Seq<char>, Seq<char>>),
            EvalErrorView,
        >(EvalErrorView::Recursion(a)));
    } else {
        let s2 = s1.push(b);
        assert(s2[0] == a);
        assert(s2.contains(a));
        assert(spec_resolve(a, vars, binds, s2) == Err::<
            (Seq<char>, Map<Seq<char>, Seq<char>>),
            EvalErrorView,
        >(EvalErrorView::Recursion(a)));
        assert(spec_eval(AstView::Variable(a), vars, binds, s2) == Err::<
            (Seq<char>, Map<Seq<char>, Seq<char>>),
            EvalErrorView,
        >(EvalErrorView::Recursion(a)));
        assert(spec_resolve(b, vars, binds, s1) == Err::<
            (Seq<char>, Map<Seq<char>, Seq<char>>),
            EvalErrorView,
        >(EvalErrorView::Recursion(a)));
        assert(spec_eval(AstView::Variable(b), vars, binds, s1) == Err::<
            (Seq<char>, Map<Seq<char>, Seq<char>>),
            EvalErrorView,
        >(EvalErrorView::Recursion(a)));
    }
}

/// Two variable references whose names agree up to ASCII case resolve
/// identically: resolution goes by the lowercased name.
pub proof fn lemma_variable_case_insensitive(
    n1: Seq<char>,
    n2: Seq<char>,
    vars: Map<Seq<char>, AstView>,
    binds: Map<Seq<char>, Seq<char>>,
    stack: Seq<Seq<char>>,
)
    requires
        vars.dom().finite(),
        lower_seq(n1) == lower_seq(n2),
    ensures
        spec_eval(AstView::Variable(n1), vars, binds, stack) == spec_eval(
            AstView::Variable(n2),
            vars,
            binds,
            stack,
        ),
{
}

/// A file absent from the records is a "not found" outcome, never an
/// error, whatever the extraction base path.
pub proof fn lemma_lookup_absent(sv: crate::StreamView, path: Seq<char>, base: Seq<char>)
    requires
        !sv.files.contains_key(lower_seq(path)),
    ensures
        crate::spec_lookup(sv, path, base) == Ok::<
            Option<(crate::MethodView, Map<Seq<char>, Seq<char>>)>,
            EvalErrorView,
        >(None),
{
}

/// A collector that stops found its marker within the lines.
proof fn lemma_collect_files_index(
    ls: Seq<Seq<char>>,
    i: int,
    acc: Map<Seq<char>, Seq<Seq<char>>>,
)
    requires
        0 <= i,
        spec_collect_files(ls, i, acc) is Ok,
    ensures
        ({
            let k = spec_collect_files(ls, i, acc)->Ok_0.1;
            i <= k < ls.len() && has_prefix(ls[k], "SRCSRV:"@)
        }),
    decreases ls.len() - i,
{
    if i < ls.len() && !has_prefix(ls[i], "SRCSRV:"@) {
        let fields = crate::stream::spec_split_star(ls[i], 0, 10);
        lemma_collect_files_index(ls, i + 1, acc.insert(lower_seq(fields[0]), fields));
    }
}

/// A stream that parses successfully holds a line that starts the end
/// marker: without `SRCSRV: end --` no stream parses.
pub proof fn lemma_end_marker_required(text: Seq<char>)
    requires
        spec_parse_stream(text) is Ok,
    ensures
        exists|i: int|
            0 <= i < spec_lines(text).len() && has_prefix(
                #[trigger] spec_lines(text)[i],
                "SRCSRV: end --"@,
            ),
{
    let ls = spec_lines(text);
    let ini_r = crate::stream::spec_collect_ini(ls, 1, Map::empty());
    let i = ini_r->Ok_0.1;
    let vars_r = crate::stream::spec_collect_vars(ls, i + 1, Map::empty());
    let j = vars_r->Ok_0.1;
    let files_r = spec_collect_files(ls, j + 1, Map::empty());
    let k = files_r->Ok_0.1;
    assert(files_r is Ok && has_prefix(ls[k], "SRCSRV: end --"@));
    lemma_collect_files_index(ls, j + 1, Map::empty());
    assert(0 <= k < ls.len());
}

} // verus!
