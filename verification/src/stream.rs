//! The line-oriented structure of a srcsrv stream: splitting the text
//! into lines, splitting lines at delimiters, and the four sections of
//! the format, each mirrored by a specification function.

use vstd::prelude::*;

use crate::ast::AstView;
use crate::chars::copy_range;
use crate::chars::find_char;
use crate::chars::has_prefix;
use crate::chars::lower_seq;
use crate::chars::spec_find;
use crate::ast::AstNode;
use crate::chars::lower_chars;
use crate::chars::starts_with_word;
use crate::errors::ParseError;
use crate::errors::ParseErrorView;
use crate::eval::VarEntry;
use crate::maps::WordMap;
use crate::text::str_to_chars;

verus! {

broadcast use crate::chars::lemma_deep_view_chars;

/// A line with a final carriage return removed.
pub open spec fn strip_cr(l: Seq<char>) -> Seq<char> {
    if l.len() > 0 && l.last() == '\r' {
        l.drop_last()
    } else {
        l
    }
}

/// The lines of `s` from position `pos` on, split at `\n`, each with a
/// final `\r` removed; a final line ending yields no extra empty line.
pub open spec fn spec_lines_from(s: Seq<char>, pos: int) -> Seq<Seq<char>>
    decreases s.len() - pos,
{
    if pos < 0 || pos >= s.len() {
        Seq::empty()
    } else {
        let p = spec_find(s, pos, '\n');
        if p >= s.len() {
            seq![strip_cr(s.subrange(pos, s.len() as int))]
        } else if p >= pos {
            seq![strip_cr(s.subrange(pos, p))] + spec_lines_from(s, p + 1)
        } else {
            // a scan never stops short of its start; this arm is not taken
            Seq::empty()
        }
    }
}

/// The lines of a whole text.
pub open spec fn spec_lines(s: Seq<char>) -> Seq<Seq<char>> {
    spec_lines_from(s, 0)
}

/// The deep view of a list of words after a push.
pub proof fn lemma_words_deep_push(a: &Vec<Vec<char>>, b: &Vec<Vec<char>>, w: Seq<char>)
    requires
        b@.len() == a@.len() + 1,
        forall|j: int| 0 <= j < a@.len() ==> b@[j] == a@[j],
        b@[a@.len() as int]@ == w,
    ensures
        b.deep_view() == a.deep_view() + seq![w],
{
    crate::eval::lemma_words_deep(a);
    crate::eval::lemma_words_deep(b);
    assert(b.deep_view() =~= a.deep_view() + seq![w]);
}

/// Split a text into its lines.
pub fn split_lines(text: &Vec<char>) -> (r: Vec<Vec<char>>)
    ensures
        r.deep_view() == spec_lines(text@),
{
    let mut r: Vec<Vec<char>> = Vec::new();
    let mut pos: usize = 0;
    proof {
        crate::eval::lemma_words_deep(&r);
        assert(r.deep_view() =~= Seq::<Seq<char>>::empty());
        assert(Seq::<Seq<char>>::empty() + spec_lines_from(text@, 0) =~= spec_lines_from(
            text@,
            0,
        ));
    }
    while pos < text.len()
        invariant
            pos <= text@.len(),
            spec_lines(text@) == r.deep_view() + spec_lines_from(text@, pos as int),
        decreases text@.len() - pos,
    {
        let p = find_char(text, pos, '\n');
        let mut line = copy_range(text, pos, p);
        let ghost raw_line = line@;
        if line.len() > 0 && line[line.len() - 1] == '\r' {
            let _ = line.pop();
            proof {
                assert(line@ =~= raw_line.drop_last());
            }
        }
        proof {
            assert(line@ == strip_cr(raw_line));
        }
        let ghost old_r = r;
        let ghost old_pos = pos as int;
        r.push(line);
        proof {
            lemma_words_deep_push(&old_r, &r, strip_cr(raw_line));
        }
        if p >= text.len() {
            pos = text.len();
            proof {
                assert(spec_lines_from(text@, old_pos) =~= seq![strip_cr(raw_line)]);
                assert(r.deep_view() + spec_lines_from(text@, pos as int) =~= old_r.deep_view()
                    + spec_lines_from(text@, old_pos));
            }
        } else {
            pos = p + 1;
            proof {
                assert(spec_lines_from(text@, old_pos) =~= seq![strip_cr(raw_line)]
                    + spec_lines_from(text@, pos as int));
                assert(r.deep_view() + spec_lines_from(text@, pos as int) =~= old_r.deep_view()
                    + spec_lines_from(text@, old_pos));
            }
        }
    }
    proof {
        assert(spec_lines_from(text@, pos as int) =~= Seq::<Seq<char>>::empty());
        assert(r.deep_view() + Seq::<Seq<char>>::empty() =~= r.deep_view());
    }
    r
}

/// A `name=value` line, split at its first `=`; `None` when it has none.
pub open spec fn spec_split_eq(l: Seq<char>) -> Option<(Seq<char>, Seq<char>)> {
    let p = spec_find(l, 0, '=');
    if p >= l.len() {
        None
    } else {
        Some((l.subrange(0, p), l.subrange(p + 1, l.len() as int)))
    }
}

/// Split a line at its first `=`.
pub fn split_eq(l: &Vec<char>) -> (r: Option<(Vec<char>, Vec<char>)>)
    ensures
        match r {
            Some(t) => spec_split_eq(l@) matches Some(st) && t.0@ == st.0 && t.1@ == st.1,
            None => spec_split_eq(l@) is None,
        },
{
    let p = find_char(l, 0, '=');
    if p >= l.len() {
        None
    } else {
        Some((copy_range(l, 0, p), copy_range(l, p + 1, l.len())))
    }
}

/// A line split at `*` into at most `slots` fields; the last field takes
/// the rest of the line, delimiters included.
pub open spec fn spec_split_star(l: Seq<char>, from: int, slots: nat) -> Seq<Seq<char>>
    decreases slots,
{
    if from < 0 || from > l.len() {
        Seq::empty()
    } else if slots <= 1 {
        seq![l.subrange(from, l.len() as int)]
    } else {
        let p = spec_find(l, from, '*');
        if p >= l.len() {
            seq![l.subrange(from, l.len() as int)]
        } else if p >= from {
            seq![l.subrange(from, p)] + spec_split_star(l, p + 1, (slots - 1) as nat)
        } else {
            // a scan never stops short of its start; this arm is not taken
            Seq::empty()
        }
    }
}

/// A split yields at least one and at most `slots` fields.
pub proof fn lemma_split_star_len(l: Seq<char>, from: int, slots: nat)
    requires
        0 <= from <= l.len(),
        slots >= 1,
    ensures
        1 <= spec_split_star(l, from, slots).len() <= slots,
    decreases slots,
{
    if slots > 1 {
        let p = spec_find(l, from, '*');
        crate::chars::lemma_spec_find(l, from, '*');
        if p < l.len() {
            lemma_split_star_len(l, p + 1, (slots - 1) as nat);
        }
    }
}

/// Split a line at `*` into at most ten fields.
pub fn split_star_ten(l: &Vec<char>) -> (r: Vec<Vec<char>>)
    ensures
        r.deep_view() == spec_split_star(l@, 0, 10),
        1 <= r.deep_view().len() <= 10,
{
    let mut r: Vec<Vec<char>> = Vec::new();
    let mut from: usize = 0;
    let mut slots: usize = 10;
    proof {
        crate::eval::lemma_words_deep(&r);
        assert(r.deep_view() =~= Seq::<Seq<char>>::empty());
        assert(Seq::<Seq<char>>::empty() + spec_split_star(l@, 0, 10) =~= spec_split_star(
            l@,
            0,
            10,
        ));
    }
    while slots > 1
        invariant
            1 <= slots <= 10,
            from <= l@.len(),
            spec_split_star(l@, 0, 10) == r.deep_view() + spec_split_star(
                l@,
                from as int,
                slots as nat,
            ),
        decreases slots,
    {
        let p = find_char(l, from, '*');
        if p >= l.len() {
            let tail = copy_range(l, from, l.len());
            let ghost old_r = r;
            r.push(tail);
            proof {
                lemma_words_deep_push(&old_r, &r, l@.subrange(from as int, l@.len() as int));
                assert(spec_split_star(l@, from as int, slots as nat) =~= seq![
                    l@.subrange(from as int, l@.len() as int),
                ]);
                assert(r.deep_view() =~= old_r.deep_view() + spec_split_star(
                    l@,
                    from as int,
                    slots as nat,
                ));
                lemma_split_star_len(l@, 0, 10);
            }
            return r;
        }
        let field = copy_range(l, from, p);
        let ghost old_r = r;
        let ghost old_from = from as int;
        let ghost old_slots = slots as nat;
        r.push(field);
        proof {
            lemma_words_deep_push(&old_r, &r, l@.subrange(old_from, p as int));
        }
        from = p + 1;
        slots = slots - 1;
        proof {
            assert(spec_split_star(l@, old_from, old_slots) =~= seq![
                l@.subrange(old_from, p as int),
            ] + spec_split_star(l@, from as int, slots as nat));
            assert(r.deep_view() + spec_split_star(l@, from as int, slots as nat)
                =~= old_r.deep_view() + spec_split_star(l@, old_from, old_slots));
        }
    }
    let tail = copy_range(l, from, l.len());
    let ghost old_r = r;
    r.push(tail);
    proof {
        lemma_words_deep_push(&old_r, &r, l@.subrange(from as int, l@.len() as int));
        assert(spec_split_star(l@, from as int, slots as nat) =~= seq![
            l@.subrange(from as int, l@.len() as int),
        ]);
        assert(r.deep_view() =~= old_r.deep_view() + spec_split_star(
            l@,
            from as int,
            slots as nat,
        ));
        lemma_split_star_len(l@, 0, 10);
    }
    r
}

/// The parsed representation of a stream: its version, the ini fields,
/// the variable table (raw text and tree for each name), and the source
/// file records, all keyed by lowercased names.
pub struct StreamView {
    pub version: int,
    pub ini: Map<Seq<char>, Seq<char>>,
    pub vars: Map<Seq<char>, (Seq<char>, AstView)>,
    pub files: Map<Seq<char>, Seq<Seq<char>>>,
}

/// Collect the `name=value` lines of the ini section from line `i` on,
/// into `acc`, lowercasing each name; stops at the first `SRCSRV:` line
/// and returns its index.
pub open spec fn spec_collect_ini(
    ls: Seq<Seq<char>>,
    i: int,
    acc: Map<Seq<char>, Seq<char>>,
) -> Result<(Map<Seq<char>, Seq<char>>, int), ParseErrorView>
    decreases ls.len() - i,
{
    if i < 0 || i >= ls.len() {
        Err(ParseErrorView::UnexpectedEof)
    } else if has_prefix(ls[i], "SRCSRV:"@) {
        Ok((acc, i))
    } else {
        match spec_split_eq(ls[i]) {
            None => Err(ParseErrorView::MissingEquals),
            Some((n, v)) => spec_collect_ini(ls, i + 1, acc.insert(lower_seq(n), v)),
        }
    }
}

/// Collect the variables section from line `i` on: each value is parsed
/// as a macro string at once, and a value that does not parse fails the
/// whole stream.
pub open spec fn spec_collect_vars(
    ls: Seq<Seq<char>>,
    i: int,
    acc: Map<Seq<char>, (Seq<char>, AstView)>,
) -> Result<(Map<Seq<char>, (Seq<char>, AstView)>, int), ParseErrorView>
    decreases ls.len() - i,
{
    if i < 0 || i >= ls.len() {
        Err(ParseErrorView::UnexpectedEof)
    } else if has_prefix(ls[i], "SRCSRV:"@) {
        Ok((acc, i))
    } else {
        match spec_split_eq(ls[i]) {
            None => Err(ParseErrorView::MissingEquals),
            Some((n, v)) => match crate::ast::spec_parse_macro(v) {
                Err(e) => Err(e),
                Ok(node) => spec_collect_vars(ls, i + 1, acc.insert(lower_seq(n), (v, node))),
            },
        }
    }
}

/// Collect the source file records from line `i` on: each line is split
/// at `*` into at most ten fields, and its first field, lowercased, is
/// the lookup key.
pub open spec fn spec_collect_files(
    ls: Seq<Seq<char>>,
    i: int,
    acc: Map<Seq<char>, Seq<Seq<char>>>,
) -> Result<(Map<Seq<char>, Seq<Seq<char>>>, int), ParseErrorView>
    decreases ls.len() - i,
{
    if i < 0 || i >= ls.len() {
        Err(ParseErrorView::UnexpectedEof)
    } else if has_prefix(ls[i], "SRCSRV:"@) {
        Ok((acc, i))
    } else {
        let fields = spec_split_star(ls[i], 0, 10);
        spec_collect_files(ls, i + 1, acc.insert(lower_seq(fields[0]), fields))
    }
}

/// The version a recognized `VERSION` value denotes.
pub open spec fn spec_version_of(ini: Map<Seq<char>, Seq<char>>) -> Result<int, ParseErrorView> {
    if !ini.contains_key("version"@) {
        Err(ParseErrorView::MissingVersion)
    } else if ini["version"@] == "1"@ {
        Ok(1)
    } else if ini["version"@] == "2"@ {
        Ok(2)
    } else if ini["version"@] == "3"@ {
        Ok(3)
    } else {
        Err(ParseErrorView::UnrecognizedVersion(ini["version"@]))
    }
}

/// The whole stream, given as its lines: the four sections in order,
/// each opened by its marker, with the version and the required
/// `SRCSRVTRG` field checked where the original reader checks them.
pub open spec fn spec_parse_stream_lines(ls: Seq<Seq<char>>) -> Result<
    StreamView,
    ParseErrorView,
> {
    if ls.len() == 0 {
        Err(ParseErrorView::UnexpectedEof)
    } else if !has_prefix(ls[0], "SRCSRV: ini --"@) {
        Err(ParseErrorView::MissingIniSection)
    } else {
        match spec_collect_ini(ls, 1, Map::empty()) {
            Err(e) => Err(e),
            Ok((ini, i)) => match spec_version_of(ini) {
                Err(e) => Err(e),
                Ok(version) => if !has_prefix(ls[i], "SRCSRV: variables --"@) {
                    Err(ParseErrorView::MissingVariablesSection)
                } else {
                    match spec_collect_vars(ls, i + 1, Map::empty()) {
                        Err(e) => Err(e),
                        Ok((vars, j)) => if !vars.contains_key("srcsrvtrg"@) {
                            Err(ParseErrorView::MissingSrcSrvTrgField)
                        } else if !has_prefix(ls[j], "SRCSRV: source files --"@) {
                            Err(ParseErrorView::MissingSourceFilesSection)
                        } else {
                            match spec_collect_files(ls, j + 1, Map::empty()) {
                                Err(e) => Err(e),
                                Ok((files, k)) => if !has_prefix(ls[k], "SRCSRV: end --"@) {
                                    Err(ParseErrorView::MissingTerminationLine)
                                } else {
                                    Ok(StreamView { version, ini, vars, files })
                                },
                            }
                        },
                    }
                },
            },
        }
    }
}

/// The whole stream, given as its decoded text.
pub open spec fn spec_parse_stream(text: Seq<char>) -> Result<StreamView, ParseErrorView> {
    spec_parse_stream_lines(spec_lines(text))
}

/// Collect the ini section.
pub(crate) fn collect_ini(lines: &Vec<Vec<char>>, start: usize) -> (r: Result<
    (WordMap<Vec<char>>, usize),
    ParseError,
>)
    requires
        start <= lines@.len(),
    ensures
        ({
            let sr = spec_collect_ini(lines.deep_view(), start as int, Map::empty());
            match r {
                Ok(t) => sr matches Ok(st) && t.0@ == st.0 && t.1 as int == st.1 && t.1
                    < lines@.len(),
                Err(e) => sr matches Err(se) && e@ == se,
            }
        }),
{
    let ghost ls = lines.deep_view();
    proof {
        crate::eval::lemma_words_deep(lines);
    }
    let marker = str_to_chars("SRCSRV:");
    let mut acc = WordMap::<Vec<char>>::new();
    let mut i = start;
    loop
        invariant
            ls == lines.deep_view(),
            ls.len() == lines@.len(),
            forall|j: int| 0 <= j < lines@.len() ==> ls[j] == lines@[j]@,
            start <= i <= lines@.len() + 1,
            marker@ == "SRCSRV:"@,
            spec_collect_ini(ls, start as int, Map::empty()) == spec_collect_ini(
                ls,
                i as int,
                acc@,
            ),
        decreases lines@.len() + 1 - i,
    {
        if i >= lines.len() {
            return Err(ParseError::UnexpectedEof);
        }
        if starts_with_word(&lines[i], &marker) {
            return Ok((acc, i));
        }
        match split_eq(&lines[i]) {
            None => {
                return Err(ParseError::MissingEquals);
            },
            Some(t) => {
                let low = lower_chars(&t.0);
                acc.set(low, t.1);
                i += 1;
            },
        }
    }
}

/// Collect the variables section, parsing each value as a macro string.
pub(crate) fn collect_vars(lines: &Vec<Vec<char>>, start: usize) -> (r: Result<
    (WordMap<VarEntry>, usize),
    ParseError,
>)
    requires
        start <= lines@.len(),
    ensures
        ({
            let sr = spec_collect_vars(lines.deep_view(), start as int, Map::empty());
            match r {
                Ok(t) => sr matches Ok(st) && t.0@ == st.0 && t.1 as int == st.1 && t.1
                    < lines@.len(),
                Err(e) => sr matches Err(se) && e@ == se,
            }
        }),
{
    let ghost ls = lines.deep_view();
    proof {
        crate::eval::lemma_words_deep(lines);
    }
    let marker = str_to_chars("SRCSRV:");
    let mut acc = WordMap::<VarEntry>::new();
    let mut i = start;
    loop
        invariant
            ls == lines.deep_view(),
            ls.len() == lines@.len(),
            forall|j: int| 0 <= j < lines@.len() ==> ls[j] == lines@[j]@,
            start <= i <= lines@.len() + 1,
            marker@ == "SRCSRV:"@,
            spec_collect_vars(ls, start as int, Map::empty()) == spec_collect_vars(
                ls,
                i as int,
                acc@,
            ),
        decreases lines@.len() + 1 - i,
    {
        if i >= lines.len() {
            return Err(ParseError::UnexpectedEof);
        }
        if starts_with_word(&lines[i], &marker) {
            return Ok((acc, i));
        }
        match split_eq(&lines[i]) {
            None => {
                return Err(ParseError::MissingEquals);
            },
            Some(t) => {
                let node = match AstNode::parse_macro_chars(&t.1) {
                    Ok(node) => node,
                    Err(e) => {
                        return Err(e);
                    },
                };
                let low = lower_chars(&t.0);
                acc.set(low, VarEntry { raw: t.1, node });
                i += 1;
            },
        }
    }
}

/// Collect the source file records.
pub(crate) fn collect_files(lines: &Vec<Vec<char>>, start: usize) -> (r: Result<
    (WordMap<Vec<Vec<char>>>, usize),
    ParseError,
>)
    requires
        start <= lines@.len(),
    ensures
        ({
            let sr = spec_collect_files(lines.deep_view(), start as int, Map::empty());
            match r {
                Ok(t) => sr matches Ok(st) && t.0@ == st.0 && t.1 as int == st.1 && t.1
                    < lines@.len(),
                Err(e) => sr matches Err(se) && e@ == se,
            }
        }),
{
    let ghost ls = lines.deep_view();
    proof {
        crate::eval::lemma_words_deep(lines);
    }
    let marker = str_to_chars("SRCSRV:");
    let mut acc = WordMap::<Vec<Vec<char>>>::new();
    let mut i = start;
    loop
        invariant
            ls == lines.deep_view(),
            ls.len() == lines@.len(),
            forall|j: int| 0 <= j < lines@.len() ==> ls[j] == lines@[j]@,
            start <= i <= lines@.len() + 1,
            marker@ == "SRCSRV:"@,
            spec_collect_files(ls, start as int, Map::empty()) == spec_collect_files(
                ls,
                i as int,
                acc@,
            ),
        decreases lines@.len() + 1 - i,
    {
        if i >= lines.len() {
            return Err(ParseError::UnexpectedEof);
        }
        if starts_with_word(&lines[i], &marker) {
            return Ok((acc, i));
        }
        let fields = split_star_ten(&lines[i]);
        proof {
            crate::eval::lemma_words_deep(&fields);
        }
        let key = lower_chars(&fields[0]);
        acc.set(key, fields);
        i += 1;
    }
}

} // verus!
