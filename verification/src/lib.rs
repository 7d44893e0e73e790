//! Parse a `srcsrv` stream from a Windows PDB file and look up file
//! paths to see how the source for these paths can be obtained:
//!
//!  - either by downloading the file from a URL directly
//!    ([`SourceRetrievalMethod::Download`]),
//!  - or by executing a command, which will create the file at a certain
//!    path ([`SourceRetrievalMethod::ExecuteCommand`]).

use vstd::prelude::*;
use vstd::utf8::decode_utf8;
use vstd::utf8::valid_utf8;

pub mod ast;
pub mod chars;
pub mod errors;
pub mod eval;
pub mod laws;
pub mod maps;
pub mod stream;
mod text;

pub use ast::AstNode;
pub use ast::AstView;
pub use errors::EvalError;
pub use errors::EvalErrorView;
pub use errors::ParseError;
pub use errors::ParseErrorView;
pub use maps::EvalVarMap;
pub use stream::StreamView;

use chars::chars_eq;
use chars::copy_chars;
use chars::has_prefix;
use chars::lower_chars;
use chars::lower_seq;
use chars::spec_find;
use chars::starts_with_word;
use eval::ast_table;
use eval::eval_node;
use eval::resolve_var;
use eval::spec_eval;
use eval::spec_resolve;
use eval::VarEntry;
use maps::WordMap;
use stream::collect_files;
use stream::collect_ini;
use stream::collect_vars;
use stream::spec_parse_stream;
use stream::spec_split_eq;
use stream::split_eq;
use stream::split_lines;
use text::chars_to_string;
use text::decode_utf8_chars;
use text::str_to_chars;

verus! {

broadcast use chars::lemma_deep_view_chars;

/// Describes how the source file can be obtained.
#[derive(Debug, PartialEq, Eq)]
pub enum SourceRetrievalMethod {
    /// The source can be downloaded from the web, at the given URL.
    Download { url: String },
    /// Evaluating the given command on the Windows command shell with the
    /// given environment variables will create the source file at
    /// `target_path`.
    ExecuteCommand {
        /// The command to execute.
        command: String,
        /// The environment variables to set during command execution, in
        /// the order the stream gives them.
        env: Vec<(String, String)>,
        /// An optional version control string.
        version_ctrl: Option<String>,
        /// The path at which the extracted file will appear once the
        /// command has run.
        target_path: String,
        /// An optional string which identifies files that use the same
        /// version control system, used for error persistence: when a
        /// command fails and its output matches one of the strings in
        /// [`SrcSrvStream::error_persistence_command_output_strings`],
        /// commands for further files with the same value here should be
        /// skipped.
        error_persistence_version_control: Option<String>,
    },
    /// Grab bag for other cases, carrying the resolved variable values.
    Other { raw_var_values: EvalVarMap },
}

/// The mathematical shape of a [`SourceRetrievalMethod`].
pub enum MethodView {
    Download { url: Seq<char> },
    ExecuteCommand {
        command: Seq<char>,
        env: Seq<(Seq<char>, Seq<char>)>,
        version_ctrl: Option<Seq<char>>,
        target_path: Seq<char>,
        error_persistence_version_control: Option<Seq<char>>,
    },
    Other { raw_var_values: Map<Seq<char>, Seq<char>> },
}

impl View for SourceRetrievalMethod {
    type V = MethodView;

    open spec fn view(&self) -> MethodView {
        match self {
            SourceRetrievalMethod::Download { url } => MethodView::Download { url: url@ },
            SourceRetrievalMethod::ExecuteCommand {
                command,
                env,
                version_ctrl,
                target_path,
                error_persistence_version_control,
            } => MethodView::ExecuteCommand {
                command: command@,
                env: env.deep_view(),
                version_ctrl: version_ctrl.deep_view(),
                target_path: target_path@,
                error_persistence_version_control: error_persistence_version_control.deep_view(),
            },
            SourceRetrievalMethod::Other { raw_var_values } => MethodView::Other {
                raw_var_values: raw_var_values@,
            },
        }
    }
}

/// The name of the positional variable `var1` .. `var10`.
pub open spec fn spec_var_name(n: int) -> Seq<char> {
    if n == 1 {
        "var1"@
    } else if n == 2 {
        "var2"@
    } else if n == 3 {
        "var3"@
    } else if n == 4 {
        "var4"@
    } else if n == 5 {
        "var5"@
    } else if n == 6 {
        "var6"@
    } else if n == 7 {
        "var7"@
    } else if n == 8 {
        "var8"@
    } else if n == 9 {
        "var9"@
    } else if n == 10 {
        "var10"@
    } else {
        Seq::empty()
    }
}

/// The first `k` positional fields of a record, bound to `var1` .. on
/// top of `base`.
pub open spec fn spec_seed_binds(
    base: Map<Seq<char>, Seq<char>>,
    fields: Seq<Seq<char>>,
    k: int,
) -> Map<Seq<char>, Seq<char>>
    decreases k,
{
    if k <= 0 {
        base
    } else {
        spec_seed_binds(base, fields, k - 1).insert(spec_var_name(k), fields[k - 1])
    }
}

/// How many positional fields are bound: a record holds at most ten.
pub open spec fn spec_seed_count(fields: Seq<Seq<char>>) -> int {
    if fields.len() <= 10 {
        fields.len() as int
    } else {
        10
    }
}

/// The environment entries of a resolved environment block from `from`
/// on: chunks delimited by the control byte 8, each split at its first
/// `=`; chunks without `=` are dropped.
pub open spec fn spec_env_entries(e: Seq<char>, from: int) -> Seq<(Seq<char>, Seq<char>)>
    decreases e.len() - from,
{
    if from < 0 || from > e.len() {
        Seq::empty()
    } else {
        let p = spec_find(e, from, '\u{8}');
        if p >= e.len() {
            match spec_split_eq(e.subrange(from, e.len() as int)) {
                Some(pair) => seq![pair],
                None => Seq::empty(),
            }
        } else if p >= from {
            let these = match spec_split_eq(e.subrange(from, p)) {
                Some(pair) => seq![pair],
                None => Seq::empty(),
            };
            these + spec_env_entries(e, p + 1)
        } else {
            // a scan never stops short of its start; this arm is not taken
            Seq::empty()
        }
    }
}

/// Resolve one optional top-level field: absent from the variable table
/// means no value and no work; present means it is resolved like any
/// other variable.
pub open spec fn spec_optional(
    name: Seq<char>,
    sv: StreamView,
    binds: Map<Seq<char>, Seq<char>>,
) -> Result<(Option<Seq<char>>, Map<Seq<char>, Seq<char>>), EvalErrorView> {
    if !sv.vars.contains_key(name) {
        Ok((None, binds))
    } else {
        match spec_resolve(name, ast_table(sv.vars), binds, Seq::empty()) {
            Err(e) => Err(e),
            Ok((v, b2)) => Ok((Some(v), b2)),
        }
    }
}

/// Classify a finished lookup: a resolved command means command
/// execution with the split environment; else a target that starts with
/// `http://` or `https://` is a download; anything else carries the raw
/// resolved values.
pub open spec fn spec_classify(
    target: Seq<char>,
    cmd: Option<Seq<char>>,
    env: Option<Seq<char>>,
    version_ctrl: Option<Seq<char>>,
    err_persist: Option<Seq<char>>,
    binds: Map<Seq<char>, Seq<char>>,
) -> MethodView {
    match cmd {
        Some(c) => MethodView::ExecuteCommand {
            command: c,
            env: match env {
                Some(e) => spec_env_entries(e, 0),
                None => Seq::empty(),
            },
            version_ctrl,
            target_path: target,
            error_persistence_version_control: err_persist,
        },
        None => if has_prefix(target, "http://"@) || has_prefix(target, "https://"@) {
            MethodView::Download { url: target }
        } else {
            MethodView::Other { raw_var_values: binds }
        },
    }
}

/// One file lookup against a parsed stream: a path absent from the
/// records is no error; a matched record seeds `var1` .. with its
/// positional fields and `targ` with the extraction base path, resolves
/// `SRCSRVTRG` and the optional command, environment and version-control
/// fields, and classifies the outcome. The error-persistence value is
/// the seeded binding that the raw `SRCSRVERRVAR` value names, if any.
pub open spec fn spec_lookup(sv: StreamView, path: Seq<char>, base: Seq<char>) -> Result<
    Option<(MethodView, Map<Seq<char>, Seq<char>>)>,
    EvalErrorView,
> {
    if !sv.files.contains_key(lower_seq(path)) {
        Ok(None)
    } else {
        let fields = sv.files[lower_seq(path)];
        let binds0 = spec_seed_binds(Map::empty(), fields, spec_seed_count(fields));
        let err_persist = if sv.vars.contains_key("srcsrverrvar"@) {
            let raw = sv.vars["srcsrverrvar"@].0;
            if binds0.contains_key(raw) {
                Some(binds0[raw])
            } else {
                None
            }
        } else {
            None
        };
        let binds1 = binds0.insert("targ"@, base);
        match spec_resolve("srcsrvtrg"@, ast_table(sv.vars), binds1, Seq::empty()) {
            Err(e) => Err(e),
            Ok((target, b2)) => match spec_optional("srcsrvcmd"@, sv, b2) {
                Err(e) => Err(e),
                Ok((cmd, b3)) => match spec_optional("srcsrvenv"@, sv, b3) {
                    Err(e) => Err(e),
                    Ok((env, b4)) => match spec_optional("srcsrvverctrl"@, sv, b4) {
                        Err(e) => Err(e),
                        Ok((vc, b5)) => Ok(
                            Some((spec_classify(target, cmd, env, vc, err_persist, b5), b5)),
                        ),
                    },
                },
            },
        }
    }
}

/// The name of the positional variable `var1` .. `var10`, as a word.
fn var_name_word(n: usize) -> (r: Vec<char>)
    requires
        1 <= n <= 10,
    ensures
        r@ == spec_var_name(n as int),
{
    if n == 1 {
        str_to_chars("var1")
    } else if n == 2 {
        str_to_chars("var2")
    } else if n == 3 {
        str_to_chars("var3")
    } else if n == 4 {
        str_to_chars("var4")
    } else if n == 5 {
        str_to_chars("var5")
    } else if n == 6 {
        str_to_chars("var6")
    } else if n == 7 {
        str_to_chars("var7")
    } else if n == 8 {
        str_to_chars("var8")
    } else if n == 9 {
        str_to_chars("var9")
    } else {
        str_to_chars("var10")
    }
}

/// The deep view of a list of name/value pairs, one pair at a time.
proof fn lemma_pairs_deep(v: &Vec<(String, String)>)
    ensures
        v.deep_view().len() == v@.len(),
        forall|i: int| 0 <= i < v@.len() ==> v.deep_view()[i] == (v@[i].0@, v@[i].1@),
{
}

/// Split a resolved environment block into its name/value pairs.
fn env_pairs(e: &Vec<char>) -> (r: Vec<(String, String)>)
    ensures
        r.deep_view() == spec_env_entries(e@, 0),
{
    let mut r: Vec<(String, String)> = Vec::new();
    let mut from: usize = 0;
    proof {
        lemma_pairs_deep(&r);
        assert(r.deep_view() =~= Seq::<(Seq<char>, Seq<char>)>::empty());
        assert(Seq::<(Seq<char>, Seq<char>)>::empty() + spec_env_entries(e@, 0)
            =~= spec_env_entries(e@, 0));
    }
    loop
        invariant
            from <= e@.len(),
            spec_env_entries(e@, 0) == r.deep_view() + spec_env_entries(e@, from as int),
        decreases e@.len() + 1 - from,
    {
        let p = chars::find_char(e, from, '\u{8}');
        let chunk = chars::copy_range(e, from, p);
        let pair: Option<(Vec<char>, Vec<char>)> = split_eq(&chunk);
        let ghost old_r = r;
        let ghost old_from = from as int;
        if let Some(t) = pair {
            let ghost pv = (t.0@, t.1@);
            r.push((chars_to_string(&t.0), chars_to_string(&t.1)));
            proof {
                lemma_pairs_deep(&old_r);
                lemma_pairs_deep(&r);
                assert(r.deep_view() =~= old_r.deep_view() + seq![pv]);
            }
        }
        if p >= e.len() {
            proof {
                assert(r.deep_view() + Seq::<(Seq<char>, Seq<char>)>::empty() =~= r.deep_view());
            }
            return r;
        }
        from = p + 1;
        proof {
            assert(r.deep_view() + spec_env_entries(e@, from as int) =~= old_r.deep_view()
                + spec_env_entries(e@, old_from));
        }
    }
}

/// The raw values of the variables whose name begins with
/// `srcsrverrdesc`.
pub open spec fn spec_errdesc_values(vars: Map<Seq<char>, (Seq<char>, AstView)>) -> Set<
    Seq<char>,
> {
    Set::new(
        |v: Seq<char>|
            exists|name: Seq<char>|
                #![trigger vars.contains_key(name)]
                vars.contains_key(name) && has_prefix(name, "srcsrverrdesc"@) && vars[name].0
                    == v,
    )
}

/// A parsed representation of the `srcsrv` stream from a PDB file.
#[derive(Debug)]
pub struct SrcSrvStream {
    /// 1, 2 or 3, from the VERSION ini field.
    version: u8,
    /// Lowercased field name -> field value.
    ini_fields: WordMap<Vec<char>>,
    /// Lowercased field name -> (raw field value, parsed field value).
    var_fields: WordMap<VarEntry>,
    /// Lowercased original path -> positional fields.
    source_file_entries: WordMap<Vec<Vec<char>>>,
}

impl View for SrcSrvStream {
    type V = StreamView;

    closed spec fn view(&self) -> StreamView {
        StreamView {
            version: self.version as int,
            ini: self.ini_fields@,
            vars: self.var_fields@,
            files: self.source_file_entries@,
        }
    }
}

impl SrcSrvStream {
    /// Parse the `srcsrv` stream, given as its raw bytes.
    pub fn parse(stream: &[u8]) -> (r: Result<SrcSrvStream, ParseError>)
        ensures
            !valid_utf8(stream@) ==> (r matches Err(e) && e@ == ParseErrorView::InvalidUtf8),
            valid_utf8(stream@) ==> match spec_parse_stream(decode_utf8(stream@)) {
                Ok(m) => r matches Ok(s) && s@ == m,
                Err(pe) => r matches Err(e) && e@ == pe,
            },
    {
        let text = match decode_utf8_chars(stream) {
            Some(t) => t,
            None => {
                return Err(ParseError::InvalidUtf8);
            },
        };
        let lines = split_lines(&text);
        proof {
            eval::lemma_words_deep(&lines);
        }
        if lines.len() == 0 {
            return Err(ParseError::UnexpectedEof);
        }
        let ini_marker = str_to_chars("SRCSRV: ini --");
        if !starts_with_word(&lines[0], &ini_marker) {
            return Err(ParseError::MissingIniSection);
        }
        let section_ini = match collect_ini(&lines, 1) {
            Ok(t) => t,
            Err(e) => {
                return Err(e);
            },
        };
        let ini = section_ini.0;
        let i = section_ini.1;
        let version_key = str_to_chars("version");
        let version: u8 = match ini.get(&version_key) {
            None => {
                return Err(ParseError::MissingVersion);
            },
            Some(v) => {
                let one = str_to_chars("1");
                let two = str_to_chars("2");
                let three = str_to_chars("3");
                if chars_eq(v, &one) {
                    1
                } else if chars_eq(v, &two) {
                    2
                } else if chars_eq(v, &three) {
                    3
                } else {
                    return Err(ParseError::UnrecognizedVersion(chars_to_string(v)));
                }
            },
        };
        let vars_marker = str_to_chars("SRCSRV: variables --");
        if !starts_with_word(&lines[i], &vars_marker) {
            return Err(ParseError::MissingVariablesSection);
        }
        let section_vars = match collect_vars(&lines, i + 1) {
            Ok(t) => t,
            Err(e) => {
                return Err(e);
            },
        };
        let vars = section_vars.0;
        let j = section_vars.1;
        let trg_key = str_to_chars("srcsrvtrg");
        if !vars.contains(&trg_key) {
            return Err(ParseError::MissingSrcSrvTrgField);
        }
        let files_marker = str_to_chars("SRCSRV: source files --");
        if !starts_with_word(&lines[j], &files_marker) {
            return Err(ParseError::MissingSourceFilesSection);
        }
        let section_files = match collect_files(&lines, j + 1) {
            Ok(t) => t,
            Err(e) => {
                return Err(e);
            },
        };
        let files = section_files.0;
        let k = section_files.1;
        let end_marker = str_to_chars("SRCSRV: end --");
        if !starts_with_word(&lines[k], &end_marker) {
            return Err(ParseError::MissingTerminationLine);
        }
        Ok(
            SrcSrvStream {
                version,
                ini_fields: ini,
                var_fields: vars,
                source_file_entries: files,
            },
        )
    }

    /// The value of the VERSION field from the ini section.
    pub fn version(&self) -> (r: u8)
        ensures
            r as int == self@.version,
    {
        self.version
    }

    /// The value of the INDEXVERSION field from the ini section, if
    /// specified.
    pub fn index_version(&self) -> (r: Option<String>)
        ensures
            match r {
                Some(v) => self@.ini.contains_key("indexversion"@) && v@ == self@.ini[
                    "indexversion"@
                ],
                None => !self@.ini.contains_key("indexversion"@),
            },
    {
        let key = str_to_chars("indexversion");
        match self.ini_fields.get(&key) {
            Some(v) => Some(chars_to_string(v)),
            None => None,
        }
    }

    /// The value of the DATETIME field from the ini section, if
    /// specified.
    pub fn datetime(&self) -> (r: Option<String>)
        ensures
            match r {
                Some(v) => self@.ini.contains_key("datetime"@) && v@ == self@.ini["datetime"@],
                None => !self@.ini.contains_key("datetime"@),
            },
    {
        let key = str_to_chars("datetime");
        match self.ini_fields.get(&key) {
            Some(v) => Some(chars_to_string(v)),
            None => None,
        }
    }

    /// The value of the VERCTRL field from the ini section, if
    /// specified.
    pub fn version_control_description(&self) -> (r: Option<String>)
        ensures
            match r {
                Some(v) => self@.ini.contains_key("verctrl"@) && v@ == self@.ini["verctrl"@],
                None => !self@.ini.contains_key("verctrl"@),
            },
    {
        let key = str_to_chars("verctrl");
        match self.ini_fields.get(&key) {
            Some(v) => Some(chars_to_string(v)),
            None => None,
        }
    }

    /// Get the value of the specified field from the ini section. The
    /// field name is case-insensitive.
    pub fn get_ini_field(&self, field_name: &str) -> (r: Option<String>)
        ensures
            match r {
                Some(v) => self@.ini.contains_key(lower_seq(field_name@)) && v@ == self@.ini[
                    lower_seq(field_name@)
                ],
                None => !self@.ini.contains_key(lower_seq(field_name@)),
            },
    {
        let chars = str_to_chars(field_name);
        let key = lower_chars(&chars);
        match self.ini_fields.get(&key) {
            Some(v) => Some(chars_to_string(v)),
            None => None,
        }
    }

    /// Look up `original_file_path` in the file entries and find out how
    /// to obtain the source for this file. This evaluates the variables
    /// for the matching file entry.
    ///
    /// `extraction_base_path` is used as the value of the special
    /// `%targ%` variable and should not include a trailing backslash.
    ///
    /// Returns `Ok(None)` if the file path was not found in the list of
    /// file entries.
    pub fn source_for_path(
        &self,
        original_file_path: &str,
        extraction_base_path: &str,
    ) -> (r: Result<Option<SourceRetrievalMethod>, EvalError>)
        ensures
            ({
                let sr = spec_lookup(self@, original_file_path@, extraction_base_path@);
                match r {
                    Ok(Some(m)) => sr matches Ok(Some(st)) && m@ == st.0,
                    Ok(None) => sr matches Ok(None),
                    Err(e) => sr matches Err(se) && e@ == se,
                }
            }),
    {
        match self.source_and_raw_var_values_for_path(original_file_path, extraction_base_path) {
            Ok(Some(t)) => Ok(Some(t.0)),
            Ok(None) => Ok(None),
            Err(e) => Err(e),
        }
    }

    /// Look up `original_file_path` in the file entries and find out how
    /// to obtain the source for this file, additionally returning the
    /// resolved values of all variables.
    ///
    /// Returns `Ok(None)` if the file path was not found in the list of
    /// file entries.
    pub fn source_and_raw_var_values_for_path(
        &self,
        original_file_path: &str,
        extraction_base_path: &str,
    ) -> (r: Result<Option<(SourceRetrievalMethod, EvalVarMap)>, EvalError>)
        ensures
            ({
                let sr = spec_lookup(self@, original_file_path@, extraction_base_path@);
                match r {
                    Ok(Some(t)) => sr matches Ok(Some(st)) && t.0@ == st.0 && t.1@ == st.1,
                    Ok(None) => sr matches Ok(None),
                    Err(e) => sr matches Err(se) && e@ == se,
                }
            }),
    {
        let errvar_key = str_to_chars("srcsrverrvar");
        let errvar_raw: Option<Vec<char>> = match self.var_fields.get(&errvar_key) {
            Some(e) => Some(copy_chars(&e.raw)),
            None => None,
        };
        let mut map = EvalVarMap::new();
        let found = match self.add_vars_for_file(original_file_path, &mut map) {
            Ok(b) => b,
            Err(e) => {
                return Err(e);
            },
        };
        if !found {
            return Ok(None);
        }
        proof {
            map.lemma_view();
        }
        let errp: Option<Vec<char>> = match &errvar_raw {
            Some(v) => match map.words.get(v) {
                Some(val) => Some(copy_chars(val)),
                None => None,
            },
            None => None,
        };
        let targ_key = str_to_chars("targ");
        let base_chars = str_to_chars(extraction_base_path);
        map.words.set(targ_key, base_chars);
        proof {
            map.lemma_view();
        }
        let trg_name = str_to_chars("srcsrvtrg");
        let target = match self.evaluate_required_field(trg_name, &mut map) {
            Ok(v) => v,
            Err(e) => {
                return Err(e);
            },
        };
        let cmd = match self.evaluate_optional_field(str_to_chars("srcsrvcmd"), &mut map) {
            Ok(v) => v,
            Err(e) => {
                return Err(e);
            },
        };
        let envv = match self.evaluate_optional_field(str_to_chars("srcsrvenv"), &mut map) {
            Ok(v) => v,
            Err(e) => {
                return Err(e);
            },
        };
        let vc = match self.evaluate_optional_field(str_to_chars("srcsrvverctrl"), &mut map) {
            Ok(v) => v,
            Err(e) => {
                return Err(e);
            },
        };
        if let Some(c) = &cmd {
            let env_list: Vec<(String, String)> = match &envv {
                Some(e) => env_pairs(e),
                None => {
                    let empty_env: Vec<(String, String)> = Vec::new();
                    proof {
                        assert(empty_env.deep_view() =~= Seq::<(Seq<char>, Seq<char>)>::empty());
                    }
                    empty_env
                },
            };
            let method = SourceRetrievalMethod::ExecuteCommand {
                command: chars_to_string(c),
                env: env_list,
                version_ctrl: match &vc {
                    Some(v) => Some(chars_to_string(v)),
                    None => None,
                },
                target_path: chars_to_string(&target),
                error_persistence_version_control: match &errp {
                    Some(v) => Some(chars_to_string(v)),
                    None => None,
                },
            };
            return Ok(Some((method, map)));
        }
        let http = str_to_chars("http://");
        let https = str_to_chars("https://");
        if starts_with_word(&target, &http) || starts_with_word(&target, &https) {
            let method = SourceRetrievalMethod::Download { url: chars_to_string(&target) };
            return Ok(Some((method, map)));
        }
        let dup = EvalVarMap { words: map.words.duplicate() };
        proof {
            map.lemma_view();
            dup.lemma_view();
        }
        Ok(Some((SourceRetrievalMethod::Other { raw_var_values: dup }, map)))
    }

    /// Bind the positional fields of the matched record as `var1` .. in
    /// `map`. Returns `Ok(false)` when the file is not in the records.
    fn add_vars_for_file(&self, file_path: &str, map: &mut EvalVarMap) -> (r: Result<
        bool,
        EvalError,
    >)
        ensures
            ({
                let key = lower_seq(file_path@);
                match r {
                    Ok(true) => self@.files.contains_key(key) && final(map)@ == spec_seed_binds(
                        old(map)@,
                        self@.files[key],
                        spec_seed_count(self@.files[key]),
                    ),
                    Ok(false) => !self@.files.contains_key(key) && final(map)@ == old(map)@,
                    Err(_) => false,
                }
            }),
    {
        let chars = str_to_chars(file_path);
        let key = lower_chars(&chars);
        let fields = match self.source_file_entries.get(&key) {
            Some(f) => f,
            None => {
                return Ok(false);
            },
        };
        let ghost fv = fields.deep_view();
        proof {
            eval::lemma_words_deep(fields);
            map.lemma_view();
        }
        let n = if fields.len() <= 10 {
            fields.len()
        } else {
            10
        };
        let mut i: usize = 0;
        while i < n
            invariant
                i <= n,
                n == spec_seed_count(fv),
                n <= fields@.len(),
                fv == fields.deep_view(),
                fv.len() == fields@.len(),
                forall|q: int| 0 <= q < fields@.len() ==> fv[q] == fields@[q]@,
                map@ == spec_seed_binds(old(map)@, fv, i as int),
                map@ == map.words@,
            decreases n - i,
        {
            let name = var_name_word(i + 1);
            map.words.set(name, copy_chars(&fields[i]));
            proof {
                map.lemma_view();
            }
            i += 1;
        }
        Ok(true)
    }

    /// Resolve one top-level field that may be absent from the variable
    /// table; `var_name` is already lowercased.
    fn evaluate_optional_field(&self, var_name: Vec<char>, var_map: &mut EvalVarMap) -> (r: Result<
        Option<Vec<char>>,
        EvalError,
    >)
        ensures
            ({
                let sr = spec_optional(var_name@, self@, old(var_map)@);
                match r {
                    Ok(opt) => sr matches Ok(st) && (match (opt, st.0) {
                        (Some(v), Some(sv)) => v@ == sv,
                        (None, None) => true,
                        _ => false,
                    }) && final(var_map)@ == st.1,
                    Err(e) => sr matches Err(se) && e@ == se,
                }
            }),
    {
        if !self.var_fields.contains(&var_name) {
            return Ok(None);
        }
        match self.evaluate_required_field(var_name, var_map) {
            Ok(v) => Ok(Some(v)),
            Err(e) => Err(e),
        }
    }

    /// Resolve one top-level field with a fresh resolution stack;
    /// `var_name` is already lowercased.
    fn evaluate_required_field(&self, var_name: Vec<char>, var_map: &mut EvalVarMap) -> (r: Result<
        Vec<char>,
        EvalError,
    >)
        ensures
            ({
                let sr = spec_resolve(
                    var_name@,
                    ast_table(self@.vars),
                    old(var_map)@,
                    Seq::empty(),
                );
                match r {
                    Ok(v) => sr matches Ok(t) && v@ == t.0 && final(var_map)@ == t.1,
                    Err(e) => sr matches Err(se) && e@ == se,
                }
            }),
    {
        let mut stack: Vec<Vec<char>> = Vec::new();
        proof {
            eval::lemma_words_deep(&stack);
            assert(stack.deep_view() =~= Seq::<Seq<char>>::empty());
        }
        self.eval_impl(var_name, var_map, &mut stack)
    }

    /// Resolve one variable name with memoization and cycle detection;
    /// `var_name` is already lowercased.
    fn eval_impl(
        &self,
        var_name: Vec<char>,
        var_map: &mut EvalVarMap,
        eval_stack: &mut Vec<Vec<char>>,
    ) -> (r: Result<Vec<char>, EvalError>)
        ensures
            ({
                let sr = spec_resolve(
                    var_name@,
                    ast_table(self@.vars),
                    old(var_map)@,
                    old(eval_stack).deep_view(),
                );
                match r {
                    Ok(v) => sr matches Ok(t) && v@ == t.0 && final(var_map)@ == t.1,
                    Err(e) => sr matches Err(se) && e@ == se,
                }
            }),
    {
        proof {
            var_map.lemma_view();
        }
        let r = resolve_var(&self.var_fields, var_name, &mut var_map.words, eval_stack);
        proof {
            var_map.lemma_view();
        }
        r
    }

    /// The raw values of all variables whose name begins with
    /// `SRCSRVERRDESC`, without duplicates. Callers can substring-match
    /// these against the output of a failed retrieval command.
    pub fn error_persistence_command_output_strings(&self) -> (r: Vec<String>)
        ensures
            forall|i: int, j: int| 0 <= i < j < r@.len() ==> r@[i]@ != r@[j]@,
            r@.map_values(|s: String| s@).to_set() == spec_errdesc_values(self@.vars),
    {
        let ghost es = self.var_fields.spec_entries();
        let pfx = str_to_chars("srcsrverrdesc");
        let mut words: Vec<Vec<char>> = Vec::new();
        let ghost mut names: Seq<Seq<char>> = Seq::empty();
        let n = self.var_fields.entry_count();
        let mut i: usize = 0;
        proof {
            eval::lemma_words_deep(&words);
        }
        while i < n
            invariant
                i <= n,
                n == es.len(),
                es == self.var_fields.spec_entries(),
                pfx@ == "srcsrverrdesc"@,
                self@.vars == self.var_fields@,
                forall|a: int, b: int| 0 <= a < b < words@.len() ==> words@[a]@ != words@[b]@,
                names.len() == words@.len(),
                forall|a: int|
                    #![trigger names[a]]
                    0 <= a < names.len() ==> self@.vars.contains_key(names[a]) && has_prefix(
                        names[a],
                        "srcsrverrdesc"@,
                    ) && self@.vars[names[a]].0 == words@[a]@,
                forall|j: int|
                    #![trigger es[j]]
                    0 <= j < i && has_prefix(es[j].0, "srcsrverrdesc"@) && (forall|q: int|
                        j < q < es.len() ==> es[q].0 != es[j].0) ==> exists|a: int|
                        #![trigger words@[a]]
                        0 <= a < words@.len() && words@[a]@ == es[j].1.0,
            decreases n - i,
        {
            let ghost old_words = words@;
            let keep = starts_with_word(self.var_fields.key_at(i), &pfx)
                && self.var_fields.live_at(i);
            if keep {
                let raw = copy_chars(&self.var_fields.value_at(i).raw);
                proof {
                    self.var_fields.lemma_live_entry(i as int);
                }
                let mut dup = false;
                let mut a: usize = 0;
                while a < words.len()
                    invariant
                        a <= words@.len(),
                        raw@ == es[i as int].1.0,
                        dup ==> exists|b: int|
                            #![trigger words@[b]]
                            0 <= b < words@.len() && words@[b]@ == raw@,
                        !dup ==> forall|b: int| 0 <= b < a ==> words@[b]@ != raw@,
                    decreases words@.len() - a,
                {
                    if chars_eq(&words[a], &raw) {
                        dup = true;
                    }
                    a += 1;
                }
                let ghost raw_view = raw@;
                if !dup {
                    words.push(raw);
                    proof {
                        names = names.push(es[i as int].0);
                        assert forall|c: int|
                            #![trigger names[c]]
                            0 <= c < names.len() implies self@.vars.contains_key(names[c])
                            && has_prefix(names[c], "srcsrverrdesc"@) && self@.vars[
                            names[c]].0 == words@[c]@ by {
                            if c < old_words.len() {
                                assert(words@[c] == old_words[c]);
                                assert(names[c] == names.drop_last()[c]);
                            } else {
                                assert(names[c] == es[i as int].0);
                                assert(words@[c]@ == raw_view);
                            }
                        }
                    }
                }
                proof {
                    assert forall|j: int|
                        #![trigger es[j]]
                        0 <= j < i + 1 && has_prefix(es[j].0, "srcsrverrdesc"@) && (forall|q: int|
                            j < q < es.len() ==> es[q].0 != es[j].0) implies exists|c: int|
                        #![trigger words@[c]]
                        0 <= c < words@.len() && words@[c]@ == es[j].1.0 by {
                        if j < i {
                            let c = choose|c: int|
                                #![trigger old_words[c]]
                                0 <= c < old_words.len() && old_words[c]@ == es[j].1.0;
                            assert(0 <= c < words@.len() && words@[c]@ == es[j].1.0);
                        } else if dup {
                            let c = choose|c: int|
                                #![trigger old_words[c]]
                                0 <= c < old_words.len() && old_words[c]@ == raw_view;
                            assert(0 <= c < words@.len() && words@[c]@ == es[j].1.0);
                        } else {
                            let c = words@.len() - 1;
                            assert(0 <= c < words@.len() && words@[c]@ == es[j].1.0);
                        }
                    }
                    assert forall|c: int, b: int|
                        0 <= c < b < words@.len() implies words@[c]@ != words@[b]@ by {
                        if b < old_words.len() {
                            assert(old_words[c]@ != old_words[b]@);
                        } else {
                            assert(!dup);
                            assert(words@[b]@ == raw_view);
                            assert(old_words[c]@ != raw_view);
                        }
                    }
                }
            } else {
                proof {
                    assert forall|j: int|
                        #![trigger es[j]]
                        0 <= j < i + 1 && has_prefix(es[j].0, "srcsrverrdesc"@) && (forall|q: int|
                            j < q < es.len() ==> es[q].0 != es[j].0) implies exists|c: int|
                        #![trigger words@[c]]
                        0 <= c < words@.len() && words@[c]@ == es[j].1.0 by {
                        if j < i {
                            let c = choose|c: int|
                                #![trigger old_words[c]]
                                0 <= c < old_words.len() && old_words[c]@ == es[j].1.0;
                            assert(0 <= c < words@.len() && words@[c]@ == es[j].1.0);
                        } else {
                            assert(false);
                        }
                    }
                }
            }
            i += 1;
        }
        let mut r: Vec<String> = Vec::new();
        let mut b: usize = 0;
        while b < words.len()
            invariant
                b <= words@.len(),
                r@.len() == b,
                forall|a: int| #![trigger r@[a]] 0 <= a < b ==> r@[a]@ == words@[a]@,
            decreases words@.len() - b,
        {
            r.push(chars_to_string(&words[b]));
            b += 1;
        }
        proof {
            let rv = r@.map_values(|s: String| s@);
            let lhs = rv.to_set();
            let rhs = spec_errdesc_values(self@.vars);
            assert forall|v: Seq<char>| #[trigger] lhs.contains(v) implies rhs.contains(v) by {
                assert(rv.contains(v));
                let i2 = choose|i2: int| #![trigger rv[i2]] 0 <= i2 < rv.len() && rv[i2] == v;
                assert(r@[i2]@ == words@[i2]@);
                assert(self@.vars.contains_key(names[i2]) && has_prefix(
                    names[i2],
                    "srcsrverrdesc"@,
                ) && self@.vars[names[i2]].0 == v);
            }
            assert forall|v: Seq<char>| #[trigger] rhs.contains(v) implies lhs.contains(v) by {
                let name = choose|name: Seq<char>|
                    #![trigger self@.vars.contains_key(name)]
                    self@.vars.contains_key(name) && has_prefix(name, "srcsrverrdesc"@)
                        && self@.vars[name].0 == v;
                self.var_fields.lemma_live_exists(name);
                let j = choose|j: int|
                    0 <= j < es.len() && es[j].0 == name && (forall|q: int|
                        j < q < es.len() ==> es[q].0 != name);
                self.var_fields.lemma_live_entry(j);
                assert(es[j].1.0 == v);
                let a = choose|a: int|
                    #![trigger words@[a]]
                    0 <= a < words@.len() && words@[a]@ == es[j].1.0;
                assert(rv[a] == v);
                assert(rv.contains(v));
            }
            assert(lhs =~= rhs);
        }
        r
    }

    /// Get the raw, unevaluated value of the specified field from the
    /// variables section. The field name is case-insensitive.
    pub fn get_raw_var(&self, var_name: &str) -> (r: Option<String>)
        ensures
            match r {
                Some(v) => self@.vars.contains_key(lower_seq(var_name@)) && v@ == self@.vars[
                    lower_seq(var_name@)
                ].0,
                None => !self@.vars.contains_key(lower_seq(var_name@)),
            },
    {
        let chars = str_to_chars(var_name);
        let key = lower_chars(&chars);
        match self.var_fields.get(&key) {
            Some(e) => Some(chars_to_string(&e.raw)),
            None => None,
        }
    }
}

impl AstNode {
    /// Evaluate this tree against the stream's variable table, with a
    /// fresh resolution stack, memoizing every resolved name in
    /// `var_map`.
    pub fn eval(&self, stream: &SrcSrvStream, var_map: &mut EvalVarMap) -> (r: Result<
        String,
        EvalError,
    >)
        ensures
            ({
                let sr = spec_eval(self@, ast_table(stream@.vars), old(var_map)@, Seq::empty());
                match r {
                    Ok(s) => sr matches Ok(t) && s@ == t.0 && final(var_map)@ == t.1,
                    Err(e) => sr matches Err(se) && e@ == se,
                }
            }),
    {
        proof {
            var_map.lemma_view();
        }
        let mut stack: Vec<Vec<char>> = Vec::new();
        proof {
            eval::lemma_words_deep(&stack);
            assert(stack.deep_view() =~= Seq::<Seq<char>>::empty());
        }
        let r = eval_node(self, &stream.var_fields, &mut var_map.words, &mut stack);
        proof {
            var_map.lemma_view();
        }
        match r {
            Ok(v) => Ok(chars_to_string(&v)),
            Err(e) => Err(e),
        }
    }
}

} // verus!
