//! Text-transform pipelines: named procedures, compiled once, applied to
//! each extracted string from left to right.

use vstd::prelude::*;
use crate::errors::{ParseError, PipelineError};
use crate::sanitize_policy::{SanitizePolicy, policy_tags, sanitized_html};
use crate::text::{
    chars_of, normalize_spaces, normalized, replace_all, replaced, trim_cut, trim_space, trimmed,
    is_white_space,
};

verus! {

#[verifier::external_type_specification]
#[verifier::external_body]
pub struct ExRegex(regex::Regex);

/// A regular expression together with the pattern it was compiled from.
#[derive(Debug)]
pub struct Pattern {
    source: String,
    compiled: regex::Regex,
}

impl Pattern {
    pub closed spec fn source_spec(&self) -> Seq<char> {
        self.source@
    }

    /// The pattern text.
    pub fn source(&self) -> (r: &str)
        ensures
            r@ == self.source_spec(),
    {
        self.source.as_str()
    }
}

/// Whether `pattern` is a regular expression that `regex::Regex::new`
/// accepts.
pub uninterp spec fn regex_compiles(pattern: Seq<char>) -> bool;

/// The capture groups of the leftmost-first match of `pattern` in `hay`,
/// group 0 first, `None` for a group that took no part; `None` where there
/// is no match.
pub uninterp spec fn regex_captures(pattern: Seq<char>, hay: Seq<char>) -> Option<Seq<Option<Seq<char>>>>;

/// The text of the leftmost-first match of `pattern` in `hay`.
pub uninterp spec fn regex_find(pattern: Seq<char>, hay: Seq<char>) -> Option<Seq<char>>;

/// What `gjson::get(json, path)` writes: the value at the dotted `path` of
/// the JSON text `json`, as text.
pub uninterp spec fn json_path_text(json: Seq<char>, path: Seq<char>) -> Seq<char>;

/// `s` with its HTML entities decoded.
pub uninterp spec fn entities_decoded(s: Seq<char>) -> Seq<char>;

/// Relies on `regex::Regex::new`: it fails exactly on the patterns it
/// refuses, which depends on the pattern alone.
#[verifier::external_body]
fn compile_pattern(source: String) -> (r: Result<Pattern, regex::Error>)
    ensures
        r is Ok <==> regex_compiles(source@),
        r is Ok ==> r->Ok_0.source_spec() == source@,
{
    regex::Regex::new(&source).map(|compiled| Pattern { source, compiled })
}

pub open spec fn groups_view(r: Option<Vec<Option<String>>>) -> Option<Seq<Option<Seq<char>>>> {
    match r {
        Some(gs) => Some(
            gs@.map_values(
                |g: Option<String>|
                    match g {
                        Some(s) => Some(s@),
                        None => None,
                    },
            ),
        ),
        None => None,
    }
}

/// Relies on `regex::Regex::captures`: the groups of the first match, each
/// as `Captures::iter` lists them.
#[verifier::external_body]
fn first_captures(p: &Pattern, hay: &str) -> (r: Option<Vec<Option<String>>>)
    ensures
        groups_view(r) == regex_captures(p.source_spec(), hay@),
{
    p.compiled.captures(hay).map(|c| c.iter().map(|g| g.map(|m| m.as_str().to_string())).collect())
}

/// Relies on `regex::Regex::find`: the text of the first match.
#[verifier::external_body]
fn first_match(p: &Pattern, hay: &str) -> (r: Option<String>)
    ensures
        match r {
            Some(m) => regex_find(p.source_spec(), hay@) == Some(m@),
            None => regex_find(p.source_spec(), hay@) is None,
        },
{
    p.compiled.find(hay).map(|m| m.as_str().to_string())
}

/// Relies on `gjson::get` and the `Display` of its value.
#[verifier::external_body]
fn json_path_get(json: &str, path: &str) -> (r: String)
    ensures
        r@ == json_path_text(json@, path@),
{
    gjson::get(json, path).to_string()
}

/// Relies on `html_escape::decode_html_entities`.
#[verifier::external_body]
fn decode_entities(s: &str) -> (r: String)
    ensures
        r@ == entities_decoded(s@),
{
    html_escape::decode_html_entities(s).to_string()
}

/// The groups after group 0 that took part, concatenated in order.
pub open spec fn joined_from(gs: Seq<Option<Seq<char>>>) -> Seq<char>
    decreases gs.len(),
{
    if gs.len() <= 1 {
        Seq::empty()
    } else {
        joined_from(gs.drop_last()) + match gs.last() {
            Some(s) => s,
            None => Seq::empty(),
        }
    }
}

/// What a `regex` step yields for the groups of a match.
pub open spec fn joined_groups(r: Option<Seq<Option<Seq<char>>>>) -> Seq<char> {
    match r {
        Some(gs) => joined_from(gs),
        None => Seq::empty(),
    }
}

/// Concatenates the capture groups of a match other than group 0, skipping
/// those that took no part; empty where there was no match.
pub fn join_capture_groups(groups: &Option<Vec<Option<String>>>) -> (r: String)
    ensures
        r@ == joined_groups(groups_view(*groups)),
{
    let mut out = String::new();
    match groups {
        None => out,
        Some(gs) => {
            let ghost v = groups_view(*groups)->Some_0;
            if gs.len() <= 1 {
                return out;
            }
            let mut i: usize = 1;
            while i < gs.len()
                invariant
                    1 <= i <= gs.len(),
                    v == gs@.map_values(
                        |g: Option<String>|
                            match g {
                                Some(s) => Some(s@),
                                None => None,
                            },
                    ),
                    out@ == joined_from(v.subrange(0, i as int)),
                decreases gs.len() - i,
            {
                assert(v.subrange(0, i + 1).drop_last() == v.subrange(0, i as int));
                match &gs[i] {
                    Some(s) => {
                        out.append(s.as_str());
                    },
                    None => {
                        assert(out@ + Seq::<char>::empty() == out@);
                    },
                }
                i = i + 1;
            }
            assert(v.subrange(0, gs.len() as int) == v);
            out
        },
    }
}

/// A compiled pipeline procedure.
#[derive(Debug)]
pub enum Proc {
    /// Concatenates the capture groups of the first match (not the whole
    /// match); empty where nothing matches.
    Regex(Pattern),
    /// The whole first match; empty where nothing matches.
    RegexFind(Pattern),
    /// Replaces every occurrence of the first string by the second.
    Replace(String, String),
    /// Reads the input as JSON and yields the value at this dotted path.
    ExtractJson(String),
    /// Removes leading and trailing white space.
    TrimSpace,
    /// Removes leading and trailing characters of this set.
    Trim(Vec<char>),
    /// Collapses each run of white space to one space and trims.
    NormalizeSpaces,
    /// Decodes HTML entities.
    HtmlUnescape,
    /// Cleans markup under `SanitizePolicy::Highlight`.
    PolicyHighlight,
    /// Cleans markup under `SanitizePolicy::Table`.
    PolicyTable,
    /// Cleans markup under `SanitizePolicy::List`.
    PolicyList,
    /// Cleans markup under `SanitizePolicy::Common`.
    PolicyCommon,
}

/// What procedure `p` makes of `s`.
pub open spec fn proc_output(p: Proc, s: Seq<char>) -> Seq<char> {
    match p {
        Proc::Regex(pat) => joined_groups(regex_captures(pat.source_spec(), s)),
        Proc::RegexFind(pat) => match regex_find(pat.source_spec(), s) {
            Some(m) => m,
            None => Seq::empty(),
        },
        Proc::Replace(old, new) => replaced(s, old@, new@),
        Proc::ExtractJson(path) => json_path_text(s, path@),
        Proc::TrimSpace => trimmed(s, |c: char| is_white_space(c)),
        Proc::Trim(cut) => trimmed(s, |c: char| cut@.contains(c)),
        Proc::NormalizeSpaces => normalized(s),
        Proc::HtmlUnescape => entities_decoded(s),
        Proc::PolicyHighlight => sanitized_html(policy_tags(SanitizePolicy::Highlight), s),
        Proc::PolicyTable => sanitized_html(policy_tags(SanitizePolicy::Table), s),
        Proc::PolicyList => sanitized_html(policy_tags(SanitizePolicy::List), s),
        Proc::PolicyCommon => sanitized_html(policy_tags(SanitizePolicy::Common), s),
    }
}

/// The number of arguments a procedure needs, or `None` for an unknown name.
pub open spec fn proc_arity(name: Seq<char>) -> Option<nat> {
    if name == "regex"@ || name == "regex_find"@ || name == "extract_json"@ || name == "trim"@ {
        Some(1)
    } else if name == "replace"@ {
        Some(2)
    } else if name == "trim_space"@ || name == "normalize_spaces"@ || name == "html_unescape"@
        || name == "policy_highlight"@ || name == "policy_table"@ || name == "policy_list"@
        || name == "policy_common"@ {
        Some(0)
    } else {
        None
    }
}

/// The procedure that compiling `name` with `args` builds.
pub open spec fn proc_built(p: Proc, name: Seq<char>, args: Seq<String>) -> bool {
    if name == "regex"@ {
        p is Regex && p->Regex_0.source_spec() == args[0]@
    } else if name == "regex_find"@ {
        p is RegexFind && p->RegexFind_0.source_spec() == args[0]@
    } else if name == "extract_json"@ {
        p is ExtractJson && p->ExtractJson_0@ == args[0]@
    } else if name == "replace"@ {
        p is Replace && p->Replace_0@ == args[0]@ && p->Replace_1@ == args[1]@
    } else if name == "trim_space"@ {
        p is TrimSpace
    } else if name == "trim"@ {
        p is Trim && p->Trim_0@ == args[0]@
    } else if name == "normalize_spaces"@ {
        p is NormalizeSpaces
    } else if name == "html_unescape"@ {
        p is HtmlUnescape
    } else if name == "policy_highlight"@ {
        p is PolicyHighlight
    } else if name == "policy_table"@ {
        p is PolicyTable
    } else if name == "policy_list"@ {
        p is PolicyList
    } else {
        p is PolicyCommon
    }
}

/// Whether `name` takes a regular expression as its argument.
pub open spec fn takes_pattern(name: Seq<char>) -> bool {
    name == "regex"@ || name == "regex_find"@
}

/// Compiling `name` with `args` succeeds.
pub open spec fn proc_compiles(name: Seq<char>, args: Seq<String>) -> bool {
    proc_arity(name) is Some && args.len() >= proc_arity(name)->Some_0 && (takes_pattern(name)
        ==> regex_compiles(args[0]@))
}

/// Whether `e` is the error that compiling `name` with `args` reports.
pub open spec fn proc_error_is(e: PipelineError, name: Seq<char>, args: Seq<String>) -> bool {
    match e {
        PipelineError::ProcDoesNotExist(n) => proc_arity(name) is None && n@ == name,
        PipelineError::ProcNotEnoughArguments(n, given, needed) => proc_arity(name) is Some
            && args.len() < proc_arity(name)->Some_0 && n@ == name && given == args.len() && needed
            == proc_arity(name)->Some_0,
        PipelineError::Regex(_) => takes_pattern(name) && args.len() >= 1 && !regex_compiles(
            args[0]@,
        ),
    }
}

proof fn lemma_proc_names_distinct()
    ensures
        "regex"@ != "regex_find"@,
        "regex"@ != "extract_json"@,
        "regex"@ != "replace"@,
        "regex"@ != "trim_space"@,
        "regex"@ != "trim"@,
        "regex"@ != "normalize_spaces"@,
        "regex"@ != "html_unescape"@,
        "regex"@ != "policy_highlight"@,
        "regex"@ != "policy_table"@,
        "regex"@ != "policy_list"@,
        "regex"@ != "policy_common"@,
        "regex_find"@ != "extract_json"@,
        "regex_find"@ != "replace"@,
        "regex_find"@ != "trim_space"@,
        "regex_find"@ != "trim"@,
        "regex_find"@ != "normalize_spaces"@,
        "regex_find"@ != "html_unescape"@,
        "regex_find"@ != "policy_highlight"@,
        "regex_find"@ != "policy_table"@,
        "regex_find"@ != "policy_list"@,
        "regex_find"@ != "policy_common"@,
        "extract_json"@ != "replace"@,
        "extract_json"@ != "trim_space"@,
        "extract_json"@ != "trim"@,
        "extract_json"@ != "normalize_spaces"@,
        "extract_json"@ != "html_unescape"@,
        "extract_json"@ != "policy_highlight"@,
        "extract_json"@ != "policy_table"@,
        "extract_json"@ != "policy_list"@,
        "extract_json"@ != "policy_common"@,
        "replace"@ != "trim_space"@,
        "replace"@ != "trim"@,
        "replace"@ != "normalize_spaces"@,
        "replace"@ != "html_unescape"@,
        "replace"@ != "policy_highlight"@,
        "replace"@ != "policy_table"@,
        "replace"@ != "policy_list"@,
        "replace"@ != "policy_common"@,
        "trim_space"@ != "trim"@,
        "trim_space"@ != "normalize_spaces"@,
        "trim_space"@ != "html_unescape"@,
        "trim_space"@ != "policy_highlight"@,
        "trim_space"@ != "policy_table"@,
        "trim_space"@ != "policy_list"@,
        "trim_space"@ != "policy_common"@,
        "trim"@ != "normalize_spaces"@,
        "trim"@ != "html_unescape"@,
        "trim"@ != "policy_highlight"@,
        "trim"@ != "policy_table"@,
        "trim"@ != "policy_list"@,
        "trim"@ != "policy_common"@,
        "normalize_spaces"@ != "html_unescape"@,
        "normalize_spaces"@ != "policy_highlight"@,
        "normalize_spaces"@ != "policy_table"@,
        "normalize_spaces"@ != "policy_list"@,
        "normalize_spaces"@ != "policy_common"@,
        "html_unescape"@ != "policy_highlight"@,
        "html_unescape"@ != "policy_table"@,
        "html_unescape"@ != "policy_list"@,
        "html_unescape"@ != "policy_common"@,
        "policy_highlight"@ != "policy_table"@,
        "policy_highlight"@ != "policy_list"@,
        "policy_highlight"@ != "policy_common"@,
        "policy_table"@ != "policy_list"@,
        "policy_table"@ != "policy_common"@,
        "policy_list"@ != "policy_common"@,
{
    reveal_strlit("regex");
    assert("regex"@.len() == 5);
    assert("regex"@[0] == 'r');
    reveal_strlit("regex_find");
    assert("regex_find"@.len() == 10);
    assert("regex_find"@[0] == 'r');
    reveal_strlit("extract_json");
    assert("extract_json"@.len() == 12);
    assert("extract_json"@[0] == 'e');
    reveal_strlit("replace");
    assert("replace"@.len() == 7);
    assert("replace"@[0] == 'r');
    reveal_strlit("trim_space");
    assert("trim_space"@.len() == 10);
    assert("trim_space"@[0] == 't');
    reveal_strlit("trim");
    assert("trim"@.len() == 4);
    assert("trim"@[0] == 't');
    reveal_strlit("normalize_spaces");
    assert("normalize_spaces"@.len() == 16);
    assert("normalize_spaces"@[0] == 'n');
    reveal_strlit("html_unescape");
    assert("html_unescape"@.len() == 13);
    assert("html_unescape"@[0] == 'h');
    reveal_strlit("policy_highlight");
    assert("policy_highlight"@.len() == 16);
    assert("policy_highlight"@[0] == 'p');
    reveal_strlit("policy_table");
    assert("policy_table"@.len() == 12);
    assert("policy_table"@[0] == 'p');
    reveal_strlit("policy_list");
    assert("policy_list"@.len() == 11);
    assert("policy_list"@[0] == 'p');
    reveal_strlit("policy_common");
    assert("policy_common"@.len() == 13);
    assert("policy_common"@[0] == 'p');
}

fn is_named(n: &String, lit: &str) -> (r: bool)
    ensures
        r == (n@ == lit@),
{
    *n == lit.to_owned()
}

/// Fails where fewer than `len` arguments were given.
pub fn validate_args_len(proc_name: &str, args_len: usize, len: usize) -> (r: Result<(), PipelineError>)
    ensures
        r is Ok <==> args_len >= len,
        match r {
            Err(PipelineError::ProcNotEnoughArguments(n, given, needed)) => n@ == proc_name@ && given
                == args_len && needed == len,
            Err(_) => false,
            Ok(()) => true,
        },
{
    if args_len < len {
        return Err(PipelineError::ProcNotEnoughArguments(proc_name.to_owned(), args_len, len));
    }
    Ok(())
}

impl Proc {
    /// Compiles procedure `proc_name` with its arguments; extra arguments
    /// are ignored.
    pub fn new(proc_name: &str, args: &[String]) -> (r: Result<Proc, PipelineError>)
        ensures
            r is Ok <==> proc_compiles(proc_name@, args@),
            match r {
                Ok(p) => proc_built(p, proc_name@, args@),
                Err(e) => proc_error_is(e, proc_name@, args@),
            },
    {
        proof {
            lemma_proc_names_distinct();
        }
        let name = proc_name.to_owned();
        let n = args.len();
        if is_named(&name, "regex") || is_named(&name, "regex_find") {
            if let Err(e) = validate_args_len(proc_name, n, 1) {
                return Err(e);
            }
            let find = is_named(&name, "regex_find");
            match compile_pattern(args[0].clone()) {
                Ok(p) => {
                    if find {
                        Ok(Proc::RegexFind(p))
                    } else {
                        Ok(Proc::Regex(p))
                    }
                },
                Err(e) => Err(PipelineError::Regex(e)),
            }
        } else if is_named(&name, "extract_json") {
            if let Err(e) = validate_args_len(proc_name, n, 1) {
                return Err(e);
            }
            Ok(Proc::ExtractJson(args[0].clone()))
        } else if is_named(&name, "replace") {
            if let Err(e) = validate_args_len(proc_name, n, 2) {
                return Err(e);
            }
            Ok(Proc::Replace(args[0].clone(), args[1].clone()))
        } else if is_named(&name, "trim_space") {
            Ok(Proc::TrimSpace)
        } else if is_named(&name, "trim") {
            if let Err(e) = validate_args_len(proc_name, n, 1) {
                return Err(e);
            }
            Ok(Proc::Trim(chars_of(args[0].as_str())))
        } else if is_named(&name, "normalize_spaces") {
            Ok(Proc::NormalizeSpaces)
        } else if is_named(&name, "html_unescape") {
            Ok(Proc::HtmlUnescape)
        } else if is_named(&name, "policy_highlight") {
            Ok(Proc::PolicyHighlight)
        } else if is_named(&name, "policy_table") {
            Ok(Proc::PolicyTable)
        } else if is_named(&name, "policy_list") {
            Ok(Proc::PolicyList)
        } else if is_named(&name, "policy_common") {
            Ok(Proc::PolicyCommon)
        } else {
            Err(PipelineError::ProcDoesNotExist(name))
        }
    }

    /// Applies the procedure to `value`.
    pub fn handle(&self, value: &str) -> (r: String)
        ensures
            r@ == proc_output(*self, value@),
    {
        match self {
            Proc::Regex(p) => join_capture_groups(&first_captures(p, value)),
            Proc::RegexFind(p) => match first_match(p, value) {
                Some(m) => m,
                None => String::new(),
            },
            Proc::Replace(old, new) => replace_all(value, old.as_str(), new.as_str()),
            Proc::ExtractJson(path) => json_path_get(value, path.as_str()),
            Proc::TrimSpace => trim_space(value),
            Proc::Trim(cut) => trim_cut(value, cut),
            Proc::NormalizeSpaces => normalize_spaces(value),
            Proc::HtmlUnescape => decode_entities(value),
            Proc::PolicyHighlight => SanitizePolicy::Highlight.clean(value),
            Proc::PolicyTable => SanitizePolicy::Table.clean(value),
            Proc::PolicyList => SanitizePolicy::List.clean(value),
            Proc::PolicyCommon => SanitizePolicy::Common.clean(value),
        }
    }
}

/// A compiled pipeline: procedures applied in order.
#[derive(Debug)]
pub struct Pipeline {
    pub procs: Vec<Proc>,
}

/// What applying the procedures `ps` in order makes of `s`.
pub open spec fn run_procs(ps: Seq<Proc>, s: Seq<char>) -> Seq<char>
    decreases ps.len(),
{
    if ps.len() == 0 {
        s
    } else {
        proc_output(ps.last(), run_procs(ps.drop_last(), s))
    }
}

/// A raw step compiles: it is empty (and skipped), or its procedure does.
pub open spec fn step_ok(step: Vec<String>) -> bool {
    step@.len() == 0 || proc_compiles(step@[0]@, step@.drop_first())
}

/// `procs` are what the non-empty steps of `raw` compile to, in order.
pub open spec fn steps_built(procs: Seq<Proc>, raw: Seq<Vec<String>>) -> bool
    decreases raw.len(),
{
    if raw.len() == 0 {
        procs.len() == 0
    } else if raw.last()@.len() == 0 {
        steps_built(procs, raw.drop_last())
    } else {
        procs.len() > 0 && steps_built(procs.drop_last(), raw.drop_last()) && proc_built(
            procs.last(),
            raw.last()@[0]@,
            raw.last()@.drop_first(),
        )
    }
}

/// `e` is the error of the first step of `raw` that does not compile.
pub open spec fn steps_error_is(e: PipelineError, raw: Seq<Vec<String>>) -> bool {
    exists|i: int|
        0 <= i < raw.len() && (forall|j: int| 0 <= j < i ==> step_ok(#[trigger] raw[j])) && !step_ok(
            raw[i],
        ) && proc_error_is(e, raw[i]@[0]@, raw[i]@.drop_first())
}

impl Pipeline {
    /// Compiles each step: a procedure name, then its arguments. Empty steps
    /// are skipped; the first step that does not compile fails the whole.
    pub fn new(raw_pipelines: &Vec<Vec<String>>) -> (r: Result<Pipeline, ParseError>)
        ensures
            r is Ok <==> forall|i: int| 0 <= i < raw_pipelines.len() ==> step_ok(#[trigger] raw_pipelines@[i]),
            match r {
                Ok(p) => steps_built(p.procs@, raw_pipelines@),
                Err(ParseError::Pipeline(e)) => steps_error_is(e, raw_pipelines@),
                Err(_) => false,
            },
    {
        let mut procs: Vec<Proc> = Vec::new();
        let mut i: usize = 0;
        while i < raw_pipelines.len()
            invariant
                i <= raw_pipelines.len(),
                forall|j: int| 0 <= j < i ==> step_ok(#[trigger] raw_pipelines@[j]),
                steps_built(procs@, raw_pipelines@.subrange(0, i as int)),
            decreases raw_pipelines.len() - i,
        {
            let step = &raw_pipelines[i];
            proof {
                assert(raw_pipelines@.subrange(0, i + 1).drop_last() == raw_pipelines@.subrange(0, i as int));
            }
            if step.len() > 0 {
                let mut args: Vec<String> = Vec::new();
                let mut k: usize = 1;
                while k < step.len()
                    invariant
                        1 <= k <= step.len(),
                        args@ == step@.subrange(1, k as int),
                    decreases step.len() - k,
                {
                    args.push(step[k].clone());
                    assert(step@.subrange(1, k + 1) == step@.subrange(1, k as int).push(step@[k as int]));
                    k = k + 1;
                }
                assert(args@ == step@.drop_first());
                match Proc::new(step[0].as_str(), args.as_slice()) {
                    Ok(p) => {
                        let ghost before = procs@;
                        procs.push(p);
                        assert(procs@.drop_last() == before);
                    },
                    Err(e) => {
                        assert(!step_ok(raw_pipelines@[i as int]));
                        return Err(ParseError::Pipeline(e));
                    },
                }
            }
            i = i + 1;
        }
        assert(raw_pipelines@.subrange(0, raw_pipelines.len() as int) == raw_pipelines@);
        Ok(Pipeline { procs })
    }

    /// Applies the procedures to `value` in order, each to the result of
    /// the one before.
    pub fn handle(&self, value: String) -> (r: String)
        ensures
            r@ == run_procs(self.procs@, value@),
    {
        let mut res: String = value;
        let mut i: usize = 0;
        while i < self.procs.len()
            invariant
                i <= self.procs.len(),
                res@ == run_procs(self.procs@.subrange(0, i as int), value@),
            decreases self.procs.len() - i,
        {
            assert(self.procs@.subrange(0, i + 1).drop_last() == self.procs@.subrange(0, i as int));
            res = self.procs[i].handle(res.as_str());
            i = i + 1;
        }
        assert(self.procs@.subrange(0, self.procs.len() as int) == self.procs@);
        res
    }
}

/// A pipeline without procedures returns every string unchanged.
pub proof fn law_empty_pipeline_is_identity(p: Pipeline, s: Seq<char>)
    requires
        p.procs.len() == 0,
    ensures
        run_procs(p.procs@, s) == s,
{
}

/// Steps are applied left to right: the output of one is the input of the
/// next.
pub proof fn law_pipeline_in_order(ps: Seq<Proc>, q: Proc, s: Seq<char>)
    ensures
        run_procs(ps.push(q), s) == proc_output(q, run_procs(ps, s)),
{
    assert(ps.push(q).drop_last() == ps);
}

} // verus!
