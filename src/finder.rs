//! Plans: a specification compiled once into a tree of nodes, then applied
//! to any number of documents.

use vstd::prelude::*;
use crate::config::{CastType, Config, config_valid, validation_error_is};
use crate::dom::{
    attr_of, compile_selector, document_scope, elements_of, html_of, inner_html_of,
    own_text_of, parents_of, parse_html, remove_all, same_scope, select_all,
    select_first, selector_compiles, text_of,
};
use crate::errors::ParseError;
use crate::literal::{float_literal, float_syntax, i64_literal, parse_i64};
use crate::pipeline::{Pipeline, run_procs, step_ok, steps_built, steps_error_is};
use crate::text::chars_of;
use crate::value::{InnerMap, Value, ValueModel, keys_unique, lemma_models_of, model_is_empty};
use vstd::string::StringExecFns;

verus! {

/// A compiled node of a plan, with its compiled children.
#[derive(Debug)]
pub struct Finder {
    name: String,
    extract: String,
    cast: CastType,
    join_sep: String,
    many: bool,
    enumerate: bool,
    inherit: bool,
    parent: bool,
    first_occurrence: bool,
    remove_selection: bool,
    flatten: bool,
    children: Vec<Finder>,
    matcher: Option<dom_query::Matcher>,
    pipeline: Option<Pipeline>,
}

/// The node has a selector that compiles.
pub open spec fn has_matcher(c: Config) -> bool {
    c.base_path@.len() > 0 && selector_compiles(c.base_path@)
}

/// The node has a selector, or may go without one: it inherits its scope
/// and is not the root.
pub open spec fn matcher_ok(c: Config, is_root: bool) -> bool {
    has_matcher(c) || (!is_root && c.inherit)
}

/// Every step of the node's pipeline compiles.
pub open spec fn pipeline_ok(c: Config) -> bool {
    forall|i: int| 0 <= i < c.pipeline.len() ==> step_ok(#[trigger] c.pipeline@[i])
}

/// The node itself compiles, apart from its children.
pub open spec fn node_compiles(c: Config, is_root: bool) -> bool {
    config_valid(c) && matcher_ok(c, is_root) && pipeline_ok(c)
}

/// The node and all its descendants compile.
pub open spec fn plan_compiles(c: Config, is_root: bool) -> bool
    decreases c, 1int,
{
    node_compiles(c, is_root) && children_compile(c.children@)
}

/// Every node of `cs` compiles, as a child.
pub open spec fn children_compile(cs: Seq<Config>) -> bool
    decreases cs, 0int,
{
    cs.len() == 0 || (children_compile(cs.subrange(0, cs.len() - 1)) && plan_compiles(
        cs[cs.len() - 1],
        false,
    ))
}

/// Whether `e` is the error that compiling `c` reports: the node's own
/// rules first, then its selector, its pipeline, and its children in order.
pub open spec fn plan_error_is(e: ParseError, c: Config, is_root: bool) -> bool
    decreases c, 1int,
{
    if !config_valid(c) {
        e is Validation && validation_error_is(e->Validation_0, c)
    } else if !matcher_ok(c, is_root) {
        e is RequireMatcher
    } else if !pipeline_ok(c) {
        e is Pipeline && steps_error_is(e->Pipeline_0, c.pipeline@)
    } else {
        children_error_is(e, c.children@)
    }
}

/// Whether `e` is the error of the first node of `cs` that does not compile.
pub open spec fn children_error_is(e: ParseError, cs: Seq<Config>) -> bool
    decreases cs, 0int,
{
    cs.len() > 0 && if children_compile(cs.subrange(0, cs.len() - 1)) {
        !plan_compiles(cs[cs.len() - 1], false) && plan_error_is(e, cs[cs.len() - 1], false)
    } else {
        children_error_is(e, cs.subrange(0, cs.len() - 1))
    }
}

impl Finder {
    #[verifier::type_invariant]
    spec fn scoped(self) -> bool {
        self.inherit || self.matcher is Some
    }

    /// `f` is the node compiled from `c`.
    pub closed spec fn plan_of(f: Finder, c: Config) -> bool
        decreases c, 1int,
    {
        f.name@ == c.name@ && f.extract@ == c.extract@ && f.cast == c.cast && f.join_sep@
            == c.join_sep@ && f.many == c.many && f.enumerate == c.enumerate && f.inherit
            == c.inherit && f.parent == c.parent && f.first_occurrence == c.first_occurrence
            && f.remove_selection == c.remove_selection && f.flatten == c.flatten && (
        f.matcher is Some <==> has_matcher(c)) && (f.pipeline is Some <==> c.pipeline.len() > 0)
            && (f.pipeline is Some ==> steps_built(f.pipeline->Some_0.procs@, c.pipeline@))
            && Self::plans_of(f.children@, c.children@)
    }

    /// `fs` are the nodes compiled from `cs`, in order.
    pub closed spec fn plans_of(fs: Seq<Finder>, cs: Seq<Config>) -> bool
        decreases cs, 0int,
    {
        fs.len() == cs.len() && (cs.len() == 0 || (Self::plans_of(
            fs.subrange(0, fs.len() - 1),
            cs.subrange(0, cs.len() - 1),
        ) && Self::plan_of(fs[fs.len() - 1], cs[cs.len() - 1])))
    }

    /// The key of the node's result.
    pub closed spec fn name_spec(self) -> Seq<char> {
        self.name@
    }

    /// The node's extraction target.
    pub closed spec fn extract_spec(self) -> Seq<char> {
        self.extract@
    }

    /// The node's cast.
    pub closed spec fn cast_spec(self) -> CastType {
        self.cast
    }

    /// The node's join separator.
    pub closed spec fn join_sep_spec(self) -> Seq<char> {
        self.join_sep@
    }

    /// The node's flags, in the order `many`, `enumerate`, `inherit`,
    /// `parent`, `first_occurrence`, `remove_selection`, `flatten`.
    pub closed spec fn flags_spec(self) -> (bool, bool, bool, bool, bool, bool, bool) {
        (
            self.many,
            self.enumerate,
            self.inherit,
            self.parent,
            self.first_occurrence,
            self.remove_selection,
            self.flatten,
        )
    }

    /// The node's compiled children.
    pub closed spec fn children_spec(self) -> Seq<Finder> {
        self.children@
    }

    /// The node's compiled pipeline procedures, if it has a pipeline.
    pub closed spec fn pipeline_spec(self) -> Option<Seq<crate::pipeline::Proc>> {
        match self.pipeline {
            Some(p) => Some(p.procs@),
            None => None,
        }
    }

    /// The node has a compiled selector.
    pub closed spec fn has_selector(self) -> bool {
        self.matcher is Some
    }

    /// Compiles a whole specification; its root must have a selector.
    pub fn new(config: &Config) -> (r: Result<Finder, ParseError>)
        ensures
            r is Ok <==> plan_compiles(*config, true),
            match r {
                Ok(f) => Self::plan_of(f, *config),
                Err(e) => plan_error_is(e, *config, true),
            },
    {
        Finder::from_config(config, true)
    }

    fn from_config(config: &Config, is_root: bool) -> (r: Result<Finder, ParseError>)
        ensures
            r is Ok <==> plan_compiles(*config, is_root),
            match r {
                Ok(f) => Self::plan_of(f, *config),
                Err(e) => plan_error_is(e, *config, is_root),
            },
        decreases config,
    {
        match config.validate() {
            Err(e) => {
                return Err(ParseError::Validation(e));
            },
            Ok(()) => {},
        }
        let matcher = if config.base_path.as_str().unicode_len() != 0 {
            compile_selector(config.base_path.as_str())
        } else {
            None
        };
        if matcher.is_none() && (is_root || !config.inherit) {
            return Err(ParseError::RequireMatcher);
        }
        let pipeline = if config.pipeline.len() != 0 {
            match Pipeline::new(&config.pipeline) {
                Ok(p) => Some(p),
                Err(e) => {
                    return Err(e);
                },
            }
        } else {
            None
        };
        let mut children: Vec<Finder> = Vec::new();
        let mut i: usize = 0;
        while i < config.children.len()
            invariant
                i <= config.children.len(),
                node_compiles(*config, is_root),
                Self::plans_of(children@, config.children@.subrange(0, i as int)),
                children_compile(config.children@.subrange(0, i as int)),
            decreases config.children.len() - i,
        {
            let ghost pre = config.children@.subrange(0, i as int);
            let ghost next = config.children@.subrange(0, i + 1);
            assert(next.subrange(0, next.len() - 1) == pre);
            assert(next[next.len() - 1] == config.children@[i as int]);
            proof {
                assert(decreases_to!(*config => config.children));
                assert(decreases_to!(config.children => config.children@));
                assert(decreases_to!(config.children@ => config.children@[i as int]));
            }
            match Finder::from_config(&config.children[i], false) {
                Ok(f) => {
                    let ghost before = children@;
                    children.push(f);
                    assert(children@.subrange(0, children.len() - 1) == before);
                },
                Err(e) => {
                    proof {
                        lemma_children_error(config.children@, i as int, e);
                    }
                    return Err(e);
                },
            }
            i = i + 1;
        }
        assert(config.children@.subrange(0, config.children.len() as int) == config.children@);
        Ok(
            Finder {
                name: config.name.clone(),
                extract: config.extract.clone(),
                cast: config.cast,
                join_sep: config.join_sep.clone(),
                many: config.many,
                enumerate: config.enumerate,
                inherit: config.inherit,
                parent: config.parent,
                first_occurrence: config.first_occurrence,
                remove_selection: config.remove_selection,
                flatten: config.flatten,
                children,
                matcher,
                pipeline,
            },
        )
    }
}

/// What compiling a specification node copies into its plan node.
pub proof fn lemma_plan_fields(f: Finder, c: Config)
    requires
        Finder::plan_of(f, c),
    ensures
        f.name_spec() == c.name@,
        f.extract_spec() == c.extract@,
        f.cast_spec() == c.cast,
        f.join_sep_spec() == c.join_sep@,
        f.flags_spec() == (
            c.many,
            c.enumerate,
            c.inherit,
            c.parent,
            c.first_occurrence,
            c.remove_selection,
            c.flatten,
        ),
        f.has_selector() <==> has_matcher(c),
        f.pipeline_spec() is Some <==> c.pipeline.len() > 0,
        f.pipeline_spec() is Some ==> steps_built(f.pipeline_spec()->Some_0, c.pipeline@),
        f.children_spec().len() == c.children.len(),
        forall|i: int|
            0 <= i < c.children.len() ==> Finder::plan_of(#[trigger] f.children_spec()[i], c.children@[i]),
{
    lemma_plans_of(f.children@, c.children@);
}

proof fn lemma_plans_of(fs: Seq<Finder>, cs: Seq<Config>)
    requires
        Finder::plans_of(fs, cs),
    ensures
        fs.len() == cs.len(),
        forall|i: int| 0 <= i < cs.len() ==> Finder::plan_of(#[trigger] fs[i], cs[i]),
    decreases cs.len(),
{
    if cs.len() > 0 {
        let fs1 = fs.subrange(0, fs.len() - 1);
        let cs1 = cs.subrange(0, cs.len() - 1);
        lemma_plans_of(fs1, cs1);
        assert forall|i: int| 0 <= i < cs.len() implies Finder::plan_of(#[trigger] fs[i], cs[i]) by {
            if i < cs.len() - 1 {
                assert(fs1[i] == fs[i] && cs1[i] == cs[i]);
            }
        }
    }
}

proof fn lemma_children_error(cs: Seq<Config>, i: int, e: ParseError)
    requires
        0 <= i < cs.len(),
        children_compile(cs.subrange(0, i)),
        !plan_compiles(cs[i], false),
        plan_error_is(e, cs[i], false),
    ensures
        !children_compile(cs),
        children_error_is(e, cs),
    decreases cs.len() - i,
{
    let last = cs.len() - 1;
    let pre = cs.subrange(0, last);
    if i == last {
        assert(pre == cs.subrange(0, i));
    } else {
        assert(pre.subrange(0, i) == cs.subrange(0, i));
        assert(pre[i] == cs[i]);
        lemma_children_error(pre, i, e);
    }
}

/// Exactly one of `extract` and `children` decides, for a node whose other
/// parts compile: the plan compiles when one is set, and fails with
/// `ExtractOrDive` when both or neither are.
pub proof fn law_extract_or_dive(c: Config, is_root: bool)
    requires
        c.name@.len() > 0,
        c.base_path@.len() > 0 || c.inherit,
        matcher_ok(c, is_root),
        pipeline_ok(c),
        children_compile(c.children@),
    ensures
        plan_compiles(c, is_root) <==> ((c.extract@.len() > 0) != (c.children.len() > 0)),
        forall|e: ParseError|
            ((c.extract@.len() > 0) == (c.children.len() > 0)) && #[trigger] plan_error_is(e, c, is_root)
                ==> e == ParseError::Validation(crate::errors::ValidationError::ExtractOrDive),
{
}

/// A node that does not inherit its scope and has an empty `base_path`
/// fails to compile with `FieldIsMissing`.
pub proof fn law_missing_base_path(c: Config, is_root: bool)
    requires
        !c.inherit,
        c.base_path@.len() == 0,
    ensures
        !plan_compiles(c, is_root),
        forall|e: ParseError| #[trigger] plan_error_is(e, c, is_root) ==> e is Validation
            && e->Validation_0 is FieldIsMissing,
{
}

/// What a final string becomes under a cast: `bool` is whether it is
/// non-empty, `int` its `i64` value or 0, `float` itself if it is a float
/// literal or `0`, `string` itself.
pub open spec fn cast_model(s: Seq<char>, cast: CastType) -> ValueModel {
    match cast {
        CastType::Bool => ValueModel::Bool(s.len() > 0),
        CastType::Int => ValueModel::Int(
            match i64_literal(s) {
                Some(v) => v,
                None => 0,
            },
        ),
        CastType::Float => ValueModel::Float(
            if float_literal(s) {
                s
            } else {
                "0"@
            },
        ),
        CastType::String => ValueModel::String(s),
    }
}

/// Casts a final string; casting never fails, it falls back to zero.
pub fn cast_value(s: String, cast: CastType) -> (r: Value)
    ensures
        r@ == cast_model(s@, cast),
{
    match cast {
        CastType::Bool => Value::Bool(s.as_str().unicode_len() != 0),
        CastType::Int => match parse_i64(&chars_of(s.as_str())) {
            Some(v) => Value::Int(v),
            None => Value::Int(0),
        },
        CastType::Float => {
            if float_syntax(&chars_of(s.as_str())).0 {
                Value::Float(s)
            } else {
                Value::Float("0".to_owned())
            }
        },
        CastType::String => Value::String(s),
    }
}

/// A boolean cast is whether the string is non-empty.
pub proof fn law_cast_bool(s: Seq<char>)
    ensures
        cast_model(s, CastType::Bool) == ValueModel::Bool(s.len() > 0),
{
}

/// A string that is no number casts to zero.
pub proof fn law_cast_falls_back_to_zero(s: Seq<char>)
    ensures
        i64_literal(s) is None ==> cast_model(s, CastType::Int) == ValueModel::Int(0),
        !float_literal(s) ==> cast_model(s, CastType::Float) == ValueModel::Float("0"@),
{
}

/// `parts` joined with `sep` between each two.
pub open spec fn joined(parts: Seq<Seq<char>>, sep: Seq<char>) -> Seq<char>
    decreases parts.len(),
{
    if parts.len() == 0 {
        Seq::empty()
    } else if parts.len() == 1 {
        parts[0]
    } else {
        joined(parts.drop_last(), sep) + sep + parts.last()
    }
}

/// The character sequences of `items`.
pub open spec fn texts(items: Seq<String>) -> Seq<Seq<char>> {
    items.map_values(|s: String| s@)
}

/// Joins `items` with `sep` between each two.
pub fn join_with(items: &Vec<String>, sep: &str) -> (r: String)
    ensures
        r@ == joined(texts(items@), sep@),
{
    let mut out = String::new();
    let mut i: usize = 0;
    while i < items.len()
        invariant
            i <= items.len(),
            out@ == joined(texts(items@.subrange(0, i as int)), sep@),
        decreases items.len() - i,
    {
        assert(texts(items@.subrange(0, i + 1)).drop_last() == texts(items@.subrange(0, i as int)));
        if i > 0 {
            out.append(sep);
        } else {
            assert(texts(items@.subrange(0, 1))[0] == items@[0]@);
            assert(out@ + items@[0]@ == items@[0]@);
        }
        out.append(items[i].as_str());
        i = i + 1;
    }
    assert(items@.subrange(0, items.len() as int) == items@);
    out
}

/// What a `many` node without children yields for its extracted strings:
/// joined into one string when `sep` is non-empty (the cast is then not
/// applied), else an array of the cast strings.
pub open spec fn leaf_many_model(sep: Seq<char>, cast: CastType, items: Seq<Seq<char>>) -> ValueModel {
    if sep.len() > 0 {
        ValueModel::String(joined(items, sep))
    } else {
        ValueModel::Array(items.map_values(|s: Seq<char>| cast_model(s, cast)))
    }
}

/// The value of a `many` node without children, from its extracted
/// strings.
pub fn collect_values(items: Vec<String>, join_sep: &str, cast: CastType) -> (r: Value)
    ensures
        r@ == leaf_many_model(join_sep@, cast, texts(items@)),
{
    if join_sep.unicode_len() != 0 {
        return Value::String(join_with(&items, join_sep));
    }
    let mut out: Vec<Value> = Vec::new();
    let mut i: usize = 0;
    while i < items.len()
        invariant
            i <= items.len(),
            out.len() == i,
            forall|j: int| 0 <= j < i ==> (#[trigger] out@[j])@ == cast_model(items@[j]@, cast),
        decreases items.len() - i,
    {
        out.push(cast_value(items[i].clone(), cast));
        i = i + 1;
    }
    proof {
        lemma_models_of(out@);
        assert(crate::value::models_of(out@) =~= texts(items@).map_values(
            |s: Seq<char>| cast_model(s, cast),
        ));
    }
    Value::Array(out)
}

/// With a separator, the cast has no effect on a `many` node without
/// children.
pub proof fn law_join_ignores_cast(sep: Seq<char>, a: CastType, b: CastType, items: Seq<Seq<char>>)
    requires
        sep.len() > 0,
    ensures
        leaf_many_model(sep, a, items) == leaf_many_model(sep, b, items),
        leaf_many_model(sep, a, items) is String,
{
}

/// A parent's object after a child yielded `v`: unchanged if `v` is empty,
/// merged key by key if the child flattens and `v` is an object, else with
/// `v` under the child's name.
pub open spec fn merge_child(
    m: Map<Seq<char>, ValueModel>,
    name: Seq<char>,
    flatten: bool,
    v: ValueModel,
) -> Map<Seq<char>, ValueModel> {
    if model_is_empty(v) {
        m
    } else if flatten && v is Object {
        m.union_prefer_right(v->Object_0)
    } else {
        m.insert(name, v)
    }
}

/// Adds what a child named `name` yielded to its parent's object `m`.
pub fn merge_child_value(m: &mut InnerMap, name: &String, flatten: bool, v: Value)
    ensures
        final(m)@ == merge_child(old(m)@, name@, flatten, v@),
        keys_unique(old(m).entries@) ==> keys_unique(final(m).entries@),
{
    if v.is_empty() {
        return;
    }
    match v {
        Value::Object(obj) => {
            if flatten {
                let mut j: usize = 0;
                let ghost start = m@;
                while j < obj.entries.len()
                    invariant
                        j <= obj.entries.len(),
                        m@ == start.union_prefer_right(
                            crate::value::entries_model(obj.entries@.subrange(0, j as int)),
                        ),
                        keys_unique(old(m).entries@) ==> keys_unique(m.entries@),
                    decreases obj.entries.len() - j,
                {
                    let ghost pre = obj.entries@.subrange(0, j as int);
                    let ghost next = obj.entries@.subrange(0, j + 1);
                    assert(next == pre.push(obj.entries@[j as int]));
                    let pos = obj.first_position(&obj.entries[j].0);
                    if pos == j {
                        proof {
                            crate::value::lemma_entries_push(pre, obj.entries@[j as int]);
                        }
                        let k = obj.entries[j].0.clone();
                        let x = obj.entries[j].1.duplicate();
                        m.insert(k, x);
                        assert(m@ =~= start.union_prefer_right(crate::value::entries_model(next)));
                    } else {
                        proof {
                            assert(pos < j);
                            assert(pre[pos as int] == obj.entries@[pos as int]);
                            crate::value::lemma_entries_push_repeat(pre, obj.entries@[j as int]);
                        }
                    }
                    j = j + 1;
                }
                assert(obj.entries@.subrange(0, obj.entries.len() as int) == obj.entries@);
            } else {
                m.insert(name.clone(), Value::Object(obj));
            }
        },
        _ => {
            m.insert(name.clone(), v);
        },
    }
}

/// Non-empty objects, each holding its position under `index` where
/// `enumerate` is set.
pub open spec fn object_items(items: Seq<ValueModel>, enumerate: bool) -> bool {
    forall|i: int|
        0 <= i < items.len() ==> (#[trigger] items[i]) is Object && items[i]->Object_0 != Map::<
            Seq<char>,
            ValueModel,
        >::empty() && (enumerate ==> items[i]->Object_0.contains_key("index"@)
            && items[i]->Object_0["index"@] == ValueModel::Int(i as i64))
}

/// What the extraction target `extract` reads from the first element of
/// `sel`: its text, its own text without its descendants' (the document is
/// not changed), its markup, the markup of its children, or else the
/// attribute of that name.
pub fn extract_data(sel: &dom_query::Selection, extract: &str) -> (r: Option<String>)
    ensures
        extract@ == "text"@ || extract@ == "inner_text"@ ==> r is Some,
{
    let e = extract.to_owned();
    if e == "text".to_owned() {
        Some(text_of(sel))
    } else if e == "inner_text".to_owned() {
        Some(own_text_of(sel))
    } else if e == "html".to_owned() {
        html_of(sel)
    } else if e == "inner_html".to_owned() {
        inner_html_of(sel)
    } else {
        attr_of(sel, extract)
    }
}

/// The parent's object after merging, in order, the results `vals` of
/// children named `names` with `flatten` flags `flats`.
pub open spec fn merged_children(
    m: Map<Seq<char>, ValueModel>,
    names: Seq<Seq<char>>,
    flats: Seq<bool>,
    vals: Seq<ValueModel>,
) -> Map<Seq<char>, ValueModel>
    decreases vals.len(),
{
    if vals.len() == 0 {
        m
    } else {
        let k = vals.len() - 1;
        merge_child(merged_children(m, names, flats, vals.drop_last()), names[k], flats[k], vals[k])
    }
}

/// The child results that count: all of them, or with `first` those up to
/// and including the first non-empty one.
pub open spec fn counted(vals: Seq<ValueModel>, first: bool) -> Seq<ValueModel>
    decreases vals.len(),
{
    if !first || vals.len() == 0 {
        vals
    } else if !model_is_empty(vals[0]) {
        seq![vals[0]]
    } else {
        seq![vals[0]] + counted(vals.drop_first(), first)
    }
}

proof fn lemma_counted_all_empty(vals: Seq<ValueModel>, first: bool)
    requires
        first ==> forall|k: int| 0 <= k < vals.len() ==> model_is_empty(#[trigger] vals[k]),
    ensures
        counted(vals, first) == vals,
    decreases vals.len(),
{
    if first && vals.len() > 0 {
        assert forall|k: int| 0 <= k < vals.drop_first().len() implies model_is_empty(
            #[trigger] vals.drop_first()[k],
        ) by {
            assert(vals.drop_first()[k] == vals[k + 1]);
        }
        lemma_counted_all_empty(vals.drop_first(), first);
        assert(seq![vals[0]] + vals.drop_first() == vals);
    }
}

proof fn lemma_counted_stops(vals: Seq<ValueModel>, pad: Seq<ValueModel>)
    requires
        vals.len() > 0,
        !model_is_empty(vals[vals.len() - 1]),
        forall|k: int| 0 <= k < vals.len() - 1 ==> model_is_empty(#[trigger] vals[k]),
    ensures
        counted(vals + pad, true) == vals,
    decreases vals.len(),
{
    let all = vals + pad;
    if vals.len() == 1 {
        assert(all[0] == vals[0]);
        assert(seq![vals[0]] == vals);
    } else {
        let rest = vals.drop_first();
        assert(all.drop_first() == rest + pad);
        assert forall|k: int| 0 <= k < rest.len() - 1 implies model_is_empty(#[trigger] rest[k]) by {
            assert(rest[k] == vals[k + 1]);
        }
        assert(model_is_empty(vals[0]));
        assert(all[0] == vals[0]);
        lemma_counted_stops(rest, pad);
        assert(seq![vals[0]] + rest == vals);
    }
}


/// The object values of the maps `ms`, in order, leaving out the empty
/// ones; with `enumerate`, each holds its position among those kept under
/// `index`.
pub open spec fn numbered(ms: Seq<Map<Seq<char>, ValueModel>>, enumerate: bool) -> Seq<ValueModel>
    decreases ms.len(),
{
    if ms.len() == 0 {
        Seq::empty()
    } else {
        let prev = numbered(ms.drop_last(), enumerate);
        let m = ms.last();
        if m == Map::<Seq<char>, ValueModel>::empty() {
            prev
        } else if enumerate {
            prev.push(ValueModel::Object(m.insert("index"@, ValueModel::Int(prev.len() as i64))))
        } else {
            prev.push(ValueModel::Object(m))
        }
    }
}

/// Numbered objects are non-empty and carry their position under `index`
/// where `enumerate` is set.
pub proof fn law_numbered_items(ms: Seq<Map<Seq<char>, ValueModel>>, enumerate: bool)
    ensures
        object_items(numbered(ms, enumerate), enumerate),
        numbered(ms, enumerate).len() <= ms.len(),
    decreases ms.len(),
{
    if ms.len() > 0 {
        law_numbered_items(ms.drop_last(), enumerate);
        let prev = numbered(ms.drop_last(), enumerate);
        let m = ms.last();
        if m != Map::<Seq<char>, ValueModel>::empty() {
            let x = if enumerate {
                m.insert("index"@, ValueModel::Int(prev.len() as i64))
            } else {
                m
            };
            assert(x != Map::<Seq<char>, ValueModel>::empty()) by {
                if enumerate {
                    assert(x.contains_key("index"@));
                }
            }
            let now = numbered(ms, enumerate);
            assert forall|i: int| 0 <= i < now.len() implies (#[trigger] now[i]) is Object && now[i]->Object_0
                != Map::<Seq<char>, ValueModel>::empty() && (enumerate ==> now[i]->Object_0.contains_key(
                "index"@,
            ) && now[i]->Object_0["index"@] == ValueModel::Int(i as i64)) by {
                if i < prev.len() {
                    assert(now[i] == prev[i]);
                }
            }
        }
    }
}

pub open spec fn map_views(ms: Seq<InnerMap>) -> Seq<Map<Seq<char>, ValueModel>> {
    ms.map_values(|m: InnerMap| m@)
}

pub open spec fn opt_text(o: Option<String>) -> Option<Seq<char>> {
    match o {
        Some(s) => Some(s@),
        None => None,
    }
}

pub open spec fn opt_texts(xs: Seq<Option<String>>) -> Seq<Option<Seq<char>>> {
    xs.map_values(|o: Option<String>| opt_text(o))
}

proof fn lemma_models_prefix(s: Seq<Value>, k: int)
    requires
        0 <= k <= s.len(),
    ensures
        crate::value::models_of(s.subrange(0, k)) == crate::value::models_of(s).subrange(0, k),
{
    lemma_models_of(s);
    lemma_models_of(s.subrange(0, k));
    assert(crate::value::models_of(s.subrange(0, k)) =~= crate::value::models_of(s).subrange(0, k));
}

/// Turns the maps that the children made of each element into the array
/// of a `many` node: empty maps are left out, and with `enumerate` each kept
/// map gets its position under `index`.
pub fn number_objects(maps: Vec<InnerMap>, enumerate: bool) -> (r: Value)
    ensures
        r@ == ValueModel::Array(numbered(map_views(maps@), enumerate)),
{
    let mut out: Vec<Value> = Vec::new();
    let mut i: usize = 0;
    while i < maps.len()
        invariant
            i <= maps.len(),
            crate::value::models_of(out@) == numbered(map_views(maps@.subrange(0, i as int)), enumerate),
        decreases maps.len() - i,
    {
        let ghost pre = map_views(maps@.subrange(0, i as int));
        let ghost next = map_views(maps@.subrange(0, i + 1));
        assert(next.drop_last() == pre);
        assert(next.last() == maps@[i as int]@);
        proof {
            lemma_models_of(out@);
        }
        let ghost prev = numbered(pre, enumerate);
        assert(crate::value::models_of(out@).len() == out.len());
        let mut m = maps[i].duplicate();
        if !m.is_empty() {
            if enumerate {
                m.insert("index".to_owned(), Value::Int(out.len() as i64));
            }
            let ghost before = out@;
            let ghost x = Value::Object(m)@;
            out.push(Value::Object(m));
            assert(out@.subrange(0, out.len() - 1) == before);
            assert(out@[out.len() - 1]@ == x);
            assert(crate::value::models_of(out@) == crate::value::models_of(before).push(x));
            assert(numbered(next, enumerate) == prev.push(x));
        } else {
            assert(numbered(next, enumerate) == prev);
        }
        i = i + 1;
    }
    assert(maps@.subrange(0, maps.len() as int) == maps@);
    Value::Array(out)
}

impl Finder {
    /// The names of the children, in order.
    pub open spec fn child_names(self) -> Seq<Seq<char>> {
        self.children_spec().map_values(|c: Finder| c.name_spec())
    }

    /// The `flatten` flags of the children, in order.
    pub open spec fn child_flats(self) -> Seq<bool> {
        self.children_spec().map_values(|c: Finder| c.flags_spec().6)
    }

    /// `s` through the node's pipeline, if it has one.
    pub open spec fn piped(self, s: Seq<char>) -> Seq<char> {
        match self.pipeline_spec() {
            Some(ps) => run_procs(ps, s),
            None => s,
        }
    }

    /// What a node without children and without `many` yields for the
    /// extraction target of its element: the target through the pipeline
    /// and then cast, or `Null` where there is none.
    pub open spec fn leaf_single_model(self, e: Option<Seq<char>>) -> ValueModel {
        match e {
            Some(t) => cast_model(self.piped(t), self.cast_spec()),
            None => ValueModel::Null,
        }
    }

    /// The targets that are present, through the pipeline, in order.
    pub open spec fn present_piped(self, xs: Seq<Option<Seq<char>>>) -> Seq<Seq<char>>
        decreases xs.len(),
    {
        if xs.len() == 0 {
            Seq::empty()
        } else {
            let prev = self.present_piped(xs.drop_last());
            match xs.last() {
                Some(t) => prev.push(self.piped(t)),
                None => prev,
            }
        }
    }

    /// What a `many` node without children yields for the extraction
    /// targets of its elements.
    pub open spec fn leaf_many_result(self, xs: Seq<Option<Seq<char>>>) -> ValueModel {
        leaf_many_model(self.join_sep_spec(), self.cast_spec(), self.present_piped(xs))
    }

    /// The object that the children make from their results `vals`, in
    /// order: with `first_occurrence`, nothing after the first non-empty one.
    pub open spec fn children_result(self, vals: Seq<ValueModel>) -> Map<Seq<char>, ValueModel> {
        merged_children(Map::empty(), self.child_names(), self.child_flats(), counted(vals, self.flags_spec().4))
    }

    /// `m` is what the children make of a scope for some results of theirs.
    pub open spec fn children_object(self, m: Map<Seq<char>, ValueModel>) -> bool {
        exists|vals: Seq<ValueModel>|
            vals.len() <= self.children_spec().len() && m == #[trigger] self.children_result(vals)
    }

    /// What the node yields for a non-empty scope of `n` elements, whatever
    /// the document holds: with children, an object the children made (or
    /// with `many` the numbered objects made of each element); without, the
    /// element's target through the pipeline and cast (or with `many` the
    /// targets of the `n` elements, joined or cast one by one).
    pub open spec fn scope_value(self, n: nat, v: ValueModel) -> bool {
        if self.children_spec().len() > 0 {
            if self.flags_spec().0 {
                exists|ms: Seq<Map<Seq<char>, ValueModel>>|
                    ms.len() == n && (forall|i: int| 0 <= i < n ==> self.children_object(#[trigger] ms[i]))
                        && v == ValueModel::Array(#[trigger] numbered(ms, self.flags_spec().1))
            } else {
                v is Object && self.children_object(v->Object_0)
            }
        } else if self.flags_spec().0 {
            exists|xs: Seq<Option<Seq<char>>>| xs.len() == n && v == #[trigger] self.leaf_many_result(xs)
        } else {
            exists|x: Option<Seq<char>>| v == #[trigger] self.leaf_single_model(x)
        }
    }

    /// `v` is what the node yields for some scope: `Null` for an empty one,
    /// else what `scope_value` says for its number of elements.
    pub open spec fn value_ok(self, v: ValueModel) -> bool {
        v is Null || exists|n: nat| n > 0 && #[trigger] self.scope_value(n, v)
    }

    /// `s` through the node's pipeline, if it has one.
    fn apply_pipeline(&self, s: String) -> (r: String)
        ensures
            r@ == self.piped(s@),
    {
        match &self.pipeline {
            Some(p) => p.handle(s),
            None => s,
        }
    }

    /// The value of a node without children and without `many`, from the
    /// extraction target of its element.
    pub fn leaf_value(&self, extracted: Option<String>) -> (r: Value)
        ensures
            r@ == self.leaf_single_model(opt_text(extracted)),
    {
        match extracted {
            Some(t) => cast_value(self.apply_pipeline(t), self.cast),
            None => Value::Null,
        }
    }

    /// The value of a `many` node without children, from the extraction
    /// targets of its elements in order: absent ones are dropped, the others
    /// go through the pipeline and are then joined or cast.
    pub fn leaf_many_value(&self, extracted: Vec<Option<String>>) -> (r: Value)
        ensures
            r@ == self.leaf_many_result(opt_texts(extracted@)),
    {
        let mut items: Vec<String> = Vec::new();
        let mut i: usize = 0;
        while i < extracted.len()
            invariant
                i <= extracted.len(),
                texts(items@) == self.present_piped(opt_texts(extracted@.subrange(0, i as int))),
            decreases extracted.len() - i,
        {
            let ghost pre = opt_texts(extracted@.subrange(0, i as int));
            let ghost next = opt_texts(extracted@.subrange(0, i + 1));
            assert(next.drop_last() == pre);
            assert(next.last() == opt_text(extracted@[i as int]));
            match &extracted[i] {
                Some(t) => {
                    let ghost before = items@;
                    items.push(self.apply_pipeline(t.clone()));
                    assert(texts(items@) == texts(before).push(items@.last()@));
                },
                None => {},
            }
            i = i + 1;
        }
        assert(extracted@.subrange(0, extracted.len() as int) == extracted@);
        collect_values(items, self.join_sep.as_str(), self.cast)
    }

    /// Merges the children's results, in order, into their parent's object:
    /// empty results are skipped, flattened objects are spliced in, and with
    /// `first_occurrence` nothing after the first non-empty result counts.
    pub fn merge_children(&self, vals: Vec<Value>) -> (r: InnerMap)
        requires
            vals.len() <= self.children_spec().len(),
        ensures
            r@ == self.children_result(crate::value::models_of(vals@)),
            keys_unique(r.entries@),
    {
        let ghost names = self.child_names();
        let ghost flats = self.child_flats();
        let ghost first = self.first_occurrence;
        let ghost all = crate::value::models_of(vals@);
        proof {
            lemma_models_of(vals@);
        }
        let mut m = InnerMap::new();
        let mut i: usize = 0;
        let mut stop = false;
        while i < vals.len() && !stop
            invariant
                i <= vals.len() <= self.children.len(),
                names == self.child_names(),
                flats == self.child_flats(),
                first == self.first_occurrence,
                all == crate::value::models_of(vals@),
                all.len() == vals.len(),
                forall|j: int| 0 <= j < vals.len() ==> #[trigger] all[j] == vals@[j]@,
                keys_unique(m.entries@),
                m@ == merged_children(Map::empty(), names, flats, all.subrange(0, i as int)),
                !stop ==> (first ==> forall|k: int| 0 <= k < i ==> model_is_empty(#[trigger] all[k])),
                stop ==> first && i > 0 && !model_is_empty(all[i - 1]) && forall|k: int|
                    0 <= k < i - 1 ==> model_is_empty(#[trigger] all[k]),
            decreases vals.len() - i,
        {
            let child = &self.children[i];
            proof {
                assert(names[i as int] == child.name@);
                assert(flats[i as int] == child.flatten);
                assert(all.subrange(0, i + 1).drop_last() == all.subrange(0, i as int));
            }
            let v = vals[i].duplicate();
            if !v.is_empty() {
                merge_child_value(&mut m, &child.name, child.flatten, v);
                if self.first_occurrence {
                    stop = true;
                }
            }
            i = i + 1;
        }
        proof {
            if stop {
                let pre = all.subrange(0, i as int);
                let pad = all.subrange(i as int, all.len() as int);
                assert(pre + pad == all);
                lemma_counted_stops(pre, pad);
            } else {
                assert(all.subrange(0, i as int) == all);
                lemma_counted_all_empty(all, first);
            }
        }
        m
    }

    /// The children's results on `scope`, in order; with `first_occurrence`
    /// the children after the first non-empty result are not evaluated.
    fn children_values(&self, scope: &dom_query::Selection) -> (r: Vec<Value>)
        ensures
            r.len() <= self.children_spec().len(),
        decreases self, 0int,
    {
        let mut out: Vec<Value> = Vec::new();
        let mut i: usize = 0;
        while i < self.children.len()
            invariant
                i <= self.children.len(),
                out.len() == i,
            decreases self.children.len() - i,
        {
            let child = &self.children[i];
            proof {
                assert(decreases_to!(*self => self.children));
                assert(decreases_to!(self.children => self.children@));
                assert(decreases_to!(self.children@ => self.children@[i as int]));
            }
            let v = child.parse_value(scope);
            let stop = self.first_occurrence && !v.is_empty();
            out.push(v);
            i = i + 1;
            if stop {
                break;
            }
        }
        out
    }

    /// The object that the children make of `scope`.
    fn parse_children_to_map(&self, scope: &dom_query::Selection) -> (r: Value)
        ensures
            r@ is Object && self.children_object(r@->Object_0),
        decreases self, 1int,
    {
        let vals = self.children_values(scope);
        let ghost vm = crate::value::models_of(vals@);
        proof {
            lemma_models_of(vals@);
        }
        let m = self.merge_children(vals);
        assert(self.children_result(vm) == m@);
        Value::Object(m)
    }

    /// The numbered objects that the children make of each element.
    fn parse_children_to_slice_maps(&self, elements: &Vec<dom_query::Selection>) -> (r: Value)
        ensures
            exists|ms: Seq<Map<Seq<char>, ValueModel>>|
                ms.len() == elements.len() && (forall|i: int|
                    0 <= i < elements.len() ==> self.children_object(#[trigger] ms[i])) && r@
                    == ValueModel::Array(#[trigger] numbered(ms, self.flags_spec().1)),
        decreases self, 1int,
    {
        let mut maps: Vec<InnerMap> = Vec::new();
        let mut i: usize = 0;
        while i < elements.len()
            invariant
                i <= elements.len(),
                maps.len() == i,
                forall|j: int| 0 <= j < i ==> self.children_object(#[trigger] maps@[j]@),
            decreases elements.len() - i,
        {
            let vals = self.children_values(&elements[i]);
            let ghost vm = crate::value::models_of(vals@);
            proof {
                lemma_models_of(vals@);
            }
            let m = self.merge_children(vals);
            assert(self.children_result(vm) == m@);
            maps.push(m);
            i = i + 1;
        }
        let ghost ms = map_views(maps@);
        assert forall|j: int| 0 <= j < elements.len() implies self.children_object(#[trigger] ms[j]) by {
            assert(ms[j] == maps@[j]@);
        }
        let r = number_objects(maps, self.enumerate);
        assert(r@ == ValueModel::Array(numbered(ms, self.flags_spec().1)));
        r
    }

    /// The node's scope within `root`: `root` itself when it inherits,
    /// otherwise the matches of its selector (the first only, unless
    /// `many`), or their parents when `parent` is set.
    pub fn resolve_scope<'a>(&self, root: &dom_query::Selection<'a>) -> dom_query::Selection<'a> {
        proof {
            use_type_invariant(self);
        }
        if self.inherit {
            same_scope(root)
        } else {
            let m = self.matcher.as_ref().unwrap();
            if self.parent {
                parents_of(&select_all(root, m))
            } else if self.many {
                select_all(root, m)
            } else {
                select_first(root, m)
            }
        }
    }

    /// The node's value for the resolved scope `scope`, whose elements are
    /// `elements`: `Null` when there is none, else what `scope_value` says.
    pub fn value_in_scope(&self, scope: &dom_query::Selection, elements: &Vec<dom_query::Selection>) -> (r: Value)
        ensures
            elements.len() == 0 ==> r@ is Null,
            elements.len() > 0 ==> self.scope_value(elements.len() as nat, r@),
        decreases self, 2int,
    {
        if elements.len() == 0 {
            return Value::Null;
        }
        if self.children.len() > 0 {
            if self.many {
                self.parse_children_to_slice_maps(elements)
            } else {
                self.parse_children_to_map(scope)
            }
        } else if self.many {
            let mut xs: Vec<Option<String>> = Vec::new();
            let mut i: usize = 0;
            while i < elements.len()
                invariant
                    i <= elements.len(),
                    xs.len() == i,
                decreases elements.len() - i,
            {
                xs.push(extract_data(&elements[i], self.extract.as_str()));
                i = i + 1;
            }
            let ghost x = opt_texts(xs@);
            let r = self.leaf_many_value(xs);
            assert(r@ == self.leaf_many_result(x));
            r
        } else {
            let e = extract_data(&elements[0], self.extract.as_str());
            let ghost x = opt_text(e);
            let r = self.leaf_value(e);
            assert(r@ == self.leaf_single_model(x));
            r
        }
    }

    /// Applies this node to the scope `root`: resolves its own scope, yields
    /// `Null` when that is empty and otherwise the node's value; the matched
    /// elements are removed afterwards where `remove_selection` is set.
    pub fn parse_value(&self, root: &dom_query::Selection) -> (r: Value)
        ensures
            self.value_ok(r@),
        decreases self, 3int,
    {
        let scope = self.resolve_scope(root);
        let elements = elements_of(&scope);
        let v = self.value_in_scope(&scope, &elements);
        if elements.len() == 0 {
            return v;
        }
        if self.remove_selection {
            remove_all(&scope);
        }
        assert(self.value_ok(v@)) by {
            let n = elements.len() as nat;
            assert(n > 0 && self.scope_value(n, v@));
        }
        v
    }

    /// Applies the plan to a document: an object whose one key is the
    /// root's name, holding the root's value.
    pub fn parse_document(&self, doc: &dom_query::Document) -> (r: Value)
        ensures
            r@ is Object,
            r@->Object_0.dom() == set![self.name_spec()],
            self.value_ok(r@->Object_0[self.name_spec()]),
    {
        let sel = document_scope(doc);
        let val = self.parse_value(&sel);
        let mut m = InnerMap::new();
        m.insert(self.name.clone(), val);
        assert(m@.dom() =~= set![self.name_spec()]);
        Value::Object(m)
    }

    /// Parses `html` as a document and applies the plan to it.
    pub fn parse(&self, html: &str) -> (r: Value)
        ensures
            r@ is Object,
            r@->Object_0.dom() == set![self.name_spec()],
            self.value_ok(r@->Object_0[self.name_spec()]),
    {
        let doc = parse_html(html);
        self.parse_document(&doc)
    }
}

proof fn lemma_merged_all_empty(
    names: Seq<Seq<char>>,
    flats: Seq<bool>,
    vals: Seq<ValueModel>,
)
    requires
        forall|j: int| 0 <= j < vals.len() ==> model_is_empty(#[trigger] vals[j]),
    ensures
        merged_children(Map::empty(), names, flats, vals) == Map::<Seq<char>, ValueModel>::empty(),
    decreases vals.len(),
{
    if vals.len() > 0 {
        lemma_merged_all_empty(names, flats, vals.drop_last());
    }
}

/// With `first_occurrence`, the object holds only what the first child
/// with a non-empty result contributes: its result under its name, or the
/// entries of its object where it flattens. Later children do not count.
pub proof fn law_first_occurrence(f: Finder, vals: Seq<ValueModel>, k: int)
    requires
        f.flags_spec().4,
        0 <= k < vals.len() <= f.children_spec().len(),
        !model_is_empty(vals[k]),
        forall|j: int| 0 <= j < k ==> model_is_empty(#[trigger] vals[j]),
    ensures
        f.children_result(vals) == merge_child(
            Map::empty(),
            f.child_names()[k],
            f.child_flats()[k],
            vals[k],
        ),
{
    let pre = vals.subrange(0, k + 1);
    let pad = vals.subrange(k + 1, vals.len() as int);
    assert(pre + pad == vals);
    lemma_counted_stops(pre, pad);
    assert(pre.drop_last() == vals.subrange(0, k));
    lemma_merged_all_empty(f.child_names(), f.child_flats(), vals.subrange(0, k));
}

/// With a separator, a `many` node without children yields one string,
/// its present targets through the pipeline joined, whatever its cast.
pub proof fn law_join_overrides_cast(f: Finder, xs: Seq<Option<Seq<char>>>)
    requires
        f.join_sep_spec().len() > 0,
    ensures
        f.leaf_many_result(xs) == ValueModel::String(joined(f.present_piped(xs), f.join_sep_spec())),
{
}

} // verus!
