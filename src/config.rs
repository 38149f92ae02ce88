//! The user-authored specification of what to extract.

use vstd::prelude::*;
use crate::errors::ValidationError;

verus! {

/// The type that a final extracted string is cast to.
#[derive(Debug, Clone, Copy, PartialEq, Eq, Structural)]
pub enum CastType {
    String,
    Bool,
    Int,
    Float,
}

impl Default for CastType {
    fn default() -> (r: CastType)
        ensures
            r == CastType::String,
    {
        CastType::String
    }
}

/// One node of an extraction specification, with its children.
#[derive(Debug)]
pub struct Config {
    /// The key of the node's result.
    pub name: String,
    /// The CSS selector of the node's scope; may be empty when `inherit` is set.
    pub base_path: String,
    /// What to extract: `text`, `inner_text`, `html`, `inner_html` or an
    /// attribute name. Exclusive with `children`.
    pub extract: String,
    /// The type of the final value.
    pub cast: CastType,
    /// Joins the values of a `many` node without children into one string.
    pub join_sep: String,
    /// The node yields every match, not only the first.
    pub many: bool,
    /// Each object of a `many` node with children gets its position under `index`.
    pub enumerate: bool,
    /// The node reuses the scope of its parent instead of selecting.
    pub inherit: bool,
    /// The node's scope is the parent of each match.
    pub parent: bool,
    /// The node keeps only the first child that yields something.
    pub first_occurrence: bool,
    /// The matched elements are removed from the document after extraction.
    pub remove_selection: bool,
    /// An object that this node yields is merged into its parent's object.
    pub flatten: bool,
    /// Reserved: a selector split on `,`. It has no effect.
    pub split_path: bool,
    /// Procedures applied to each extracted string, in order: a name, then
    /// its arguments.
    pub pipeline: Vec<Vec<String>>,
    /// The nested nodes.
    pub children: Vec<Config>,
}

impl Default for Config {
    fn default() -> (r: Config)
        ensures
            r.name@.len() == 0,
            r.base_path@.len() == 0,
            r.extract@.len() == 0,
            r.cast == CastType::String,
            r.join_sep@.len() == 0,
            !r.many && !r.enumerate && !r.inherit && !r.parent,
            !r.first_occurrence && !r.remove_selection && !r.flatten && !r.split_path,
            r.pipeline.len() == 0,
            r.children.len() == 0,
    {
        Config {
            name: String::new(),
            base_path: String::new(),
            extract: String::new(),
            cast: CastType::String,
            join_sep: String::new(),
            many: false,
            enumerate: false,
            inherit: false,
            parent: false,
            first_occurrence: false,
            remove_selection: false,
            flatten: false,
            split_path: false,
            pipeline: Vec::new(),
            children: Vec::new(),
        }
    }
}

/// The node has a name.
pub open spec fn has_name(c: Config) -> bool {
    c.name@.len() > 0
}

/// The node has a selector, or may go without one.
pub open spec fn has_scope(c: Config) -> bool {
    c.base_path@.len() > 0 || c.inherit
}

/// The node has exactly one of `extract` and `children`.
pub open spec fn extract_xor_children(c: Config) -> bool {
    (c.extract@.len() > 0) != (c.children.len() > 0)
}

/// The node keeps the rules of a specification node.
pub open spec fn config_valid(c: Config) -> bool {
    has_name(c) && has_scope(c) && extract_xor_children(c)
}

/// Whether `e` is the error that validation reports for `c`: the first
/// rule broken, in the order name, scope, extract-or-children.
pub open spec fn validation_error_is(e: ValidationError, c: Config) -> bool {
    match e {
        ValidationError::FieldIsMissing(f) => (!has_name(c) && f@ == "name"@) || (has_name(c)
            && !has_scope(c) && f@ == "base_path"@),
        ValidationError::ExtractOrDive => has_name(c) && has_scope(c) && !extract_xor_children(c),
    }
}

impl Config {
    /// Checks the node's own rules, in this order: a name, a selector unless
    /// the scope is inherited, exactly one of `extract` and `children`.
    pub fn validate(&self) -> (r: Result<(), ValidationError>)
        ensures
            r is Ok <==> config_valid(*self),
            match r {
                Ok(()) => true,
                Err(e) => validation_error_is(e, *self),
            },
    {
        if self.name.as_str().unicode_len() == 0 {
            return Err(ValidationError::FieldIsMissing("name".to_owned()));
        }
        if self.base_path.as_str().unicode_len() == 0 && !self.inherit {
            return Err(ValidationError::FieldIsMissing("base_path".to_owned()));
        }
        let must_extract = self.extract.as_str().unicode_len() != 0;
        let must_dive = self.children.len() != 0;
        if must_extract == must_dive {
            return Err(ValidationError::ExtractOrDive);
        }
        Ok(())
    }
}

} // verus!
