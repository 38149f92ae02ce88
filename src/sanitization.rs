//! Sanitization of document nodes under a chosen policy.

use vstd::prelude::*;
use crate::dom::{node_html, node_inner_html};
use crate::sanitize_policy::{SanitizePolicy, policy_tags, sanitized_html};

verus! {

/// The policy to clean a node's markup with, or none.
#[derive(Debug, Clone, Copy, PartialEq, Eq, Structural)]
pub enum SanitizeOption {
    /// Keeps text and `b`, `del`, `em`, `i`, `ins`, `mark`, `s`, `small`,
    /// `strong` and `u`.
    Highlight,
    /// Keeps what `Highlight` keeps and `dl`, `dt`, `dd`, `li`, `ul`, `ol`.
    List,
    /// Keeps what `Highlight` keeps and `table`, `caption`, `colgroup`,
    /// `col`, `th`, `thead`, `tbody`, `tr`, `td`, `tfoot`.
    Table,
    /// Keeps what `Highlight`, `List` and `Table` keep.
    Common,
    /// Keeps all markup.
    Unsanitized,
}

pub open spec fn option_policy(o: SanitizeOption) -> SanitizePolicy {
    match o {
        SanitizeOption::Highlight => SanitizePolicy::Highlight,
        SanitizeOption::List => SanitizePolicy::List,
        SanitizeOption::Table => SanitizePolicy::Table,
        SanitizeOption::Common => SanitizePolicy::Common,
        SanitizeOption::Unsanitized => SanitizePolicy::Unsanitized,
    }
}

/// `html` as cleaning under option `o` leaves it.
pub open spec fn cleaned(o: SanitizeOption, html: Seq<char>) -> Seq<char> {
    if o == SanitizeOption::Unsanitized {
        html
    } else {
        sanitized_html(policy_tags(option_policy(o)), html)
    }
}

impl SanitizeOption {
    /// The policy this option stands for.
    pub fn policy(&self) -> (r: SanitizePolicy)
        ensures
            r == option_policy(*self),
    {
        match self {
            SanitizeOption::Highlight => SanitizePolicy::Highlight,
            SanitizeOption::List => SanitizePolicy::List,
            SanitizeOption::Table => SanitizePolicy::Table,
            SanitizeOption::Common => SanitizePolicy::Common,
            SanitizeOption::Unsanitized => SanitizePolicy::Unsanitized,
        }
    }

    /// Cleans a piece of markup under this option.
    pub fn clean_markup(&self, html: &str) -> (r: String)
        ensures
            r@ == cleaned(*self, html@),
    {
        self.policy().clean(html)
    }

    /// The markup of `node`, itself included, cleaned; `None` where the node
    /// cannot be serialized.
    pub fn clean_html(&self, node: &dom_query::NodeRef) -> (r: Option<String>)
        ensures
            r is Some ==> exists|h: Seq<char>| r->Some_0@ == #[trigger] cleaned(*self, h),
    {
        match node_html(node) {
            Some(h) => {
                let c = self.clean_markup(h.as_str());
                assert(c@ == cleaned(*self, h@));
                Some(c)
            },
            None => None,
        }
    }

    /// The markup of `node`'s children, cleaned; `None` where it cannot be
    /// serialized.
    pub fn clean_inner_html(&self, node: &dom_query::NodeRef) -> (r: Option<String>)
        ensures
            r is Some ==> exists|h: Seq<char>| r->Some_0@ == #[trigger] cleaned(*self, h),
    {
        match node_inner_html(node) {
            Some(h) => {
                let c = self.clean_markup(h.as_str());
                assert(c@ == cleaned(*self, h@));
                Some(c)
            },
            None => None,
        }
    }
}

} // verus!
