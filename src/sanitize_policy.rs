//! Allow-list HTML sanitization: four fixed policies, each a set of tag
//! names that survive cleaning.

use vstd::prelude::*;

verus! {

/// A sanitization policy: the elements it keeps. Every other element is
/// replaced by its children, and kept elements lose their attributes.
#[derive(Debug, Clone, Copy, PartialEq, Eq, Structural)]
pub enum SanitizePolicy {
    /// Text formatting: `b`, `del`, `em`, `i`, `ins`, `mark`, `s`, `small`,
    /// `strong`, `u`.
    Highlight,
    /// `Highlight` and lists: `dl`, `dt`, `dd`, `li`, `ul`, `ol`.
    List,
    /// `Highlight` and tables: `table`, `caption`, `colgroup`, `col`, `th`,
    /// `thead`, `tbody`, `tr`, `td`, `tfoot`.
    Table,
    /// `Highlight`, `List` and `Table` together.
    Common,
    /// No sanitization: markup passes unchanged.
    Unsanitized,
}

pub open spec fn highlight_tags() -> Seq<Seq<char>> {
    seq!["b"@, "del"@, "em"@, "i"@, "ins"@, "mark"@, "s"@, "small"@, "strong"@, "u"@]
}

pub open spec fn list_tags() -> Seq<Seq<char>> {
    seq!["dl"@, "dt"@, "dd"@, "li"@, "ul"@, "ol"@]
}

pub open spec fn table_tags() -> Seq<Seq<char>> {
    seq!["table"@, "caption"@, "colgroup"@, "col"@, "th"@, "thead"@, "tbody"@, "tr"@, "td"@, "tfoot"@]
}

/// The tag names a policy keeps, in the order it lists them.
pub open spec fn policy_tags(p: SanitizePolicy) -> Seq<Seq<char>> {
    match p {
        SanitizePolicy::Highlight => highlight_tags(),
        SanitizePolicy::List => highlight_tags() + list_tags(),
        SanitizePolicy::Table => highlight_tags() + table_tags(),
        SanitizePolicy::Common => highlight_tags() + list_tags() + table_tags(),
        SanitizePolicy::Unsanitized => Seq::empty(),
    }
}

pub open spec fn names_of(v: Seq<String>) -> Seq<Seq<char>> {
    v.map_values(|t: String| t@)
}

/// What cleaning `html` under the allow-list `allowed` gives: `html` parsed
/// as a fragment, each element whose name is not in `allowed` replaced by
/// its children, the attributes of the others removed, and the fragment's
/// content serialized again.
pub uninterp spec fn sanitized_html(allowed: Seq<Seq<char>>, html: Seq<char>) -> Seq<char>;

/// Relies on `dom_sanitizer::RestrictivePolicy` (built with
/// `exclude_elements`, which names the elements a restrictive policy keeps)
/// and `sanitize_document`, on a fragment that `dom_query::Document::fragment`
/// parses, serialized with `inner_html`. The result depends on the arguments
/// alone.
#[verifier::external_body]
fn sanitize_fragment(allowed: &Vec<String>, html: &str) -> (r: String)
    ensures
        r@ == sanitized_html(names_of(allowed@), html@),
{
    let names: Vec<&str> = allowed.iter().map(|t| t.as_str()).collect();
    let policy = dom_sanitizer::RestrictivePolicy::builder().exclude_elements(&names).build();
    let fragment = dom_query::Document::fragment(html);
    policy.sanitize_document(&fragment);
    fragment.html_root().inner_html().to_string()
}

fn push_names(v: &mut Vec<String>, names: &[&str])
    ensures
        names_of(final(v)@) == names_of(old(v)@) + names@.map_values(|t: &str| t@),
{
    let mut i: usize = 0;
    while i < names.len()
        invariant
            i <= names.len(),
            names_of(v@) == names_of(old(v)@) + names@.subrange(0, i as int).map_values(|t: &str| t@),
        decreases names.len() - i,
    {
        let ghost before = v@;
        v.push(names[i].to_owned());
        proof {
            assert(names_of(v@) == names_of(before).push(names@[i as int]@));
            assert(names@.subrange(0, i + 1).map_values(|t: &str| t@) == names@.subrange(0, i as int).map_values(
                |t: &str| t@,
            ).push(names@[i as int]@));
        }
        i = i + 1;
    }
    assert(names@.subrange(0, names.len() as int) == names@);
}

impl SanitizePolicy {
    /// The tag names this policy keeps.
    pub fn allowed_tags(&self) -> (r: Vec<String>)
        ensures
            names_of(r@) == policy_tags(*self),
    {
        let mut r: Vec<String> = Vec::new();
        let highlight = ["b", "del", "em", "i", "ins", "mark", "s", "small", "strong", "u"];
        let list = ["dl", "dt", "dd", "li", "ul", "ol"];
        let table = ["table", "caption", "colgroup", "col", "th", "thead", "tbody", "tr", "td", "tfoot"];
        assert(highlight@.map_values(|t: &str| t@) =~= highlight_tags());
        assert(list@.map_values(|t: &str| t@) =~= list_tags());
        assert(table@.map_values(|t: &str| t@) =~= table_tags());
        assert(names_of(r@) =~= Seq::empty());
        match self {
            SanitizePolicy::Unsanitized => {},
            SanitizePolicy::Highlight => {
                push_names(&mut r, &highlight);
            },
            SanitizePolicy::List => {
                push_names(&mut r, &highlight);
                push_names(&mut r, &list);
            },
            SanitizePolicy::Table => {
                push_names(&mut r, &highlight);
                push_names(&mut r, &table);
            },
            SanitizePolicy::Common => {
                push_names(&mut r, &highlight);
                push_names(&mut r, &list);
                push_names(&mut r, &table);
            },
        }
        r
    }

    /// `html` cleaned under this policy; `Unsanitized` leaves it unchanged.
    pub fn clean(&self, html: &str) -> (r: String)
        ensures
            *self == SanitizePolicy::Unsanitized ==> r@ == html@,
            *self != SanitizePolicy::Unsanitized ==> r@ == sanitized_html(policy_tags(*self), html@),
    {
        if *self == SanitizePolicy::Unsanitized {
            return html.to_owned();
        }
        let tags = self.allowed_tags();
        sanitize_fragment(&tags, html)
    }
}

/// The policies are nested: `Highlight` is within `List` and `Table`, and
/// `Common` keeps exactly what `Highlight`, `List` and `Table` keep.
pub proof fn law_policy_nesting()
    ensures
        policy_tags(SanitizePolicy::Highlight).to_set().subset_of(policy_tags(SanitizePolicy::List).to_set()),
        policy_tags(SanitizePolicy::Highlight).to_set().subset_of(policy_tags(SanitizePolicy::Table).to_set()),
        policy_tags(SanitizePolicy::Common).to_set() == policy_tags(SanitizePolicy::Highlight).to_set()
            + policy_tags(SanitizePolicy::List).to_set() + policy_tags(SanitizePolicy::Table).to_set(),
{
    let h = highlight_tags();
    let l = list_tags();
    let t = table_tags();
    assert forall|x: Seq<char>| h.to_set().contains(x) implies (h + l).to_set().contains(x) by {
        let i = choose|i: int| 0 <= i < h.len() && h[i] == x;
        assert((h + l)[i] == x);
    }
    assert forall|x: Seq<char>| h.to_set().contains(x) implies (h + t).to_set().contains(x) by {
        let i = choose|i: int| 0 <= i < h.len() && h[i] == x;
        assert((h + t)[i] == x);
    }
    assert forall|x: Seq<char>| (h + l + t).to_set().contains(x) <==> (h.to_set() + (h + l).to_set() + (h
        + t).to_set()).contains(x) by {
        if (h + l + t).to_set().contains(x) {
            let i = choose|i: int| 0 <= i < (h + l + t).len() && (h + l + t)[i] == x;
            if i < h.len() {
                assert(h[i] == x);
            } else if i < h.len() + l.len() {
                assert((h + l)[i] == x);
            } else {
                assert((h + t)[i - l.len()] == x);
            }
        }
        if (h + l).to_set().contains(x) {
            let i = choose|i: int| 0 <= i < (h + l).len() && (h + l)[i] == x;
            assert((h + l + t)[i] == x);
        }
        if (h + t).to_set().contains(x) {
            let i = choose|i: int| 0 <= i < (h + t).len() && (h + t)[i] == x;
            if i < h.len() {
                assert((h + l + t)[i] == x);
            } else {
                assert((h + l + t)[i + l.len()] == x);
            }
        }
        if h.to_set().contains(x) {
            let i = choose|i: int| 0 <= i < h.len() && h[i] == x;
            assert((h + l + t)[i] == x);
        }
    }
    assert(policy_tags(SanitizePolicy::Common).to_set() =~= policy_tags(SanitizePolicy::Highlight).to_set()
        + policy_tags(SanitizePolicy::List).to_set() + policy_tags(SanitizePolicy::Table).to_set());
}

} // verus!
