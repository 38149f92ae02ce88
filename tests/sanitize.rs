use dom_finder::{SanitizeOption, SanitizePolicy};
use dom_query::Document;

const HIGHLIGHT_HTML: &str = r#"
        <div><div><div>Integer <span style="color: red">efficitur</span> orci <b>quam</b></div></div>, in porttitor ipsum tempor et.</div>
        <div>Etiam id sapien quis ex laoreet efficitur.</div>
        <div>Nam <i>dictum</i> ut massa at malesuada.</div>
        <div>Ut nec purus feugiat, <span><em>fringilla nunc ornare, luctus ex</em></span>.</div>"#;

const HIGHLIGHT_EXPECTED: &str = "
        Integer efficitur orci <b>quam</b>, in porttitor ipsum tempor et.
        Etiam id sapien quis ex laoreet efficitur.
        Nam <i>dictum</i> ut massa at malesuada.
        Ut nec purus feugiat, <em>fringilla nunc ornare, luctus ex</em>.";

const TABLE_HTML: &str = r#"
        <table>
            <thead>
                <tr>
                    <th><h4><span style="color: green">Header 1</span></h4></th>
                    <th>Header 2</th>
                </tr>
            </thead>
            <tbody>
                <tr>
                    <td><b><i>Cell 1</i></b></td>
                    <td><em>Cell 2</em></td>
                </tr>
            </tbody>
        </table>
        "#;

const TABLE_EXPECTED: &str = "
        <table>
            <thead>
                <tr>
                    <th>Header 1</th>
                    <th>Header 2</th>
                </tr>
            </thead>
            <tbody>
                <tr>
                    <td><b><i>Cell 1</i></b></td>
                    <td><em>Cell 2</em></td>
                </tr>
            </tbody>
        </table>
        ";

const LIST_HTML: &str = r#"
        <ul id="unordered-list-1">
            <li><span><b>Item 1</b></span></li>
            <li><b><em>Item 2</em></b></li>
        </ul>
        <ol id="unordered-list-1">
            <li><span><b>Item 1</b><span><img src="item-1.png"/></span></span></li>
            <li><b><em>Item 2</em></b></li>
        </ol>
        <dl id="description-list-1">
            <dt>Term 1</dt>
            <dd>Details 1</dd>
        </dl>
        "#;

const LIST_EXPECTED: &str = "
        <ul>
            <li><b>Item 1</b></li>
            <li><b><em>Item 2</em></b></li>
        </ul>
        <ol>
            <li><b>Item 1</b></li>
            <li><b><em>Item 2</em></b></li>
        </ol>
        <dl>
            <dt>Term 1</dt>
            <dd>Details 1</dd>
        </dl>
        ";

#[test]
fn sanitization_sanitize_with_highlight_policy() {
    let doc = Document::fragment(HIGHLIGHT_HTML);
    let p = SanitizeOption::Highlight;
    let sanitized = p.clean_html(&doc.html_root()).unwrap();
    assert_eq!(sanitized, HIGHLIGHT_EXPECTED);
}

#[test]
fn sanitization_sanitize_with_table_policy() {
    let doc = Document::fragment(TABLE_HTML);
    let p = SanitizeOption::Table;
    let sanitized = p.clean_html(&doc.html_root()).unwrap();
    assert_eq!(sanitized, TABLE_EXPECTED);
}

#[test]
fn sanitization_sanitize_with_list_policy() {
    let doc = Document::fragment(LIST_HTML);
    let p = SanitizeOption::List;
    let sanitized = p.clean_html(&doc.html_root()).unwrap();
    assert_eq!(sanitized, LIST_EXPECTED);
}

#[test]
fn sanitize_policy_sanitize_with_highlight_policy() {
    let sanitized = SanitizePolicy::Highlight.clean(HIGHLIGHT_HTML);
    assert_eq!(sanitized, HIGHLIGHT_EXPECTED);
}

#[test]
fn sanitize_policy_sanitize_with_table_policy() {
    let sanitized = SanitizePolicy::Table.clean(TABLE_HTML);
    assert_eq!(sanitized, TABLE_EXPECTED);
}

#[test]
fn sanitize_policy_sanitize_with_list_policy() {
    let sanitized = SanitizePolicy::List.clean(LIST_HTML);
    assert_eq!(sanitized, LIST_EXPECTED);
}

#[test]
fn unsanitized_keeps_markup() {
    let html = "<p class=\"a\">x</p>";
    assert_eq!(SanitizePolicy::Unsanitized.clean(html), html);
    assert_eq!(SanitizeOption::Unsanitized.clean_markup(html), html);
}

#[test]
fn policies_are_nested() {
    let h = SanitizePolicy::Highlight.allowed_tags();
    let l = SanitizePolicy::List.allowed_tags();
    let t = SanitizePolicy::Table.allowed_tags();
    let c = SanitizePolicy::Common.allowed_tags();
    assert!(h.iter().all(|x| l.contains(x) && t.contains(x)));
    assert!(l.iter().chain(t.iter()).all(|x| c.contains(x)));
    assert!(c.iter().all(|x| l.contains(x) || t.contains(x)));
    assert_eq!(h.len(), 10);
}

#[test]
fn sanitize_allow_list_removes_disallowed_tags() {
    let out = SanitizePolicy::Highlight.clean("<div>Keep <script>evil()</script>text</div>");
    assert!(!out.contains('<'));
    assert!(out.starts_with("Keep "));
    assert!(out.ends_with("text"));
}

#[test]
fn clean_inner_html_cleans_children() {
    let doc = Document::fragment("<div id=\"a\"><span>x</span><b class=\"c\">y</b></div>");
    let div = doc.select("div").nodes()[0];
    assert_eq!(SanitizeOption::Highlight.clean_inner_html(&div).unwrap(), "x<b>y</b>");
}
