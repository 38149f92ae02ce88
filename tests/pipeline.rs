use dom_finder::{ParseError, Pipeline, PipelineError, Proc};

fn steps(raw: &[&[&str]]) -> Vec<Vec<String>> {
    raw.iter().map(|s| s.iter().map(|a| a.to_string()).collect()).collect()
}

fn proc(name: &str, args: &[&str]) -> Proc {
    let args: Vec<String> = args.iter().map(|a| a.to_string()).collect();
    Proc::new(name, &args).unwrap()
}

#[test]
fn regex_proc_matching_group() {
    let proc = proc("regex", &[r"(?:https?://)(?<domain>[a-zA-Z0-9.-]+)/"]);
    let res = proc.handle("http://www.example.com/p1/?q=2");
    assert_eq!(res, "www.example.com");
}

#[test]
fn regex_proc_only_capture_groups() {
    let proc = proc("regex", &[r"(https?://)(?<domain>[a-zA-Z0-9.-]+)/"]);
    let res = proc.handle("http://www.example.com/p1/?q=2");
    assert_eq!(res, "http://www.example.com");
}

#[test]
fn regex_find_proc() {
    let proc = proc("regex_find", &[r"(?:https?://)(?<domain>[a-zA-Z0-9.-]+)/"]);
    let res = proc.handle("http://www.example.com/p1/?q=2");
    assert_eq!(res, "http://www.example.com/");
}

#[test]
fn regex_without_match_is_empty() {
    assert_eq!(proc("regex", &[r"(\d+)"]).handle("none"), "");
    assert_eq!(proc("regex_find", &[r"\d+"]).handle("none"), "");
}

#[test]
fn extract_json() {
    let proc = Proc::ExtractJson("a.b.c".to_string());
    let res = proc.handle(r#"{"a":{"b":{"c":"d"}}}"#);
    assert_eq!(res, "d");
}

#[test]
fn extract_json_miss_is_empty() {
    assert_eq!(Proc::ExtractJson("a.x".to_string()).handle(r#"{"a":{"b":1}}"#), "");
    assert_eq!(Proc::ExtractJson("a".to_string()).handle("not json"), "");
}

#[test]
fn trim() {
    let proc = Proc::Trim(vec![' ', '-', '=']);
    let res = proc.handle(" -=1=- ");
    assert_eq!(res, "1");
}

#[test]
fn trim_space_strips_unicode_white_space() {
    assert_eq!(Proc::TrimSpace.handle("\u{3000}\t a b \n\u{a0}"), "a b");
    assert_eq!(Proc::TrimSpace.handle(" \t "), "");
}

#[test]
fn replace() {
    let proc = Proc::Replace("%20".to_string(), "+".to_string());
    let res = proc.handle("search/?q=mob%20100");
    assert_eq!(res, "search/?q=mob+100");
}

#[test]
fn replace_is_non_overlapping_from_the_left() {
    assert_eq!(Proc::Replace("aa".to_string(), "b".to_string()).handle("aaaaa"), "bba");
    assert_eq!(Proc::Replace("".to_string(), "-".to_string()).handle("ab"), "-a-b-");
}

#[test]
fn normalize_spaces() {
    let proc = Proc::NormalizeSpaces;
    let res = proc.handle("<div>\n    Some\t</span>green</span>  text\n</div>\n");
    assert_eq!(res, "<div> Some </span>green</span> text </div>");
}

#[test]
fn html_unescape_decodes_entities() {
    assert_eq!(Proc::HtmlUnescape.handle("a &amp; b &lt;c&gt;"), "a & b <c>");
}

#[test]
fn parse_replace_proc_from_args() {
    let proc = Proc::new("replace", &["%20".into(), "+".into()]).expect("should build `Proc::Replace` proc");
    let result = proc.handle("search/?q=mob%20100");
    assert_eq!(result, "search/?q=mob+100");
}

#[test]
fn proc_errors() {
    assert!(matches!(Proc::new("nope", &[]), Err(PipelineError::ProcDoesNotExist(_))));
    match Proc::new("replace", &["x".to_string()]) {
        Err(PipelineError::ProcNotEnoughArguments(n, given, needed)) => {
            assert_eq!((n.as_str(), given, needed), ("replace", 1, 2))
        }
        _ => panic!("expected ProcNotEnoughArguments"),
    }
    assert!(matches!(Proc::new("regex_find", &["[".to_string()]), Err(PipelineError::Regex(_))));
}

#[test]
fn empty_pipeline_is_identity() {
    let p = Pipeline::new(&Vec::new()).unwrap();
    assert_eq!(p.handle("  keep <b>me</b> ".to_string()), "  keep <b>me</b> ");
    let skipped = Pipeline::new(&vec![Vec::new()]).unwrap();
    assert_eq!(skipped.handle("x".to_string()), "x");
}

#[test]
fn pipeline_applies_steps_in_order() {
    let p = Pipeline::new(&steps(&[&["regex", r"(\d+)"], &["trim_space"]])).unwrap();
    assert_eq!(p.handle("  42px ".to_string()), "42");
    let q = Pipeline::new(&steps(&[&["trim_space"], &["replace", "a", "b"], &["trim", "b"]])).unwrap();
    assert_eq!(q.handle(" abca ".to_string()), "c");
}

#[test]
fn pipeline_first_bad_step_fails() {
    let r = Pipeline::new(&steps(&[&["trim_space"], &["bogus"], &["regex"]]));
    match r {
        Err(ParseError::Pipeline(PipelineError::ProcDoesNotExist(n))) => assert_eq!(n, "bogus"),
        _ => panic!("expected ProcDoesNotExist"),
    }
}

#[test]
fn policy_procs_sanitize() {
    assert_eq!(Proc::PolicyHighlight.handle("<p>a <b class=\"x\">b</b></p>"), "a <b>b</b>");
    assert_eq!(Proc::PolicyList.handle("<ul><li><span>x</span></li></ul>"), "<ul><li>x</li></ul>");
    assert_eq!(Proc::PolicyTable.handle("<ul><li>x</li></ul>"), "x");
    assert_eq!(Proc::PolicyCommon.handle("<ul><li><i>x</i></li></ul>"), "<ul><li><i>x</i></li></ul>");
}
