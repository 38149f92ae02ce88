use dom_finder::{CastType, Config, Finder, ParseError, PipelineError, ValidationError, Value};
use dom_query::Document;

fn node(name: &str, base_path: &str, extract: &str) -> Config {
    Config {
        name: name.to_string(),
        base_path: base_path.to_string(),
        extract: extract.to_string(),
        ..Default::default()
    }
}

fn inherit(name: &str, extract: &str) -> Config {
    Config {
        inherit: true,
        ..node(name, "", extract)
    }
}

fn steps(raw: &[&[&str]]) -> Vec<Vec<String>> {
    raw.iter().map(|s| s.iter().map(|a| a.to_string()).collect()).collect()
}

#[test]
fn create_finder_success() {
    let cfg = Config {
        children: vec![Config {
            many: true,
            children: vec![
                inherit("link", "href"),
                inherit("title", "text"),
                Config {
                    pipeline: steps(&[&["regex", "https?://([a-zA-Z0-9.-]+)/"]]),
                    ..inherit("domain", "href")
                },
            ],
            ..node("links", "a[href]", "")
        }],
        ..node("root", "html", "")
    };
    let finder = Finder::new(&cfg);
    assert!(finder.is_ok());
}

#[test]
fn create_finder_inherit_root_fail() {
    let cfg = inherit("root", "text");
    let finder = Finder::new(&cfg);
    assert!(finder.is_err());
    assert!(matches!(finder, Err(ParseError::RequireMatcher)));
}

#[test]
fn finder_pipeline_missing_arguments() {
    let cfg = Config {
        children: vec![Config {
            many: true,
            children: vec![Config {
                pipeline: steps(&[&["regex"]]),
                ..inherit("domain", "href")
            }],
            ..node("links", "a[href]", "")
        }],
        ..node("root", "html", "")
    };
    let finder = Finder::new(&cfg);
    assert!(finder.is_err());
    match finder {
        Err(ParseError::Pipeline(PipelineError::ProcNotEnoughArguments(n, given, needed))) => {
            assert_eq!((n.as_str(), given, needed), ("regex", 0, 1));
        }
        _ => panic!("expected ProcNotEnoughArguments"),
    }
}

#[test]
fn finder_pipeline_non_existing_proc() {
    let cfg = Config {
        children: vec![Config {
            many: true,
            pipeline: steps(&[&["non_existing_proc"]]),
            ..node("all_links", "a[href]", "")
        }],
        ..node("root", "html", "")
    };
    let finder = Finder::new(&cfg);
    assert!(finder.is_err());
}

#[test]
fn finder_unknown_proc_error_names_it() {
    let cfg = Config {
        pipeline: steps(&[&["non_existing_proc"]]),
        ..node("root", "html", "text")
    };
    match Finder::new(&cfg) {
        Err(ParseError::Pipeline(PipelineError::ProcDoesNotExist(n))) => assert_eq!(n, "non_existing_proc"),
        _ => panic!("expected ProcDoesNotExist"),
    }
}

#[test]
fn finder_bad_regex_fails() {
    let cfg = Config {
        pipeline: steps(&[&["regex", "(unclosed"]]),
        ..node("root", "html", "text")
    };
    assert!(matches!(Finder::new(&cfg), Err(ParseError::Pipeline(PipelineError::Regex(_)))));
}

#[test]
fn finder_invalid_selector_requires_matcher() {
    let cfg = node("root", "a[[[", "text");
    assert!(matches!(Finder::new(&cfg), Err(ParseError::RequireMatcher)));
}

#[test]
fn finder_child_validation_error_propagates() {
    let cfg = Config {
        children: vec![node("child", "", "text")],
        ..node("root", "html", "")
    };
    match Finder::new(&cfg) {
        Err(ParseError::Validation(ValidationError::FieldIsMissing(f))) => assert_eq!(f, "base_path"),
        _ => panic!("expected FieldIsMissing"),
    }
}

#[test]
fn extract_or_dive_decides_compilation() {
    let one = node("root", "html", "text");
    assert!(Finder::new(&one).is_ok());
    let neither = node("root", "html", "");
    assert!(matches!(
        Finder::new(&neither),
        Err(ParseError::Validation(ValidationError::ExtractOrDive))
    ));
    let both = Config {
        children: vec![node("c", "a", "href")],
        ..node("root", "html", "text")
    };
    assert!(matches!(
        Finder::new(&both),
        Err(ParseError::Validation(ValidationError::ExtractOrDive))
    ));
}

#[test]
fn missing_base_path_fails_with_field_is_missing() {
    let cfg = Config {
        children: vec![node("child", "", "text")],
        ..node("root", "html", "")
    };
    assert!(matches!(
        Finder::new(&cfg),
        Err(ParseError::Validation(ValidationError::FieldIsMissing(_)))
    ));
    let root = node("root", "", "text");
    assert!(matches!(
        Finder::new(&root),
        Err(ParseError::Validation(ValidationError::FieldIsMissing(_)))
    ));
}

#[test]
fn parse_wraps_result_under_root_name() {
    let finder = Finder::new(&node("title", "h1", "text")).unwrap();
    let res = finder.parse("<html><body><h1>Hello</h1></body></html>");
    assert_eq!(res.from_path("title"), Some(Value::String("Hello".to_string())));
}

#[test]
fn missing_selection_yields_null_and_skips_children() {
    let cfg = Config {
        children: vec![Config {
            children: vec![node("x", "span", "text")],
            ..node("absent", "section", "")
        }],
        ..node("root", "html", "")
    };
    let finder = Finder::new(&cfg).unwrap();
    let res = finder.parse("<html><body><p>no section</p></body></html>");
    assert_eq!(res.from_path("root"), Some(Value::Object(dom_finder::InnerMap::new())));
    assert_eq!(res.from_path("root.absent"), None);
}

const NUTRITION_PAGE: &str =
    "<html><body><h1><span>A Brief List of </span>Fruit Nutrition Facts</h1><p>x</p></body></html>";

#[test]
fn inner_text() {
    let cfg = Config {
        children: vec![node("title", "h1", "inner_text"), node("full", "h1", "text")],
        ..node("root", "html", "")
    };
    let finder = Finder::new(&cfg).unwrap();
    let doc = Document::from(NUTRITION_PAGE);
    let res = finder.parse_document(&doc);
    let title: Option<String> = res.from_path("root.title").and_then(|v| v.into_string());
    assert_eq!(title.unwrap(), "Fruit Nutrition Facts");
    assert_eq!(
        res.from_path("root.full"),
        Some(Value::String("A Brief List of Fruit Nutrition Facts".to_string()))
    );
    assert!(doc.html().contains("<span>A Brief List of </span>"));
}

#[test]
fn inner_html() {
    let cfg = Config {
        children: vec![node("title", "h1", "inner_html"), node("outer", "h1", "html")],
        ..node("root", "html", "")
    };
    let finder = Finder::new(&cfg).unwrap();
    let doc = Document::from(NUTRITION_PAGE);
    let res = finder.parse_document(&doc);
    let title: Option<String> = res.from_path("root.title").and_then(|v| v.into_string());
    assert_eq!(title.unwrap(), "<span>A Brief List of </span>Fruit Nutrition Facts");
    assert_eq!(
        res.from_path("root.outer"),
        Some(Value::String("<h1><span>A Brief List of </span>Fruit Nutrition Facts</h1>".to_string()))
    );
}

#[test]
fn remove_selection() {
    let cfg = Config {
        children: vec![Config {
            remove_selection: true,
            pipeline: steps(&[&["trim_space"]]),
            ..node("feedback", "div#links.results div.feedback-btn", "text")
        }],
        ..node("root", "html", "")
    };
    let finder = Finder::new(&cfg).unwrap();
    let doc = Document::from(
        "<html><body><div id=\"links\" class=\"results\"><div class=\"feedback-btn\">\n  Feedback\n</div></div></body></html>",
    );
    let res = finder.parse_document(&doc);
    let feedback_caption: Option<String> = res.from_path("root.feedback").and_then(|v| v.into_string());
    assert_eq!(feedback_caption.unwrap(), "Feedback");
    let html = doc.html();
    assert!(!html.contains("feedback-btn"));
}

#[test]
fn value_wrong_extraction_entity() {
    let cfg = Config {
        children: vec![Config {
            many: true,
            children: vec![node("url", "h2.result__title > a[href]", "href")],
            ..node("results", "div.serp__results div.result", "")
        }],
        ..node("root", "html", "")
    };
    let finder = Finder::new(&cfg).unwrap();
    let doc = Document::from(
        "<html><body><div class=\"serp__results\"><div class=\"result\"><h2 class=\"result__title\"><a href=\"https://ethereum.org/en/\">E</a></h2></div></div></body></html>",
    );
    let res = finder.parse_document(&doc);
    let url_val: Option<Value> = res.from_path("root.results.0.url");
    assert_eq!(url_val, Some(Value::String("https://ethereum.org/en/".to_string())));
    let none_val: Option<Value> = url_val.and_then(|v| v.from_path("nonsense"));
    assert!(none_val.is_none());
}

#[test]
fn missing_attribute_yields_nothing() {
    let cfg = Config {
        children: vec![node("alt", "img", "alt")],
        ..node("root", "html", "")
    };
    let finder = Finder::new(&cfg).unwrap();
    let res = finder.parse("<html><body><img src=\"a.png\"></body></html>");
    assert_eq!(res.from_path("root.alt"), None);
}

#[test]
fn casts_apply_to_single_values() {
    let cfg = Config {
        children: vec![
            Config { cast: CastType::Int, ..node("n", "b", "text") },
            Config { cast: CastType::Float, ..node("f", "i", "text") },
            Config { cast: CastType::Bool, ..node("flag", "u", "text") },
        ],
        ..node("root", "html", "")
    };
    let finder = Finder::new(&cfg).unwrap();
    let res = finder.parse("<html><body><b>52</b><i>2.6</i><u>x</u></body></html>");
    assert_eq!(res.from_path("root.n").and_then(|v| v.as_i64()), Some(52));
    let f = res.from_path("root.f").unwrap();
    assert_eq!(f.as_float_text().map(|t| t.parse::<f64>().unwrap()), Some(2.6));
    assert_eq!(res.from_path("root.flag").and_then(|v| v.as_bool()), Some(true));
}

#[test]
fn parent_option_moves_to_parent() {
    let cfg = Config {
        children: vec![Config { parent: true, ..node("cls", "span.x", "class") }],
        ..node("root", "html", "")
    };
    let finder = Finder::new(&cfg).unwrap();
    let res = finder.parse("<html><body><div class=\"outer\"><span class=\"x\">t</span></div></body></html>");
    assert_eq!(res.from_path("root.cls"), Some(Value::String("outer".to_string())));
}

#[test]
fn enumerate_numbers_kept_objects() {
    let cfg = Config {
        children: vec![Config {
            many: true,
            enumerate: true,
            children: vec![node("t", "b", "text")],
            ..node("items", "li", "")
        }],
        ..node("root", "html", "")
    };
    let finder = Finder::new(&cfg).unwrap();
    let res = finder.parse("<html><body><ul><li><b>a</b></li><li>none</li><li><b>c</b></li></ul></body></html>");
    assert_eq!(res.from_path("root.items.#"), Some(Value::Int(2)));
    assert_eq!(res.from_path("root.items.#.index"), Some(Value::Array(vec![Value::Int(0), Value::Int(1)])));
    assert_eq!(res.from_path("root.items.1.t"), Some(Value::String("c".to_string())));
}

#[test]
fn result_is_empty() {
    let cfg = Config {
        children: vec![Config {
            many: true,
            children: vec![node("label", ".label", "text")],
            ..node("results", "div.serp__results div.result", "")
        }],
        ..node("root", "html", "")
    };
    let finder = Finder::new(&cfg).unwrap();
    let doc = Document::from(
        "<html><body><div class=\"serp__results\"><div class=\"result\">x</div><div class=\"result\">y</div></div></body></html>",
    );
    let res = finder.parse_document(&doc);
    let val = res.from_path("root.results");
    assert!(val.is_none());
}
