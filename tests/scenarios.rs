use dom_finder::{CastType, Config, Finder, InnerMap, Pipeline, SanitizePolicy, Value};
use dom_finder::finder::{cast_value, collect_values, join_with, merge_child_value, number_objects};
use dom_query::Document;

fn node(name: &str, base_path: &str, extract: &str) -> Config {
    Config {
        name: name.to_string(),
        base_path: base_path.to_string(),
        extract: extract.to_string(),
        ..Default::default()
    }
}

fn inherit(name: &str, extract: &str) -> Config {
    Config {
        inherit: true,
        ..node(name, "", extract)
    }
}

fn s(t: &str) -> Value {
    Value::String(t.to_string())
}

#[test]
fn cast_bool_is_non_emptiness() {
    assert_eq!(cast_value(String::new(), CastType::Bool), Value::Bool(false));
    assert_eq!(cast_value("false".to_string(), CastType::Bool), Value::Bool(true));
    assert_eq!(cast_value(" ".to_string(), CastType::Bool), Value::Bool(true));
}

#[test]
fn cast_unparsable_numbers_are_zero() {
    assert_eq!(cast_value("abc".to_string(), CastType::Int), Value::Int(0));
    let f = cast_value("abc".to_string(), CastType::Float);
    assert_eq!(f.as_float_text().map(|t| t.parse::<f64>().unwrap()), Some(0.0));
}

#[test]
fn cast_numbers() {
    assert_eq!(cast_value("-42".to_string(), CastType::Int), Value::Int(-42));
    assert_eq!(cast_value("+7".to_string(), CastType::Int), Value::Int(7));
    assert_eq!(cast_value("-9223372036854775808".to_string(), CastType::Int), Value::Int(i64::MIN));
    assert_eq!(cast_value("9223372036854775808".to_string(), CastType::Int), Value::Int(0));
    assert_eq!(cast_value(" 1".to_string(), CastType::Int), Value::Int(0));
    for t in ["1.5", ".5", "1.", "-2e3", "+1E-2", "inf", "NaN", "-Infinity"] {
        let v = cast_value(t.to_string(), CastType::Float);
        assert_eq!(v, Value::Float(t.to_string()));
        assert!(t.parse::<f64>().is_ok());
    }
    for t in [".", "e5", "1e", "1.2.3", "0x10", " 1"] {
        assert_eq!(cast_value(t.to_string(), CastType::Float), Value::Float("0".to_string()));
        assert!(t.parse::<f64>().is_err());
    }
    assert_eq!(cast_value("x".to_string(), CastType::String), s("x"));
}

#[test]
fn scenario_links_many_attributes() {
    let cfg = Config {
        children: vec![Config {
            many: true,
            ..node("links", "a[href]", "href")
        }],
        ..node("root", "html", "")
    };
    let finder = Finder::new(&cfg).unwrap();
    let res = finder.parse(r#"<html><body><a href="https://x.test/">x</a><a href="https://y.test/">y</a></body></html>"#);
    assert_eq!(
        res.from_path("root.links"),
        Some(Value::Array(vec![s("https://x.test/"), s("https://y.test/")]))
    );
    assert_eq!(res.from_path("root.links.#"), Some(Value::Int(2)));
}

fn alternatives_plan() -> Config {
    Config {
        children: vec![Config {
            children: vec![
                Config {
                    flatten: true,
                    first_occurrence: true,
                    children: vec![inherit("first", "href"), inherit("second", "ping")],
                    ..inherit("urls", "")
                },
                inherit("title", "text"),
            ],
            ..node("link", "a", "")
        }],
        ..node("root", "html", "")
    }
}

#[test]
fn scenario_flatten_first_occurrence() {
    let finder = Finder::new(&alternatives_plan()).unwrap();
    let res = finder.parse(r#"<html><body><a href="https://a.test/" ping="https://p.test/">A</a></body></html>"#);
    assert_eq!(res.from_path("root.link.first"), Some(s("https://a.test/")));
    assert_eq!(res.from_path("root.link.second"), None);
    assert_eq!(res.from_path("root.link.urls"), None);
    assert_eq!(res.from_path("root.link.title"), Some(s("A")));

    let res = finder.parse(r#"<html><body><a ping="https://p.test/">B</a></body></html>"#);
    assert_eq!(res.from_path("root.link.first"), None);
    assert_eq!(res.from_path("root.link.second"), Some(s("https://p.test/")));
}

#[test]
fn scenario_remove_selection() {
    let cfg = Config {
        children: vec![Config {
            remove_selection: true,
            pipeline: vec![vec!["trim_space".to_string()]],
            ..node("feedback", "div.feedback-btn", "text")
        }],
        ..node("root", "html", "")
    };
    let finder = Finder::new(&cfg).unwrap();
    let doc = Document::from(r#"<html><body><div class="feedback-btn"> Feedback </div><p>rest</p></body></html>"#);
    let res = finder.parse_document(&doc);
    assert_eq!(res.from_path("root.feedback"), Some(s("Feedback")));
    assert!(!doc.html().contains("feedback-btn"));
    let again = finder.parse_document(&doc);
    assert_eq!(again.from_path("root.feedback"), None);
}

#[test]
fn scenario_pipeline_ordering() {
    let p = Pipeline::new(&vec![
        vec!["regex".to_string(), "(\\d+)".to_string()],
        vec!["trim_space".to_string()],
    ])
    .unwrap();
    assert_eq!(p.handle("  42px ".to_string()), "42");
}

#[test]
fn scenario_join_sep_overrides_cast() {
    let cfg = Config {
        children: vec![Config {
            many: true,
            cast: CastType::Int,
            join_sep: ",".to_string(),
            ..node("nums", "i", "text")
        }],
        ..node("root", "html", "")
    };
    let finder = Finder::new(&cfg).unwrap();
    let res = finder.parse("<html><body><i>1</i><i>2</i></body></html>");
    assert_eq!(res.from_path("root.nums"), Some(s("1,2")));
    let no_sep = Config {
        children: vec![Config {
            many: true,
            cast: CastType::Int,
            ..node("nums", "i", "text")
        }],
        ..node("root", "html", "")
    };
    let res = Finder::new(&no_sep).unwrap().parse("<html><body><i>1</i><i>2</i></body></html>");
    assert_eq!(res.from_path("root.nums"), Some(Value::Array(vec![Value::Int(1), Value::Int(2)])));
}

#[test]
fn scenario_sanitize_allow_list() {
    let out = SanitizePolicy::Highlight.clean("<div>Keep <script>evil()</script>text</div>");
    assert_eq!(out, "Keep evil()text");
}

#[test]
fn join_and_collect_exact() {
    let items = vec!["a".to_string(), "b".to_string(), "c".to_string()];
    assert_eq!(join_with(&items, ", "), "a, b, c");
    assert_eq!(join_with(&Vec::new(), ","), "");
    assert_eq!(collect_values(items.clone(), "-", CastType::Int), s("a-b-c"));
    assert_eq!(
        collect_values(vec!["1".to_string(), "x".to_string()], "", CastType::Int),
        Value::Array(vec![Value::Int(1), Value::Int(0)])
    );
}

#[test]
fn merge_child_rules() {
    let mut m = InnerMap::new();
    merge_child_value(&mut m, &"a".to_string(), false, Value::Null);
    assert!(m.is_empty());
    merge_child_value(&mut m, &"a".to_string(), false, s("x"));
    let mut inner = InnerMap::new();
    inner.insert("k".to_string(), Value::Int(1));
    inner.insert("a".to_string(), s("y"));
    merge_child_value(&mut m, &"ignored".to_string(), true, Value::Object(inner));
    assert_eq!(m.get("a"), Some(&s("y")));
    assert_eq!(m.get("k"), Some(&Value::Int(1)));
    assert_eq!(m.get("ignored"), None);
    merge_child_value(&mut m, &"flat".to_string(), true, s("z"));
    assert_eq!(m.get("flat"), Some(&s("z")));
}

fn int_leaf() -> Finder {
    Finder::new(&Config {
        cast: CastType::Int,
        pipeline: vec![vec!["trim_space".to_string()]],
        ..node("n", "b", "text")
    })
    .unwrap()
}

#[test]
fn leaf_value_pipes_then_casts() {
    let f = int_leaf();
    assert_eq!(f.leaf_value(Some(" 42 ".to_string())), Value::Int(42));
    assert_eq!(f.leaf_value(None), Value::Null);
}

#[test]
fn leaf_many_value_drops_absent_targets() {
    let joined = Finder::new(&Config {
        many: true,
        cast: CastType::Int,
        join_sep: ",".to_string(),
        pipeline: vec![vec!["trim_space".to_string()]],
        ..node("n", "b", "text")
    })
    .unwrap();
    let xs = vec![Some(" 1".to_string()), None, Some("2 ".to_string())];
    assert_eq!(joined.leaf_many_value(xs.clone()), s("1,2"));
    let cast = Finder::new(&Config {
        many: true,
        cast: CastType::Int,
        ..node("n", "b", "text")
    })
    .unwrap();
    assert_eq!(
        cast.leaf_many_value(vec![Some("1".to_string()), None, Some("x".to_string())]),
        Value::Array(vec![Value::Int(1), Value::Int(0)])
    );
}

#[test]
fn number_objects_keeps_non_empty_in_order() {
    let mut a = InnerMap::new();
    a.insert("a".to_string(), Value::Int(1));
    let mut b = InnerMap::new();
    b.insert("b".to_string(), Value::Int(2));
    let out = number_objects(vec![a, InnerMap::new(), b], true);
    let mut a2 = InnerMap::new();
    a2.insert("a".to_string(), Value::Int(1));
    a2.insert("index".to_string(), Value::Int(0));
    let mut b2 = InnerMap::new();
    b2.insert("index".to_string(), Value::Int(1));
    b2.insert("b".to_string(), Value::Int(2));
    assert_eq!(out, Value::Array(vec![Value::Object(a2), Value::Object(b2)]));
}

#[test]
fn merge_children_first_occurrence() {
    let plan = Config {
        first_occurrence: true,
        children: vec![inherit("a", "href"), inherit("b", "href"), inherit("c", "href")],
        ..node("root", "html", "")
    };
    let f = Finder::new(&plan).unwrap();
    let m = f.merge_children(vec![Value::Null, s("x"), s("y")]);
    let mut expected = InnerMap::new();
    expected.insert("b".to_string(), s("x"));
    assert_eq!(m, expected);
    let all = Finder::new(&Config { first_occurrence: false, ..plan }).unwrap();
    let m = all.merge_children(vec![Value::Null, s("x"), s("y")]);
    assert_eq!(m.len(), 2);
    assert_eq!(m.get("c"), Some(&s("y")));
}

#[test]
fn objects_compare_regardless_of_order() {
    let mut a = InnerMap::new();
    a.insert("x".to_string(), Value::Int(1));
    a.insert("y".to_string(), Value::Array(vec![s("z")]));
    let mut b = InnerMap::new();
    b.insert("y".to_string(), Value::Array(vec![s("z")]));
    b.insert("x".to_string(), Value::Int(1));
    assert_eq!(a, b);
    assert!(Value::Object(a.duplicate()).equals(&Value::Object(b.duplicate())));
    b.insert("x".to_string(), Value::Int(2));
    assert_ne!(a, b);
}
