use emit_template::field::{name_less, Field, Part, ResolveError};
use emit_template::record::{build_record, dispatch, expand, expand_decls, Record, Sink};
use emit_template::resolve::{find_named, resolve};
use emit_template::sort::sort_fields;
use emit_template::template::{parse, parse_field};

fn field(name: &str, expr: Option<&str>, attrs: &[&str]) -> Field {
    Field {
        name: name.to_string(),
        expr: expr.map(|e| e.to_string()),
        attrs: attrs.iter().map(|a| a.to_string()).collect(),
    }
}

fn text(p: &Part) -> Option<&str> {
    match p {
        Part::Text(t) => Some(t.as_str()),
        Part::Hole(_) => None,
    }
}

fn hole(p: &Part) -> Option<&str> {
    match p {
        Part::Hole(n) => Some(n.as_str()),
        Part::Text(_) => None,
    }
}

fn kv_names(r: &Record) -> Vec<String> {
    r.sorted_names()
}

fn expr_of(f: &Field) -> Option<&str> {
    f.expr.as_deref()
}

#[test]
fn expand_emit() {
    // A template whose bare holes `a` and `c` have no value from any source.
    let t = "Text and {b: 17} and {a} and {#[with_debug] c} and {d: String::from(\"short lived\")}";
    let parsed = parse(t).ok().unwrap();
    assert_eq!(parsed.parts.len(), 8);
    assert_eq!(text(&parsed.parts[0]), Some("Text and "));
    assert_eq!(hole(&parsed.parts[1]), Some("b"));
    assert_eq!(text(&parsed.parts[2]), Some(" and "));
    assert_eq!(hole(&parsed.parts[3]), Some("a"));
    assert_eq!(text(&parsed.parts[4]), Some(" and "));
    assert_eq!(hole(&parsed.parts[5]), Some("c"));
    assert_eq!(text(&parsed.parts[6]), Some(" and "));
    assert_eq!(hole(&parsed.parts[7]), Some("d"));
    assert_eq!(expr_of(&parsed.holes[0]), Some("17"));
    assert_eq!(expr_of(&parsed.holes[3]), Some("String::from(\"short lived\")"));
    assert_eq!(parsed.holes[2].attrs, vec!["with_debug".to_string()]);
    assert_eq!(
        expand(t, &vec![]).err(),
        Some(ResolveError::UnresolvedHole("a".to_string()))
    );

    // The hole `a` with its value supplied as an extra field.
    let r = expand("Text and {a}", &vec![field("a", Some("42"), &[])]).ok().unwrap();
    assert_eq!(r.parts.len(), 2);
    assert_eq!(text(&r.parts[0]), Some("Text and "));
    assert_eq!(hole(&r.parts[1]), Some("a"));
    assert_eq!(kv_names(&r), vec!["a".to_string()]);
    assert_eq!(expr_of(&r.kvs[0]), Some("42"));
    assert_eq!(r.index_map, vec![0usize]);
}

#[test]
fn mixed_template_orders_fields() {
    let t = "Text and {b: 17} and {a} and {#[attr] c: 3} and {d: expr}";
    let r = expand(t, &vec![field("a", Some("1"), &[])]).ok().unwrap();
    assert_eq!(kv_names(&r), vec!["a", "b", "c", "d"]);
    assert_eq!(r.index_map, vec![1usize, 0, 2, 3]);
    assert_eq!(r.field_at(0).name, "b");
    assert_eq!(r.field_at(1).name, "a");
    assert_eq!(expr_of(r.field_at(1)), Some("1"));
    assert_eq!(r.field_at(2).attrs, vec!["attr".to_string()]);
}

#[test]
fn attributed_hole_without_value_is_unresolved() {
    let t = "Text and {b: 17} and {a} and {#[attr] c} and {d: expr}";
    assert_eq!(
        expand(t, &vec![field("a", Some("1"), &[])]).err(),
        Some(ResolveError::UnresolvedHole("c".to_string()))
    );
}

#[test]
fn unbound_hole_fails() {
    assert_eq!(
        expand("Text and {a}", &vec![]).err(),
        Some(ResolveError::UnresolvedHole("a".to_string()))
    );
}

#[test]
fn extra_satisfies_bare_hole() {
    let r = expand("{a}", &vec![field("a", Some("42"), &["debug"])]).ok().unwrap();
    assert_eq!(kv_names(&r), vec!["a"]);
    assert_eq!(expr_of(&r.kvs[0]), Some("42"));
    assert_eq!(r.kvs[0].attrs, vec!["debug".to_string()]);
}

#[test]
fn inline_and_extra_value_conflict() {
    assert_eq!(
        expand("{a: 1}", &vec![field("a", Some("2"), &[])]).err(),
        Some(ResolveError::Conflict("a".to_string()))
    );
    assert_eq!(
        expand("{#[debug] a}", &vec![field("a", Some("2"), &[])]).err(),
        Some(ResolveError::Conflict("a".to_string()))
    );
}

#[test]
fn duplicate_extras_fail() {
    let extras = vec![field("x", Some("1"), &[]), field("x", Some("2"), &[])];
    assert_eq!(
        expand("plain", &extras).err(),
        Some(ResolveError::DuplicateKey("x".to_string()))
    );
}

#[test]
fn duplicate_holes_fail() {
    assert_eq!(
        expand("{a: 1} {a: 2}", &vec![]).err(),
        Some(ResolveError::DuplicateKey("a".to_string()))
    );
}

#[test]
fn bare_holes_take_extras_in_hole_order() {
    let holes = vec![field("z", None, &[]), field("m", None, &[]), field("a", None, &[])];
    let extras = vec![field("a", Some("1"), &[]), field("z", Some("26"), &[]), field("m", Some("13"), &[])];
    let out = resolve(&holes, &extras).ok().unwrap();
    let got: Vec<(String, Option<String>)> = out.iter().map(|f| (f.name.clone(), f.expr.clone())).collect();
    assert_eq!(
        got,
        vec![
            ("z".to_string(), Some("26".to_string())),
            ("m".to_string(), Some("13".to_string())),
            ("a".to_string(), Some("1".to_string())),
        ]
    );
}

#[test]
fn unreferenced_extras_follow_in_supply_order() {
    let r = expand("{b: 2}", &vec![field("z", None, &[]), field("c", Some("3"), &[])]).ok().unwrap();
    assert_eq!(kv_names(&r), vec!["b", "c", "z"]);
    assert_eq!(r.index_map, vec![0usize, 2, 1]);
}

#[test]
fn sorting_sorted_fields_is_identity() {
    let fields = vec![field("a", None, &[]), field("b", None, &[]), field("c", None, &[])];
    let (kvs, map) = sort_fields(&fields);
    let names: Vec<String> = kvs.iter().map(|f| f.name.clone()).collect();
    assert_eq!(names, vec!["a", "b", "c"]);
    assert_eq!(map, vec![0usize, 1, 2]);
    let (again, map2) = sort_fields(&kvs);
    let names2: Vec<String> = again.iter().map(|f| f.name.clone()).collect();
    assert_eq!(names2, names);
    assert_eq!(map2, vec![0usize, 1, 2]);
}

#[test]
fn names_compare_by_code() {
    assert!(name_less(&"a".to_string(), &"b".to_string()));
    assert!(name_less(&"a".to_string(), &"ab".to_string()));
    assert!(!name_less(&"b".to_string(), &"ab".to_string()));
    assert!(name_less(&"B".to_string(), &"a".to_string()));
    assert!(!name_less(&"a".to_string(), &"a".to_string()));
}

#[test]
fn escaped_braces_are_text() {
    let t = parse("{{x}} and {y: 1}").ok().unwrap();
    assert_eq!(t.parts.len(), 2);
    assert_eq!(text(&t.parts[0]), Some("{x} and "));
    assert_eq!(hole(&t.parts[1]), Some("y"));
}

#[test]
fn malformed_templates_fail_to_parse() {
    for t in ["{", "}", "a { b", "{1a}", "{a: }", "{a b}", "{#[x a}", "{a: {b}", "{a: \"}", "{}"] {
        assert_eq!(expand(t, &vec![]).err(), Some(ResolveError::Parse), "{}", t);
    }
}

#[test]
fn hole_tags_and_spacing() {
    let t = parse("{ #[one] #[two]  name :  v + 1  }").ok().unwrap();
    assert_eq!(t.holes.len(), 1);
    assert_eq!(t.holes[0].name, "name");
    assert_eq!(t.holes[0].attrs, vec!["one".to_string(), "two".to_string()]);
    assert_eq!(expr_of(&t.holes[0]), Some("v + 1"));
    let spaced = parse("{# [with_debug] c : String :: from (\"x\")}").ok().unwrap();
    assert_eq!(spaced.holes[0].name, "c");
    assert_eq!(spaced.holes[0].attrs, vec!["with_debug".to_string()]);
    assert_eq!(expr_of(&spaced.holes[0]), Some("String :: from (\"x\")"));
}

#[test]
fn empty_template_has_no_parts() {
    let r = build_record(parse("").ok().unwrap(), &vec![]).ok().unwrap();
    assert!(r.parts.is_empty());
    assert!(r.kvs.is_empty());
    assert!(r.index_map.is_empty());
}

#[test]
fn declarations_feed_extras() {
    let decls = vec!["b: 17".to_string(), "#[debug] d: String::from(\"x\")".to_string(), "err".to_string()];
    let r = expand_decls("Text and {b} or {d}", &decls).ok().unwrap();
    assert_eq!(kv_names(&r), vec!["b", "d", "err"]);
    assert_eq!(expr_of(&r.kvs[0]), Some("17"));
    assert_eq!(r.kvs[1].attrs, vec!["debug".to_string()]);
    assert_eq!(expr_of(&r.kvs[2]), None);
    assert_eq!(r.index_map, vec![0usize, 1, 2]);
}

#[test]
fn bad_declarations_fail_to_parse() {
    for d in ["1a", "a: ", "a}", "{a}", "", "a b"] {
        assert_eq!(parse_field(d).err(), Some(ResolveError::Parse), "{}", d);
    }
    let f = parse_field("  #[x] key:value ").ok().unwrap();
    assert_eq!(f.name, "key");
    assert_eq!(f.attrs, vec!["x".to_string()]);
    assert_eq!(expr_of(&f), Some("value"));
}

struct Collect(std::cell::RefCell<Vec<Vec<String>>>);

impl Sink for Collect {
    fn handle(&self, _target: Option<&String>, names: &Vec<String>, _record: &Record) {
        self.0.borrow_mut().push(names.clone());
    }
}

#[test]
fn dispatch_hands_sorted_names() {
    let r = expand("{z: 1} {a: 2}", &vec![]).ok().unwrap();
    let sink = Collect(std::cell::RefCell::new(vec![]));
    dispatch(&sink, None, &r);
    assert_eq!(sink.0.borrow().clone(), vec![vec!["a".to_string(), "z".to_string()]]);
}

#[test]
fn expressions_keep_nested_and_quoted_braces() {
    let t = parse("{a: {b}} and {u: User { id: 1 }}").ok().unwrap();
    assert_eq!(t.holes.len(), 2);
    assert_eq!(expr_of(&t.holes[0]), Some("{b}"));
    assert_eq!(expr_of(&t.holes[1]), Some("User { id: 1 }"));
    assert_eq!(text(&t.parts[1]), Some(" and "));

    let q = parse("{d: String::from(\"}\")} {m: format!(\"{}\", x)} {c: '{'} {e: \"\\\"}\"}").ok().unwrap();
    assert_eq!(q.holes.len(), 4);
    assert_eq!(expr_of(&q.holes[0]), Some("String::from(\"}\")"));
    assert_eq!(expr_of(&q.holes[1]), Some("format!(\"{}\", x)"));
    assert_eq!(expr_of(&q.holes[2]), Some("'{'"));
    assert_eq!(expr_of(&q.holes[3]), Some("\"\\\"}\""));
}

#[test]
fn find_named_gives_first_match() {
    let fs = vec![field("b", None, &[]), field("a", Some("1"), &[]), field("a", Some("2"), &[])];
    assert_eq!(find_named(&fs, &"a".to_string()), Some(1));
    assert_eq!(find_named(&fs, &"c".to_string()), None);
}
