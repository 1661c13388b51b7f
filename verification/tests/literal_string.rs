use basilisk_checker::literal_assign::ParamAnnotation;
use basilisk_checker::literal_string::{
    extract_fstring_names, extract_literal_string_value, find_top_level_eq, function_body_range,
    is_invariant_container, is_plain_str_type, is_simple_identifier, parse_annotated_assigns,
    parse_simple_call, split_generic, strip_trailing_comment, FunctionText, LiteralStringAssignment,
    LiteralStringIssue,
};

fn chars(s: &str) -> Vec<char> {
    s.chars().collect()
}

fn text(v: &[char]) -> String {
    v.iter().collect()
}

fn param(name: &str, ann: &str) -> ParamAnnotation {
    ParamAnnotation { name: chars(name), annotation: Some(chars(ann)) }
}

fn describe(i: &LiteralStringIssue) -> Vec<String> {
    match i {
        LiteralStringIssue::LiteralMismatch { source_value, target_value } => {
            vec!["mismatch".into(), text(source_value), text(target_value)]
        }
        LiteralStringIssue::FStringInterpolation { name, param_annotation } => {
            vec!["fstring".into(), text(name), text(param_annotation)]
        }
        LiteralStringIssue::InvariantContainer { param_annotation, annotation, container } => {
            vec!["invariant".into(), text(param_annotation), text(annotation), text(container)]
        }
        LiteralStringIssue::StrArgument { rhs, annotation, arg, param_annotation } => {
            vec!["argument".into(), text(rhs), text(annotation), text(arg), text(param_annotation)]
        }
    }
}

#[test]
fn literal_mismatch_and_fstring() {
    let src = "def func(b: Literal[\"two\"], non_literal: str):\n    x1: Literal[\"\"] = b\n    x2: LiteralString = f\"{non_literal}\"\n";
    let f = FunctionText {
        def_start: 0,
        params: vec![param("b", "Literal[\"two\"]"), param("non_literal", "str")],
    };
    let r = LiteralStringAssignment.check(&chars(src), &vec![f]);
    assert_eq!(r.len(), 2);
    let x1 = src.find("x1").unwrap() as u32;
    let x2 = src.find("x2").unwrap() as u32;
    assert_eq!(describe(&r[0].issue), vec!["mismatch", "two", ""]);
    assert_eq!((r[0].span.start, r[0].span.end), (x1, x1 + 2));
    assert_eq!(describe(&r[1].issue), vec!["fstring", "non_literal", "str"]);
    assert_eq!((r[1].span.start, r[1].span.end), (x2, x2 + 2));
}

#[test]
fn invariant_container_cases() {
    let src = "def g(val: list[LiteralString], s: str):\n    x4: list[str] = val\n    x3: Container[LiteralString] = Container(s)  # note\n";
    let f = FunctionText {
        def_start: 0,
        params: vec![param("val", " list[LiteralString] "), param("s", "str")],
    };
    let r = LiteralStringAssignment.check(&chars(src), &vec![f]);
    assert_eq!(r.len(), 2);
    assert_eq!(describe(&r[0].issue), vec!["invariant", "list[LiteralString]", "list[str]", "list"]);
    assert_eq!(
        describe(&r[1].issue),
        vec!["argument", "Container(s)", "Container[LiteralString]", "s", "str"]
    );
}

#[test]
fn body_ends_at_next_definition() {
    let src = "def a(p: Literal[\"x\"]):\n    y: Literal[\"z\"] = p\ndef b(q: Literal[\"x\"]):\n    pass\n";
    let (start, end) = function_body_range(&chars(src), 0).unwrap();
    assert_eq!(start, src.find(":\n").unwrap() + 1);
    assert_eq!(end, src.find("def b").unwrap());
    let f = FunctionText { def_start: 0, params: vec![param("p", "Literal[\"x\"]")] };
    let r = LiteralStringAssignment.check(&chars(src), &vec![f]);
    assert_eq!(r.len(), 1);
    assert_eq!(describe(&r[0].issue), vec!["mismatch", "x", "z"]);
    // A `def` offset that is not on a character boundary gives no body.
    assert!(function_body_range(&chars("é:\n  x\n"), 1).is_none());
    // No `":\n"` after the `def`: no body.
    assert!(function_body_range(&chars("def f(): pass"), 0).is_none());
}

#[test]
fn parsing_annotated_assignments() {
    let body = "\n    x: int = 1  # one\n    # comment\n    return x\n    y: dict[str, int] = {\"a\": 1}\n    z = 3\n";
    let a = parse_annotated_assigns(&chars(body), 100);
    assert_eq!(a.len(), 2);
    assert_eq!((text(&a[0].annotation), text(&a[0].rhs)), ("int".to_string(), "1".to_string()));
    assert_eq!(a[0].name_offset, 100 + body.find("x:").unwrap());
    assert_eq!(a[0].name_len, 1);
    assert_eq!(text(&a[1].annotation), "dict[str, int]");
    assert_eq!(text(&a[1].rhs), "{\"a\": 1}");
}

#[test]
fn text_helpers() {
    assert_eq!(find_top_level_eq(&chars("int = f(a=1)")), Some(4));
    assert_eq!(find_top_level_eq(&chars("int == 1")), None);
    assert_eq!(find_top_level_eq(&chars("d[k=1] = 2")), Some(7));
    assert_eq!(find_top_level_eq(&chars("a != b = c")), Some(7));
    assert_eq!(text(&strip_trailing_comment(&chars("1  # c"))), "1");
    assert_eq!(text(&strip_trailing_comment(&chars("\"#\" + '#'"))), "\"#\" + '#'");
    assert_eq!(
        extract_literal_string_value(&chars(" Literal['a b'] ")).map(|v| text(&v)),
        Some("a b".to_string())
    );
    assert_eq!(extract_literal_string_value(&chars("Literal[1]")), None);
    assert_eq!(extract_literal_string_value(&chars("Literal[\"]")), None);
    assert_eq!(extract_literal_string_value(&chars("Literal[']")), None);
    assert_eq!(extract_literal_string_value(&chars("Literal['']")).map(|v| text(&v)), Some(String::new()));
    let names: Vec<String> =
        extract_fstring_names(&chars("f\"{a} {b!r} {c.d} {1x} { e }\"")).iter().map(|n| text(n)).collect();
    assert_eq!(names, vec!["a", "b", "c", "e"]);
    assert!(is_plain_str_type(&chars(" str ")));
    assert!(!is_plain_str_type(&chars("LiteralString")));
    let (c, i) = split_generic(&chars(" list[ str ] ")).unwrap();
    assert_eq!((text(&c), text(&i)), ("list".to_string(), "str".to_string()));
    assert!(split_generic(&chars("int")).is_none());
    assert!(is_invariant_container(&chars("Deque")));
    assert!(!is_invariant_container(&chars("Sequence")));
    let (callee, args) = parse_simple_call(&chars("C(a, b,)")).unwrap();
    assert_eq!(text(&callee), "C");
    assert_eq!(args.iter().map(|a| text(a)).collect::<Vec<_>>(), vec!["a", "b"]);
    assert!(parse_simple_call(&chars("a.b(c)")).is_none());
    assert!(is_simple_identifier(&chars("_x1")));
    assert!(!is_simple_identifier(&chars(" x")));
}
