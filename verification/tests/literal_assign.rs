use basilisk_checker::literal_assign::{
    count_leading_spaces, detect_body_indent, find_top_level_eq, find_var_in_line,
    is_simple_identifier, FunctionSignature, LineIter, LiteralIssue, LiteralValueIncompatible,
    ParamAnnotation,
};
use basilisk_checker::literal_values::{
    extract_literal_values, literal_value_eq, normalize_literal_value, parse_int_literal,
};

fn chars(s: &str) -> Vec<char> {
    s.chars().collect()
}

fn text(v: &[char]) -> String {
    v.iter().collect()
}

fn param(name: &str, ann: Option<&str>) -> ParamAnnotation {
    ParamAnnotation { name: chars(name), annotation: ann.map(chars) }
}

#[test]
fn literal_zero_and_false_are_distinct_and_augmented_assignment_widens() {
    let src = "def func(a: Literal[0], b: Literal[False]):\n    x1: Literal[False] = a\n    x2: Literal[0] = b\n\ndef func2(a: Literal[3, 4, 5]):\n    a += 3\n";
    let functions = vec![
        FunctionSignature {
            def_start: 0,
            params: vec![param("a", Some("Literal[0]")), param("b", Some("Literal[False]"))],
        },
        FunctionSignature { def_start: 95, params: vec![param("a", Some("Literal[3, 4, 5]"))] },
    ];
    let diags = LiteralValueIncompatible.check(&chars(src), &functions);
    assert_eq!(diags.len(), 3);
    match &diags[0].issue {
        LiteralIssue::Mismatch { var_name, annotation, rhs, param_annotation } => {
            assert_eq!(text(var_name), "x1");
            assert_eq!(text(annotation), "Literal[False]");
            assert_eq!(text(rhs), "a");
            assert_eq!(text(param_annotation), "Literal[0]");
        }
        _ => panic!("expected a mismatch"),
    }
    assert_eq!((diags[0].span.start, diags[0].span.end), (44, 46));
    match &diags[1].issue {
        LiteralIssue::Mismatch { var_name, param_annotation, .. } => {
            assert_eq!(text(var_name), "x2");
            assert_eq!(text(param_annotation), "Literal[False]");
        }
        _ => panic!("expected a mismatch"),
    }
    assert_eq!((diags[1].span.start, diags[1].span.end), (71, 73));
    match &diags[2].issue {
        LiteralIssue::Widening { target, op, param_annotation } => {
            assert_eq!(text(target), "a");
            assert_eq!(text(op), "+=");
            assert_eq!(text(param_annotation), "Literal[3, 4, 5]");
        }
        _ => panic!("expected a widening"),
    }
    assert_eq!((diags[2].span.start, diags[2].span.end), (127, 128));
}

#[test]
fn literal_assignment_with_matching_values_is_accepted() {
    let src = "def g(a: Literal[0x10]):\n    x: Literal[16, 17] = a\n";
    let functions =
        vec![FunctionSignature { def_start: 0, params: vec![param("a", Some("Literal[0x10]"))] }];
    let diags = LiteralValueIncompatible.check(&chars(src), &functions);
    assert_eq!(diags.len(), 0);
}

#[test]
fn literal_function_without_literal_params_has_no_findings() {
    let src = "def g(a: int):\n    a += 1\n";
    let functions = vec![FunctionSignature { def_start: 0, params: vec![param("a", Some("int"))] }];
    assert_eq!(LiteralValueIncompatible.check(&chars(src), &functions).len(), 0);
}

#[test]
fn literal_int_literals_in_every_base() {
    assert_eq!(parse_int_literal(&chars("0x10")), Some(16));
    assert_eq!(parse_int_literal(&chars("-0b101")), Some(-5));
    assert_eq!(parse_int_literal(&chars(" 0o17 ")), Some(15));
    assert_eq!(parse_int_literal(&chars("+ 42")), Some(42));
    assert_eq!(parse_int_literal(&chars("True")), None);
    assert_eq!(parse_int_literal(&chars("9223372036854775808")), None);
    assert_eq!(parse_int_literal(&chars("--9223372036854775808")), None);
    assert_eq!(parse_int_literal(&chars("--5")), None);
    assert_eq!(parse_int_literal(&chars("0x-5")), None);
    assert_eq!(parse_int_literal(&chars("-9223372036854775807")), Some(-9223372036854775807));
    assert_eq!(text(&normalize_literal_value(&chars(" 0x1F "))), "31");
    assert_eq!(text(&normalize_literal_value(&chars("'a'"))), "'a'");
    assert!(!literal_value_eq(&chars("0"), &chars("False")));
    assert!(literal_value_eq(&chars("0b11"), &chars("3")));
}

#[test]
fn literal_values_are_split_at_top_level_commas() {
    let vals = extract_literal_values(&chars("Literal['a,b', (1, 2), 3]")).unwrap();
    let got: Vec<String> = vals.iter().map(|v| text(v)).collect();
    assert_eq!(got, vec!["'a", "b'", "(1, 2)", "3"]);
    assert!(extract_literal_values(&chars("int")).is_none());
}

#[test]
fn literal_line_helpers() {
    assert_eq!(count_leading_spaces(&chars("   x = 1")), 3);
    assert_eq!(count_leading_spaces(&chars("\tx")), 0);
    assert_eq!(detect_body_indent(&chars("\n  # c\n    y = 2\n")), 4);
    assert_eq!(detect_body_indent(&chars("\n\n")), 0);
    assert_eq!(find_top_level_eq(&chars("x: dict[str, int] = {}")), Some(18));
    assert_eq!(find_top_level_eq(&chars("a == b")), None);
    assert_eq!(find_top_level_eq(&chars("f(a=1) = 2")), Some(7));
    assert!(is_simple_identifier(&chars(" _x1 ")));
    assert!(is_simple_identifier(&chars("été")));
    assert!(!is_simple_identifier(&chars("1x")));
    assert!(!is_simple_identifier(&chars("a.b")));
    assert_eq!(find_var_in_line(&chars("é = x"), &chars("x"), 10), 15);
    assert_eq!(find_var_in_line(&chars("abc"), &chars("z"), 10), 10);
}

#[test]
fn literal_line_iter_gives_byte_offsets() {
    let mut it = LineIter::new(&chars("é\nab\r\n\nc"), 5);
    let l1 = it.next().unwrap();
    assert_eq!((text(&l1.text), l1.byte_offset), ("é".to_string(), 5));
    let l2 = it.next().unwrap();
    assert_eq!((text(&l2.text), l2.byte_offset), ("ab\r".to_string(), 8));
    let l3 = it.next().unwrap();
    assert_eq!((text(&l3.text), l3.byte_offset), ("".to_string(), 12));
    let l4 = it.next().unwrap();
    assert_eq!((text(&l4.text), l4.byte_offset), ("c".to_string(), 13));
    assert!(it.next().is_none());
}
