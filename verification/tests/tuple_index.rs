use basilisk_checker::literal_assign::{FunctionSignature, ParamAnnotation};
use basilisk_checker::tuple_index::{
    find_matching_bracket, lines_with_offsets, parse_fixed_tuple_length, parse_int_literal,
    parse_literal_int_annotation, TupleIndexOutOfRange,
};

fn chars(s: &str) -> Vec<char> {
    s.chars().collect()
}

#[test]
fn tuple_out_of_range_indices_are_reported() {
    let src = "def f(v: tuple[int, str, list[bool]], b: Literal[5]):\n    v[b]\n    v[4]\n    v[-4]\n    v[2]\n";
    let functions = vec![FunctionSignature {
        def_start: 0,
        params: vec![
            ParamAnnotation { name: chars("v"), annotation: Some(chars("tuple[int, str, list[bool]]")) },
            ParamAnnotation { name: chars("b"), annotation: Some(chars("Literal[5]")) },
        ],
    }];
    let diags = TupleIndexOutOfRange.check(&chars(src), &functions);
    let got: Vec<(i64, usize, u32, u32)> =
        diags.iter().map(|d| (d.index, d.tuple_len, d.span.start, d.span.end)).collect();
    assert_eq!(got, vec![(5, 3, 58, 62), (4, 3, 67, 71), (-4, 3, 76, 81)]);
}

#[test]
fn tuple_scan_stops_at_unindented_line_and_skips_longer_names() {
    let src = "def f(v: tuple[int]):\n    vv[3]\n    v[0]\nv[9]\n";
    let functions = vec![FunctionSignature {
        def_start: 0,
        params: vec![ParamAnnotation { name: chars("v"), annotation: Some(chars("tuple[int]")) }],
    }];
    assert_eq!(TupleIndexOutOfRange.check(&chars(src), &functions).len(), 0);
}

#[test]
fn tuple_annotation_lengths() {
    assert_eq!(parse_fixed_tuple_length(&chars("tuple[int, str, list[bool]]")), Some(3));
    assert_eq!(parse_fixed_tuple_length(&chars("tuple[int, ...]")), None);
    assert_eq!(parse_fixed_tuple_length(&chars("tuple[]")), Some(0));
    assert_eq!(parse_fixed_tuple_length(&chars("list[int]")), None);
    assert_eq!(parse_fixed_tuple_length(&chars("tuple[()]")), Some(0));
    assert_eq!(parse_literal_int_annotation(&chars("Literal[-3]")), Some(-3));
    assert_eq!(parse_literal_int_annotation(&chars("Literal['a']")), None);
    assert_eq!(parse_int_literal(&chars("- 5")), Some(-5));
    assert_eq!(parse_int_literal(&chars("+5")), None);
    assert_eq!(parse_int_literal(&chars("0x10")), None);
    assert_eq!(find_matching_bracket(&chars("a[b]]c")), Some(4));
    assert_eq!(find_matching_bracket(&chars("a[b]")), None);
}

#[test]
fn tuple_lines_with_offsets() {
    let ls = lines_with_offsets(&chars("ab\r\né\n\nc"), 3);
    let got: Vec<(String, usize)> =
        ls.iter().map(|l| (l.text.iter().collect(), l.byte_offset)).collect();
    assert_eq!(
        got,
        vec![("ab".to_string(), 3), ("é".to_string(), 7), ("".to_string(), 10), ("c".to_string(), 11)]
    );
}
