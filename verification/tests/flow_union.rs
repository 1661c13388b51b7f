use basilisk_checker::flow_union::{FlowUnionInference, ModuleVariables, VariableInfo};
use basilisk_checker::position::Span;

fn chars(s: &str) -> Vec<char> {
    s.chars().collect()
}

#[test]
fn test_flow_union_inference_rule() {
    let module = ModuleVariables { module_level: vec![], functions: vec![], classes: vec![] };
    let rule = FlowUnionInference;
    let diagnostics = rule.check(&module);
    assert!(diagnostics.is_empty());
}

fn var(name: &str, annotated: bool, err: Option<&str>, start: u32) -> VariableInfo {
    VariableInfo {
        name: chars(name),
        has_annotation: annotated,
        annotation_error: err.map(chars),
        name_span: Span { start, end: start + name.len() as u32 },
    }
}

#[test]
fn flow_union_reports_annotated_failures_in_declaration_order() {
    let module = ModuleVariables {
        module_level: vec![var("a", true, Some("int vs str"), 0), var("b", false, Some("x"), 5)],
        functions: vec![vec![var("c", true, None, 10), var("d", true, Some("bad"), 20)]],
        classes: vec![vec![var("e", true, Some("cls"), 30)]],
    };
    let out = FlowUnionInference.check(&module);
    let names: Vec<String> = out.iter().map(|d| d.name.iter().collect()).collect();
    assert_eq!(names, vec!["a", "d", "e"]);
    assert_eq!(out[1].error, chars("bad"));
    assert_eq!(out[2].span, Span { start: 30, end: 31 });
}
