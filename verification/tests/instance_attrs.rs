use basilisk_checker::instance_attrs::{
    is_classvar_annotation, AttrClass, AttrTarget, ClassAttr, InstanceAttrOnClass, InstanceAttrReport,
};
use basilisk_checker::module::VarSite;
use basilisk_checker::position::Span;

fn chars(s: &str) -> Vec<char> {
    s.chars().collect()
}

fn text(v: &[char]) -> String {
    v.iter().collect()
}

fn node_class(attrs: Vec<ClassAttr>) -> AttrClass {
    AttrClass { name: chars("Node"), has_generic_params: true, attributes: attrs }
}

fn attr(name: &str, ann: Option<&str>, value: bool) -> ClassAttr {
    ClassAttr { name: chars(name), has_annotation: ann.is_some(), has_value: value, annotation: ann.map(chars) }
}

fn var(name: &str, rhs: &str) -> VarSite {
    VarSite { name: chars(name), name_span: Span { start: 0, end: 0 }, annotation: None, rhs: Some(chars(rhs)) }
}

fn at(src: &str, needle: &str, len: usize) -> (u32, u32) {
    let s = src.find(needle).unwrap();
    (s as u32, (s + len) as u32)
}

fn view(r: &InstanceAttrReport) -> (String, String, u32, u32) {
    (text(&r.object), text(&r.attr), r.span.start, r.span.end)
}

const SRC: &str = "from typing import Generic, TypeVar\n\nT = TypeVar(\"T\")\n\nclass Node(Generic[T]):\n    label: T\n\nNode[int].label = 1  # assign\nNode[int].label      # read\nNode.label = 1\nNode.label           # read\nn1 = Node[int]()\ntype(n1).label       # read\n";

#[test]
fn instance_attribute_on_class_object() {
    let classes = vec![node_class(vec![attr("label", Some("T"), false)])];
    let vars = vec![var("T", "TypeVar(\"T\")"), var("n1", "Node[int]()")];
    let assign_at = SRC.find("Node.label = 1").unwrap() as u32;
    let assigns = vec![AttrTarget {
        object_name: chars("Node"),
        attr_name: chars("label"),
        target_span: Span { start: assign_at, end: assign_at + 10 },
    }];
    let r = InstanceAttrOnClass.check(&chars(SRC), &classes, &vars, &assigns);
    let got: Vec<(String, String, u32, u32)> = r.iter().map(view).collect();
    let s = |a: (u32, u32), o: &str| (o.to_string(), "label".to_string(), a.0, a.1);
    assert_eq!(
        got,
        vec![
            s((assign_at, assign_at + 10), "Node"),
            s(at(SRC, "Node[int].label = 1", 15), "Node"),
            s(at(SRC, "Node[int].label      # read", 15), "Node"),
            s(at(SRC, "Node.label           # read", 10), "Node"),
            s(at(SRC, "type(n1).label", 14), "type(n1)"),
        ]
    );
}

#[test]
fn class_attributes_and_plain_classes_are_not_reported() {
    let src = "Node.label\nNode.size\nNode[int].size = 2\n# Node.label\n";
    // a default value, or a ClassVar, makes it a class attribute
    let classes = vec![node_class(vec![
        attr("label", Some("ClassVar[int]"), false),
        attr("size", Some("int"), true),
    ])];
    assert!(InstanceAttrOnClass.check(&chars(src), &classes, &vec![], &vec![]).is_empty());
    // a class without type parameters is not checked
    let plain = vec![AttrClass {
        name: chars("Node"),
        has_generic_params: false,
        attributes: vec![attr("label", Some("int"), false)],
    }];
    assert!(InstanceAttrOnClass.check(&chars(src), &plain, &vec![], &vec![]).is_empty());
    // a comment line is skipped, a read inside a longer expression too
    let classes = vec![node_class(vec![attr("label", Some("int"), false)])];
    let r = InstanceAttrOnClass.check(&chars("# Node.label\nx = Node.label\n  Node.label\n"), &classes, &vec![], &vec![]);
    assert_eq!(r.len(), 1);
    assert_eq!((r[0].span.start, r[0].span.end), (30, 40));
}

#[test]
fn classvar_annotations() {
    assert!(is_classvar_annotation(&Some(chars(" ClassVar "))));
    assert!(is_classvar_annotation(&Some(chars("ClassVar[int]"))));
    assert!(!is_classvar_annotation(&Some(chars("ClassVars"))));
    assert!(!is_classvar_annotation(&None));
}
