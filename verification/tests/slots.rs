use basilisk_checker::position::Span;
use basilisk_checker::slots::{
    format_fields, lex_less_exec, sort_names, AttrAccess, DataclassSlotsViolation, SlotClassInfo,
};

fn chars(s: &str) -> Vec<char> {
    s.chars().collect()
}

fn text(v: &[char]) -> String {
    v.iter().collect()
}

fn names(v: &[&str]) -> Vec<Vec<char>> {
    v.iter().map(|s| chars(s)).collect()
}

#[test]
fn format_fields_sorts_and_quotes() {
    assert_eq!(text(&format_fields(&names(&["b", "a", "ab", "b"]))), "[`a`, `ab`, `b`]");
    assert_eq!(text(&format_fields(&names(&["x"]))), "[`x`]");
    assert_eq!(text(&format_fields(&vec![])), "[]");
    let sorted = sort_names(&names(&["Z", "a", "_", "é", "A"]));
    assert_eq!(sorted.iter().map(|n| text(n)).collect::<Vec<_>>(), vec!["A", "Z", "_", "a", "é"]);
    assert!(lex_less_exec(&chars("a"), &chars("ab")));
    assert!(!lex_less_exec(&chars("ab"), &chars("a")));
    assert!(!lex_less_exec(&chars("a"), &chars("a")));
}

fn class(name: &str, dataclass: bool, slots: bool, fields: &[&str], at: u32, src: Option<&str>) -> SlotClassInfo {
    SlotClassInfo {
        name: chars(name),
        is_dataclass: dataclass,
        is_dataclass_slots: slots,
        has_manual_slots: false,
        annotated_attributes: names(fields),
        def_span: Span { start: at, end: at + 10 },
        source_text: src.map(chars),
    }
}

#[test]
fn slot_assignments_and_slots_reads() {
    let p_text = "@dataclass(slots=True)\nclass P:\n    x: int\n    def __init__(self) -> None:\n        self.x = 1\n        self.y = 2\n        self.z == 3\n        self.w: int = 4\n";
    let source = "x = D(1, (2)).__slots__\ny = P().__slots__\n";
    let classes = vec![class("P", true, true, &["x"], 100, Some(p_text)), class("D", true, false, &["a"], 300, None)];
    let accesses = vec![
        AttrAccess { object_name: chars("D"), attr_name: chars("__slots__"), span: Span { start: 5, end: 16 } },
        AttrAccess { object_name: chars("P"), attr_name: chars("__slots__"), span: Span { start: 20, end: 31 } },
        AttrAccess { object_name: chars("D"), attr_name: chars("a"), span: Span { start: 40, end: 43 } },
    ];
    let r = DataclassSlotsViolation.check(&classes, &accesses, &chars(source));
    assert_eq!(r.assignments.len(), 1);
    let a = &r.assignments[0];
    let at = 100 + p_text.find("self.y").unwrap() as u32;
    assert_eq!((text(&a.class), text(&a.attr)), ("P".to_string(), "y".to_string()));
    assert_eq!((a.span.start, a.span.end), (at, at + 6));
    assert_eq!(text(&a.fields_list), "[`x`]");
    assert_eq!(r.class_reads.len(), 1);
    assert_eq!((text(&r.class_reads[0].class), r.class_reads[0].span.start), ("D".to_string(), 5));
    assert_eq!(r.instance_reads.len(), 1);
    assert_eq!(text(&r.instance_reads[0].class), "D");
    assert_eq!((r.instance_reads[0].span.start, r.instance_reads[0].span.end), (4, 23));
}
