use basilisk_checker::position::Span;
use basilisk_checker::typed_dict::{TdAttr, TdClass, TdDetail, TdFinding, TdVar, TypedDictAssignability};

fn chars(s: &str) -> Vec<char> {
    s.chars().collect()
}

fn td(name: &str, total: bool, fields: &[(&str, &str)]) -> TdClass {
    TdClass {
        name: chars(name),
        is_typed_dict: true,
        is_total: total,
        attributes: fields.iter().map(|(n, a)| TdAttr { name: chars(n), annotation: Some(chars(a)) }).collect(),
    }
}

fn var(name: &str, ann: &str, rhs: &str, at: u32) -> TdVar {
    TdVar {
        name: chars(name),
        name_span: Span { start: at, end: at + 1 },
        has_annotation: true,
        annotation: Some(chars(ann)),
        rhs: Some(chars(rhs)),
    }
}

fn text(v: &[char]) -> String {
    v.iter().collect()
}

#[test]
fn typeddict_assignments() {
    let classes = vec![
        td("Movie", true, &[("name", "str"), ("year", "int")]),
        td("Movie2", true, &[("name", "str"), ("year", "str")]),
        td("Partial", false, &[("name", "str")]),
        td("Named", true, &[("name", "str")]),
    ];
    let vars = vec![
        var("m", "Movie", "{'name': 'x', 'year': 1}", 0),
        var("d", "dict[str, object]", "m", 10),
        var("mp", "Mapping[str, int]", "m", 20),
        var("mo", "Mapping[str, object]", "m", 30),
        var("m2", "Movie2", "m", 40),
        var("p", "Partial", "m", 50),
        var("m3", "Movie", " m ", 60),
        var("n", "Named", "m", 70),
        var("q", "Movie", "n", 80),
    ];
    let r = TypedDictAssignability.check(&vars, &classes);
    assert_eq!(r.len(), 5);
    assert!(matches!(r[0].finding, TdFinding::DictTarget));
    assert_eq!((text(&r[0].target), text(&r[0].source), r[0].span.start), ("dict[str, object]".to_string(), "Movie".to_string(), 10));
    match &r[1].finding {
        TdFinding::MappingTarget { value_type } => assert_eq!(text(value_type), "int"),
        _ => panic!("expected a Mapping target"),
    }
    match &r[2].finding {
        TdFinding::Incompatible(TdDetail::ValueType { key, found, expected }) => {
            assert_eq!((text(key), text(found), text(expected)), ("year".to_string(), "int".to_string(), "str".to_string()));
        },
        _ => panic!("expected a value type"),
    }
    match &r[3].finding {
        TdFinding::Incompatible(TdDetail::Requiredness { key, target_requires }) => {
            assert_eq!(text(key), "name");
            assert!(!*target_requires);
        },
        _ => panic!("expected requiredness"),
    }
    match &r[4].finding {
        TdFinding::Incompatible(TdDetail::MissingKey { key }) => assert_eq!(text(key), "year"),
        _ => panic!("expected a missing key"),
    }
    assert_eq!(r[4].span.start, 80);
}

#[test]
fn no_typeddict_no_findings() {
    let classes = vec![TdClass { name: chars("Movie"), is_typed_dict: false, is_total: true, attributes: vec![] }];
    let vars = vec![var("d", "dict", "m", 0)];
    assert!(TypedDictAssignability.check(&vars, &classes).is_empty());
}

#[test]
fn typeddict_bounded_check() {
    let classes = vec![td("Movie", true, &[("name", "str")]), td("Other", true, &[("name", "int")])];
    let vars = vec![var("m", "Movie", "{}", 0), var("o", "Other", "m", 10)];
    let r = TypedDictAssignability.check_within(&vars, &classes, 4).unwrap();
    assert_eq!(r.len(), 1);
    // two self-referring TypedDicts compared with each other never finish
    let loops = vec![td("A", true, &[("x", "B")]), td("B", true, &[("x", "A")])];
    let lvars = vec![var("a", "A", "{}", 0), var("b", "B", "a", 10)];
    assert!(TypedDictAssignability.check_within(&lvars, &loops, 50).is_none());
}
