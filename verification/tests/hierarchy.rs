use basilisk_checker::hierarchy::{
    all_base_names, has_custom_init_in_bases, is_namedtuple_class, is_subclass, is_type_compatible,
    HierarchyClass,
};

fn chars(s: &str) -> Vec<char> {
    s.chars().collect()
}

fn text(v: &[char]) -> String {
    v.iter().collect()
}

fn class(name: &str, bases: &[&str], subscripted: &[&str]) -> HierarchyClass {
    HierarchyClass {
        name: chars(name),
        bases: bases.iter().map(|b| chars(b)).collect(),
        base_subscript_names: subscripted.iter().map(|b| chars(b)).collect(),
    }
}

#[test]
fn class_hierarchy_walks() {
    let classes = vec![
        class("P", &["NamedTuple"], &[]),
        class("Q", &["P"], &[]),
        class("Box", &["Generic[T]"], &["Generic"]),
        class("Base", &["object"], &[]),
        class("Child", &["Base", "Mixin[int]"], &["Mixin", "Extra"]),
    ];
    let names = all_base_names(&classes[4]);
    assert_eq!(names.iter().map(|n| text(n)).collect::<Vec<_>>(), vec!["Base", "Mixin", "Extra"]);
    assert!(is_subclass(&chars("Q"), &chars("NamedTuple"), &classes));
    assert!(!is_subclass(&chars("Base"), &chars("P"), &classes));
    assert!(is_namedtuple_class(&classes[1], &classes));
    assert!(!is_namedtuple_class(&classes[2], &classes));
    let methods = vec![(chars("Base"), chars("__init__")), (chars("Box"), chars("__new__"))];
    assert!(has_custom_init_in_bases(&classes[4], &classes, &methods));
    assert!(!has_custom_init_in_bases(&classes[1], &classes, &methods));
    assert!(!has_custom_init_in_bases(&classes[3], &classes, &methods));
}

#[test]
fn constructor_argument_compatibility() {
    assert!(is_type_compatible(&chars("bool"), &chars("int")));
    assert!(is_type_compatible(&chars("int"), &chars("complex")));
    assert!(is_type_compatible(&chars("str"), &chars("object")));
    assert!(!is_type_compatible(&chars("str"), &chars("int")));
    assert!(is_type_compatible(&chars("str"), &chars("int | str")));
    assert!(is_type_compatible(&chars("bool"), &chars("str|float")));
    assert!(!is_type_compatible(&chars("bytes"), &chars("int | str | None")));
}

#[test]
fn union_compatible_through_a_member() {
    assert!(!is_type_compatible(&chars("int"), &chars("str | None")));
    assert!(is_type_compatible(&chars("bool"), &chars("str | float")));
    assert!(is_type_compatible(&chars("str | None"), &chars("str | None")));
    assert!(is_type_compatible(&chars("None"), &chars("str | None")));
}
