use basilisk_checker::position::Span;
use basilisk_checker::typevar_order::{
    check_class, extract_base_subscripts, InconsistentTypeVarOrder, OrderClass,
};

fn chars(s: &str) -> Vec<char> {
    s.chars().collect()
}

fn text(v: &[char]) -> String {
    v.iter().collect()
}

fn class(src: &str, name: &str, params: &[&str]) -> OrderClass {
    let at = src.find(&format!("class {name}(")).unwrap() + 6;
    OrderClass {
        name: chars(name),
        name_span: Span { start: at as u32, end: (at + name.len()) as u32 },
        generic_params: params.iter().map(|p| chars(p)).collect(),
    }
}

#[test]
fn inconsistent_typevar_order_through_shared_ancestor() {
    let src = "class Base(Generic[T1, T2]): ...\n\
               class A(Base[T1, T2]): ...\n\
               class B(Base[T2, T1]): ...\n\
               class C(A[T1, T2], B[T1, T2]): ...\n\
               class D(A[T1, T2], Base[T1, T2]): ...\n";
    let p = ["T1", "T2"];
    let classes = vec![
        class(src, "Base", &p),
        class(src, "A", &p),
        class(src, "B", &p),
        class(src, "C", &p),
        class(src, "D", &p),
    ];
    let source = chars(src);
    let r = InconsistentTypeVarOrder.check(&classes, &source);
    assert_eq!(r.len(), 1);
    assert_eq!((text(&r[0].class), text(&r[0].ancestor)), ("C".to_string(), "Base".to_string()));
    assert_eq!(r[0].span, classes[3].name_span);
    assert!(check_class(&classes, &source, &classes[4]).is_none());
    let bases = extract_base_subscripts(&source, classes[3].name_span.end);
    assert_eq!(bases.len(), 2);
    assert_eq!(text(&bases[1].0), "B");
    assert_eq!(bases[1].1.iter().map(|a| text(a)).collect::<Vec<_>>(), vec!["T1", "T2"]);
}
