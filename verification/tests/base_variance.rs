use basilisk_checker::base_variance::aliases_are_acyclic;
use basilisk_checker::base_variance::{
    compose_variance, AliasDef, BaseSubscript, GenericClassDecl, TypeArg, VarianceIncompatibleBase,
};
use basilisk_checker::position::Span;
use basilisk_checker::protocol_variance::VarianceDecl;
use basilisk_checker::variance::Variance;

fn chars(s: &str) -> Vec<char> {
    s.chars().collect()
}

fn text(v: &[char]) -> String {
    v.iter().collect()
}

fn tv(name: &str, co: bool, contra: bool) -> VarianceDecl {
    VarianceDecl { name: chars(name), is_covariant: co, is_contravariant: contra }
}

fn flat(base: &str, args: &[&str], at: u32) -> BaseSubscript {
    BaseSubscript {
        base_name: chars(base),
        type_arg_names: args.iter().map(|a| chars(a)).collect(),
        type_args: vec![],
        span: Span { start: at, end: at + 10 },
    }
}

fn class(name: &str, params: &[&str], bases: Vec<BaseSubscript>) -> GenericClassDecl {
    GenericClassDecl {
        name: chars(name),
        generic_params: params.iter().map(|p| chars(p)).collect(),
        base_subscripts: bases,
    }
}

fn simple(n: &str) -> TypeArg {
    TypeArg::Simple(chars(n))
}

fn describe(r: &basilisk_checker::base_variance::BaseVarianceReport) -> (String, Vec<(String, Variance, Variance)>) {
    (
        text(&r.base_name),
        r.violations.iter().map(|v| (text(&v.arg_name), v.arg_variance, v.expected_variance)).collect(),
    )
}

#[test]
fn covariant_argument_for_invariant_parameter() {
    // class Base(Generic[T]): ...
    // class Bad(Base[T_co]): ...
    // Alias = Base[T]
    // class ViaAlias(Alias[T_co]): ...
    // class Fine(Base[T]): ...
    let classes = vec![
        class("Base", &["T"], vec![flat("Generic", &["T"], 0)]),
        class("Bad", &["T_co"], vec![flat("Base", &["T_co"], 20)]),
        class("ViaAlias", &["T_co"], vec![flat("Alias", &["T_co"], 40)]),
        class("Fine", &["T"], vec![flat("Base", &["T"], 60)]),
    ];
    let aliases = vec![AliasDef { name: chars("Alias"), rhs_base_name: Some(chars("Base")), rhs_type_arg_names: vec![chars("T")] }];
    let tvs = vec![tv("T", false, false), tv("T_co", true, false)];
    let r = VarianceIncompatibleBase.check(&classes, &tvs, &aliases);
    let got: Vec<_> = r.iter().map(describe).collect();
    assert_eq!(
        got,
        vec![
            ("Base".to_string(), vec![("T_co".to_string(), Variance::Covariant, Variance::Invariant)]),
            ("Alias".to_string(), vec![("T_co".to_string(), Variance::Covariant, Variance::Invariant)]),
        ]
    );
    assert_eq!((r[0].span.start, r[1].span.start), (20, 40));
}

#[test]
fn nested_arguments_compose_variance() {
    // class Sink(Generic[T_contra]): ...
    // class Source(Generic[U_co]): ...
    // class E(Source[Sink[T_co]]): ...   # T_co ends up contravariant
    let nested = BaseSubscript {
        base_name: chars("Source"),
        type_arg_names: vec![],
        type_args: vec![TypeArg::Subscript { base: chars("Sink"), args: vec![simple("T_co")] }],
        span: Span { start: 5, end: 30 },
    };
    let classes = vec![
        class("Sink", &["T_contra"], vec![]),
        class("Source", &["U_co"], vec![]),
        class("E", &["T_co"], vec![nested]),
    ];
    let tvs = vec![tv("T_contra", false, true), tv("U_co", true, false), tv("T_co", true, false)];
    let r = VarianceIncompatibleBase.check(&classes, &tvs, &vec![]);
    let got: Vec<_> = r.iter().map(describe).collect();
    assert_eq!(
        got,
        vec![("Source".to_string(), vec![("T_co".to_string(), Variance::Contravariant, Variance::Covariant)])]
    );
}

#[test]
fn composition_table() {
    let (co, contra, inv) = (Variance::Covariant, Variance::Contravariant, Variance::Invariant);
    assert_eq!(compose_variance(contra, contra), co);
    assert_eq!(compose_variance(co, contra), contra);
    assert_eq!(compose_variance(contra, co), contra);
    assert_eq!(compose_variance(inv, co), inv);
    assert_eq!(compose_variance(co, inv), inv);
    assert_eq!(compose_variance(co, co), co);
}

#[test]
fn cyclic_aliases_are_refused_before_checking() {
    let cyclic = vec![
        AliasDef { name: chars("A"), rhs_base_name: Some(chars("B")), rhs_type_arg_names: vec![] },
        AliasDef { name: chars("B"), rhs_base_name: Some(chars("A")), rhs_type_arg_names: vec![] },
    ];
    assert!(!aliases_are_acyclic(&cyclic));
    assert!(VarianceIncompatibleBase.check_if_acyclic(&vec![], &vec![], &cyclic).is_none());
    let fine = vec![AliasDef { name: chars("A"), rhs_base_name: Some(chars("Base")), rhs_type_arg_names: vec![] }];
    assert!(aliases_are_acyclic(&fine));
    assert!(VarianceIncompatibleBase.check_if_acyclic(&vec![], &vec![], &fine).unwrap().is_empty());
}
