use basilisk_checker::variance::{
    check_variance_assignments, collect_full_signature, extract_paren_bases,
    extract_rhs_generic_type, infer_single_variance, is_known_covariant_base,
    is_known_invariant_base, is_numeric_subtype, is_simple_assignment, split_top_level_params,
    ClassForVariance, TypeVarDecl, Variance,
};

fn chars(s: &str) -> Vec<char> {
    s.chars().collect()
}

fn strs(v: &[Vec<char>]) -> Vec<String> {
    v.iter().map(|x| x.iter().collect()).collect()
}

fn class(bases: &[&str], body: &[&str]) -> ClassForVariance {
    ClassForVariance {
        name: chars("C"),
        type_params: vec![chars("T")],
        bases: bases.iter().map(|b| chars(b)).collect(),
        body_lines: body.iter().map(|b| chars(b)).collect(),
        is_frozen_dataclass: false,
        is_dataclass: false,
    }
}

#[test]
fn variance_from_usage_positions() {
    let t = chars("T");
    let known = Vec::new();
    let declared = Vec::new();
    let getter = class(&[], &["def get(self) -> T: ..."]);
    assert_eq!(infer_single_variance(&t, &getter, &known, &declared), Variance::Covariant);
    let setter = class(&[], &["def put(self, x: T) -> None: ..."]);
    assert_eq!(infer_single_variance(&t, &setter, &known, &declared), Variance::Contravariant);
    let both = class(&[], &["def swap(self, x: T) -> T: ..."]);
    assert_eq!(infer_single_variance(&t, &both, &known, &declared), Variance::Invariant);
    let unused = class(&[], &["def f(self) -> int: ..."]);
    assert_eq!(infer_single_variance(&t, &unused, &known, &declared), Variance::Invariant);
    let listy = class(&["list[T]"], &["def get(self) -> T: ..."]);
    assert_eq!(infer_single_variance(&t, &listy, &known, &declared), Variance::Invariant);
    let seq = class(&["Sequence[T]"], &[]);
    assert_eq!(infer_single_variance(&t, &seq, &known, &declared), Variance::Covariant);
    let public = class(&[], &["def __init__(self, x: T) -> None:", "self.x = x", "def get(self) -> T: ..."]);
    assert_eq!(infer_single_variance(&t, &public, &known, &declared), Variance::Invariant);
    let private = class(&[], &["def __init__(self, x: T) -> None:", "self._x = x", "def get(self) -> T: ..."]);
    assert_eq!(infer_single_variance(&t, &private, &known, &declared), Variance::Covariant);
    let from_known = class(&["Parent[T]"], &[]);
    let known2 = vec![(chars("Parent"), vec![Variance::Contravariant])];
    assert_eq!(infer_single_variance(&t, &from_known, &known2, &declared), Variance::Contravariant);
}

#[test]
fn variance_covariant_assignment_checked() {
    let src = "class Box[T]:\n    def get(self) -> T: ...\nv: Box[float] = Box[int]()\nw: Box[int] = Box[float]()\n";
    let pep = vec![vec![chars("T")], vec![], vec![], vec![]];
    let decls: Vec<TypeVarDecl> = Vec::new();
    let diags = check_variance_assignments(&chars(src), &decls, &pep);
    assert_eq!(diags.len(), 1);
    let d = &diags[0];
    assert_eq!(d.class_name.iter().collect::<String>(), "Box");
    assert_eq!(d.lhs_arg.iter().collect::<String>(), "int");
    assert_eq!(d.rhs_arg.iter().collect::<String>(), "float");
    assert_eq!(d.variance, Variance::Covariant);
    assert_eq!((d.span.start, d.span.end), (69, 95));
}

#[test]
fn variance_helpers() {
    assert!(is_numeric_subtype(&chars("bool"), &chars("float")));
    assert!(is_numeric_subtype(&chars("str"), &chars("str")));
    assert!(!is_numeric_subtype(&chars("float"), &chars("int")));
    assert!(is_known_invariant_base(&chars("dict")));
    assert!(is_known_covariant_base(&chars("Mapping")));
    assert!(!is_known_covariant_base(&chars("list")));
    assert_eq!(strs(&split_top_level_params(&chars("a: dict[str, int], b=(1, 2), "))), vec!["a: dict[str, int]", " b=(1, 2)"]);
    assert_eq!(strs(&extract_paren_bases(&chars("(Base[T], Generic[T], Other)"))), vec!["Base[T]", "Other"]);
    let (name, args) = extract_rhs_generic_type(&chars("Box[dict[str, int]](x)")).unwrap();
    assert_eq!(name.iter().collect::<String>(), "Box");
    assert_eq!(strs(&args), vec!["dict[str, int]"]);
    assert!(is_simple_assignment(&chars("x = 1")));
    assert!(!is_simple_assignment(&chars("x += 1")));
    assert!(!is_simple_assignment(&chars("x == 1")));
    let lines = vec![chars("def f(a,"), chars("      b):"), chars("    pass")];
    assert_eq!(collect_full_signature(&lines, 0).iter().collect::<String>(), "def f(a, b):");
}
