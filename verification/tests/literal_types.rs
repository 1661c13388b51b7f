use basilisk_checker::generic_text::{infer_literal_type, LiteralType};

fn chars(s: &str) -> Vec<char> {
    s.chars().collect()
}

#[test]
fn literal_types_by_shape() {
    assert_eq!(infer_literal_type(&chars("42")), Some(LiteralType::Int));
    assert_eq!(infer_literal_type(&chars("-7")), Some(LiteralType::Int));
    assert_eq!(infer_literal_type(&chars("-1.5")), Some(LiteralType::Float));
    assert_eq!(infer_literal_type(&chars("'s'")), Some(LiteralType::Str));
    assert_eq!(infer_literal_type(&chars("b'x'")), Some(LiteralType::Bytes));
    assert_eq!(infer_literal_type(&chars(" True ")), Some(LiteralType::Bool));
    assert_eq!(infer_literal_type(&chars("None")), Some(LiteralType::NoneType));
}

#[test]
fn literal_types_need_a_digit() {
    assert_eq!(infer_literal_type(&chars("")), None);
    assert_eq!(infer_literal_type(&chars("   ")), None);
    assert_eq!(infer_literal_type(&chars("...")), None);
    assert_eq!(infer_literal_type(&chars("-")), None);
    assert_eq!(infer_literal_type(&chars("x")), None);
}
