use aguda_rs::syntax::ast::{Op, Type};
use aguda_rs::utils::{get_position_in_src, indent};

#[test]
fn op_text_uses_source_spelling() {
    assert_eq!(Op::Add.to_text(), "+");
    assert_eq!(Op::Pow.to_text(), "**");
    assert_eq!(Op::Neq.to_text(), "!=");
}

#[test]
fn array_type_text() {
    assert_eq!(Type::Array(Box::new(Type::Array(Box::new(Type::Int)))).to_text(), "Int[][]");
}

#[test]
fn indent_is_two_spaces_per_level() {
    assert_eq!(indent(0), "");
    assert_eq!(indent(3), "      ");
}

#[test]
fn position_counts_lines_and_columns() {
    assert_eq!(get_position_in_src("ab\ncd", 0), (1, 1));
    assert_eq!(get_position_in_src("ab\ncd", 4), (2, 2));
    assert_eq!(get_position_in_src("ab\ncd", 99), (2, 3));
}
