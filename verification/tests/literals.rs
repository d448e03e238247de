use core_ir::parser::{
    Annotated, AtomicLiteral, Constant, Expression, Integer, Pattern, SingleExpression,
};
use core_ir::{Atom, Variable};

#[test]
fn integer_reads_its_digits() {
    assert_eq!(Integer::new(true, "5").to_u32(), Some(5));
    assert_eq!(Integer::new(true, "5").as_u32(), 5);
    assert_eq!(Integer::new(true, "0042").to_u32(), Some(42));
    assert_eq!(Integer::new(true, "1234567890").as_u32(), 1234567890);
}

#[test]
fn integer_takes_one_leading_plus() {
    assert_eq!(Integer::new(true, "+17").to_u32(), Some(17));
    assert_eq!(Integer::new(true, "++17").to_u32(), None);
    assert_eq!(Integer::new(true, "+").to_u32(), None);
}

#[test]
fn integer_at_the_edge_of_u32() {
    assert_eq!(Integer::new(true, "4294967295").to_u32(), Some(u32::MAX));
    assert_eq!(Integer::new(true, "4294967295").as_u32(), u32::MAX);
    assert_eq!(Integer::new(true, "4294967296").to_u32(), None);
    assert_eq!(Integer::new(true, "42949672950").to_u32(), None);
    assert_eq!(Integer::new(true, "99999999999999999999").to_u32(), None);
}

#[test]
fn integer_rejects_what_is_no_number() {
    assert_eq!(Integer::new(true, "").to_u32(), None);
    assert_eq!(Integer::new(true, "12a").to_u32(), None);
    assert_eq!(Integer::new(true, "-1").to_u32(), None);
    assert_eq!(Integer::new(true, " 1").to_u32(), None);
    assert_eq!(Integer::new(true, "1_000").to_u32(), None);
    assert_eq!(Integer::new(true, "१२").to_u32(), None);
}

#[test]
fn negative_integer_is_no_u32() {
    assert_eq!(Integer::new(false, "5").to_u32(), None);
}

#[test]
fn integer_agrees_with_the_standard_parser() {
    for text in ["0", "7", "10", "65535", "4294967295", "4294967296", "", "+", "+0", "0x10", "1e3"] {
        assert_eq!(Integer::new(true, text).to_u32(), text.parse::<u32>().ok(), "{:?}", text);
    }
}

#[test]
fn integer_clone_is_equal() {
    let n = Integer::new(false, "77");
    assert_eq!(n.clone(), n);
    assert_ne!(Integer::new(true, "77"), n);
}

#[test]
fn annotated_empty_has_no_annotations() {
    let a = Annotated::empty(7u32);
    assert_eq!(a.0, 7);
    assert!(a.1.is_empty());
}

#[test]
fn nil_pattern_and_nil_expression() {
    let p = Pattern::nil();
    assert!(matches!(p.0, Pattern::Atomic(AtomicLiteral::Nil)));
    assert!(p.1.is_empty());
    let e = Expression::nil();
    assert_eq!(e.0.len(), 1);
    assert!(matches!(e.0[0].0, SingleExpression::AtomicLiteral(AtomicLiteral::Nil)));
    assert!(e.1.is_empty());
}

#[test]
fn atoms_and_variables_keep_their_names() {
    assert_eq!(Atom::new("ok").0, "ok");
    assert_eq!(Variable::new("X").0, "X");
    assert_eq!(Atom::new("ok").clone(), Atom::new("ok"));
    assert_eq!(Variable::new("X").clone(), Variable::new("X"));
}

#[test]
fn literal_clone_is_equal() {
    let literals = vec![
        AtomicLiteral::Integer(Integer::new(true, "5")),
        AtomicLiteral::Float,
        AtomicLiteral::Atom(Atom::new("a")),
        AtomicLiteral::Nil,
        AtomicLiteral::Char('c'),
        AtomicLiteral::String("s".to_string()),
    ];
    for literal in literals.iter() {
        assert_eq!(&literal.clone(), literal);
    }
}

#[test]
fn integer_literal_is_shown_with_its_sign_word() {
    assert_eq!(AtomicLiteral::Integer(Integer::new(true, "5")).to_string(), "true5");
    assert_eq!(AtomicLiteral::Integer(Integer::new(false, "12")).to_string(), "false12");
    assert_eq!(AtomicLiteral::Integer(Integer::new(true, "")).to_string(), "true");
}

#[test]
fn other_literals_are_shown_as_unimplemented() {
    assert_eq!(AtomicLiteral::Nil.to_string(), "unimpl");
    assert_eq!(AtomicLiteral::Float.to_string(), "unimpl");
    assert_eq!(AtomicLiteral::Atom(Atom::new("a")).to_string(), "unimpl");
    assert_eq!(AtomicLiteral::Char('c').to_string(), "unimpl");
    assert_eq!(AtomicLiteral::String("s".to_string()).to_string(), "unimpl");
}

#[test]
fn constant_is_shown_as_its_literal() {
    let five = || AtomicLiteral::Integer(Integer::new(true, "5"));
    assert_eq!(Constant::Atomic(five()).to_string(), "true5");
    assert_eq!(Constant::Atomic(AtomicLiteral::Nil).to_string(), "unimpl");
    assert_eq!(Constant::Tuple(vec![Constant::Atomic(five())]).to_string(), "unimpl");
    assert_eq!(
        Constant::List(vec![], Box::new(Constant::Atomic(AtomicLiteral::Nil))).to_string(),
        "unimpl"
    );
}
