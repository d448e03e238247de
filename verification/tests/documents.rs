use core_ir::doc::{holds_line_break, text_doc, ToDoc};
use core_ir::ir::hir::{SingleExpression, SingleExpressionKind};
use core_ir::ir::{AFunctionName, AVariable, SSAVariable};
use core_ir::parser::{AtomicLiteral, FunctionName, Integer};
use core_ir::{Atom, Variable};

fn node(n: u32, kind: SingleExpressionKind) -> SingleExpression {
    SingleExpression { ssa: SSAVariable(n), kind }
}

fn nil(n: u32) -> SingleExpression {
    node(n, SingleExpressionKind::Atomic(AtomicLiteral::Nil))
}

fn call(args: Vec<SingleExpression>) -> SingleExpression {
    node(
        9,
        SingleExpressionKind::InterModuleCall {
            module: Box::new(nil(1)),
            name: Box::new(nil(2)),
            args,
        },
    )
}

fn laid_out(e: &SingleExpression, width: usize) -> String {
    format!("{}", e.to_doc().unwrap().pretty(width))
}

#[test]
fn literal_is_its_identifier_and_its_debug_text() {
    assert_eq!(laid_out(&nil(3), 80), "SSAVariable(3):Nil");
    let five = node(4, SingleExpressionKind::Atomic(AtomicLiteral::Integer(Integer::new(true, "5"))));
    assert_eq!(
        laid_out(&five, 80),
        "SSAVariable(4):Integer(Integer { sign: true, digits: \"5\" })"
    );
    assert_eq!(laid_out(&five, 1), laid_out(&five, 80));
}

#[test]
fn variable_is_its_debug_text() {
    let var = node(
        5,
        SingleExpressionKind::Variable(AVariable { var: Variable::new("X"), ssa: SSAVariable(5) }),
    );
    assert_eq!(
        laid_out(&var, 80),
        "SSAVariable(5):AVariable { var: Variable(\"X\"), ssa: SSAVariable(5) }"
    );
}

#[test]
fn named_function_says_whether_it_is_a_lambda() {
    let named = |is_lambda| {
        node(
            6,
            SingleExpressionKind::NamedFunction {
                name: AFunctionName {
                    var: FunctionName { name: Atom::new("go"), arity: 2 },
                    ssa: SSAVariable(6),
                },
                is_lambda,
            },
        )
    };
    let name = "AFunctionName { var: FunctionName { name: Atom(\"go\"), arity: 2 }, ssa: SSAVariable(6) }";
    assert_eq!(laid_out(&named(true), 80), format!("SSAVariable(6):{} lambda: true", name));
    assert_eq!(laid_out(&named(false), 80), format!("SSAVariable(6):{} lambda: false", name));
}

#[test]
fn other_kinds_have_no_layout_yet() {
    let tuple = node(7, SingleExpressionKind::Tuple(vec![nil(1)]));
    assert_eq!(
        laid_out(&tuple, 80),
        "SSAVariable(7):UNIMPL Tuple([SingleExpression { ssa: SSAVariable(1), kind: Atomic(Nil) }])"
    );
    let apply = node(8, SingleExpressionKind::ApplyCall { fun: Box::new(nil(1)), args: vec![] });
    assert!(laid_out(&apply, 80).starts_with("SSAVariable(8):UNIMPL ApplyCall {"));
}

#[test]
fn call_across_modules_puts_each_argument_on_a_line() {
    let two = call(vec![nil(3), nil(4)]);
    assert_eq!(
        laid_out(&two, 80),
        "SSAVariable(9):InterModuleCall( SSAVariable(1):Nil, SSAVariable(2):Nil, [\n  SSAVariable(3):Nil, \n  SSAVariable(4):Nil])"
    );
    assert_eq!(
        laid_out(&two, 20),
        "SSAVariable(9):InterModuleCall(\nSSAVariable(1):Nil,\n  SSAVariable(2):Nil,\n  [\n  SSAVariable(3):Nil,\n  \n  SSAVariable(4):Nil])"
    );
}

#[test]
fn call_without_arguments_fits_a_line_or_breaks_at_its_spaces() {
    let none = call(vec![]);
    assert_eq!(
        laid_out(&none, 80),
        "SSAVariable(9):InterModuleCall( SSAVariable(1):Nil, SSAVariable(2):Nil, [])"
    );
    assert_eq!(
        laid_out(&none, 10),
        "SSAVariable(9):InterModuleCall(\nSSAVariable(1):Nil,\n  SSAVariable(2):Nil,\n  [])"
    );
}

#[test]
fn nested_call_is_laid_out_inside_its_parent() {
    let inner = call(vec![]);
    let outer = node(
        10,
        SingleExpressionKind::InterModuleCall {
            module: Box::new(nil(1)),
            name: Box::new(nil(2)),
            args: vec![inner],
        },
    );
    assert_eq!(
        laid_out(&outer, 200),
        "SSAVariable(10):InterModuleCall( SSAVariable(1):Nil, SSAVariable(2):Nil, [\n  SSAVariable(9):InterModuleCall( SSAVariable(1):Nil, SSAVariable(2):Nil, [])])"
    );
}

#[test]
fn escaped_line_breaks_are_no_line_breaks() {
    let text = node(3, SingleExpressionKind::Atomic(AtomicLiteral::String("a\nb\r".to_string())));
    assert_eq!(laid_out(&text, 80), "SSAVariable(3):String(\"a\\nb\\r\")");
    let atom = node(3, SingleExpressionKind::Atomic(AtomicLiteral::Char('\n')));
    assert_eq!(laid_out(&atom, 80), "SSAVariable(3):Char('\\n')");
}

#[test]
fn text_with_a_line_break_has_no_document() {
    assert!(text_doc("a\nb".to_string()).is_none());
    assert!(text_doc("a\rb".to_string()).is_none());
    assert!(text_doc("\n".to_string()).is_none());
    let doc = text_doc("a b".to_string()).unwrap();
    assert_eq!(format!("{}", doc.pretty(1)), "a b");
    assert_eq!(format!("{}", text_doc(String::new()).unwrap().pretty(80)), "");
}

#[test]
fn line_breaks_are_found_anywhere_in_a_text() {
    assert!(!holds_line_break(""));
    assert!(!holds_line_break("no break, not even \\n"));
    assert!(holds_line_break("\n"));
    assert!(holds_line_break("at the end\r"));
    assert!(holds_line_break("après\nla lettre"));
}
