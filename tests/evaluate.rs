use exp_eval::builder::{
    create_node_from_str, denude, is_denudable, is_digit, top_level_assembler,
    top_level_assembler_iter, top_level_disassembler,
};
use exp_eval::evaluate;
use exp_eval::preprocess::{preprocess, primitive_chars, Fault};
use exp_eval::tree::{Node, Operand, Operator};

fn chars(s: &str) -> Vec<char> {
    s.chars().collect()
}

fn pieces(v: &[&str]) -> Vec<Vec<char>> {
    v.iter().map(|s| chars(s)).collect()
}

fn operand_value(o: &Operand) -> f64 {
    match o {
        Operand::Expression(n) => value(n),
        Operand::Number(s) => s.parse().unwrap(),
    }
}

fn value(n: &Node) -> f64 {
    let x = operand_value(&n.operand1);
    let y = operand_value(&n.operand2);
    match n.operator {
        Operator::Add => x + y,
        Operator::Sub => x - y,
        Operator::Mul => x * y,
        Operator::Div => x / y,
    }
}

fn run(s: &str) -> Result<String, (usize, String)> {
    match evaluate(s) {
        Ok(n) => Ok(value(&n).to_string()),
        Err(e) => Err((e.index, e.message)),
    }
}

fn fails(s: &str, index: usize, message: &str) {
    assert_eq!(run(s), Err((index, message.to_string())));
}

#[test]
fn same_input_same_result() {
    assert_eq!(run("2*(3+4)-1"), run("2*(3+4)-1"));
    assert_eq!(run("2*(3+4)-1"), Ok("13".to_string()));
    assert_eq!(run("2++3"), run("2++3"));
}

#[test]
fn spaces_do_not_matter() {
    assert_eq!(run("1 + 2"), run("1+2"));
    assert_eq!(run("1 + 2"), Ok("3".to_string()));
    assert_eq!(run("\t 1 +  2 \n"), Ok("3".to_string()));
}

#[test]
fn positions_ignore_spaces() {
    fails(" 2 + + 3", 2, "Two operators must have an operand between them");
}

#[test]
fn interior_whitespace_is_removed() {
    assert_eq!(run("1\t+2"), Ok("3".to_string()));
    assert_eq!(run("1\t+\n2"), run("1+2"));
    fails("1\t)", 1, "Improper use of braces.");
    fails("(\t1", 1, "Braces are not closed properly.");
    fails("1+\t+2", 2, "Two operators must have an operand between them");
}

#[test]
fn single_character_operator_or_point() {
    fails("+", 0, "2nd operator is missing.");
    fails("-", 0, "2nd operator is missing.");
    fails(".", 0, "Decimal at inappropriate position.");
    fails("*", 0, "1st operand is missing.");
    assert_eq!(run("7"), Ok("7".to_string()));
}

#[test]
fn outer_braces_do_not_matter() {
    assert_eq!(run("(((2+3)))"), run("2+3"));
    assert_eq!(run("(((2+3)))"), Ok("5".to_string()));
    assert_eq!(run("((7))"), Ok("7".to_string()));
}

#[test]
fn implicit_zero() {
    assert_eq!(run("-5+3"), run("0-5+3"));
    assert_eq!(run("-5+3"), Ok("-2".to_string()));
    assert_eq!(run("2*(-3+1)"), Ok("-4".to_string()));
    assert_eq!(run("+4"), Ok("4".to_string()));
}

#[test]
fn precedence() {
    assert_eq!(run("2+3*4"), Ok("14".to_string()));
    assert_eq!(run("(2+3)*4"), Ok("20".to_string()));
    assert_eq!(run("2*3+4*5"), Ok("26".to_string()));
}

#[test]
fn same_level_chains() {
    assert_eq!(run("8-2-3"), Ok("3".to_string()));
    assert_eq!(run("10/2/5"), Ok("1".to_string()));
    assert_eq!(run("1-2+3-4"), Ok("-2".to_string()));
}

#[test]
fn decimals() {
    assert_eq!(run("0.5*4"), Ok("2".to_string()));
    assert_eq!(run("0.1+0.2"), Ok("0.30000000000000004".to_string()));
}

#[test]
fn division_by_zero_is_infinite() {
    let n = evaluate("10/0").unwrap();
    assert_eq!(value(&n), f64::INFINITY);
    assert_eq!(run("10/0"), Ok("inf".to_string()));
}

#[test]
fn two_operators() {
    fails("2++3", 2, "Two operators must have an operand between them");
}

#[test]
fn unclosed_braces() {
    fails("(2+3", 3, "Braces are not closed properly.");
}

#[test]
fn improper_braces() {
    fails("2+3)", 3, "Improper use of braces.");
    fails(")(", 0, "Improper use of braces.");
}

#[test]
fn illegal_character() {
    fails("2+a", 2, "Illegal character.");
}

#[test]
fn illegal_wide_character() {
    fails("2+\u{e9}", 2, "Illegal character.");
}

#[test]
fn illegal_before_braces() {
    fails("(2+a", 3, "Illegal character.");
}

#[test]
fn leading_operator() {
    fails("*2", 0, "1st operand is missing.");
}

#[test]
fn point_before_operator() {
    fails("2.+3", 2, "A number can't end with a decimal point.");
}

#[test]
fn operator_after_brace() {
    fails("(*2)", 1, "First operand is missing.");
}

#[test]
fn operand_before_brace() {
    fails("2(3)", 1, "Two operands must have an operator between them.");
}

#[test]
fn empty_braces() {
    fails("2+()", 3, "Empty braces Found.");
}

#[test]
fn operator_before_closing_brace() {
    fails("(2+)", 3, "2nd operand is missing.");
}

#[test]
fn digit_after_brace() {
    fails("(2)3", 3, "Operator is missing");
}

#[test]
fn point_after_brace() {
    fails("(2).5", 3, "Decimal point found at inappropriate position");
}

#[test]
fn trailing_point() {
    fails("2.", 1, "Decimal at inappropriate position.");
}

#[test]
fn trailing_operator() {
    fails("2+", 1, "2nd operator is missing.");
}

#[test]
fn fault_messages() {
    assert_eq!(Fault::EmptyBraces.message(), "Empty braces Found.");
    assert_eq!(Fault::IllegalCharacter.message(), "Illegal character.");
}

#[test]
fn primitive_text() {
    assert_eq!(primitive_chars("  1 + ( 2 )\t"), chars("1+(2)"));
    assert_eq!(primitive_chars("1\t+\u{3000}2"), chars("1+2"));
    assert_eq!(primitive_chars(""), chars(""));
}

#[test]
fn zeros_before_signs() {
    assert_eq!(preprocess("(-3+2)").unwrap(), chars("(0-3+2)"));
    assert_eq!(preprocess("-5").unwrap(), chars("0-5"));
    assert_eq!(preprocess("2*(+1)").unwrap(), chars("2*(0+1)"));
    assert_eq!(preprocess("1-2").unwrap(), chars("1-2"));
}

#[test]
fn denudable_texts() {
    assert!(is_denudable(&chars("(2+3)")));
    assert!(is_denudable(&chars("()")));
    assert!(!is_denudable(&chars("(2+3)*(4+5)")));
    assert!(!is_denudable(&chars("2+3")));
    assert!(!is_denudable(&chars("(")));
    assert!(!is_denudable(&chars("")));
}

#[test]
fn denude_strips_redundant_pairs() {
    assert_eq!(denude(&chars("(((2+3)))")), chars("2+3"));
    assert_eq!(denude(&chars("(2+3)*(4+5)")), chars("(2+3)*(4+5)"));
    assert_eq!(denude(&chars("((2)+(3))")), chars("(2)+(3)"));
}

#[test]
fn disassembler_splits_at_top_level() {
    assert_eq!(
        top_level_disassembler(&chars("2*(4+7)/9")),
        pieces(&["2", "*", "(4+7)", "/", "9"])
    );
    assert_eq!(top_level_disassembler(&chars("12")), pieces(&["12"]));
}

#[test]
fn assembler_folds_by_priority() {
    let v = pieces(&["2", "*", "(4+7)", "-", "20", "/", "7"]);
    let once = top_level_assembler(&v);
    assert_eq!(once, pieces(&["2", "*", "(4+7)", "-", "(20/7)"]));
    assert_eq!(top_level_assembler_iter(&v), pieces(&["(2*(4+7))", "-", "(20/7)"]));
    assert_eq!(
        top_level_assembler_iter(&pieces(&["1", "+", "2"])),
        pieces(&["1", "+", "2"])
    );
}

#[test]
fn assembler_subtraction_before_addition() {
    let v = pieces(&["1", "+", "2", "-", "3"]);
    assert_eq!(top_level_assembler(&v), pieces(&["1", "+", "(2-3)"]));
}

#[test]
fn digit_test() {
    assert!(is_digit(&chars("3.5")));
    assert!(!is_digit(&chars("(3)")));
    assert!(!is_digit(&chars("")));
}

#[test]
fn tree_shape() {
    let n = create_node_from_str(&chars("2+3*4"));
    assert_eq!(n.operator, Operator::Add);
    match (&n.operand1, &n.operand2) {
        (Operand::Number(a), Operand::Expression(m)) => {
            assert_eq!(a, "2");
            assert_eq!(m.operator, Operator::Mul);
        }
        _ => panic!("unexpected shape"),
    }
}

#[test]
fn single_value_tree() {
    let n = create_node_from_str(&chars("(7)"));
    assert_eq!(n.operator, Operator::Add);
    match (&n.operand1, &n.operand2) {
        (Operand::Number(a), Operand::Number(b)) => {
            assert_eq!(a, "7");
            assert_eq!(b, "0");
        }
        _ => panic!("unexpected shape"),
    }
}

#[test]
fn grouping_by_priority() {
    let n = create_node_from_str(&chars("1+2-3"));
    assert_eq!(n.operator, Operator::Add);
    match &n.operand2 {
        Operand::Expression(m) => assert_eq!(m.operator, Operator::Sub),
        _ => panic!("unexpected shape"),
    }
    let n = create_node_from_str(&chars("6-2-1"));
    assert_eq!(n.operator, Operator::Sub);
    match &n.operand1 {
        Operand::Expression(m) => assert_eq!(m.operator, Operator::Sub),
        _ => panic!("unexpected shape"),
    }
    assert_eq!(run("8/4*2"), Ok("4".to_string()));
    assert_eq!(run("6-2-1"), Ok("3".to_string()));
}
