use infix_calc::{parse_tree, split_line, to_postfix, ExprError, Node, Operand, Priority, Tree, Type};

fn eval(node: &Node) -> Result<f64, String> {
    match (&node.left, &node.right, &node.operand) {
        (Some(l), Some(r), Some(op)) => {
            let a = eval(l)?;
            let b = eval(r)?;
            match op.symbol.as_str() {
                "+" => Ok(a + b),
                "-" => Ok(a - b),
                "*" => Ok(a * b),
                "/" => Ok(a / b),
                "%" => Ok(a % b),
                "^" => Ok(a.powf(b)),
                "|" => Ok((a as i64 | b as i64) as f64),
                "&" => Ok((a as i64 & b as i64) as f64),
                _ => Err("Unrecognized operator".to_string()),
            }
        }
        (Some(l), None, Some(op)) => {
            let v = eval(l)?;
            match op.symbol.as_str() {
                "+" => Ok(v),
                "-" => Ok(-v),
                "~" => Ok(!(v as i64) as f64),
                _ => Err("Invalid unary operator".to_string()),
            }
        }
        (_, _, Some(op)) => op.symbol.parse::<f64>().map_err(|e| e.to_string()),
        _ => Err("Broken mathematical expression".to_string()),
    }
}

fn parse_line(line: &str) -> Result<f64, String> {
    let tree = parse_tree(&line.to_string()).map_err(|e| format!("{:?}", e))?;
    eval(&tree.head)
}

fn postfix_of(line: &str) -> Result<Vec<(String, Priority)>, ExprError> {
    let tokens = split_line(&line.to_string());
    let ops = to_postfix(&tokens)?;
    Ok(ops.into_iter().map(|o| (o.symbol, o.priority)).collect())
}

fn texts(line: &str) -> Vec<String> {
    postfix_of(line).unwrap().into_iter().map(|(s, _)| s).collect()
}

#[test]
fn basic_test() {
    let a = "1 + 2 * 3".to_string();
    let b = "(1 + 2) * 3".to_string();
    let c = "1 + 2 * 3 + 4".to_string();
    let d = "(1+2)*(1*2-3)*3^4".to_string();
    let val = parse_line(&a);
    let val2 = parse_line(&b);
    let val3 = parse_line(&c);
    let val4 = parse_line(&d);
    assert_eq!(val.unwrap(), 7.0);
    assert_eq!(val2.unwrap(), 9.0);
    assert_eq!(val3.unwrap(), 11.0);
    assert_eq!(val4.unwrap(), -243.0);
}

#[test]
fn split_line_separates_numbers_and_symbols() {
    let toks = split_line(&"12 + 3.5*(4)".to_string());
    let shown: Vec<String> = toks
        .iter()
        .map(|t| match t {
            Type::Number(s) => format!("N{}", s),
            Type::Symbol(s, p) => format!("S{}{:?}", s, p),
        })
        .collect();
    assert_eq!(
        shown,
        vec!["N12", "S+High", "N3.5", "S*Higher", "S(LeftParens", "N4", "S)RightParens"]
    );
}

#[test]
fn split_line_removes_interior_whitespace() {
    let toks = split_line(&"1 2\t+ 3".to_string());
    assert_eq!(toks.len(), 3);
    match &toks[0] {
        Type::Number(s) => assert_eq!(s, "12"),
        other => panic!("unexpected {:?}", other),
    }
}

#[test]
fn split_line_removes_unicode_whitespace() {
    let toks = split_line(&"3\u{2003}4\u{00A0}*\u{3000}2".to_string());
    assert_eq!(toks.len(), 3);
    match (&toks[0], &toks[2]) {
        (Type::Number(a), Type::Number(b)) => {
            assert_eq!(a, "34");
            assert_eq!(b, "2");
        }
        other => panic!("unexpected {:?}", other),
    }
}

#[test]
fn unbalanced_lines_never_evaluate() {
    for line in ["((1)", "(1))", "((", "1)+(2", "(-3"] {
        assert!(parse_tree(&line.to_string()).is_err(), "{}", line);
    }
}

#[test]
fn split_line_keeps_number_text_verbatim() {
    let toks = split_line(&"1.2.3~x".to_string());
    assert_eq!(toks.len(), 3);
    match (&toks[0], &toks[1], &toks[2]) {
        (Type::Number(a), Type::Symbol(s, p), Type::Number(b)) => {
            assert_eq!(a, "1.2.3");
            assert_eq!(s, "~");
            assert_eq!(*p, Priority::Low);
            assert_eq!(b, "x");
        }
        other => panic!("unexpected {:?}", other),
    }
}

#[test]
fn split_line_of_empty_line() {
    assert!(split_line(&"   ".to_string()).is_empty());
}

#[test]
fn precedence_in_postfix() {
    assert_eq!(texts("1 + 2 * 3"), vec!["1", "2", "3", "*", "+"]);
    assert_eq!(texts("(1 + 2) * 3"), vec!["1", "2", "+", "3", "*"]);
}

#[test]
fn precedence_values() {
    assert_eq!(parse_line("1 + 2 * 3").unwrap(), 7.0);
    assert_eq!(parse_line("(1 + 2) * 3").unwrap(), 9.0);
}

#[test]
fn left_associative_chain() {
    assert_eq!(texts("1 + 2 * 3 + 4"), vec!["1", "2", "3", "*", "+", "4", "+"]);
    assert_eq!(texts("8 - 2 - 1"), vec!["8", "2", "-", "1", "-"]);
    assert_eq!(parse_line("1 + 2 * 3 + 4").unwrap(), 11.0);
    assert_eq!(parse_line("8 - 2 - 1").unwrap(), 5.0);
}

#[test]
fn exponent_binds_tightest() {
    assert_eq!(texts("2*3^2"), vec!["2", "3", "2", "^", "*"]);
    assert_eq!(parse_line("(1+2)*(1*2-3)*3^4").unwrap(), -243.0);
}

#[test]
fn unary_applies_after_group() {
    let ops = postfix_of("-(2+3)").unwrap();
    assert_eq!(
        ops,
        vec![
            ("2".to_string(), Priority::Number),
            ("3".to_string(), Priority::Number),
            ("+".to_string(), Priority::High),
            ("-".to_string(), Priority::Unary),
        ]
    );
    assert_eq!(parse_line("-(2+3)").unwrap(), -5.0);
    assert_eq!(parse_line("~(2+3)").unwrap(), -6.0);
}

#[test]
fn unary_chain_binds_to_number() {
    let ops = postfix_of("- - 3").unwrap();
    assert_eq!(
        ops,
        vec![
            ("3".to_string(), Priority::Number),
            ("-".to_string(), Priority::Unary),
            ("-".to_string(), Priority::Unary),
        ]
    );
    assert_eq!(parse_line("- - 3").unwrap(), 3.0);
    assert_eq!(parse_line("2*-3").unwrap(), -6.0);
}

#[test]
fn mismatched_parentheses_fail() {
    assert_eq!(postfix_of("(1+2").unwrap_err(), ExprError::MismatchedParenthesis);
    assert_eq!(postfix_of("1+2)").unwrap_err(), ExprError::MismatchedParenthesis);
    assert_eq!(postfix_of(")").unwrap_err(), ExprError::MismatchedParenthesis);
    assert!(matches!(parse_tree(&"(1+2".to_string()), Err(ExprError::MismatchedParenthesis)));
    assert!(matches!(parse_tree(&"1+2)".to_string()), Err(ExprError::MismatchedParenthesis)));
}

#[test]
fn missing_operand_is_malformed() {
    assert_eq!(texts("1+"), vec!["1", "+"]);
    assert!(matches!(parse_tree(&"1+".to_string()), Err(ExprError::MalformedExpression)));
}

#[test]
fn invalid_unary_operator() {
    assert_eq!(postfix_of("*3").unwrap_err(), ExprError::InvalidUnaryOperator);
    assert_eq!(postfix_of("1+^2").unwrap_err(), ExprError::InvalidUnaryOperator);
}

#[test]
fn symbol_tagged_as_number_is_rejected() {
    let toks = vec![Type::Number("1".to_string()), Type::Symbol("+".to_string(), Priority::Number)];
    assert!(matches!(to_postfix(&toks), Err(ExprError::UnexpectedSymbol)));
}

#[test]
fn reevaluation_is_stable() {
    let tree = parse_tree(&"(1+2)*(1*2-3)*3^4".to_string()).unwrap();
    let first = eval(&tree.head).unwrap();
    let second = eval(&tree.head).unwrap();
    assert_eq!(first, second);
    assert_eq!(first, -243.0);
}

#[test]
fn bitwise_operators_truncate() {
    assert_eq!(texts("5 & 3"), vec!["5", "3", "&"]);
    assert_eq!(parse_line("5 & 3").unwrap(), 1.0);
    assert_eq!(parse_line("5 | 2").unwrap(), 7.0);
    assert_eq!(parse_line("5.9 | 2.2").unwrap(), 7.0);
}

#[test]
fn wrapping_in_parentheses_keeps_postfix() {
    for line in ["1 + 2 * 3", "-(2+3)", "(1+2)*(1*2-3)*3^4", "", "5 & 3"] {
        let wrapped = format!("({})", line);
        assert_eq!(postfix_of(&wrapped), postfix_of(line));
    }
    assert_eq!(parse_line("(1 + 2 * 3 + 4)").unwrap(), 11.0);
}

#[test]
fn tree_shape_of_binary_and_unary() {
    let tree = parse_tree(&"-4*2".to_string()).unwrap();
    let head = &tree.head;
    assert_eq!(head.operand.as_ref().unwrap().symbol, "*");
    let left = head.left.as_ref().unwrap();
    let right = head.right.as_ref().unwrap();
    assert_eq!(left.operand.as_ref().unwrap().priority, Priority::Unary);
    assert!(left.right.is_none());
    assert_eq!(left.left.as_ref().unwrap().operand.as_ref().unwrap().symbol, "4");
    assert_eq!(right.operand.as_ref().unwrap().symbol, "2");
    assert!(right.left.is_none() && right.right.is_none());
}

#[test]
fn populate_takes_from_the_end() {
    let mut ops = vec![
        Operand::new("7".to_string(), Priority::Number),
        Operand::new("1".to_string(), Priority::Number),
        Operand::new("2".to_string(), Priority::Number),
        Operand::new("-".to_string(), Priority::High),
    ];
    let mut tree = Tree::new();
    assert!(tree.populate(&mut ops).is_ok());
    assert_eq!(ops.len(), 1);
    assert_eq!(ops[0].symbol, "7");
    assert_eq!(eval(&tree.head).unwrap(), -1.0);
}

#[test]
fn populate_on_empty_sequence() {
    let mut ops: Vec<Operand> = vec![];
    let mut node = Node::new_empty();
    assert!(node.populate(&mut ops).is_ok());
    assert!(node.operand.is_none() && node.left.is_none() && node.right.is_none());
}

#[test]
fn lone_unary_sign_builds_but_cannot_evaluate() {
    let tree = parse_tree(&"-".to_string()).unwrap();
    assert!(tree.head.left.as_ref().unwrap().operand.is_none());
    assert!(eval(&tree.head).is_err());
}

#[test]
fn unparsable_number_fails_at_evaluation() {
    let tree = parse_tree(&"1.2.3+1".to_string()).unwrap();
    assert!(eval(&tree.head).is_err());
}

#[test]
fn operands_compare_by_class() {
    let a = Operand::new("+".to_string(), Priority::High);
    let b = Operand::new("-".to_string(), Priority::High);
    let c = Operand::new("*".to_string(), Priority::Higher);
    assert!(a == b);
    assert!(a != c);
    assert_eq!(a.partial_cmp(&c), Some(std::cmp::Ordering::Less));
    assert_eq!(c.partial_cmp(&a), Some(std::cmp::Ordering::Greater));
    assert_eq!(a.partial_cmp(&b), Some(std::cmp::Ordering::Equal));
}

#[test]
fn priority_levels_are_ordered() {
    let order = [
        Priority::Number,
        Priority::Low,
        Priority::Medium,
        Priority::High,
        Priority::Higher,
        Priority::Max,
        Priority::Unary,
        Priority::LeftParens,
        Priority::RightParens,
    ];
    for w in order.windows(2) {
        assert!(w[0].level() < w[1].level());
    }
    assert!(Priority::Max.binary());
    assert!(!Priority::Unary.binary());
}

#[test]
fn populate_with_no_operands_keeps_node() {
    let mut ops = vec![Operand::new("1".to_string(), Priority::Number)];
    let mut node = Node::new_empty();
    assert!(node.populate(&mut ops).is_ok());
    assert!(ops.is_empty());
    assert!(node.populate(&mut ops).is_ok());
    assert_eq!(node.operand.as_ref().unwrap().symbol, "1");
    assert!(node.left.is_none() && node.right.is_none());
    let mut tree = parse_tree(&"2*3".to_string()).unwrap();
    assert!(tree.populate(&mut ops).is_ok());
    assert_eq!(eval(&tree.head).unwrap(), 6.0);
}

#[test]
fn early_close_is_mismatched() {
    assert!(matches!(parse_tree(&"1)+(2".to_string()), Err(ExprError::MismatchedParenthesis)));
    assert!(matches!(parse_tree(&")(".to_string()), Err(ExprError::MismatchedParenthesis)));
    assert!(matches!(parse_tree(&"*)(".to_string()), Err(ExprError::InvalidUnaryOperator)));
}

#[test]
fn sign_before_group_is_unary_root() {
    let inner = parse_tree(&"1+2*3".to_string()).unwrap();
    for sign in ["-", "~", "+"] {
        let tree = parse_tree(&format!("{}(1+2*3)", sign)).unwrap();
        let op = tree.head.operand.as_ref().unwrap();
        assert_eq!(op.symbol, sign);
        assert_eq!(op.priority, Priority::Unary);
        assert!(tree.head.right.is_none());
        let child = tree.head.left.as_ref().unwrap();
        assert_eq!(child.operand.as_ref().unwrap().symbol, inner.head.operand.as_ref().unwrap().symbol);
        assert_eq!(eval(child).unwrap(), eval(&inner.head).unwrap());
    }
    assert_eq!(parse_line("-(1+2*3)").unwrap(), -7.0);
    assert_eq!(parse_line("~(1+2*3)").unwrap(), -8.0);
}

#[test]
fn operand_and_lexeme_clone() {
    let o = Operand::new("+".to_string(), Priority::High);
    let c = o.clone();
    assert_eq!(c.symbol, "+");
    let t = Type::Number("4".to_string());
    match t.clone() {
        Type::Number(s) => assert_eq!(s, "4"),
        other => panic!("unexpected {:?}", other),
    }
}
