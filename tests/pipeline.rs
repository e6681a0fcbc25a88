use infix_calc::operators::{associativity, num_pars, precedence_groups};
use infix_calc::rpn::string_to_rpn;
use infix_calc::solver::{new_token_from_applying, Application, FloatOp, FloatTask, Solver};
use infix_calc::syntaxtree::{polish_notation_to_normal, reverse_polish_string_to_tree, SyntaxTreeNode};
use infix_calc::tokens::{remove_spaces_from_str, Associativity, ParseError, Token, TokenType, TokenUnion};

fn compute(task: &FloatTask) -> String {
    let a: f64 = task.a.parse().unwrap();
    let r = match task.op {
        FloatOp::Neg => -a,
        op => {
            let b: f64 = task.b.parse().unwrap();
            match op {
                FloatOp::Add => a + b,
                FloatOp::Sub => b - a,
                FloatOp::Mul => a * b,
                FloatOp::Div => b / a,
                _ => b.powf(a),
            }
        }
    };
    format!("{}", r)
}

fn solve(rpn: &Vec<Token>) -> Option<Token> {
    let mut solver = Solver::new();
    for t in rpn {
        if let Some(task) = solver.feed(t) {
            let outcome = compute(&task);
            solver.receive(outcome);
        }
    }
    solver.answer()
}

fn to_rpn(text: &str) -> Result<Vec<Token>, ParseError> {
    string_to_rpn(text)
}

fn number_of(t: &Token) -> f64 {
    match &t.value {
        TokenUnion::FloatOf(s) => s.parse().unwrap(),
        TokenUnion::StrOf(s) => panic!("not a number: {}", s),
    }
}

fn text_of(t: &Token) -> String {
    t.value_as_string()
}

fn texts(ts: &Vec<Token>) -> Vec<String> {
    ts.iter().map(text_of).collect()
}

#[test]
fn tokenize_sum_yields_three_tokens() {
    let ts = Token::tokenize_string("2 + 3").unwrap();
    assert_eq!(ts.len(), 3);
    assert_eq!(ts[0].token_type, TokenType::Numeric);
    assert_eq!(number_of(&ts[0]), 2.0);
    assert_eq!(ts[1].token_type, TokenType::Operator);
    assert_eq!(text_of(&ts[1]), "+");
    assert_eq!(ts[1].num_params, 2);
    assert_eq!(ts[2].token_type, TokenType::Numeric);
    assert_eq!(number_of(&ts[2]), 3.0);
}

#[test]
fn exponent_then_sum_evaluates_to_three() {
    let rpn = to_rpn("2 ^^ 2 + 3 - 4").unwrap();
    assert_eq!(texts(&rpn), vec!["2", "2", "^^", "3", "+", "4", "-"]);
    let r = solve(&rpn).unwrap();
    assert_eq!(number_of(&r), 3.0);
}

#[test]
fn closing_paren_first_is_unbalanced() {
    assert!(matches!(to_rpn(")2 + 3"), Err(ParseError::UnbalancedParens)));
}

#[test]
fn closing_paren_after_stack_empties_is_unbalanced() {
    assert!(matches!(to_rpn("2 + 3)"), Err(ParseError::UnbalancedParens)));
}

#[test]
fn missing_close_paren_is_unbalanced() {
    assert!(matches!(to_rpn("(2 + 3"), Err(ParseError::UnbalancedParens)));
    assert!(matches!(to_rpn("((1) + 2"), Err(ParseError::UnbalancedParens)));
    assert!(to_rpn("((1) + 2)").is_ok());
}

#[test]
fn empty_sequence_has_no_result() {
    assert!(solve(&vec![]).is_none());
    assert!(Solver::new().answer().is_none());
}

#[test]
fn leading_minus_is_negation() {
    let ts = Token::tokenize_string("-5 + 3").unwrap();
    assert_eq!(ts[0].token_type, TokenType::Operator);
    assert_eq!(text_of(&ts[0]), "NEGATE");
    assert_eq!(ts[0].num_params, 1);
    let rpn = Token::reverse_polish_notation(ts).unwrap();
    assert_eq!(number_of(&solve(&rpn).unwrap()), -2.0);
}

#[test]
fn minus_between_operands_subtracts() {
    let ts = Token::tokenize_string("5 - 3").unwrap();
    assert_eq!(text_of(&ts[1]), "-");
    let rpn = Token::reverse_polish_notation(ts).unwrap();
    assert_eq!(number_of(&solve(&rpn).unwrap()), 2.0);
}

#[test]
fn function_call_binds_its_arguments() {
    let rpn = to_rpn("f(1, 2)").unwrap();
    assert_eq!(texts(&rpn), vec!["1", "2", "f"]);
    let last = &rpn[2];
    assert_eq!(last.token_type, TokenType::Function);
    assert_eq!(last.num_params, 2);
    let forest = reverse_polish_string_to_tree(&rpn);
    assert_eq!(forest.len(), 1);
    assert_eq!(forest[0].value_as_string(), "f");
    assert_eq!(forest[0].children.len(), 2);
    assert_eq!(forest[0].children[0].value_as_string(), "2");
    assert_eq!(forest[0].children[1].value_as_string(), "1");
    let normal = polish_notation_to_normal(&rpn);
    assert_eq!(texts(&normal), vec!["[f; 2; 1]"]);
}

#[test]
fn exponent_is_right_associative() {
    let rpn = to_rpn("2 ^^ 3 ^^ 2").unwrap();
    assert_eq!(texts(&rpn), vec!["2", "3", "2", "^^", "^^"]);
    assert_eq!(number_of(&solve(&rpn).unwrap()), 512.0);
}

#[test]
fn subtraction_is_left_associative() {
    let rpn = to_rpn("10 - 4 - 3").unwrap();
    assert_eq!(number_of(&solve(&rpn).unwrap()), 3.0);
}

#[test]
fn division_takes_left_over_right() {
    let rpn = to_rpn("8 / 2").unwrap();
    assert_eq!(number_of(&solve(&rpn).unwrap()), 4.0);
}

#[test]
fn parentheses_override_precedence() {
    let rpn = to_rpn("(2 + 3) * 4").unwrap();
    assert_eq!(texts(&rpn), vec!["2", "3", "+", "4", "*"]);
    assert_eq!(number_of(&solve(&rpn).unwrap()), 20.0);
}

#[test]
fn malformed_number_is_an_error() {
    assert!(matches!(Token::tokenize_string("1.2.3 + 1"), Err(ParseError::MalformedNumber)));
    assert!(matches!(Token::tokenize_string("."), Err(ParseError::MalformedNumber)));
}

#[test]
fn fractional_numbers_parse() {
    let ts = Token::tokenize_string("2.5 * .5").unwrap();
    assert_eq!(number_of(&ts[0]), 2.5);
    assert_eq!(number_of(&ts[2]), 0.5);
}

#[test]
fn declare_keyword_yields_variable() {
    let ts = Token::tokenize_string("declare x").unwrap();
    assert_eq!(ts.len(), 2);
    assert_eq!(text_of(&ts[0]), "declare");
    assert_eq!(ts[0].token_type, TokenType::Operator);
    assert_eq!(ts[0].num_params, 1);
    assert_eq!(ts[1].token_type, TokenType::VariableName);
    let rpn = Token::reverse_polish_notation(ts).unwrap();
    let r = solve(&rpn).unwrap();
    assert_eq!(r.token_type, TokenType::VariableName);
    assert_eq!(text_of(&r), "x");
}

#[test]
fn assignment_yields_placeholder() {
    let rpn = to_rpn("x = 5").unwrap();
    assert_eq!(texts(&rpn), vec!["x", "5", "="]);
    let r = solve(&rpn).unwrap();
    assert_eq!(r.token_type, TokenType::VariableName);
    assert!(matches!(&r.value, TokenUnion::StrOf(s) if s.is_empty()));
}

#[test]
fn identifier_before_paren_is_function_else_variable() {
    let ts = Token::tokenize_string("g(x) + y").unwrap();
    assert_eq!(ts[0].token_type, TokenType::Function);
    assert_eq!(ts[2].token_type, TokenType::VariableName);
    assert_eq!(ts[5].token_type, TokenType::VariableName);
}

#[test]
fn name_before_colon_is_parameter() {
    let ts = Token::tokenize_string("a: 1").unwrap();
    assert_eq!(ts[0].token_type, TokenType::ParamName);
    assert_eq!(text_of(&ts[0]), "a");
    assert_eq!(ts[1].token_type, TokenType::Operator);
    assert_eq!(text_of(&ts[1]), ":");
}

#[test]
fn brackets_and_braces_are_classified() {
    let ts = Token::tokenize_string("[1]{2}").unwrap();
    let kinds: Vec<TokenType> = ts.iter().map(|t| t.token_type).collect();
    assert_eq!(
        kinds,
        vec![
            TokenType::OpenBracket,
            TokenType::Numeric,
            TokenType::ClosedBracket,
            TokenType::OpenCurly,
            TokenType::Numeric,
            TokenType::ClosedCurly
        ]
    );
}

#[test]
fn operator_runs_join() {
    let ts = Token::tokenize_string("1<=2").unwrap();
    assert_eq!(texts(&ts), vec!["1", "<=", "2"]);
    assert_eq!(ts[1].num_params, 2);
}

#[test]
fn multi_word_names_are_trimmed() {
    let ts = Token::tokenize_string("  big name  + 1").unwrap();
    assert_eq!(text_of(&ts[0]), "big name");
    assert_eq!(ts[0].token_type, TokenType::VariableName);
}

#[test]
fn tokens_render_space_separated() {
    let rpn = to_rpn("2 + 3").unwrap();
    assert_eq!(Token::tokens_to_string(&rpn), "2 3 + ");
    assert_eq!(Token::tokens_to_string(&vec![]), "");
}

#[test]
fn rpn_renders_fully_parenthesized() {
    let rpn = to_rpn("2 + 3 * 4").unwrap();
    let normal = polish_notation_to_normal(&rpn);
    assert_eq!(texts(&normal), vec!["(2 + (3 * 4))"]);
    let rpn = to_rpn("((1 - 2) - (3 ^^ 4))").unwrap();
    assert_eq!(texts(&polish_notation_to_normal(&rpn)), vec!["((1 - 2) - (3 ^^ 4))"]);
    let rpn = to_rpn("-5 + 3").unwrap();
    assert_eq!(texts(&polish_notation_to_normal(&rpn)), vec!["((NEGATE 5) + 3)"]);
}

#[test]
fn rendering_stops_at_missing_operands() {
    let rpn = to_rpn("+ 3").unwrap();
    assert_eq!(texts(&polish_notation_to_normal(&rpn)), vec!["3", "+"]);
}

#[test]
fn tree_of_sum_and_product() {
    let rpn = to_rpn("2 + 3 * 4").unwrap();
    let forest = reverse_polish_string_to_tree(&rpn);
    assert_eq!(forest.len(), 1);
    let root = &forest[0];
    assert_eq!(root.value_as_string(), "+");
    assert_eq!(root.children[0].value_as_string(), "*");
    assert_eq!(root.children[1].value_as_string(), "2");
    assert_eq!(root.children[0].children[0].value_as_string(), "4");
    assert_eq!(root.children[0].children[1].value_as_string(), "3");
}

#[test]
fn tree_keeps_several_roots_for_partial_input() {
    let rpn = to_rpn("1 2").unwrap();
    let forest = reverse_polish_string_to_tree(&rpn);
    assert_eq!(forest.len(), 2);
    let forest = reverse_polish_string_to_tree(&to_rpn("1, 2").unwrap());
    assert_eq!(forest.len(), 2);
}

#[test]
fn add_child_appends() {
    let leaf = |s: &str| SyntaxTreeNode { value: TokenUnion::StrOf(String::from(s)), children: vec![] };
    let mut node = leaf("+");
    node.add_child(leaf("1"));
    node.add_child(leaf("2"));
    assert_eq!(node.children.len(), 2);
    assert_eq!(node.children[1].value_as_string(), "2");
}

#[test]
fn operator_table_lookups() {
    assert_eq!(precedence_groups("="), Some(9));
    assert_eq!(precedence_groups("declare"), Some(10));
    assert_eq!(precedence_groups("!="), Some(11));
    assert_eq!(precedence_groups("^"), Some(12));
    assert_eq!(precedence_groups("||"), Some(13));
    assert_eq!(precedence_groups("-"), Some(14));
    assert_eq!(precedence_groups("*"), Some(15));
    assert_eq!(precedence_groups("NEGATE"), Some(16));
    assert_eq!(precedence_groups("^^"), Some(17));
    assert_eq!(precedence_groups(":"), Some(0));
    assert_eq!(precedence_groups("%"), None);
    assert_eq!(associativity("^^"), Some(Associativity::Right));
    assert_eq!(associativity("+"), Some(Associativity::Left));
    assert_eq!(associativity("declare"), None);
    assert_eq!(num_pars("NEGATE"), Some(1));
    assert_eq!(num_pars("declare"), Some(1));
    assert_eq!(num_pars("func"), Some(3));
    assert_eq!(num_pars("&&"), Some(2));
    assert_eq!(num_pars("f"), None);
}

#[test]
fn token_level_defaults() {
    let unknown = Token { value: TokenUnion::StrOf(String::from("%")), token_type: TokenType::Operator, num_params: 2 };
    assert_eq!(Token::get_precedence_group_t(&unknown), 90);
    assert_eq!(Token::get_associativity_t(&unknown), Associativity::Left);
    assert_eq!(Token::get_num_pars("%"), 2);
    let number = Token { value: TokenUnion::FloatOf(String::from("1")), token_type: TokenType::Numeric, num_params: 0 };
    assert_eq!(Token::get_precedence_group_t(&number), 90);
}

#[test]
fn unknown_operator_drops_its_operands() {
    let rpn = to_rpn("1 % 2").unwrap();
    assert!(solve(&rpn).is_none());
}

#[test]
fn applying_asks_for_the_right_operation() {
    let minus = Token { value: TokenUnion::StrOf(String::from("-")), token_type: TokenType::Operator, num_params: 2 };
    let a = Token { value: TokenUnion::FloatOf(String::from("3")), token_type: TokenType::Numeric, num_params: 0 };
    let b = Token { value: TokenUnion::StrOf(String::from("x")), token_type: TokenType::VariableName, num_params: 0 };
    match new_token_from_applying(&minus, vec![a, b]) {
        Application::Compute(task) => {
            assert_eq!(task.op, FloatOp::Sub);
            assert_eq!(task.a, "3");
            assert_eq!(task.b, "0");
        }
        Application::Ready(_) => panic!("expected an operation"),
    }
}

#[test]
fn too_few_operands_still_apply() {
    let rpn = vec![
        Token { value: TokenUnion::FloatOf(String::from("4")), token_type: TokenType::Numeric, num_params: 0 },
        Token { value: TokenUnion::StrOf(String::from("NEGATE")), token_type: TokenType::Operator, num_params: 1 },
        Token { value: TokenUnion::StrOf(String::from("+")), token_type: TokenType::Operator, num_params: 2 },
    ];
    assert!(solve(&rpn).is_none());
}

#[test]
fn spaces_are_removed_at_both_ends() {
    assert_eq!(remove_spaces_from_str(&String::from("  a b  ")), "a b");
    assert_eq!(remove_spaces_from_str(&String::from("   ")), "");
    assert_eq!(remove_spaces_from_str(&String::from("")), "");
}

#[test]
fn non_ascii_letters_join_names() {
    let ts = Token::tokenize_string("é + 1").unwrap();
    assert_eq!(text_of(&ts[0]), "é");
    assert_eq!(ts[0].token_type, TokenType::VariableName);
}

#[test]
fn tree_prints_depth_first_with_tabs() {
    let rpn = to_rpn("2 + 3 * 4").unwrap();
    let forest = reverse_polish_string_to_tree(&rpn);
    assert_eq!(
        forest[0].print_lines(),
        vec!["- Name: +", "\t- Name: *", "\t\t- Name: 4", "\t\t- Name: 3", "\t- Name: 2"]
    );
}

#[test]
fn pipeline_reports_number_errors_first() {
    assert!(matches!(string_to_rpn(")1..2"), Err(ParseError::MalformedNumber)));
    assert!(matches!(string_to_rpn(")12"), Err(ParseError::UnbalancedParens)));
}

#[test]
fn declare_must_be_the_whole_word() {
    let ts = Token::tokenize_string("undeclared + 1").unwrap();
    assert_eq!(text_of(&ts[0]), "undeclared");
    assert_eq!(ts[0].token_type, TokenType::VariableName);
    let ts = Token::tokenize_string("  declare  y").unwrap();
    assert_eq!(text_of(&ts[0]), "declare");
    assert_eq!(ts[0].token_type, TokenType::Operator);
    assert_eq!(text_of(&ts[1]), "y");
}
