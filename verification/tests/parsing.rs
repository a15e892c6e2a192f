use mini_lua::parser::{exp, literal_string, parse, stat, symbol, Rule, StatKind};

#[test]
fn parse_exp_nil_literal() {
    let (rule, pos) = exp("nil", 0).expect("nil must parse");
    assert!(matches!(*rule, Rule::Exp(ref inner) if matches!(**inner, Rule::Nil)));
    assert_eq!(pos, 3);
}

#[test]
fn parse_exp_bool_literals() {
    let (rule, _) = exp("true", 0).expect("true must parse");
    assert!(matches!(*rule, Rule::Exp(ref inner) if matches!(**inner, Rule::Bool(true))));
    let (rule, _) = exp("false", 0).expect("false must parse");
    assert!(matches!(*rule, Rule::Exp(ref inner) if matches!(**inner, Rule::Bool(false))));
}

#[test]
fn parse_exp_numeral() {
    let (rule, pos) = exp("42  ", 0).expect("numeral must parse");
    assert!(matches!(*rule, Rule::Exp(ref inner) if matches!(**inner, Rule::Numeral(42))));
    assert_eq!(pos, 4, "trailing whitespace is consumed");
}

#[test]
fn parse_exp_numeral_wide_values() {
    // values beyond 32 bits are ordinary 64-bit literals
    let (rule, _) = exp("2147483648", 0).expect("must parse");
    assert!(matches!(*rule, Rule::Exp(ref inner) if matches!(**inner, Rule::Numeral(2147483648))));
    let (rule, _) = exp("9223372036854775807", 0).expect("must parse");
    assert!(
        matches!(*rule, Rule::Exp(ref inner) if matches!(**inner, Rule::Numeral(9223372036854775807)))
    );
}

#[test]
fn parse_exp_numeral_overflow_fails() {
    // one past the 64-bit maximum: the numeral alternative fails rather
    // than producing a wrong value, and nothing else matches
    assert!(exp("9223372036854775808", 0).is_none());
}

#[test]
fn parse_literal_string_plain() {
    let (rule, pos) = literal_string("\"hello\" ", 0).expect("string must parse");
    assert!(matches!(*rule, Rule::LiteralString(ref s) if s == "hello"));
    assert_eq!(pos, 8);
}

#[test]
fn parse_literal_string_newline_escape() {
    let (rule, _) = literal_string("\"a\\nb\"", 0).expect("string must parse");
    assert!(matches!(*rule, Rule::LiteralString(ref s) if s == "a\nb"));
}

#[test]
fn parse_literal_string_unterminated_fails() {
    assert!(literal_string("\"abc", 0).is_none());
}

#[test]
fn parse_symbol_runs_to_non_alnum() {
    let (rule, pos) = symbol("abc1 = 2", 0).expect("symbol must parse");
    assert!(matches!(*rule, Rule::Symbol(ref s) if s == "abc1"));
    assert_eq!(pos, 5, "the identifier and the following space are consumed");
    assert!(symbol("1abc", 0).is_none(), "identifiers start with a letter");
}

#[test]
fn parse_subtraction_folds_left() {
    let (rule, _) = exp("1 - 2 - 3", 0).expect("expression must parse");
    // (1 - 2) - 3: the outer operation's left operand is itself a subtraction.
    let inner = match *rule {
        Rule::Exp(inner) => inner,
        other => panic!("expected Exp, got {:?}", other),
    };
    match *inner {
        Rule::BinOp('-', lhs, rhs) => {
            assert!(
                matches!(*lhs, Rule::Exp(ref li) if matches!(**li, Rule::BinOp('-', _, _)))
            );
            assert!(matches!(*rhs, Rule::Exp(ref ri) if matches!(**ri, Rule::Numeral(3))));
        }
        other => panic!("expected subtraction, got {:?}", other),
    }
}

#[test]
fn parse_multiplication_binds_tighter() {
    let (rule, _) = exp("2 + 3 * 4", 0).expect("expression must parse");
    let inner = match *rule {
        Rule::Exp(inner) => inner,
        other => panic!("expected Exp, got {:?}", other),
    };
    match *inner {
        Rule::BinOp('+', lhs, rhs) => {
            assert!(matches!(*lhs, Rule::Exp(ref li) if matches!(**li, Rule::Numeral(2))));
            assert!(
                matches!(*rhs, Rule::Exp(ref ri) if matches!(**ri, Rule::BinOp('*', _, _)))
            );
        }
        other => panic!("expected addition at the top, got {:?}", other),
    }
}

#[test]
fn parse_relational_tags() {
    let tag_of = |src: &str| -> char {
        let (rule, _) = exp(src, 0).expect("expression must parse");
        match *rule {
            Rule::Exp(inner) => match *inner {
                Rule::BinOp(c, _, _) => c,
                other => panic!("expected binop, got {:?}", other),
            },
            other => panic!("expected Exp, got {:?}", other),
        }
    };
    assert_eq!(tag_of("1 <= 2"), 'l');
    assert_eq!(tag_of("1 >= 2"), 'g');
    assert_eq!(tag_of("1 < 2"), '<');
    assert_eq!(tag_of("1 > 2"), '>');
    assert_eq!(tag_of("1 == 2"), 'e');
    assert_eq!(tag_of("1 ~= 2"), 'n');
    assert_eq!(tag_of("true and false"), '&');
    assert_eq!(tag_of("true or false"), '|');
}

#[test]
fn parse_stat_assignment() {
    let (rule, _) = stat("x = 1", 0).expect("assignment must parse");
    assert!(matches!(*rule, Rule::Stat(StatKind::VarAssign, Some(_), Some(_), None, None, None)));
}

#[test]
fn parse_stat_if_chain_lists_align() {
    let (rule, _) = stat("if false then x = 1 elseif true then x = 2 else x = 3 end", 0)
        .expect("if statement must parse");
    let ifst = match *rule {
        Rule::Stat(StatKind::IfThen, Some(a), None, None, None, None) => a,
        other => panic!("expected if statement, got {:?}", other),
    };
    match *ifst {
        Rule::IfStat(conds, blocks) => {
            assert_eq!(conds.len(), 3);
            assert_eq!(blocks.len(), 3);
            // the else branch is encoded as a trailing no-op condition
            assert!(matches!(*conds[2], Rule::Nop));
        }
        other => panic!("expected IfStat, got {:?}", other),
    }
}

#[test]
fn parse_stat_for_in() {
    let (rule, _) = stat("for i in range(3) do x = i end", 0).expect("for-in must parse");
    assert!(matches!(*rule, Rule::Stat(StatKind::ForIn, Some(_), Some(_), Some(_), None, None)));
}

#[test]
fn parse_stat_local_defaults_to_nil() {
    let (rule, _) = stat("local x", 0).expect("local must parse");
    match *rule {
        Rule::Stat(StatKind::LocalVar, Some(_), Some(b), None, None, None) => {
            assert!(matches!(*b, Rule::Exp(ref inner) if matches!(**inner, Rule::Nil)));
        }
        other => panic!("expected local declaration, got {:?}", other),
    }
}

#[test]
fn parse_stat_function_declaration() {
    let (rule, _) = stat("function f(a) return a end", 0).expect("declaration must parse");
    assert!(matches!(
        *rule,
        Rule::Stat(StatKind::DeclareFunction, Some(_), Some(_), None, None, None)
    ));
}

#[test]
fn parse_whole_chunk() {
    let chunk = parse("x = 1 y = 2").expect("two statements must parse");
    match *chunk {
        Rule::Chunk(stats, last) => {
            assert_eq!(stats.len(), 2);
            assert!(last.is_none());
        }
        other => panic!("expected Chunk, got {:?}", other),
    }
}

#[test]
fn parse_rejects_trailing_garbage() {
    assert!(parse("x = 1 @@@").is_err());
}

#[test]
fn parse_rejects_leading_space() {
    // no token consumes leading whitespace, so the chunk stops immediately
    assert!(parse(" x = 1").is_err());
}

#[test]
fn parse_empty_input_is_empty_chunk() {
    let chunk = parse("").expect("empty input is an empty chunk");
    assert!(matches!(*chunk, Rule::Chunk(ref stats, None) if stats.is_empty()));
}
