use minipython::ast::Ast;
use minipython::parser::{program, ParseError};

fn chars(text: &str) -> Vec<char> {
    text.chars().collect()
}

fn incr(name: &str) -> Ast {
    Ast::Incr { var_name: String::from(name) }
}

fn decr(name: &str) -> Ast {
    Ast::Decr { var_name: String::from(name) }
}

#[test]
fn parse_1() {
    let text: Vec<char> = "a+=1".chars().collect();
    let res = program(&text).unwrap();
    let expected = vec![Ast::Incr { var_name: String::from("a") }];
    assert_eq!(expected, res);
}

#[test]
fn parse_2() {
    let text: Vec<char> = "while a!=0: a-=1; #endwhile".chars().collect();
    let res = program(&text).unwrap();
    let expected = vec![Ast::While {
        cond_var: String::from("a"),
        body: vec![Ast::Decr { var_name: String::from("a") }],
    }];
    assert_eq!(expected, res);
}

#[test]
fn parse_3() {
    let text: Vec<char> = "x1+=1; def add(x, y): while x!=0: n+=1; x-=1 #endwhile; while y!=0: n+=1; y-=1 #endwhile; return n #enddef; a=add(x1, y1); a+=1".chars().collect();
    let res = program(&text).unwrap();
    let expected = vec![
        Ast::Incr { var_name: String::from("x1") },
        Ast::Def {
            name: String::from("add"),
            parameters: vec![String::from("x"), String::from("y")],
            body: vec![
                Ast::While {
                    cond_var: String::from("x"),
                    body: vec![
                        Ast::Incr { var_name: String::from("n") },
                        Ast::Decr { var_name: String::from("x") },
                    ],
                },
                Ast::While {
                    cond_var: String::from("y"),
                    body: vec![
                        Ast::Incr { var_name: String::from("n") },
                        Ast::Decr { var_name: String::from("y") },
                    ],
                },
                Ast::Return { name: String::from("n") },
            ],
        },
        Ast::Assign {
            var_name: String::from("a"),
            fun_name: String::from("add"),
            args: vec![String::from("x1"), String::from("y1")],
        },
        Ast::Incr { var_name: String::from("a") },
    ];
    assert_eq!(expected, res);
}

#[test]
fn empty_text_is_the_empty_program() {
    assert_eq!(program(&chars("")), Ok(vec![]));
}

#[test]
fn one_trailing_separator_is_read() {
    assert_eq!(program(&chars("a+=1;")), Ok(vec![incr("a")]));
    assert_eq!(program(&chars("a+=1\n")), Ok(vec![incr("a")]));
    assert_eq!(program(&chars(";")), Ok(vec![]));
}

#[test]
fn text_after_the_trailing_separator_is_an_error() {
    assert_eq!(program(&chars("a+=1;\n")), Err(ParseError { position: 5, found: '\n' }));
    assert_eq!(program(&chars("a+=1;;b+=1")), Err(ParseError { position: 5, found: ';' }));
}

#[test]
fn statements_are_separated_by_semicolons_and_newlines() {
    let expected = vec![incr("a"), decr("b"), incr("c")];
    assert_eq!(program(&chars("a+=1;b-=1\nc+=1")), Ok(expected));
}

#[test]
fn white_space_and_comments_after_a_separator_are_skipped() {
    let expected = vec![incr("a"), decr("b")];
    assert_eq!(program(&chars("a+=1;\n\n  # then\n\t b-=1")), Ok(expected));
}

#[test]
fn blanks_and_comments_around_a_statement_are_skipped() {
    let expected = vec![incr("a"), decr("b")];
    assert_eq!(program(&chars(" \t a+=1 # one more ; \r b-=1 #done")), Ok(expected));
}

#[test]
fn a_newline_before_the_first_statement_is_an_error() {
    assert_eq!(program(&chars("\na+=1")), Err(ParseError { position: 1, found: 'a' }));
}

#[test]
fn a_statement_that_breaks_off_is_an_error_where_the_statements_end() {
    assert_eq!(program(&chars("a+=")), Err(ParseError { position: 0, found: 'a' }));
    // the separator after the last statement is read
    assert_eq!(program(&chars("a+=1; b+")), Err(ParseError { position: 5, found: ' ' }));
    assert_eq!(program(&chars("a+=1 b+=1")), Err(ParseError { position: 5, found: 'b' }));
}

#[test]
fn the_empty_name_is_a_name() {
    assert_eq!(program(&chars("+=1")), Ok(vec![incr("")]));
    assert_eq!(program(&chars("-=1")), Ok(vec![decr("")]));
    assert_eq!(program(&chars("return ")), Ok(vec![Ast::Return { name: String::new() }]));
    assert_eq!(
        program(&chars("=()")),
        Ok(vec![Ast::Assign {
            var_name: String::new(),
            fun_name: String::new(),
            args: vec![String::new()],
        }])
    );
    assert_eq!(
        program(&chars("while !=0:#endwhile")),
        Ok(vec![Ast::While { cond_var: String::new(), body: vec![] }])
    );
}

#[test]
fn an_empty_list_holds_the_empty_name() {
    assert_eq!(
        program(&chars("a=f()")),
        Ok(vec![Ast::Assign {
            var_name: String::from("a"),
            fun_name: String::from("f"),
            args: vec![String::new()],
        }])
    );
    assert_eq!(
        program(&chars("def f(): return r #enddef")),
        Ok(vec![Ast::Def {
            name: String::from("f"),
            parameters: vec![String::new()],
            body: vec![Ast::Return { name: String::from("r") }],
        }])
    );
    assert_eq!(
        program(&chars("a=f(x,,y)")),
        Ok(vec![Ast::Assign {
            var_name: String::from("a"),
            fun_name: String::from("f"),
            args: vec![String::from("x"), String::new(), String::from("y")],
        }])
    );
}

#[test]
fn white_space_stands_before_a_name_of_a_list_and_not_after_it() {
    assert_eq!(
        program(&chars("a=f( x,\n y)")),
        Ok(vec![Ast::Assign {
            var_name: String::from("a"),
            fun_name: String::from("f"),
            args: vec![String::from("x"), String::from("y")],
        }])
    );
    assert_eq!(program(&chars("a=f(x ,y)")), Err(ParseError { position: 0, found: 'a' }));
    assert_eq!(program(&chars("a=f(x )")), Err(ParseError { position: 0, found: 'a' }));
}

#[test]
fn increment_and_decrement_come_before_a_call() {
    assert_eq!(program(&chars("return+=1")), Ok(vec![incr("return")]));
    assert_eq!(program(&chars("while-=1")), Ok(vec![decr("while")]));
    assert_eq!(
        program(&chars("def=def(def)")),
        Ok(vec![Ast::Assign {
            var_name: String::from("def"),
            fun_name: String::from("def"),
            args: vec![String::from("def")],
        }])
    );
}

#[test]
fn a_keyword_needs_its_one_space() {
    // `return`, a space and the empty name; then a blank is skipped
    assert_eq!(program(&chars("return  x")), Err(ParseError { position: 8, found: 'x' }));
    assert_eq!(program(&chars("returnx")), Err(ParseError { position: 0, found: 'r' }));
    assert_eq!(program(&chars("while  a!=0: #endwhile")), Err(ParseError { position: 0, found: 'w' }));
    assert_eq!(program(&chars("while a !=0: #endwhile")), Err(ParseError { position: 0, found: 'w' }));
}

#[test]
fn names_are_made_of_letters_and_digits_of_any_script() {
    assert_eq!(program(&chars("größe2+=1")), Ok(vec![incr("größe2")]));
    assert_eq!(program(&chars("a_b+=1")), Err(ParseError { position: 0, found: 'a' }));
}

#[test]
fn a_comment_ends_at_a_separator_or_a_carriage_return() {
    assert_eq!(program(&chars("a+=1 # x; b+=1")), Ok(vec![incr("a"), incr("b")]));
    assert_eq!(program(&chars("a+=1 # x\nb+=1")), Ok(vec![incr("a"), incr("b")]));
    assert_eq!(program(&chars("a+=1 # x\r;b+=1")), Ok(vec![incr("a"), incr("b")]));
}

#[test]
fn a_comment_needs_a_statement_to_stand_by() {
    assert_eq!(program(&chars("#")), Err(ParseError { position: 0, found: '#' }));
    assert_eq!(program(&chars("# only a note")), Err(ParseError { position: 0, found: '#' }));
    assert_eq!(program(&chars("# first\na+=1")), Err(ParseError { position: 0, found: '#' }));
    assert_eq!(program(&chars("a+=1\n# last")), Err(ParseError { position: 5, found: '#' }));
    assert_eq!(program(&chars("# first; a+=1")), Err(ParseError { position: 0, found: '#' }));
    assert_eq!(program(&chars("# before\r a+=1 # after")), Ok(vec![incr("a")]));
}

#[test]
fn the_words_that_end_a_block_are_no_comments() {
    assert_eq!(program(&chars("a+=1 #endwhile")), Err(ParseError { position: 5, found: '#' }));
    assert_eq!(program(&chars("a+=1 #enddef; b+=1")), Err(ParseError { position: 5, found: '#' }));
    // with anything after the word, the text is a comment again
    assert_eq!(program(&chars("a+=1 #endwhile ")), Ok(vec![incr("a")]));
    assert_eq!(program(&chars("a+=1 #enddefs")), Ok(vec![incr("a")]));
    assert_eq!(
        program(&chars("while a!=0: a-=1 #endwhile ; b+=1")),
        Err(ParseError { position: 0, found: 'w' })
    );
}

#[test]
fn blocks_nest() {
    let text = "while a!=0:\n  while b!=0:\n    b-=1\n  #endwhile\n  a-=1\n#endwhile\n";
    let expected = vec![Ast::While {
        cond_var: String::from("a"),
        body: vec![
            Ast::While { cond_var: String::from("b"), body: vec![decr("b")] },
            decr("a"),
        ],
    }];
    assert_eq!(program(&chars(text)), Ok(expected));
}

#[test]
fn a_block_must_end_with_its_own_word() {
    assert_eq!(
        program(&chars("while a!=0: a-=1 #enddef")),
        Err(ParseError { position: 0, found: 'w' })
    );
    assert_eq!(
        program(&chars("def f(x): return x #endwhile")),
        Err(ParseError { position: 0, found: 'd' })
    );
    assert_eq!(program(&chars("while a!=0: a-=1")), Err(ParseError { position: 0, found: 'w' }));
}

#[test]
fn a_definition_in_lines() {
    let text = "def zero(x):\n\twhile x!=0:\n\t\tx-=1\n\t#endwhile\n\treturn x\n#enddef\nr=zero(a)";
    let expected = vec![
        Ast::Def {
            name: String::from("zero"),
            parameters: vec![String::from("x")],
            body: vec![
                Ast::While { cond_var: String::from("x"), body: vec![decr("x")] },
                Ast::Return { name: String::from("x") },
            ],
        },
        Ast::Assign {
            var_name: String::from("r"),
            fun_name: String::from("zero"),
            args: vec![String::from("a")],
        },
    ];
    assert_eq!(program(&chars(text)), Ok(expected));
}

#[test]
fn white_space_of_any_script_is_skipped_after_a_separator() {
    let expected = vec![incr("a"), decr("b")];
    assert_eq!(program(&chars("a+=1;\u{a0}\u{2003}\n\u{3000}b-=1")), Ok(expected));
}

#[test]
fn within_a_line_only_blanks_are_skipped() {
    assert_eq!(program(&chars("a+=1 \u{a0}")), Err(ParseError { position: 5, found: '\u{a0}' }));
    assert_eq!(program(&chars("\u{a0}a+=1")), Err(ParseError { position: 0, found: '\u{a0}' }));
    assert_eq!(program(&chars("a+=1 \n b-=1")), Ok(vec![incr("a"), decr("b")]));
}

#[test]
fn a_parse_error_says_where_the_statements_end() {
    let error = program(&chars("a+=1 b+=1")).unwrap_err();
    assert_eq!(error.to_text(), "Mismatch at 5: expect end of input, found: b");
    let error = program(&chars("x")).unwrap_err();
    assert_eq!(error.to_text(), "Mismatch at 0: expect end of input, found: x");
    let long = format!("{}?", "a+=1;".repeat(25).trim_end_matches(';'));
    let error = program(&chars(&long)).unwrap_err();
    assert_eq!(error, ParseError { position: 124, found: '?' });
    assert_eq!(error.to_text(), "Mismatch at 124: expect end of input, found: ?");
}
