use klang::ast::Stmt;
use klang::lexer::Lexer;
use klang::parser::Parser;

#[test]
fn test_let_statements() {
    let input = "
        let x = 5;
        let y = 10
        let foobar = 838383;
        ";

    let lexer = Lexer::new(input);
    let mut parser = Parser::new(lexer);

    let program = parser.parse();

    println!("{:?}", program);

    assert_eq!(
        program.0.len(),
        3,
        "Program does not contain 3 statements. Got {}",
        program.0.len()
    );

    let tests = vec!["x", "y", "foobar"];

    for (i, test) in tests.iter().enumerate() {
        let stmt = &program.0[i];

        test_let_statement(stmt, test);
    }
}

fn test_let_statement(stmt: &Stmt, identifier: &str) {
    if let Stmt::Let(name, _value) = stmt {
        assert_eq!(
            name.0, identifier,
            "Name is not {}. Got {}",
            identifier, name.0
        );
    } else {
        assert!(false, "stmt is not Stmt::Let. Got Stmt::{:?}", *stmt);
    }
}
