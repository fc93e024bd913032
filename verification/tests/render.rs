use corroder::ast::{Description, Expr, Statement, Ty};
use corroder::describe::{describe_expr, describe_stat, describe_ty};
use corroder::render::{print_expr, print_stat, print_type};

fn name(s: &str) -> String {
    String::from(s)
}

fn opaque(s: &str) -> Description {
    Description::new(String::from(s)).unwrap()
}

fn described_ty(t: &Ty) -> String {
    let mut out = String::new();
    describe_ty(&mut out, t);
    out
}

fn described_expr(e: &Expr) -> String {
    let mut out = String::new();
    describe_expr(&mut out, e);
    out
}

fn described_stat(s: &Statement) -> String {
    let mut out = String::new();
    describe_stat(&mut out, s);
    out
}

#[test]
fn description_is_never_empty() {
    assert_eq!(Description::new(String::new()), None);
    assert_eq!(Description::new(name("Lambda")).unwrap().as_str(), "Lambda");
}

#[test]
fn print_type_joins_with_spaces() {
    assert_eq!(print_type(&vec![Ty::Ref(name("Maybe")), Ty::Ref(name("a"))]), "Maybe a");
    assert_eq!(print_type(&vec![Ty::Ref(name("Int"))]), "Int");
    assert_eq!(print_type(&vec![]), "");
}

#[test]
fn print_type_nested_span_is_flat() {
    let t = vec![Ty::Ref(name("a")), Ty::Span(vec![Ty::Ref(name("b")), Ty::Ref(name("c"))])];
    assert_eq!(print_type(&t), "a b c");
}

#[test]
fn print_type_groups() {
    let parens = Ty::Parens(vec![vec![Ty::Ref(name("a"))], vec![Ty::Ref(name("b")), Ty::Ref(name("c"))]]);
    assert_eq!(print_type(&vec![parens]), "<a, b c>");
    let brackets = Ty::Brackets(vec![vec![Ty::Ref(name("Char"))]]);
    assert_eq!(print_type(&vec![Ty::Ref(name("f")), brackets]), "f [Char]");
    assert_eq!(print_type(&vec![Ty::Parens(vec![])]), "<>");
}

#[test]
fn print_type_falls_back_to_the_description() {
    assert_eq!(print_type(&vec![Ty::Opaque(opaque("Not(Ref(Ident(\"a\")))"))]), "Not(Ref(Ident(\"a\")))");
    let pair = Ty::Pair(vec![Ty::Ref(name("a"))], Box::new(Ty::Ref(name("b"))));
    assert_eq!(
        print_type(&vec![Ty::Parens(vec![vec![pair]])]),
        "<Pair([Ref(Ident(\"a\"))], Ref(Ident(\"b\")))>"
    );
}

#[test]
fn type_descriptions() {
    assert_eq!(described_ty(&Ty::Ref(name("a"))), "Ref(Ident(\"a\"))");
    assert_eq!(described_ty(&Ty::Span(vec![])), "Span([])");
    assert_eq!(
        described_ty(&Ty::Span(vec![Ty::Ref(name("a")), Ty::Ref(name("b"))])),
        "Span([Ref(Ident(\"a\")), Ref(Ident(\"b\"))])"
    );
    assert_eq!(
        described_ty(&Ty::Parens(vec![vec![Ty::Ref(name("a"))], vec![]])),
        "Parens([[Ref(Ident(\"a\"))], []])"
    );
    assert_eq!(described_ty(&Ty::Brackets(vec![])), "Brackets([])");
    assert_eq!(described_ty(&Ty::Opaque(opaque("Unit"))), "Unit");
}

#[test]
fn description_quotes_a_name_as_debug_does() {
    assert_eq!(described_ty(&Ty::Ref(name("a\"b\\c\n"))), "Ref(Ident(\"a\\\"b\\\\c\\n\"))");
    assert_eq!(described_ty(&Ty::Ref(name("a\"b\\c\n"))), format!("Ref(Ident({:?}))", "a\"b\\c\n"));
}

#[test]
fn print_expr_name_and_number() {
    assert_eq!(print_expr(&Expr::Ref(name("x"))), "x");
    assert_eq!(print_expr(&Expr::Number(0)), "0");
    assert_eq!(print_expr(&Expr::Number(42)), "42");
    assert_eq!(print_expr(&Expr::Number(-7)), "-7");
    assert_eq!(print_expr(&Expr::Number(1234567890)), "1234567890");
    assert_eq!(print_expr(&Expr::Number(i64::MAX)), "9223372036854775807");
    assert_eq!(print_expr(&Expr::Number(i64::MIN)), "-9223372036854775808");
}

#[test]
fn print_expr_parenthesized_group() {
    let e = Expr::Parens(vec![Expr::Ref(name("x")), Expr::Number(1)]);
    assert_eq!(print_expr(&e), "x, 1, ");
    assert_eq!(print_expr(&Expr::Parens(vec![])), "");
}

#[test]
fn print_expr_block() {
    let e = Expr::Do(vec![vec![Expr::Ref(name("a")), Expr::Ref(name("b"))], vec![Expr::Number(2)]], None);
    assert_eq!(print_expr(&e), "{ a, b, ; 2, ;  }");
    assert_eq!(print_expr(&Expr::Do(vec![], None)), "{  }");
}

#[test]
fn print_expr_block_with_where_clause() {
    let bindings = vec![
        Statement::Assign(name("y"), vec![name("q")], vec![Expr::Number(1)]),
        Statement::Prototype(name("y"), vec![Ty::Ref(name("Int"))]),
    ];
    let e = Expr::Do(vec![vec![Expr::Ref(name("y"))]], Some(bindings));
    assert_eq!(print_expr(&e), "{ {\n        let y = 1, \n    }\ny, ;  }");
    assert_eq!(print_expr(&Expr::Do(vec![], Some(vec![]))), "{ {\n    }\n }");
}

#[test]
fn print_expr_binary_operation_shows_its_operands_as_built() {
    let e = Expr::Op(Box::new(Expr::Ref(name("a"))), name("\"+\""), Box::new(Expr::Number(1)));
    assert_eq!(print_expr(&e), "(Ref(Ident(\"a\")) \"+\" Number(1))");
}

#[test]
fn print_expr_without_rule_is_a_description() {
    let e = Expr::Opaque(opaque("Lambda([Ident(\"x\")], Ref(Ident(\"x\")))"));
    let text = print_expr(&e);
    assert!(!text.is_empty());
    assert_eq!(text, "Lambda([Ident(\"x\")], Ref(Ident(\"x\")))");
}

#[test]
fn expression_descriptions() {
    assert_eq!(described_expr(&Expr::Number(-3)), "Number(-3)");
    assert_eq!(described_expr(&Expr::Parens(vec![Expr::Number(1), Expr::Number(2)])), "Parens([Number(1), Number(2)])");
    assert_eq!(
        described_expr(&Expr::Do(vec![vec![Expr::Ref(name("a"))], vec![]], None)),
        "Do([[Ref(Ident(\"a\"))], []], None)"
    );
    assert_eq!(
        described_expr(&Expr::Do(vec![], Some(vec![Statement::Opaque(opaque("Import"))]))),
        "Do([], Some([Import]))"
    );
    assert_eq!(
        described_expr(&Expr::Op(Box::new(Expr::Number(1)), name("Add"), Box::new(Expr::Opaque(opaque("Unit"))))),
        "Op(Number(1), Add, Unit)"
    );
}

#[test]
fn statement_descriptions() {
    assert_eq!(
        described_stat(&Statement::Prototype(name("f"), vec![Ty::Ref(name("a"))])),
        "Prototype(Ident(\"f\"), [Ref(Ident(\"a\"))])"
    );
    assert_eq!(
        described_stat(&Statement::Assign(name("f"), vec![name("x"), name("y")], vec![Expr::Ref(name("x"))])),
        "Assign(Ident(\"f\"), [Ident(\"x\"), Ident(\"y\")], [Ref(Ident(\"x\"))])"
    );
    assert_eq!(described_stat(&Statement::Opaque(opaque("Data"))), "Data");
}

#[test]
fn print_stat_binding_is_a_let_line() {
    let s = Statement::Assign(name("x"), vec![], vec![Expr::Number(1), Expr::Ref(name("y"))]);
    assert_eq!(print_stat(&s), "        let x = 1, y, \n");
}

#[test]
fn print_stat_of_another_statement_is_nothing() {
    assert_eq!(print_stat(&Statement::Prototype(name("x"), vec![Ty::Ref(name("Int"))])), "");
    assert_eq!(print_stat(&Statement::Opaque(opaque("Import"))), "");
}
