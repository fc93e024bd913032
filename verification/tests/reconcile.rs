use corroder::ast::{Description, Expr, Statement, Ty};
use corroder::layout::commify;
use corroder::module::render_module;
use corroder::reconcile::{name_le, reconcile, unpack_fndef, write_function, Match, ReconcileError};

fn name(s: &str) -> String {
    String::from(s)
}

fn named(s: &str) -> Ty {
    Ty::Ref(String::from(s))
}

fn arrow(argument: Vec<Ty>, rest: Ty) -> Ty {
    Ty::Pair(argument, Box::new(rest))
}

fn function(name: &str, args: &[&str], t: &Ty, body: Vec<Expr>) -> String {
    let mut out = String::new();
    let args: Vec<String> = args.iter().map(|a| String::from(*a)).collect();
    write_function(&mut out, &String::from(name), &args, t, &body);
    out
}

#[test]
fn unpack_fndef_of_a_plain_type_is_one_span() {
    assert_eq!(unpack_fndef(named("Int")), vec![vec![named("Int")]]);
    let group = Ty::Parens(vec![vec![named("a")]]);
    assert_eq!(unpack_fndef(Ty::Parens(vec![vec![named("a")]])), vec![vec![group]]);
}

#[test]
fn unpack_fndef_unfolds_the_right_spine() {
    let t = arrow(vec![named("a")], arrow(vec![named("f"), named("b")], named("c")));
    assert_eq!(
        unpack_fndef(t),
        vec![vec![named("a")], vec![named("f"), named("b")], vec![named("c")]]
    );
}

#[test]
fn unpack_fndef_leaves_a_pair_inside_an_argument() {
    let inner = arrow(vec![named("a")], named("b"));
    let t = arrow(vec![Ty::Parens(vec![vec![arrow(vec![named("a")], named("b"))]])], named("c"));
    assert_eq!(unpack_fndef(t), vec![vec![Ty::Parens(vec![vec![inner]])], vec![named("c")]]);
}

#[test]
fn two_arguments_of_three_spans_make_two_parameters() {
    let t = arrow(vec![named("a")], arrow(vec![named("b")], named("c")));
    assert_eq!(
        function("f", &["x", "y"], &t, vec![Expr::Ref(name("x"))]),
        "    fn f(x: a, y: b, ) -> c {\n        x\n    }\n\n"
    );
}

#[test]
fn function_without_arguments() {
    assert_eq!(
        function("one", &[], &named("Int"), vec![Expr::Number(1)]),
        "    fn one() -> Int {\n        1\n    }\n\n"
    );
}

#[test]
fn function_with_fewer_arguments_than_slots() {
    let t = arrow(vec![named("a")], arrow(vec![named("b")], named("c")));
    assert_eq!(function("f", &["x"], &t, vec![]), "    fn f(x: a, ) -> c {\n    }\n\n");
}

#[test]
fn function_with_more_arguments_than_slots() {
    let t = arrow(vec![named("a")], named("c"));
    assert_eq!(
        function("f", &["x", "y", "z"], &t, vec![]),
        "    fn f(x: a, y: c, ) -> c {\n    }\n\n"
    );
}

#[test]
fn function_body_has_one_line_for_each_expression() {
    let body = vec![Expr::Ref(name("x")), Expr::Number(2), Expr::Parens(vec![Expr::Number(3)])];
    assert_eq!(
        function("f", &["x"], &arrow(vec![named("a"), named("b")], named("c")), body),
        "    fn f(x: a b, ) -> c {\n        x\n        2\n        3, \n    }\n\n"
    );
}

#[test]
fn names_are_ordered_as_in_a_dictionary() {
    assert!(name_le("", ""));
    assert!(name_le("", "a"));
    assert!(!name_le("a", ""));
    assert!(name_le("a", "a"));
    assert!(name_le("a", "b"));
    assert!(!name_le("b", "a"));
    assert!(name_le("ab", "abc"));
    assert!(!name_le("abc", "ab"));
    assert!(name_le("Z", "a"));
    assert!(name_le("z", "é"));
    let names = ["b", "", "é", "ab", "a", "Z", "abc", "z", "b"];
    for x in names {
        for y in names {
            assert_eq!(name_le(x, y), x <= y, "{:?} {:?}", x, y);
        }
    }
}

#[test]
fn reconcile_orders_bindings_by_name() {
    let stmts = vec![
        Statement::Assign(name("g"), vec![], vec![]),
        Statement::Prototype(name("f"), vec![named("a")]),
        Statement::Assign(name("f"), vec![], vec![]),
        Statement::Opaque(Description::new(name("Import")).unwrap()),
        Statement::Prototype(name("g"), vec![named("b")]),
        Statement::Assign(name("g"), vec![name("x")], vec![]),
        Statement::Assign(name("a"), vec![], vec![]),
        Statement::Prototype(name("a"), vec![named("c")]),
    ];
    assert_eq!(
        reconcile(&stmts),
        Ok(vec![
            Match { binding: 6, declaration: 7 },
            Match { binding: 2, declaration: 1 },
            Match { binding: 0, declaration: 4 },
            Match { binding: 5, declaration: 4 },
        ])
    );
}

#[test]
fn reconcile_of_nothing_is_nothing() {
    assert_eq!(reconcile(&vec![]), Ok(vec![]));
    assert_eq!(reconcile(&vec![Statement::Prototype(name("f"), vec![])]), Ok(vec![]));
}

#[test]
fn duplicate_declaration_is_an_error() {
    let stmts = vec![
        Statement::Prototype(name("f"), vec![named("a")]),
        Statement::Assign(name("g"), vec![], vec![]),
        Statement::Prototype(name("f"), vec![named("b")]),
    ];
    assert_eq!(reconcile(&stmts), Err(ReconcileError::DuplicateDeclaration { statement: 2 }));
}

#[test]
fn binding_without_declaration_is_an_error() {
    let stmts = vec![
        Statement::Prototype(name("f"), vec![named("a")]),
        Statement::Assign(name("f"), vec![], vec![]),
        Statement::Assign(name("g"), vec![], vec![]),
    ];
    assert_eq!(reconcile(&stmts), Err(ReconcileError::UnmatchedDeclaration { statement: 2 }));
}

#[test]
fn declaration_without_a_type_is_an_error() {
    let stmts = vec![
        Statement::Assign(name("f"), vec![], vec![]),
        Statement::Prototype(name("f"), vec![]),
    ];
    assert_eq!(reconcile(&stmts), Err(ReconcileError::EmptyTypeUnfold { statement: 1 }));
}

#[test]
fn declaration_with_two_types_is_an_error() {
    let stmts = vec![
        Statement::Prototype(name("f"), vec![named("a"), named("b")]),
        Statement::Assign(name("f"), vec![], vec![]),
    ];
    assert_eq!(reconcile(&stmts), Err(ReconcileError::AmbiguousDeclaration { statement: 0 }));
    assert_eq!(
        render_module("m", &stmts),
        Err(ReconcileError::AmbiguousDeclaration { statement: 0 })
    );
}

#[test]
fn the_first_malformed_declaration_in_the_order_of_the_names_is_reported() {
    let stmts = vec![
        Statement::Prototype(name("z"), vec![]),
        Statement::Prototype(name("a"), vec![named("x"), named("y")]),
        Statement::Assign(name("z"), vec![], vec![]),
        Statement::Assign(name("a"), vec![], vec![]),
    ];
    assert_eq!(reconcile(&stmts), Err(ReconcileError::AmbiguousDeclaration { statement: 1 }));
}

#[test]
fn module_without_bindings() {
    assert_eq!(render_module("\"empty.hs\"", &vec![]).unwrap(), "mod \"empty.hs\" {\n}\n\n\n\n");
}

#[test]
fn module_renders_its_bindings_in_the_order_of_their_names() {
    let stmts = vec![
        Statement::Prototype(name("twice"), vec![arrow(vec![named("Int")], named("Int"))]),
        Statement::Assign(name("twice"), vec![name("n")], vec![Expr::Ref(name("n"))]),
        Statement::Prototype(name("one"), vec![named("Int")]),
        Statement::Assign(name("one"), vec![], vec![Expr::Number(1)]),
        Statement::Assign(name("twice"), vec![name("m")], vec![Expr::Number(0), Expr::Number(2)]),
    ];
    assert_eq!(
        render_module("\"M.hs\"", &stmts).unwrap(),
        "mod \"M.hs\" {\n\
         \x20   fn one() -> Int {\n\
         \x20       1\n\
         \x20   }\n\
         \n\
         \x20   fn twice(n: Int, ) -> Int {\n\
         \x20       n\n\
         \x20   }\n\
         \n\
         \x20   fn twice(m: Int, ) -> Int {\n\
         \x20       0\n\
         \x20       2\n\
         \x20   }\n\
         \n\
         }\n\n\n\n"
    );
}

#[test]
fn from_source_text_to_rendered_module() {
    let source = "-- adds\nadd :: Int -> Int -> Int\nadd a b = do\n  a\n  b\n";
    assert_eq!(
        commify(source).unwrap(),
        "\nadd :: Int -> Int -> Int\nadd a b = do\n  {a\n  ;b\n}"
    );
    // what a grammar makes of the desugared text
    let stmts = vec![
        Statement::Prototype(
            name("add"),
            vec![arrow(vec![named("Int")], arrow(vec![named("Int")], named("Int")))],
        ),
        Statement::Assign(
            name("add"),
            vec![name("a"), name("b")],
            vec![Expr::Do(vec![vec![Expr::Ref(name("a"))], vec![Expr::Ref(name("b"))]], None)],
        ),
    ];
    let text = render_module("\"Add.hs\"", &stmts).unwrap();
    assert!(text.contains("fn add("));
    assert_eq!(text.matches(": ").count(), 2);
    let lines: Vec<&str> = text.lines().collect();
    assert_eq!(lines[1], "    fn add(a: Int, b: Int, ) -> Int {");
    assert_eq!(lines[2], "        { a, ; b, ;  }");
    assert_eq!(lines[3], "    }");
    assert_eq!(
        text,
        "mod \"Add.hs\" {\n    fn add(a: Int, b: Int, ) -> Int {\n        { a, ; b, ;  }\n    }\n\n}\n\n\n\n"
    );
}
