use std::rc::Rc;

use saba_core::ast::Node;
use saba_core::ast::Program;
use saba_core::dom::Attribute;
use saba_core::dom::Element;
use saba_core::dom::NodeKind;
use saba_core::dom::Window;
use saba_core::runtime::EvalError;
use saba_core::runtime::JsRuntime;
use saba_core::runtime::RuntimeValue;
use saba_core::runtime::EVAL_FUEL;

fn num(n: u64) -> Option<Rc<Node>> {
    Some(Rc::new(Node::NumericLiteral(n)))
}

fn ident(s: &str) -> Option<Rc<Node>> {
    Some(Rc::new(Node::Identifier(s.to_string())))
}

fn strlit(s: &str) -> Option<Rc<Node>> {
    Some(Rc::new(Node::StringLiteral(s.to_string())))
}

fn expr_stmt(e: Option<Rc<Node>>) -> Rc<Node> {
    Rc::new(Node::ExpressionStatement(e))
}

fn additive(op: char, left: Option<Rc<Node>>, right: Option<Rc<Node>>) -> Option<Rc<Node>> {
    Some(Rc::new(Node::AdditiveExpression { operator: op, left, right }))
}

fn assign(left: Option<Rc<Node>>, right: Option<Rc<Node>>) -> Option<Rc<Node>> {
    Some(Rc::new(Node::AssignmentExpression { operator: '=', left, right }))
}

fn member(object: Option<Rc<Node>>, property: Option<Rc<Node>>) -> Option<Rc<Node>> {
    Some(Rc::new(Node::MemberExpression { object, property }))
}

fn call(callee: Option<Rc<Node>>, arguments: Vec<Option<Rc<Node>>>) -> Option<Rc<Node>> {
    Some(Rc::new(Node::CallExpression { callee, arguments }))
}

fn var_decl(name: &str, init: Option<Rc<Node>>) -> Rc<Node> {
    Rc::new(Node::VariableDeclaration {
        declarations: vec![Some(Rc::new(Node::VariableDeclarator { id: ident(name), init }))],
    })
}

fn function_decl(name: &str, params: Vec<Option<Rc<Node>>>, body: Vec<Option<Rc<Node>>>) -> Rc<Node> {
    Rc::new(Node::FunctionDeclaration {
        id: ident(name),
        params,
        body: Some(Rc::new(Node::BlockStatement { body })),
    })
}

fn fresh_runtime() -> JsRuntime {
    JsRuntime::new(Window::new())
}

fn eval_all(runtime: &mut JsRuntime, stmts: Vec<Rc<Node>>) -> Vec<Option<RuntimeValue>> {
    let mut results = Vec::new();
    for stmt in stmts {
        results.push(runtime.eval(&Some(stmt), EVAL_FUEL).unwrap());
    }
    results
}

/// A window holding `<body><p id="target">text</p></body>`.
fn window_with_target() -> (Window, usize) {
    let mut w = Window::new();
    let body = w.append_child(w.document(), NodeKind::Element(Element::new("body", vec![])));
    let target = w.append_child(
        body,
        NodeKind::Element(Element::new(
            "p",
            vec![Attribute::new("id".to_string(), "target".to_string())],
        )),
    );
    let _text = w.append_child(target, NodeKind::Text("text".to_string()));
    (w, target)
}

#[test]
fn runtime_test_num() {
    // "42"
    let mut runtime = fresh_runtime();
    let results = eval_all(&mut runtime, vec![expr_stmt(num(42))]);
    assert_eq!(vec![Some(RuntimeValue::Number(42))], results);
}

#[test]
fn runtime_test_add_nums() {
    // "1 + 2"
    let mut runtime = fresh_runtime();
    let results = eval_all(&mut runtime, vec![expr_stmt(additive('+', num(1), num(2)))]);
    assert_eq!(vec![Some(RuntimeValue::Number(3))], results);
}

#[test]
fn test_sub_nums() {
    // "2 - 1"
    let mut runtime = fresh_runtime();
    let results = eval_all(&mut runtime, vec![expr_stmt(additive('-', num(2), num(1)))]);
    assert_eq!(vec![Some(RuntimeValue::Number(1))], results);
}

#[test]
fn test_sub_saturates_at_zero() {
    // "1 - 2" saturates to the minimum unsigned value instead of going
    // negative.
    let mut runtime = fresh_runtime();
    let results = eval_all(&mut runtime, vec![expr_stmt(additive('-', num(1), num(2)))]);
    assert_eq!(vec![Some(RuntimeValue::Number(0))], results);
}

#[test]
fn runtime_test_assign_variable() {
    // "var foo=42;"
    let mut runtime = fresh_runtime();
    let results = eval_all(&mut runtime, vec![var_decl("foo", num(42))]);
    assert_eq!(vec![None], results);
}

#[test]
fn test_add_variable_and_num() {
    // "var foo=42; foo+1;"
    let mut runtime = fresh_runtime();
    let results = eval_all(
        &mut runtime,
        vec![var_decl("foo", num(42)), expr_stmt(additive('+', ident("foo"), num(1)))],
    );
    assert_eq!(vec![None, Some(RuntimeValue::Number(43))], results);
}

#[test]
fn test_reassign_variable() {
    // "var foo=42; foo=1; foo"
    let mut runtime = fresh_runtime();
    let results = eval_all(
        &mut runtime,
        vec![
            var_decl("foo", num(42)),
            expr_stmt(assign(ident("foo"), num(1))),
            expr_stmt(ident("foo")),
        ],
    );
    assert_eq!(vec![None, None, Some(RuntimeValue::Number(1))], results);
}

#[test]
fn test_lookup_after_declaration() {
    // "var foo=42;" evaluates to no value; a later lookup in the same scope
    // answers the declared number.
    let mut runtime = fresh_runtime();
    let mut program = Program::new();
    program.set_body(vec![var_decl("foo", num(42))]);
    runtime.execute(&program).unwrap();
    assert_eq!(
        Some(RuntimeValue::Number(42)),
        runtime.env().get_variable("foo".to_string())
    );
}

#[test]
fn test_get_element_by_id_through_script() {
    let (w, target) = window_with_target();
    let mut runtime = JsRuntime::new(w);
    let getter = call(
        member(ident("document"), ident("getElementById")),
        vec![strlit("target")],
    );
    let results = eval_all(&mut runtime, vec![expr_stmt(getter)]);
    assert_eq!(
        vec![Some(RuntimeValue::HtmlElement { object: target, property: None })],
        results
    );
}

#[test]
fn test_get_element_by_id_missing_is_absent() {
    let (w, _target) = window_with_target();
    let mut runtime = JsRuntime::new(w);
    let getter = call(
        member(ident("document"), ident("getElementById")),
        vec![strlit("nosuch")],
    );
    let results = eval_all(&mut runtime, vec![expr_stmt(getter)]);
    assert_eq!(vec![None], results);
}

#[test]
fn test_text_content_assignment_replaces_children() {
    // 'var target = document.getElementById("target");
    //  target.textContent = "foobar";'
    let (w, target) = window_with_target();
    let mut runtime = JsRuntime::new(w);
    let getter = call(
        member(ident("document"), ident("getElementById")),
        vec![strlit("target")],
    );
    let mut program = Program::new();
    program.set_body(vec![
        var_decl("target", getter),
        expr_stmt(assign(member(ident("target"), ident("textContent")), strlit("foobar"))),
    ]);
    runtime.execute(&program).unwrap();
    let w = runtime.window();
    let first = w.get_node(target).first_child().unwrap();
    match w.get_node(first).kind() {
        NodeKind::Text(s) => assert_eq!("foobar", s),
        other => panic!("expected a text node, got {:?}", other),
    }
    // The fresh text node is the only child.
    assert_eq!(Some(first), w.get_node(target).last_child());
    assert_eq!(None, w.get_node(first).first_child());
    assert_eq!(None, w.get_node(first).next_sibling());
    assert_eq!(Some(target), w.get_node(first).parent());
}

#[test]
fn test_outer_variable_survives_call_scopes() {
    // "var foo=42; function f() { return foo; } f()" reads the outer
    // binding through a pushed call scope and leaves it unchanged.
    let mut runtime = fresh_runtime();
    let results = eval_all(
        &mut runtime,
        vec![
            var_decl("foo", num(42)),
            function_decl("f", vec![], vec![Some(Rc::new(Node::ReturnStatement {
                argument: ident("foo"),
            }))]),
            expr_stmt(call(ident("f"), vec![])),
        ],
    );
    assert_eq!(vec![None, None, Some(RuntimeValue::Number(42))], results);
    assert_eq!(
        Some(RuntimeValue::Number(42)),
        runtime.env().get_variable("foo".to_string())
    );
}

#[test]
fn test_function_call_binds_arguments() {
    // "function addTwo(a, b) { return a + b; } addTwo(40, 2)"
    let mut runtime = fresh_runtime();
    let results = eval_all(
        &mut runtime,
        vec![
            function_decl(
                "addTwo",
                vec![ident("a"), ident("b")],
                vec![Some(Rc::new(Node::ReturnStatement {
                    argument: additive('+', ident("a"), ident("b")),
                }))],
            ),
            expr_stmt(call(ident("addTwo"), vec![num(40), num(2)])),
        ],
    );
    assert_eq!(vec![None, Some(RuntimeValue::Number(42))], results);
}

#[test]
fn test_undefined_function_is_fatal() {
    let mut runtime = fresh_runtime();
    let r = runtime.eval(&Some(expr_stmt(call(ident("nosuch"), vec![]))), EVAL_FUEL);
    assert_eq!(Err(EvalError::FunctionNotFound), r);
}

#[test]
fn test_argument_count_mismatch_is_fatal() {
    let mut runtime = fresh_runtime();
    let mut program = Program::new();
    program.set_body(vec![
        function_decl("f", vec![ident("a")], vec![Some(Rc::new(Node::ReturnStatement {
            argument: ident("a"),
        }))]),
        expr_stmt(call(ident("f"), vec![])),
    ]);
    assert_eq!(Err(EvalError::ArgumentCountMismatch), runtime.execute(&program));
}

#[test]
fn test_add_coerces_to_string_concatenation() {
    // "+" with a non-numeric side concatenates display strings.
    let mut runtime = fresh_runtime();
    let results = eval_all(&mut runtime, vec![expr_stmt(additive('+', strlit("1"), num(2)))]);
    assert_eq!(vec![Some(RuntimeValue::StringLiteral("12".to_string()))], results);
}

#[test]
fn test_sub_with_non_numeric_yields_zero() {
    let mut runtime = fresh_runtime();
    let results = eval_all(&mut runtime, vec![expr_stmt(additive('-', strlit("x"), num(2)))]);
    assert_eq!(vec![Some(RuntimeValue::Number(0))], results);
}

#[test]
fn test_member_collapses_to_dotted_string() {
    // An unbound dotted name collapses into a single string literal, which
    // is how "document.getElementById" becomes a call target.
    let mut runtime = fresh_runtime();
    let results = eval_all(
        &mut runtime,
        vec![expr_stmt(member(ident("document"), ident("getElementById")))],
    );
    assert_eq!(
        vec![Some(RuntimeValue::StringLiteral("document.getElementById".to_string()))],
        results
    );
}

#[test]
fn test_assignment_to_unbound_name_is_noop() {
    // Assigning an undeclared name neither binds it nor fails: the later
    // read finds the name unbound and yields it as a string.
    let mut runtime = fresh_runtime();
    let results = eval_all(
        &mut runtime,
        vec![expr_stmt(assign(ident("foo"), num(1))), expr_stmt(ident("foo"))],
    );
    assert_eq!(
        vec![None, Some(RuntimeValue::StringLiteral("foo".to_string()))],
        results
    );
}

#[test]
fn test_block_keeps_last_result() {
    let mut runtime = fresh_runtime();
    let block = Rc::new(Node::BlockStatement {
        body: vec![Some(expr_stmt(num(1))), Some(expr_stmt(num(2)))],
    });
    let r = runtime.eval(&Some(block), EVAL_FUEL).unwrap();
    assert_eq!(Some(RuntimeValue::Number(2)), r);
}

#[test]
fn test_number_display_strings() {
    assert_eq!("0", RuntimeValue::Number(0).to_string());
    assert_eq!("12345", RuntimeValue::Number(12345).to_string());
    assert_eq!(
        "18446744073709551615",
        RuntimeValue::Number(u64::MAX).to_string()
    );
}

#[test]
fn test_add_wraps_around() {
    let mut runtime = fresh_runtime();
    let results = eval_all(
        &mut runtime,
        vec![expr_stmt(additive('+', num(u64::MAX), num(1)))],
    );
    assert_eq!(vec![Some(RuntimeValue::Number(0))], results);
}
