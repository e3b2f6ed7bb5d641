use async_rewriter::driver::rewrite_tree;
use async_rewriter::insertion::{Insertion, InsertionList};
use async_rewriter::rules::{make_runtime_close, make_runtime_open};
use async_rewriter::tree::{
    check_wf, collect_pattern_names, Declarator, FunctionName, Node, NodeKind, Pattern, Tree,
    UnaryOp,
};
use async_rewriter::{DebugLevel, RewriteError, Span};

fn b(s: &str) -> Vec<u8> {
    s.as_bytes().to_vec()
}

fn node(kind: NodeKind, start: usize, end: usize, parent: Option<usize>) -> Node {
    Node {
        kind,
        span: Span { start, end },
        parent,
    }
}

fn rewrite(src: &str, nodes: Vec<Node>, debug: DebugLevel) -> String {
    let tree = Tree { nodes };
    assert!(check_wf(&tree, src.len()), "test tree must be well formed");
    let out = rewrite_tree(&b(src), &tree, &Vec::new(), debug).expect("rewrite should succeed");
    String::from_utf8(out).expect("output should be valid text")
}

fn runtime_open() -> String {
    String::from_utf8(make_runtime_open()).unwrap()
}

fn runtime_close() -> String {
    String::from_utf8(make_runtime_close()).unwrap()
}

fn ident(name: &str) -> NodeKind {
    NodeKind::IdentifierReference { name: b(name) }
}

fn expr_stmt(start: usize, end: usize) -> NodeKind {
    NodeKind::ExpressionStatement {
        expression: Span { start, end },
    }
}

// Scenario: `1+1` — the expression becomes the completion record inside the
// IIFE and the byte-exact output is pinned down.
#[test]
fn one_plus_one_exact_output() {
    let src = "1+1";
    let nodes = vec![
        node(NodeKind::Program, 0, 3, None),
        node(expr_stmt(0, 3), 0, 3, Some(0)),
        node(NodeKind::Other, 0, 3, Some(1)),
        node(NodeKind::Other, 0, 1, Some(2)),
        node(NodeKind::Other, 2, 3, Some(2)),
    ];
    let out = rewrite(src, nodes, DebugLevel::Off);
    let expected = format!(
        ";(() => {{ const __SymbolFor = Symbol.for;{}var _cr;;_cr = (1+1);;\n return _synchronousReturnValue = _cr;{}}})()",
        runtime_open(),
        runtime_close()
    );
    assert_eq!(out, expected);
}

// Scenario: `const x = 42; x` — `x` is hoisted via `var x;`, the declarator
// keyword is commented out, and the trailing `x` is the completion record.
#[test]
fn const_then_identifier() {
    let src = "const x = 42; x";
    let nodes = vec![
        node(NodeKind::Program, 0, 15, None),
        node(
            NodeKind::VariableDeclaration {
                declarators: vec![Declarator {
                    span: Span { start: 6, end: 12 },
                    pattern: Pattern::Ident { name: b("x") },
                }],
            },
            0,
            13,
            Some(0),
        ),
        node(NodeKind::Other, 6, 12, Some(1)),
        node(NodeKind::Other, 6, 7, Some(2)),
        node(NodeKind::Other, 10, 12, Some(2)),
        node(expr_stmt(14, 15), 14, 15, Some(0)),
        node(ident("x"), 14, 15, Some(5)),
    ];
    let out = rewrite(src, nodes, DebugLevel::Off);
    assert!(out.starts_with("var x;"));
    assert!(out.contains("/*const */(x = 42)"));
    assert!(out.contains(";_cr = ((_ex = x, _isp(_ex) ? await _ex : _ex));"));
    assert!(out.contains(";\n return _synchronousReturnValue = _cr;"));
}

// Scenario: `function f(){ return 1 } f()` — `f` is renamed to `f__`, bound
// back to the hoisted `var f;`, recorded as the completion record, and its
// return value goes through the state tracking.
#[test]
fn function_declaration_hoist() {
    let src = "function f(){ return 1 } f()";
    // offsets: f = 9..10, body = 12..24, return argument 1 = 21..22,
    // f() = 25..28, callee f = 25..26
    let nodes = vec![
        node(NodeKind::Program, 0, 28, None),
        node(
            NodeKind::Function {
                is_async: false,
                name: Some(FunctionName {
                    text: b("f"),
                    span: Span { start: 9, end: 10 },
                }),
                body: Some(Span { start: 12, end: 24 }),
            },
            0,
            24,
            Some(0),
        ),
        node(NodeKind::FunctionBody, 12, 24, Some(1)),
        node(
            NodeKind::ReturnStatement {
                argument: Some(Span { start: 21, end: 22 }),
            },
            14,
            22,
            Some(2),
        ),
        node(NodeKind::Other, 21, 22, Some(3)),
        node(expr_stmt(25, 28), 25, 28, Some(0)),
        node(NodeKind::CallExpression, 25, 28, Some(5)),
        node(ident("f"), 25, 26, Some(6)),
    ];
    let out = rewrite(src, nodes, DebugLevel::Off);
    assert!(out.starts_with("var f;"));
    assert!(out.contains("function f__"));
    assert!(out.contains(";\n_cr = f = f__;\n"));
    // the return argument is tracked
    assert!(out.contains(
        "(_synchronousReturnValue = (1), _functionState === 'async' ? _synchronousReturnValue : null);"
    ));
    // the non-async function body is wrapped with the state machine: once for
    // the script, once for `f`
    assert_eq!(out.matches("const _asynchronousReturnValue").count(), 2);
}

// Scenario: `async function g(){ return 1 } g()` — a user-level async
// function is not wrapped with the function-state machinery and its `return`
// is left alone; only the script-level wrap exists.
#[test]
fn async_function_passthrough() {
    let src = "async function g(){ return 1 } g()";
    // g = 15..16, body = 18..30, return argument = 27..28, g() = 31..34
    let nodes = vec![
        node(NodeKind::Program, 0, 34, None),
        node(
            NodeKind::Function {
                is_async: true,
                name: Some(FunctionName {
                    text: b("g"),
                    span: Span { start: 15, end: 16 },
                }),
                body: Some(Span { start: 18, end: 30 }),
            },
            0,
            30,
            Some(0),
        ),
        node(NodeKind::FunctionBody, 18, 30, Some(1)),
        node(
            NodeKind::ReturnStatement {
                argument: Some(Span { start: 27, end: 28 }),
            },
            20,
            28,
            Some(2),
        ),
        node(NodeKind::Other, 27, 28, Some(3)),
        node(expr_stmt(31, 34), 31, 34, Some(0)),
        node(NodeKind::CallExpression, 31, 34, Some(5)),
        node(ident("g"), 31, 32, Some(6)),
    ];
    let out = rewrite(src, nodes, DebugLevel::Off);
    // hoisting still applies
    assert!(out.starts_with("var g;"));
    assert!(out.contains(";\n_cr = g = g__;\n"));
    // but only the script-level state machine exists
    assert_eq!(out.matches("const _asynchronousReturnValue").count(), 1);
    // and the async function's return is not instrumented
    assert!(!out.contains("(_synchronousReturnValue = ("));
}

// Scenario: `typeof undefinedIdent` — the rewritten form first tests
// `typeof undefinedIdent === 'undefined'` on the original identifier text,
// before the wrapped identifier could be evaluated.
#[test]
fn typeof_undefined_identifier() {
    let src = "typeof undefinedIdent";
    let nodes = vec![
        node(NodeKind::Program, 0, 21, None),
        node(expr_stmt(0, 21), 0, 21, Some(0)),
        node(
            NodeKind::UnaryExpression {
                op: UnaryOp::Typeof,
            },
            0,
            21,
            Some(1),
        ),
        node(ident("undefinedIdent"), 7, 21, Some(2)),
    ];
    let out = rewrite(src, nodes, DebugLevel::Off);
    assert!(out.contains(
        "(typeof undefinedIdent === 'undefined' ? 'undefined' : typeof \
         (_ex = undefinedIdent, _isp(_ex) ? await _ex : _ex))"
    ));
}

// Scenario: `const p = { [Symbol.for('@@mongosh.syntheticPromise')]: true,
// then(r){ r(7) } }; p` — `p` is hoisted and wrapped as the completion
// record; the method is an anonymous function and gets the state machine.
#[test]
fn synthetic_promise_object() {
    let src = "const p = { [Symbol.for('@@mongosh.syntheticPromise')]: true, then(r){ r(7) } }; p";
    let obj_start = src.find('{').unwrap();
    let obj_end = src.find("};").unwrap() + 1;
    let sym = src.find("Symbol").unwrap();
    let call_end = src.find(')').unwrap() + 1;
    let dot = src.find('.').unwrap();
    let then_start = src.find("then").unwrap();
    let body_start = src.find("){ r(7)").unwrap() + 1;
    let body_end = src.find("} }").unwrap() + 1;
    let r_call = src.find("r(7)").unwrap();
    let p_expr = src.len() - 1;
    let decl_span = Span {
        start: 6,
        end: obj_end,
    };
    let nodes = vec![
        node(NodeKind::Program, 0, src.len(), None),
        node(
            NodeKind::VariableDeclaration {
                declarators: vec![Declarator {
                    span: decl_span,
                    pattern: Pattern::Ident { name: b("p") },
                }],
            },
            0,
            obj_end + 1,
            Some(0),
        ),
        node(NodeKind::Other, 6, obj_end, Some(1)), // declarator
        node(NodeKind::Other, obj_start, obj_end, Some(2)), // object expression
        node(NodeKind::ObjectProperty, obj_start + 2, src.find(": true").unwrap() + 6, Some(3)),
        node(NodeKind::CallExpression, sym, call_end, Some(4)),
        node(NodeKind::MemberExpression, sym, dot + 4, Some(5)),
        node(ident("Symbol"), sym, dot, Some(6)),
        node(NodeKind::Other, dot + 5, call_end - 1, Some(5)), // string literal
        node(NodeKind::Other, src.find("true").unwrap(), src.find("true").unwrap() + 4, Some(4)),
        node(NodeKind::ObjectProperty, then_start, body_end, Some(3)),
        node(
            NodeKind::Function {
                is_async: false,
                name: None,
                body: Some(Span {
                    start: body_start,
                    end: body_end,
                }),
            },
            then_start,
            body_end,
            Some(10),
        ),
        node(NodeKind::FormalParameter, then_start + 5, then_start + 6, Some(11)),
        node(NodeKind::FunctionBody, body_start, body_end, Some(11)),
        node(expr_stmt(r_call, r_call + 4), r_call, r_call + 4, Some(13)),
        node(NodeKind::CallExpression, r_call, r_call + 4, Some(14)),
        node(ident("r"), r_call, r_call + 1, Some(15)),
        node(NodeKind::Other, r_call + 2, r_call + 3, Some(15)), // 7
        node(expr_stmt(p_expr, p_expr + 1), p_expr, p_expr + 1, Some(0)),
        node(ident("p"), p_expr, p_expr + 1, Some(18)),
    ];
    let out = rewrite(src, nodes, DebugLevel::Off);
    assert!(out.starts_with("var p;"));
    assert!(out.contains("/*const */(p = {"));
    // the trailing `p` is the completion record, wrapped
    assert!(out.contains(";_cr = ((_ex = p, _isp(_ex) ? await _ex : _ex));"));
    // the member callee `Symbol.for` is not wrapped, the object `Symbol` is
    assert!(out.contains("(_ex = Symbol, _isp(_ex) ? await _ex : _ex).for("));
    // the method is an anonymous function: marked, and state-machine wrapped
    assert!(out.contains("/*no ident token*/"));
    assert_eq!(out.matches("const _asynchronousReturnValue").count(), 2);
}

// Scenario: `for (let i=0; i<3; i++) i` — the `for`-init declaration is left
// alone (not hoisted, not commented out), the update target is not wrapped,
// and the loop body `i` is the completion-record candidate.
#[test]
fn for_loop_update_target_untouched() {
    let src = "for (let i=0; i<3; i++) i";
    let nodes = vec![
        node(NodeKind::Program, 0, 25, None),
        node(NodeKind::Other, 0, 25, Some(0)), // for statement
        node(NodeKind::ForStatementInit, 5, 12, Some(1)),
        node(
            NodeKind::VariableDeclaration {
                declarators: vec![Declarator {
                    span: Span { start: 9, end: 12 },
                    pattern: Pattern::Ident { name: b("i") },
                }],
            },
            5,
            12,
            Some(2),
        ),
        node(NodeKind::Other, 9, 12, Some(3)),
        node(NodeKind::Other, 9, 10, Some(4)),
        node(NodeKind::Other, 11, 12, Some(4)),
        node(NodeKind::Other, 14, 17, Some(1)), // i<3
        node(ident("i"), 14, 15, Some(7))
        ,
        node(NodeKind::Other, 16, 17, Some(7)),
        node(NodeKind::Other, 19, 22, Some(1)), // i++
        node(NodeKind::SimpleAssignmentTarget, 19, 20, Some(10)),
        node(ident("i"), 19, 20, Some(11)),
        node(expr_stmt(24, 25), 24, 25, Some(1)),
        node(ident("i"), 24, 25, Some(13)),
    ];
    let out = rewrite(src, nodes, DebugLevel::Off);
    // the loop variable is not hoisted and the declaration is untouched
    assert!(!out.contains("var i;"));
    assert!(out.contains("for (let i=0;"));
    // the condition identifier is wrapped, the update target is not
    assert!(out.contains("(_ex = i, _isp(_ex) ? await _ex : _ex)<3"));
    assert!(out.contains("i++"));
    assert!(!out.contains("(_ex = i+"));
    // the body `i` is the completion record
    assert!(out.contains(";_cr = ((_ex = i, _isp(_ex) ? await _ex : _ex));"));
    assert_eq!(out.matches("(_ex = ").count(), 2);
}

// An arrow function with an expression body gets braces, the state machine,
// and an explicit tracked return.
#[test]
fn arrow_expression_body() {
    let src = "() => 1";
    let nodes = vec![
        node(NodeKind::Program, 0, 7, None),
        node(expr_stmt(0, 7), 0, 7, Some(0)),
        node(
            NodeKind::ArrowFunctionExpression {
                is_async: false,
                expression: true,
                body: Span { start: 6, end: 7 },
            },
            0,
            7,
            Some(1),
        ),
        node(NodeKind::FunctionBody, 6, 7, Some(2)),
        node(expr_stmt(6, 7), 6, 7, Some(3)),
        node(NodeKind::Other, 6, 7, Some(4)),
    ];
    let out = rewrite(src, nodes, DebugLevel::Off);
    assert!(out.contains(
        "return (_synchronousReturnValue = (1), _functionState === 'async' ? _synchronousReturnValue : null);"
    ));
    // the implicit-return statement inside the arrow body is left alone
    assert!(!out.contains("(1);"));
    assert_eq!(out.matches("const _asynchronousReturnValue").count(), 2);
}

// An async arrow is left entirely alone.
#[test]
fn async_arrow_passthrough() {
    let src = "async () => 1";
    let nodes = vec![
        node(NodeKind::Program, 0, 13, None),
        node(expr_stmt(0, 13), 0, 13, Some(0)),
        node(
            NodeKind::ArrowFunctionExpression {
                is_async: true,
                expression: true,
                body: Span { start: 12, end: 13 },
            },
            0,
            13,
            Some(1),
        ),
        node(NodeKind::FunctionBody, 12, 13, Some(2)),
        node(NodeKind::Other, 12, 13, Some(3)),
    ];
    let out = rewrite(src, nodes, DebugLevel::Off);
    assert_eq!(out.matches("const _asynchronousReturnValue").count(), 1);
    assert!(!out.contains("return (_synchronousReturnValue"));
}

// A top-level class is recorded as the completion record and hoisted.
#[test]
fn class_declaration_hoist() {
    let src = "class Foo {}";
    let nodes = vec![
        node(NodeKind::Program, 0, 12, None),
        node(
            NodeKind::Class {
                name: Some(b("Foo")),
            },
            0,
            12,
            Some(0),
        ),
    ];
    let out = rewrite(src, nodes, DebugLevel::Off);
    assert!(out.starts_with("var Foo;"));
    assert!(out.contains("_cr = Foo = class Foo {};"));
}

// `delete a.b` — the member expression under `delete` is not wrapped.
#[test]
fn delete_operand_not_wrapped() {
    let src = "delete a.b";
    let nodes = vec![
        node(NodeKind::Program, 0, 10, None),
        node(expr_stmt(0, 10), 0, 10, Some(0)),
        node(
            NodeKind::UnaryExpression {
                op: UnaryOp::Delete,
            },
            0,
            10,
            Some(1),
        ),
        node(NodeKind::MemberExpression, 7, 10, Some(2)),
        node(ident("a"), 7, 8, Some(3)),
    ];
    let out = rewrite(src, nodes, DebugLevel::Off);
    // the member expression stays bare; only the object `a` is wrapped
    assert_eq!(out.matches("(_ex = ").count(), 1);
    assert!(out.contains("(_ex = a, _isp(_ex) ? await _ex : _ex).b"));
}

// `eval`, `this` and `super` references are never wrapped; an identifier
// shorthand in an object property is left alone.
#[test]
fn special_identifiers_untouched() {
    let src = "this";
    let nodes = vec![
        node(NodeKind::Program, 0, 4, None),
        node(expr_stmt(0, 4), 0, 4, Some(0)),
        node(ident("this"), 0, 4, Some(1)),
    ];
    let out = rewrite(src, nodes, DebugLevel::Off);
    assert!(!out.contains("(_ex = "));
    assert!(out.contains(";_cr = (this);"));

    let src2 = "({ foo })";
    let paren = src2.find('(').unwrap();
    let f = src2.find("foo").unwrap();
    let nodes2 = vec![
        node(NodeKind::Program, 0, 9, None),
        node(expr_stmt(paren, 9), 0, 9, Some(0)),
        node(
            NodeKind::ParenthesizedExpression { inner: 3 },
            paren,
            9,
            Some(1),
        ),
        node(NodeKind::Other, 1, 8, Some(2)), // object expression
        node(NodeKind::ObjectProperty, f, f + 3, Some(3)),
        node(ident("foo"), f, f + 3, Some(4)),
    ];
    let out2 = rewrite(src2, nodes2, DebugLevel::Off);
    // the shorthand `foo` is skipped entirely
    assert!(!out2.contains("(_ex = foo"));
}

// A parenthesized identifier peels down to the identifier for the `typeof`
// guard, quoting the parenthesized source text.
#[test]
fn typeof_parenthesized_identifier() {
    let src = "typeof (x)";
    let nodes = vec![
        node(NodeKind::Program, 0, 10, None),
        node(expr_stmt(0, 10), 0, 10, Some(0)),
        node(
            NodeKind::UnaryExpression {
                op: UnaryOp::Typeof,
            },
            0,
            10,
            Some(1),
        ),
        node(NodeKind::ParenthesizedExpression { inner: 4 }, 7, 10, Some(2)),
        node(ident("x"), 8, 9, Some(3)),
    ];
    let out = rewrite(src, nodes, DebugLevel::Off);
    // the guard quotes the parenthesized expression's own source text
    assert!(out.contains("(typeof (x) === 'undefined' ? 'undefined' : "));
}

// Nested binding patterns: every bound name is hoisted, in source order.
#[test]
fn nested_patterns_hoist_all_names() {
    let src = "const {a, b: [c, ...d] = q, ...e} = f();";
    let pattern = Pattern::ObjectPattern {
        properties: vec![
            Pattern::Ident { name: b("a") },
            Pattern::DefaultPattern {
                inner: Box::new(Pattern::ArrayPattern {
                    elements: vec![
                        Some(Pattern::Ident { name: b("c") }),
                        Some(Pattern::RestElement {
                            inner: Box::new(Pattern::Ident { name: b("d") }),
                        }),
                    ],
                }),
            },
            Pattern::RestElement {
                inner: Box::new(Pattern::Ident { name: b("e") }),
            },
        ],
    };
    let mut names: Vec<Vec<u8>> = Vec::new();
    collect_pattern_names(&pattern, &mut names);
    assert_eq!(names, vec![b("a"), b("c"), b("d"), b("e")]);

    let declarator_span = Span {
        start: 6,
        end: src.len() - 1,
    };
    let nodes = vec![
        node(NodeKind::Program, 0, src.len(), None),
        node(
            NodeKind::VariableDeclaration {
                declarators: vec![Declarator {
                    span: declarator_span,
                    pattern,
                }],
            },
            0,
            src.len(),
            Some(0),
        ),
    ];
    let out = rewrite(src, nodes, DebugLevel::Off);
    assert!(out.starts_with("var a;var c;var d;var e;"));
}

// An array pattern hole contributes nothing.
#[test]
fn array_pattern_hole() {
    let pattern = Pattern::ArrayPattern {
        elements: vec![
            None,
            Some(Pattern::Ident { name: b("x") }),
            None,
        ],
    };
    let mut names: Vec<Vec<u8>> = Vec::new();
    collect_pattern_names(&pattern, &mut names);
    assert_eq!(names, vec![b("x")]);
}

// Directives survive at the very start of the output, after the hoisted
// variable declarations.
#[test]
fn directives_preserved() {
    let src = "1";
    let nodes = vec![
        node(NodeKind::Program, 0, 1, None),
        node(expr_stmt(0, 1), 0, 1, Some(0)),
        node(NodeKind::Other, 0, 1, Some(1)),
    ];
    let tree = Tree { nodes };
    let out = rewrite_tree(
        &b(src),
        &tree,
        &vec![b("use strict")],
        DebugLevel::Off,
    )
    .unwrap();
    let out = String::from_utf8(out).unwrap();
    assert!(out.starts_with("\"use strict\";;(() => {"));
}

// A function node without a body is refused with the fixed diagnostic.
#[test]
fn function_without_body_is_an_error() {
    let src = "function f();";
    let nodes = vec![
        node(NodeKind::Program, 0, 13, None),
        node(
            NodeKind::Function {
                is_async: false,
                name: Some(FunctionName {
                    text: b("f"),
                    span: Span { start: 9, end: 10 },
                }),
                body: None,
            },
            0,
            13,
            Some(0),
        ),
    ];
    let err = rewrite_tree(&b(src), &Tree { nodes }, &Vec::new(), DebugLevel::Off).unwrap_err();
    assert_eq!(err, RewriteError::FunctionWithoutBody);
    assert_eq!(err.message(), "bad FnDecl without body");
}

// A node list that is not a preorder tree over the source is refused.
#[test]
fn malformed_tree_is_an_error() {
    let src = "x";
    // parent link points forward: not a preorder tree
    let nodes = vec![
        node(NodeKind::Program, 0, 1, Some(1)),
        node(ident("x"), 0, 1, None),
    ];
    let tree = Tree { nodes };
    assert!(!check_wf(&tree, src.len()));
    let err = rewrite_tree(&b(src), &tree, &Vec::new(), DebugLevel::Off).unwrap_err();
    assert_eq!(err, RewriteError::MalformedTree);
    assert_eq!(err.message(), "malformed syntax tree");

    // a span outside the source buffer is refused too
    let tree2 = Tree {
        nodes: vec![node(NodeKind::Program, 0, 2, None)],
    };
    assert_eq!(
        rewrite_tree(&b(src), &tree2, &Vec::new(), DebugLevel::Off).unwrap_err(),
        RewriteError::MalformedTree
    );
}

// The category comment of every node is inserted at the node's start under
// the types-only debug level.
#[test]
fn types_only_debug_comments() {
    let src = "1+1";
    let nodes = vec![
        node(NodeKind::Program, 0, 3, None),
        node(expr_stmt(0, 3), 0, 3, Some(0)),
        node(NodeKind::Other, 0, 3, Some(1)),
    ];
    let out = rewrite(src, nodes, DebugLevel::TypesOnly);
    assert!(out.contains(" /*Program*/ "));
    assert!(out.contains(" /*ExpressionStatement*/ "));
    assert!(out.contains(" /*Other*/ "));
}

// Verbose debug wraps every insertion in a `/*iN@O*/` trace comment with its
// production number and offset; the closing marker is suppressed when the
// payload itself contains a comment opener.
#[test]
fn verbose_debug_trace_tags() {
    let src = "1+1";
    let nodes = vec![node(NodeKind::Program, 0, 3, None)];
    let out = rewrite(src, nodes, DebugLevel::Verbose);
    // insertion 0 is the IIFE opener at offset 0
    assert!(out.starts_with("/*i0@0*/;(() => { const __SymbolFor = Symbol.for;/*i0@0*/"));
    // the runtime closer contains `/*`, so its tag has no closing marker
    assert!(out.contains("/*i3@3"));
    assert!(!out.contains("/*i3@3*/"));
}

// The sort key: ascending offsets; at one offset closers come first, stacked
// openers keep production order, stacked closers reverse it.
#[test]
fn sort_order_of_insertions() {
    let mut list = InsertionList::new();
    list.push_pair(Insertion::pair(Span { start: 0, end: 5 }, b("O1"), b("C1")));
    list.push_pair(Insertion::pair(Span { start: 5, end: 9 }, b("O2"), b("C2")));
    list.push_pair(Insertion::pair(Span { start: 2, end: 7 }, b("A"), b("ca")));
    list.push_pair(Insertion::pair(Span { start: 2, end: 7 }, b("B"), b("cb")));
    list.sort();
    let texts: Vec<String> = list
        .list
        .iter()
        .map(|i| String::from_utf8(i.text.clone()).unwrap())
        .collect();
    // offset 0: O1; offset 2: A then B (production order); offset 5: the
    // closer C1 before the opener O2; offset 7: cb before ca (reverse
    // production order); offset 9: C2.
    assert_eq!(texts, vec!["O1", "A", "B", "C1", "O2", "cb", "ca", "C2"]);
    // the sort numbered every insertion by production order
    assert_eq!(list.list[0].original_ordering, Some(0));
}

// `Insertion::len` reports the text length.
#[test]
fn insertion_len() {
    let ins = Insertion::new(3, b("abc"), false);
    assert_eq!(ins.len(), 3);
    assert_eq!(ins.offset, 3);
    assert!(!ins.reverse);
}

// Several declarators share one comment-out and one parenthesization, and
// every declarator's name is hoisted.
#[test]
fn multiple_declarators() {
    let src = "let a = 1, b = 2;";
    let nodes = vec![
        node(NodeKind::Program, 0, 17, None),
        node(
            NodeKind::VariableDeclaration {
                declarators: vec![
                    Declarator {
                        span: Span { start: 4, end: 9 },
                        pattern: Pattern::Ident { name: b("a") },
                    },
                    Declarator {
                        span: Span { start: 11, end: 16 },
                        pattern: Pattern::Ident { name: b("b") },
                    },
                ],
            },
            0,
            17,
            Some(0),
        ),
        node(NodeKind::Other, 4, 9, Some(1)),
        node(NodeKind::Other, 11, 16, Some(1)),
    ];
    let out = rewrite(src, nodes, DebugLevel::Off);
    assert!(out.starts_with("var a;var b;"));
    assert!(out.contains("/*let */(a = 1, b = 2)"));
}

// An optional chain is wrapped unless it is a callee.
#[test]
fn chain_expression_wrapped() {
    let src = "a?.b";
    let nodes = vec![
        node(NodeKind::Program, 0, 4, None),
        node(expr_stmt(0, 4), 0, 4, Some(0)),
        node(NodeKind::ChainExpression, 0, 4, Some(1)),
        node(NodeKind::MemberExpression, 0, 4, Some(2)),
        node(ident("a"), 0, 1, Some(3)),
    ];
    let out = rewrite(src, nodes, DebugLevel::Off);
    // the chain is wrapped; the member inside it is not a callee either, so
    // it is wrapped as well, as is `a`
    assert!(out.contains("(_ex = (_ex = (_ex = a, _isp(_ex) ? await _ex : _ex)?.b"));
}

// A bare `return` inside a non-async function is left alone.
#[test]
fn bare_return_untouched() {
    let src = "function f(){ return }";
    let nodes = vec![
        node(NodeKind::Program, 0, 22, None),
        node(
            NodeKind::Function {
                is_async: false,
                name: Some(FunctionName {
                    text: b("f"),
                    span: Span { start: 9, end: 10 },
                }),
                body: Some(Span { start: 12, end: 22 }),
            },
            0,
            22,
            Some(0),
        ),
        node(NodeKind::FunctionBody, 12, 22, Some(1)),
        node(
            NodeKind::ReturnStatement { argument: None },
            14,
            20,
            Some(2),
        ),
    ];
    let out = rewrite(src, nodes, DebugLevel::Off);
    assert!(!out.contains("(_synchronousReturnValue = ("));
    assert!(out.contains("return "));
}

// `eval` is a special identifier and is never wrapped.
#[test]
fn eval_untouched() {
    let src = "eval";
    let nodes = vec![
        node(NodeKind::Program, 0, 4, None),
        node(expr_stmt(0, 4), 0, 4, Some(0)),
        node(ident("eval"), 0, 4, Some(1)),
    ];
    let out = rewrite(src, nodes, DebugLevel::Off);
    assert!(!out.contains("(_ex = "));
    assert!(out.contains(";_cr = (eval);"));
}
