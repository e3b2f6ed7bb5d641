//! The per-node rule engine: for every node of the tree, the insertions and
//! hoisted names that the rewrite demands, stated first as specification
//! functions and then computed by `collect_insertions`.

use vstd::prelude::*;
use vstd::string::StringSliceAdditionalSpecFns;
use crate::Span;
use crate::DebugLevel;
use crate::RewriteError;
use crate::insertion::{Insertion, InsertionList, InsertionModel, models, name_views};
use crate::text::bytes_of;
use crate::text::push_bytes;
use crate::text::push_str_bytes;
use crate::text::bytes_eq_str;
use crate::tree::{Tree, NodeKind, UnaryOp, Declarator, pattern_names};
use crate::tree::{enclosing_function, identifier_reference, kind_is_async_function,
    kind_forbids_wrap, clone_bytes, collect_pattern_names};

verus! {

/// An insertion model without a production number yet.
pub open spec fn ins_m(offset: int, text: Seq<u8>, reverse: bool) -> InsertionModel {
    InsertionModel { offset, text, ordering: None, reverse }
}

/// An opening/closing pair: opener at `start`, closer at `end`.
pub open spec fn pair_m(start: int, end: int, open: Seq<u8>, close: Seq<u8>) -> Seq<
    InsertionModel,
> {
    seq![ins_m(start, open, false), ins_m(end, close, true)]
}

/// Opener of the implicit-await envelope.
pub open spec fn wrap_open_text() -> Seq<u8> {
    "(_ex = ".spec_bytes()
}

/// Closer of the implicit-await envelope.
pub open spec fn wrap_close_text() -> Seq<u8> {
    ", _isp(_ex) ? await _ex : _ex)".spec_bytes()
}

/// Opener of the non-async function wrap: declares the synthetic-promise
/// helpers and the function-state machine, then opens an async IIFE.
pub open spec fn runtime_open_text() -> Seq<u8> {
    "
    ;const _syntheticPromise = __SymbolFor('@@mongosh.syntheticPromise');

    function _markSyntheticPromise(p) {
        return Object.defineProperty(p, _syntheticPromise, {
            value: true,
        });
    }

    function _isp(p) {
        return p && p[_syntheticPromise];
    }

    let _functionState = 'sync', _synchronousReturnValue, _ex;

    const _asynchronousReturnValue = (async () => {
    try {".spec_bytes()
}

/// Closer of the non-async function wrap: routes synchronous completion,
/// synchronous throw, and suspension through the state machine.
pub open spec fn runtime_close_text() -> Seq<u8> {
    "
        } catch (err) {
            if (_functionState === 'sync') {
                /* Forward synchronous exceptions. */
                _synchronousReturnValue = err;
                _functionState = 'threw';
            } else {
                throw err;
            }
            } finally {
            if (_functionState !== 'threw') {
                _functionState = 'returned';
            }
        }

        })();

        if (_functionState === 'returned') {
            return _synchronousReturnValue;
        } else if (_functionState === 'threw') {
            throw _synchronousReturnValue;
        }

        _functionState = 'async';
        return _markSyntheticPromise(_asynchronousReturnValue);
        ".spec_bytes()
}

/// Opener of the explicit return injected around an arrow's expression body.
pub open spec fn arrow_return_open_text() -> Seq<u8> {
    "return (_synchronousReturnValue = (".spec_bytes()
}

/// Opener of the return-value tracking of an explicit `return` argument.
pub open spec fn return_open_text() -> Seq<u8> {
    "(_synchronousReturnValue = (".spec_bytes()
}

/// Closer shared by both return trackers.
pub open spec fn return_close_text() -> Seq<u8> {
    "), _functionState === 'async' ? _synchronousReturnValue : null);".spec_bytes()
}

/// Marker for an anonymous top-level function declaration.
pub open spec fn no_ident_text() -> Seq<u8> {
    "/*no ident token*/".spec_bytes()
}

/// Renames a top-level function `F` to `F__`.
pub open spec fn hoist_open_text() -> Seq<u8> {
    "__".spec_bytes()
}

/// After a top-level function `F`: records it as the completion record and
/// binds the hoisted name.
pub open spec fn hoist_close_text(name: Seq<u8>) -> Seq<u8> {
    ";\n_cr = ".spec_bytes() + name + " = ".spec_bytes() + name + "__;\n".spec_bytes()
}

/// Before a top-level class `C`: records it as the completion record and
/// binds the hoisted name.
pub open spec fn class_open_text(name: Seq<u8>) -> Seq<u8> {
    "_cr = ".spec_bytes() + name + " = ".spec_bytes()
}

/// Opener of the completion-record tracking of a top-level expression.
pub open spec fn cr_open_text() -> Seq<u8> {
    "_cr = (".spec_bytes()
}

/// The defined-check that guards a rewritten `typeof` over an identifier.
pub open spec fn typeof_open_text(source: Seq<u8>) -> Seq<u8> {
    "(typeof ".spec_bytes() + source + " === 'undefined' ? 'undefined' : ".spec_bytes()
}

/// The node-category trace comment.
pub open spec fn kind_comment_text(name: Seq<u8>) -> Seq<u8> {
    " /*".spec_bytes() + name + "*/ ".spec_bytes()
}

/// The category name of a node kind, as written in trace comments.
pub open spec fn kind_name(k: NodeKind) -> Seq<u8> {
    match k {
        NodeKind::Program => "Program".spec_bytes(),
        NodeKind::Function { .. } => "Function".spec_bytes(),
        NodeKind::ArrowFunctionExpression { .. } => "ArrowFunctionExpression".spec_bytes(),
        NodeKind::Class { .. } => "Class".spec_bytes(),
        NodeKind::VariableDeclaration { .. } => "VariableDeclaration".spec_bytes(),
        NodeKind::ExpressionStatement { .. } => "ExpressionStatement".spec_bytes(),
        NodeKind::ReturnStatement { .. } => "ReturnStatement".spec_bytes(),
        NodeKind::IdentifierReference { .. } => "IdentifierReference".spec_bytes(),
        NodeKind::ParenthesizedExpression { .. } => "ParenthesizedExpression".spec_bytes(),
        NodeKind::CallExpression => "CallExpression".spec_bytes(),
        NodeKind::ChainExpression => "ChainExpression".spec_bytes(),
        NodeKind::MemberExpression => "MemberExpression".spec_bytes(),
        NodeKind::UnaryExpression { .. } => "UnaryExpression".spec_bytes(),
        NodeKind::ObjectProperty => "ObjectProperty".spec_bytes(),
        NodeKind::FunctionBody => "FunctionBody".spec_bytes(),
        NodeKind::ForStatementInit => "ForStatementInit".spec_bytes(),
        NodeKind::AssignmentTarget => "AssignmentTarget".spec_bytes(),
        NodeKind::SimpleAssignmentTarget => "SimpleAssignmentTarget".spec_bytes(),
        NodeKind::AssignmentTargetPattern => "AssignmentTargetPattern".spec_bytes(),
        NodeKind::AssignmentTargetWithDefault => "AssignmentTargetWithDefault".spec_bytes(),
        NodeKind::AwaitExpression => "AwaitExpression".spec_bytes(),
        NodeKind::FormalParameter => "FormalParameter".spec_bytes(),
        NodeKind::Other => "Other".spec_bytes(),
    }
}

/// The trace comment a node contributes when the debug level asks for types.
pub open spec fn debug_part(tree: Tree, i: int, debug: DebugLevel) -> Seq<InsertionModel> {
    if debug.spec_shows_types() {
        seq![
            ins_m(
                tree.nodes@[i].span.start as int,
                kind_comment_text(kind_name(tree.nodes@[i].kind)),
                false,
            ),
        ]
    } else {
        Seq::empty()
    }
}

/// The body wrap of a non-async function: force a block body, install the
/// state machine, and, for an arrow's expression body, make the implicit
/// return explicit and track it.
pub open spec fn fn_wrap_part(body: Span, has_block_body: bool) -> Seq<InsertionModel> {
    pair_m(body.start as int, body.end as int, "{".spec_bytes(), "}".spec_bytes()) + pair_m(
        body.start as int,
        body.end as int,
        runtime_open_text(),
        runtime_close_text(),
    ) + if !has_block_body {
        pair_m(
            body.start as int,
            body.end as int,
            arrow_return_open_text(),
            return_close_text(),
        )
    } else {
        Seq::empty()
    }
}

/// The parent node is a `for` statement's init position.
pub open spec fn parent_is_for_init(tree: Tree, i: int) -> bool {
    match tree.parent_idx(i) {
        Some(p) => tree.nodes@[p].kind is ForStatementInit,
        None => false,
    }
}

/// The parent node is a call expression.
pub open spec fn parent_is_call(tree: Tree, i: int) -> bool {
    match tree.parent_idx(i) {
        Some(p) => tree.nodes@[p].kind is CallExpression,
        None => false,
    }
}

/// The parent node is an object property.
pub open spec fn parent_is_object_property(tree: Tree, i: int) -> bool {
    match tree.parent_idx(i) {
        Some(p) => tree.nodes@[p].kind is ObjectProperty,
        None => false,
    }
}

/// The parent node is a position that forbids wrapping.
pub open spec fn parent_forbids_wrap(tree: Tree, i: int) -> bool {
    match tree.parent_idx(i) {
        Some(p) => tree.nodes@[p].kind.forbids_wrap(),
        None => false,
    }
}

/// The parent node is a unary expression with the given operator.
pub open spec fn parent_is_unary(tree: Tree, i: int, op: UnaryOp) -> bool {
    match tree.parent_idx(i) {
        Some(p) => match tree.nodes@[p].kind {
            NodeKind::UnaryExpression { op: pop } => pop == op,
            _ => false,
        },
        None => false,
    }
}

/// The insertions of a function declaration or expression node.
pub open spec fn function_part(tree: Tree, i: int) -> Seq<InsertionModel> {
    let n = tree.nodes@[i];
    match n.kind {
        NodeKind::Function { is_async, name, body } => (if tree.enclosing_fn(i) is None {
            match name {
                None => seq![ins_m(n.span.start as int, no_ident_text(), false)],
                Some(fname) => pair_m(
                    fname.span.end as int,
                    n.span.end as int,
                    hoist_open_text(),
                    hoist_close_text(fname.text@),
                ),
            }
        } else {
            Seq::empty()
        }) + (match body {
            Some(b) => if !is_async {
                fn_wrap_part(b, true)
            } else {
                Seq::empty()
            },
            None => Seq::empty(),
        }),
        _ => Seq::empty(),
    }
}

/// The insertions of an arrow function node.
pub open spec fn arrow_part(tree: Tree, i: int) -> Seq<InsertionModel> {
    match tree.nodes@[i].kind {
        NodeKind::ArrowFunctionExpression { is_async, expression, body } => if !is_async {
            fn_wrap_part(body, !expression)
        } else {
            Seq::empty()
        },
        _ => Seq::empty(),
    }
}

/// The insertions of a class node: a top-level named class becomes the
/// completion record and its name is hoisted.
pub open spec fn class_part(tree: Tree, i: int) -> Seq<InsertionModel> {
    let n = tree.nodes@[i];
    match n.kind {
        NodeKind::Class { name } => if tree.enclosing_fn(i) is None {
            match name {
                Some(cname) => pair_m(
                    n.span.start as int,
                    n.span.end as int,
                    class_open_text(cname@),
                    ";".spec_bytes(),
                ),
                None => Seq::empty(),
            }
        } else {
            Seq::empty()
        },
        _ => Seq::empty(),
    }
}

/// The lowest start offset of the declarators.
pub open spec fn min_decl_start(ds: Seq<Declarator>) -> int
    decreases ds,
{
    if ds.len() <= 1 {
        ds[0].span.start as int
    } else {
        let m = min_decl_start(ds.drop_last());
        if ds.last().span.start < m {
            ds.last().span.start as int
        } else {
            m
        }
    }
}

/// The highest end offset of the declarators.
pub open spec fn max_decl_end(ds: Seq<Declarator>) -> int
    decreases ds,
{
    if ds.len() <= 1 {
        ds[0].span.end as int
    } else {
        let m = max_decl_end(ds.drop_last());
        if ds.last().span.end > m {
            ds.last().span.end as int
        } else {
            m
        }
    }
}

/// A variable declaration is rewritten only at the top level and not as a
/// `for` statement's init.
pub open spec fn var_decl_applies(tree: Tree, i: int) -> bool {
    &&& !parent_is_for_init(tree, i)
    &&& tree.enclosing_fn(i) is None
}

/// The insertions of a variable declaration node: comment out the declarator
/// keyword and turn the declarator list into a parenthesized expression.
pub open spec fn var_decl_part(tree: Tree, i: int) -> Seq<InsertionModel> {
    let n = tree.nodes@[i];
    match n.kind {
        NodeKind::VariableDeclaration { declarators } => if var_decl_applies(tree, i) {
            pair_m(
                n.span.start as int,
                min_decl_start(declarators@),
                "/*".spec_bytes(),
                "*/".spec_bytes(),
            ) + pair_m(
                min_decl_start(declarators@),
                max_decl_end(declarators@),
                "(".spec_bytes(),
                ")".spec_bytes(),
            )
        } else {
            Seq::empty()
        },
        _ => Seq::empty(),
    }
}

/// An expression statement that is the body of an arrow function is already
/// the implicit return and is left alone.
pub open spec fn expr_stmt_suppressed(tree: Tree, i: int) -> bool {
    match tree.parent_idx(i) {
        Some(p) => tree.nodes@[p].kind is FunctionBody && (match tree.parent_idx(p) {
            Some(pp) => tree.nodes@[pp].kind is ArrowFunctionExpression,
            None => false,
        }),
        None => false,
    }
}

/// The insertions of an expression statement: isolating semicolons, and at
/// the top level the completion-record tracking.
pub open spec fn expr_stmt_part(tree: Tree, i: int) -> Seq<InsertionModel> {
    match tree.nodes@[i].kind {
        NodeKind::ExpressionStatement { expression } => if !expr_stmt_suppressed(tree, i) {
            pair_m(
                expression.start as int,
                expression.end as int,
                ";".spec_bytes(),
                ";".spec_bytes(),
            ) + if tree.enclosing_fn(i) is None {
                pair_m(
                    expression.start as int,
                    expression.end as int,
                    cr_open_text(),
                    ")".spec_bytes(),
                )
            } else {
                Seq::empty()
            }
        } else {
            Seq::empty()
        },
        _ => Seq::empty(),
    }
}

/// The insertions of a return statement inside a non-async function: track
/// the function state and return value.
pub open spec fn return_part(tree: Tree, i: int) -> Seq<InsertionModel> {
    match tree.nodes@[i].kind {
        NodeKind::ReturnStatement { argument } => if tree.enclosing_fn(i) is Some
            && !tree.enclosing_fn_is_async(i) {
            match argument {
                Some(a) => pair_m(
                    a.start as int,
                    a.end as int,
                    return_open_text(),
                    return_close_text(),
                ),
                None => Seq::empty(),
            }
        } else {
            Seq::empty()
        },
        _ => Seq::empty(),
    }
}

/// The name of the identifier that node `i` refers to, empty when it is not
/// an identifier reference.
pub open spec fn ident_name_of(tree: Tree, i: int) -> Seq<u8> {
    match tree.ident_ref(i) {
        Some(j) => match tree.nodes@[j].kind {
            NodeKind::IdentifierReference { name } => name@,
            _ => Seq::empty(),
        },
        None => Seq::empty(),
    }
}

/// Identifiers that are never wrapped.
pub open spec fn is_special_name(nm: Seq<u8>) -> bool {
    ||| nm == "eval".spec_bytes()
    ||| nm == "this".spec_bytes()
    ||| nm == "super".spec_bytes()
}

/// A shorthand-object-property identifier is left entirely alone.
pub open spec fn object_prop_skip(tree: Tree, i: int) -> bool {
    tree.ident_ref(i) is Some && parent_is_object_property(tree, i)
}

/// Whether node `i` is the identifier operand of a unary `typeof`.
pub open spec fn typeof_rhs(tree: Tree, i: int) -> bool {
    &&& tree.ident_ref(i) is Some
    &&& parent_is_unary(tree, i, UnaryOp::Typeof)
}

/// The span the implicit-await envelope wraps, if any: identifiers that are
/// not `eval`/`this`/`super`, call expressions, and chain or member
/// expressions that are not callees — unless the node stands in a position
/// that forbids wrapping (a `delete` or `await` operand, an assignment
/// target, a `for` init, a formal parameter).
pub open spec fn wrap_decision(tree: Tree, i: int) -> Option<Span> {
    let n = tree.nodes@[i];
    if parent_forbids_wrap(tree, i) || parent_is_unary(tree, i, UnaryOp::Delete) {
        None
    } else if tree.ident_ref(i) is Some && !is_special_name(ident_name_of(tree, i)) {
        Some(n.span)
    } else if n.kind is CallExpression {
        Some(n.span)
    } else if (n.kind is ChainExpression || n.kind is MemberExpression) && !parent_is_call(
        tree,
        i,
    ) {
        Some(n.span)
    } else {
        None
    }
}

/// The defined-check insertions of a rewritten `typeof` over an identifier,
/// anchored at the unary parent's span, quoting the node's raw source text.
pub open spec fn typeof_part(tree: Tree, src: Seq<u8>, i: int) -> Seq<InsertionModel> {
    if typeof_rhs(tree, i) {
        let n = tree.nodes@[i];
        let p = tree.parent_idx(i)->Some_0;
        let pspan = tree.nodes@[p].span;
        pair_m(
            pspan.start as int,
            pspan.end as int,
            typeof_open_text(src.subrange(n.span.start as int, n.span.end as int)),
            ")".spec_bytes(),
        )
    } else {
        Seq::empty()
    }
}

/// The implicit-await envelope insertions, if the decision says to wrap.
pub open spec fn wrap_part(tree: Tree, i: int) -> Seq<InsertionModel> {
    match wrap_decision(tree, i) {
        Some(s) => pair_m(s.start as int, s.end as int, wrap_open_text(), wrap_close_text()),
        None => Seq::empty(),
    }
}

/// The insertions of every node that is not one of the statement-level
/// categories: the `typeof` defined-check and the implicit-await envelope.
pub open spec fn expr_part(tree: Tree, src: Seq<u8>, i: int) -> Seq<InsertionModel> {
    if object_prop_skip(tree, i) {
        Seq::empty()
    } else {
        typeof_part(tree, src, i) + wrap_part(tree, i)
    }
}

/// All insertions that node `i` contributes.
pub open spec fn node_insertions(tree: Tree, src: Seq<u8>, i: int, debug: DebugLevel) -> Seq<
    InsertionModel,
> {
    debug_part(tree, i, debug) + (match tree.nodes@[i].kind {
        NodeKind::Function { .. } => function_part(tree, i),
        NodeKind::ArrowFunctionExpression { .. } => arrow_part(tree, i),
        NodeKind::Class { .. } => class_part(tree, i),
        NodeKind::VariableDeclaration { .. } => var_decl_part(tree, i),
        NodeKind::ExpressionStatement { .. } => expr_stmt_part(tree, i),
        NodeKind::ReturnStatement { .. } => return_part(tree, i),
        _ => expr_part(tree, src, i),
    })
}

/// The names of all declarators, in order.
pub open spec fn decls_names(ds: Seq<Declarator>) -> Seq<Seq<u8>>
    decreases ds,
{
    if ds.len() == 0 {
        Seq::empty()
    } else {
        decls_names(ds.drop_last()) + pattern_names(ds.last().pattern)
    }
}

/// The names that node `i` hoists to the start of the output.
pub open spec fn node_vars(tree: Tree, i: int) -> Seq<Seq<u8>> {
    let n = tree.nodes@[i];
    match n.kind {
        NodeKind::Function { name, .. } => if tree.enclosing_fn(i) is None {
            match name {
                Some(fname) => seq![fname.text@],
                None => Seq::empty(),
            }
        } else {
            Seq::empty()
        },
        NodeKind::Class { name } => if tree.enclosing_fn(i) is None {
            match name {
                Some(cname) => seq![cname@],
                None => Seq::empty(),
            }
        } else {
            Seq::empty()
        },
        NodeKind::VariableDeclaration { declarators } => if var_decl_applies(tree, i) {
            decls_names(declarators@)
        } else {
            Seq::empty()
        },
        _ => Seq::empty(),
    }
}

/// Whether node `i` is a function node without a body — the one tree shape
/// the rewrite refuses.
pub open spec fn fn_without_body(tree: Tree, i: int) -> bool {
    match tree.nodes@[i].kind {
        NodeKind::Function { body, .. } => body is None,
        _ => false,
    }
}


/// Builds the opener of the implicit-await envelope.
pub fn make_wrap_open() -> (r: Vec<u8>)
    ensures
        r@ == wrap_open_text(),
{
    bytes_of("(_ex = ")
}

/// Builds the closer of the implicit-await envelope.
pub fn make_wrap_close() -> (r: Vec<u8>)
    ensures
        r@ == wrap_close_text(),
{
    bytes_of(", _isp(_ex) ? await _ex : _ex)")
}

/// Builds the opener of the non-async function wrap.
pub fn make_runtime_open() -> (r: Vec<u8>)
    ensures
        r@ == runtime_open_text(),
{
    bytes_of("
    ;const _syntheticPromise = __SymbolFor('@@mongosh.syntheticPromise');

    function _markSyntheticPromise(p) {
        return Object.defineProperty(p, _syntheticPromise, {
            value: true,
        });
    }

    function _isp(p) {
        return p && p[_syntheticPromise];
    }

    let _functionState = 'sync', _synchronousReturnValue, _ex;

    const _asynchronousReturnValue = (async () => {
    try {")
}

/// Builds the closer of the non-async function wrap.
pub fn make_runtime_close() -> (r: Vec<u8>)
    ensures
        r@ == runtime_close_text(),
{
    bytes_of("
        } catch (err) {
            if (_functionState === 'sync') {
                /* Forward synchronous exceptions. */
                _synchronousReturnValue = err;
                _functionState = 'threw';
            } else {
                throw err;
            }
            } finally {
            if (_functionState !== 'threw') {
                _functionState = 'returned';
            }
        }

        })();

        if (_functionState === 'returned') {
            return _synchronousReturnValue;
        } else if (_functionState === 'threw') {
            throw _synchronousReturnValue;
        }

        _functionState = 'async';
        return _markSyntheticPromise(_asynchronousReturnValue);
        ")
}

/// Builds the pair of insertions that set up the function-state machine of a
/// non-async function around `span`.
pub fn make_fn_insertions(span: Span) -> (r: (Insertion, Insertion))
    ensures
        r.0@ == ins_m(span.start as int, runtime_open_text(), false),
        r.1@ == ins_m(span.end as int, runtime_close_text(), true),
{
    Insertion::pair(span, make_runtime_open(), make_runtime_close())
}

/// Builds the closer shared by both return trackers.
pub fn make_return_close() -> (r: Vec<u8>)
    ensures
        r@ == return_close_text(),
{
    bytes_of("), _functionState === 'async' ? _synchronousReturnValue : null);")
}

/// Builds the closing text of a top-level function hoist for `name`.
pub fn make_hoist_close(name: &Vec<u8>) -> (r: Vec<u8>)
    ensures
        r@ == hoist_close_text(name@),
{
    let mut v = bytes_of(";\n_cr = ");
    push_bytes(&mut v, name.as_slice());
    push_str_bytes(&mut v, " = ");
    push_bytes(&mut v, name.as_slice());
    push_str_bytes(&mut v, "__;\n");
    assert(v@ =~= hoist_close_text(name@));
    v
}

/// Builds the opening text of a top-level class hoist for `name`.
pub fn make_class_open(name: &Vec<u8>) -> (r: Vec<u8>)
    ensures
        r@ == class_open_text(name@),
{
    let mut v = bytes_of("_cr = ");
    push_bytes(&mut v, name.as_slice());
    push_str_bytes(&mut v, " = ");
    assert(v@ =~= class_open_text(name@));
    v
}

/// Builds the defined-check opener of a rewritten `typeof`, quoting the raw
/// source of the node at `span`.
pub fn make_typeof_open(src: &Vec<u8>, span: Span) -> (r: Vec<u8>)
    requires
        span.valid(src@.len()),
    ensures
        r@ == typeof_open_text(src@.subrange(span.start as int, span.end as int)),
{
    let mut v = bytes_of("(typeof ");
    let s: &[u8] = src.as_slice();
    push_bytes(&mut v, &s[span.start..span.end]);
    push_str_bytes(&mut v, " === 'undefined' ? 'undefined' : ");
    assert(v@ =~= typeof_open_text(src@.subrange(span.start as int, span.end as int)));
    v
}

/// Appends the category name of `k` to `v`.
fn push_kind_name(v: &mut Vec<u8>, k: &NodeKind)
    ensures
        final(v)@ == old(v)@ + kind_name(*k),
{
    match k {
        NodeKind::Program => push_str_bytes(v, "Program"),
        NodeKind::Function { .. } => push_str_bytes(v, "Function"),
        NodeKind::ArrowFunctionExpression { .. } => push_str_bytes(v, "ArrowFunctionExpression"),
        NodeKind::Class { .. } => push_str_bytes(v, "Class"),
        NodeKind::VariableDeclaration { .. } => push_str_bytes(v, "VariableDeclaration"),
        NodeKind::ExpressionStatement { .. } => push_str_bytes(v, "ExpressionStatement"),
        NodeKind::ReturnStatement { .. } => push_str_bytes(v, "ReturnStatement"),
        NodeKind::IdentifierReference { .. } => push_str_bytes(v, "IdentifierReference"),
        NodeKind::ParenthesizedExpression { .. } => push_str_bytes(v, "ParenthesizedExpression"),
        NodeKind::CallExpression => push_str_bytes(v, "CallExpression"),
        NodeKind::ChainExpression => push_str_bytes(v, "ChainExpression"),
        NodeKind::MemberExpression => push_str_bytes(v, "MemberExpression"),
        NodeKind::UnaryExpression { .. } => push_str_bytes(v, "UnaryExpression"),
        NodeKind::ObjectProperty => push_str_bytes(v, "ObjectProperty"),
        NodeKind::FunctionBody => push_str_bytes(v, "FunctionBody"),
        NodeKind::ForStatementInit => push_str_bytes(v, "ForStatementInit"),
        NodeKind::AssignmentTarget => push_str_bytes(v, "AssignmentTarget"),
        NodeKind::SimpleAssignmentTarget => push_str_bytes(v, "SimpleAssignmentTarget"),
        NodeKind::AssignmentTargetPattern => push_str_bytes(v, "AssignmentTargetPattern"),
        NodeKind::AssignmentTargetWithDefault => push_str_bytes(v, "AssignmentTargetWithDefault"),
        NodeKind::AwaitExpression => push_str_bytes(v, "AwaitExpression"),
        NodeKind::FormalParameter => push_str_bytes(v, "FormalParameter"),
        NodeKind::Other => push_str_bytes(v, "Other"),
    }
}

/// Builds the node-category trace comment for `k`.
pub fn make_kind_comment(k: &NodeKind) -> (r: Vec<u8>)
    ensures
        r@ == kind_comment_text(kind_name(*k)),
{
    let mut v = bytes_of(" /*");
    push_kind_name(&mut v, k);
    push_str_bytes(&mut v, "*/ ");
    assert(v@ =~= kind_comment_text(kind_name(*k)));
    v
}

/// Appends an opening/closing pair to the list.
pub(crate) fn push_pair_text(l: &mut InsertionList, start: usize, end: usize, open: Vec<u8>, close: Vec<u8>)
    ensures
        models(final(l).list@) == models(old(l).list@) + pair_m(
            start as int,
            end as int,
            open@,
            close@,
        ),
        final(l).vars@ == old(l).vars@,
{
    let ghost ot = open@;
    let ghost ct = close@;
    l.push_pair(Insertion::pair(Span::new(start, end), open, close));
    assert(models(l.list@) =~= models(old(l).list@) + pair_m(start as int, end as int, ot, ct));
}

/// Installs the non-async function wrap around `body`: force a block body,
/// set up the state machine, and for an expression body make the implicit
/// return explicit.
pub fn add_fn_insertions(insertions: &mut InsertionList, body: Span, has_block_body: bool)
    ensures
        models(final(insertions).list@) == models(old(insertions).list@) + fn_wrap_part(
            body,
            has_block_body,
        ),
        final(insertions).vars@ == old(insertions).vars@,
{
    push_pair_text(insertions, body.start, body.end, bytes_of("{"), bytes_of("}"));
    insertions.push_pair(make_fn_insertions(body));
    proof {
        assert(models(insertions.list@) =~= models(old(insertions).list@) + pair_m(
            body.start as int,
            body.end as int,
            "{".spec_bytes(),
            "}".spec_bytes(),
        ) + pair_m(body.start as int, body.end as int, runtime_open_text(), runtime_close_text()));
    }
    if !has_block_body {
        push_pair_text(
            insertions,
            body.start,
            body.end,
            bytes_of("return (_synchronousReturnValue = ("),
            make_return_close(),
        );
    }
    assert(models(insertions.list@) =~= models(old(insertions).list@) + fn_wrap_part(
        body,
        has_block_body,
    ));
}

/// A node reached through `ident_ref` is an identifier reference.
pub proof fn lemma_ident_ref_kind(tree: Tree, i: int)
    requires
        tree.inners_ok(),
        0 <= i < tree.len(),
        tree.ident_ref(i) is Some,
    ensures
        ({
            let j = tree.ident_ref(i)->Some_0;
            &&& 0 <= j < tree.len()
            &&& tree.nodes@[j].kind is IdentifierReference
            &&& (match tree.nodes@[j].kind {
                NodeKind::IdentifierReference { name } => ident_name_of(tree, i) == name@,
                _ => false,
            })
        }),
    decreases tree.len() - i,
{
    match tree.nodes@[i].kind {
        NodeKind::ParenthesizedExpression { inner } => {
            lemma_ident_ref_kind(tree, inner as int);
        },
        _ => {},
    }
}

/// Executable mirror of `min_decl_start`.
fn find_min_decl_start(ds: &Vec<Declarator>) -> (r: usize)
    requires
        ds@.len() > 0,
    ensures
        r as int == min_decl_start(ds@),
{
    let n = ds.len();
    let mut m = ds[0].span.start;
    let mut k: usize = 1;
    proof {
        assert(ds@.take(1).len() == 1);
        assert(ds@.take(1)[0] == ds@[0]);
    }
    while k < n
        invariant
            n == ds@.len(),
            1 <= k <= n,
            m as int == min_decl_start(ds@.take(k as int)),
        decreases n - k,
    {
        let s = ds[k].span.start;
        proof {
            assert(ds@.take(k + 1).drop_last() =~= ds@.take(k as int));
            assert(ds@.take(k + 1).last() == ds@[k as int]);
        }
        if s < m {
            m = s;
        }
        k += 1;
    }
    proof {
        assert(ds@.take(n as int) =~= ds@);
    }
    m
}

/// Executable mirror of `max_decl_end`.
fn find_max_decl_end(ds: &Vec<Declarator>) -> (r: usize)
    requires
        ds@.len() > 0,
    ensures
        r as int == max_decl_end(ds@),
{
    let n = ds.len();
    let mut m = ds[0].span.end;
    let mut k: usize = 1;
    proof {
        assert(ds@.take(1).len() == 1);
        assert(ds@.take(1)[0] == ds@[0]);
    }
    while k < n
        invariant
            n == ds@.len(),
            1 <= k <= n,
            m as int == max_decl_end(ds@.take(k as int)),
        decreases n - k,
    {
        let s = ds[k].span.end;
        proof {
            assert(ds@.take(k + 1).drop_last() =~= ds@.take(k as int));
            assert(ds@.take(k + 1).last() == ds@[k as int]);
        }
        if s > m {
            m = s;
        }
        k += 1;
    }
    proof {
        assert(ds@.take(n as int) =~= ds@);
    }
    m
}


/// Collects all insertions and hoisted names that node `i` contributes.
/// This is the main function that does the work of rewriting the source.
pub fn collect_insertions(tree: &Tree, i: usize, src: &Vec<u8>, debug_level: DebugLevel) -> (r:
    Result<InsertionList, RewriteError>)
    requires
        tree.wf(src@.len()),
        i < tree.len(),
    ensures
        match r {
            Ok(l) => {
                &&& models(l.list@) == node_insertions(*tree, src@, i as int, debug_level)
                &&& name_views(l.vars@) == node_vars(*tree, i as int)
            },
            Err(e) => e == RewriteError::FunctionWithoutBody,
        },
        r is Err <==> fn_without_body(*tree, i as int),
{
    proof {
        tree.lemma_wf_implies_links_ok(src@.len());
        assert(tree.node_wf(i as int, src@.len()));
    }
    let ghost t = *tree;
    let ghost ii = i as int;

    let node_span = tree.nodes[i].span;
    let mut insertions = InsertionList::new();

    if debug_level.shows_types() {
        let comment = make_kind_comment(&tree.nodes[i].kind);
        insertions.push_back(Insertion::new(node_span.start, comment, false));
    }
    proof {
        assert(models(insertions.list@) =~= debug_part(t, ii, debug_level));
        assert(name_views(insertions.vars@) =~= Seq::<Seq<u8>>::empty());
    }
    let ghost base = models(insertions.list@);

    // Look up the nearest function-like ancestor, if any.
    let function_parent = enclosing_function(tree, i);
    let function_parent_is_async = match function_parent {
        Some(f) => {
            proof {
                lemma_enclosing_range(t, ii);
            }
            kind_is_async_function(&tree.nodes[f].kind)
        },
        None => false,
    };
    proof {
        assert(function_parent_is_async == t.enclosing_fn_is_async(ii));
    }

    // Classify the parent node.
    let mut parent_for_init = false;
    let mut parent_obj_prop = false;
    let mut parent_call = false;
    let mut parent_forbids_w = false;
    let mut parent_typeof = false;
    let mut parent_delete = false;
    let mut parent_arrow_body = false;
    let mut parent_span = Span::new(0, 0);
    match tree.nodes[i].parent {
        Some(p) => {
            parent_span = tree.nodes[p].span;
            match &tree.nodes[p].kind {
                NodeKind::ForStatementInit => {
                    parent_for_init = true;
                },
                NodeKind::ObjectProperty => {
                    parent_obj_prop = true;
                },
                NodeKind::CallExpression => {
                    parent_call = true;
                },
                NodeKind::UnaryExpression { op } => {
                    match op {
                        UnaryOp::Typeof => {
                            parent_typeof = true;
                        },
                        UnaryOp::Delete => {
                            parent_delete = true;
                        },
                        UnaryOp::OtherOp => {},
                    }
                },
                NodeKind::FunctionBody => {
                    match tree.nodes[p].parent {
                        Some(pp) => {
                            proof {
                                assert(t.node_wf(p as int, src@.len()));
                            }
                            if kind_is_arrow(&tree.nodes[pp].kind) {
                                parent_arrow_body = true;
                            }
                        },
                        None => {},
                    }
                },
                _ => {},
            }
            parent_forbids_w = kind_forbids_wrap(&tree.nodes[p].kind);
        },
        None => {},
    }
    proof {
        assert(parent_for_init == parent_is_for_init(t, ii));
        assert(parent_obj_prop == parent_is_object_property(t, ii));
        assert(parent_call == parent_is_call(t, ii));
        assert(parent_forbids_w == parent_forbids_wrap(t, ii));
        assert(parent_typeof == parent_is_unary(t, ii, UnaryOp::Typeof));
        assert(parent_delete == parent_is_unary(t, ii, UnaryOp::Delete));
        assert(parent_arrow_body == expr_stmt_suppressed(t, ii));
        assert(parent_typeof ==> (t.parent_idx(ii) matches Some(p) && t.nodes@[p].span
            == parent_span));
    }

    match &tree.nodes[i].kind {
        NodeKind::Function { is_async, name, body } => {
            let b: Span = match body {
                Some(bs) => *bs,
                None => {
                    return Err(RewriteError::FunctionWithoutBody);
                },
            };
            if function_parent.is_none() {
                match name {
                    None => {
                        insertions.push_back(
                            Insertion::new(node_span.start, bytes_of("/*no ident token*/"), false),
                        );
                        proof {
                            assert(models(insertions.list@) =~= base + seq![
                                ins_m(node_span.start as int, no_ident_text(), false),
                            ]);
                        }
                    },
                    Some(fname) => {
                        // `function foo() {}` -> `var foo; ... function foo__() {};
                        // _cr = foo = foo__;` so that a top-level function
                        // declaration counts as a completion record.
                        let hoist_close = make_hoist_close(&fname.text);
                        push_pair_text(
                            &mut insertions,
                            fname.span.end,
                            node_span.end,
                            bytes_of("__"),
                            hoist_close,
                        );
                        insertions.add_variable(clone_bytes(&fname.text));
                    },
                }
            }
            if !*is_async {
                add_fn_insertions(&mut insertions, b, true);
            }
            proof {
                assert(models(insertions.list@) =~= node_insertions(t, src@, ii, debug_level));
                assert(name_views(insertions.vars@) =~= node_vars(t, ii));
            }
            Ok(insertions)
        },
        NodeKind::ArrowFunctionExpression { is_async, expression, body } => {
            if !*is_async {
                add_fn_insertions(&mut insertions, *body, !*expression);
            }
            proof {
                assert(models(insertions.list@) =~= node_insertions(t, src@, ii, debug_level));
                assert(name_views(insertions.vars@) =~= node_vars(t, ii));
            }
            Ok(insertions)
        },
        NodeKind::Class { name } => {
            if function_parent.is_none() {
                match name {
                    Some(cname) => {
                        // `class foo {}` -> `var foo; ... _cr = foo = class foo {};`
                        let open = make_class_open(cname);
                        push_pair_text(
                            &mut insertions,
                            node_span.start,
                            node_span.end,
                            open,
                            bytes_of(";"),
                        );
                        insertions.add_variable(clone_bytes(cname));
                    },
                    None => {},
                }
            }
            proof {
                assert(models(insertions.list@) =~= node_insertions(t, src@, ii, debug_level));
                assert(name_views(insertions.vars@) =~= node_vars(t, ii));
            }
            Ok(insertions)
        },
        NodeKind::VariableDeclaration { declarators } => {
            // Top-level variables are extracted into the outermost scope and
            // the declarator keyword is commented out:
            // `let foo = 42;` -> `var foo; ... /* let */ (foo = 42);`
            if !parent_for_init && function_parent.is_none() {
                let mn = find_min_decl_start(declarators);
                let mx = find_max_decl_end(declarators);
                push_pair_text(&mut insertions, node_span.start, mn, bytes_of("/*"), bytes_of("*/"));
                let ghost mid = models(insertions.list@);
                let m = declarators.len();
                let mut d: usize = 0;
                while d < m
                    invariant
                        m == declarators@.len(),
                        0 <= d <= m,
                        models(insertions.list@) == mid,
                        name_views(insertions.vars@) == decls_names(declarators@.take(d as int)),
                    decreases m - d,
                {
                    collect_pattern_names(&declarators[d].pattern, &mut insertions.vars);
                    proof {
                        assert(declarators@.take(d + 1).drop_last() =~= declarators@.take(d as int));
                        assert(declarators@.take(d + 1).last() == declarators@[d as int]);
                    }
                    d += 1;
                }
                proof {
                    assert(declarators@.take(m as int) =~= declarators@);
                }
                push_pair_text(&mut insertions, mn, mx, bytes_of("("), bytes_of(")"));
            }
            proof {
                assert(models(insertions.list@) =~= node_insertions(t, src@, ii, debug_level));
                assert(name_views(insertions.vars@) =~= node_vars(t, ii));
            }
            Ok(insertions)
        },
        NodeKind::ExpressionStatement { expression } => {
            // Isolate the statement with semicolons so that neighbouring
            // statements cannot merge once wrapping is applied; at the top
            // level the expression is a completion-record candidate.
            if !parent_arrow_body {
                push_pair_text(
                    &mut insertions,
                    expression.start,
                    expression.end,
                    bytes_of(";"),
                    bytes_of(";"),
                );
                if function_parent.is_none() {
                    push_pair_text(
                        &mut insertions,
                        expression.start,
                        expression.end,
                        bytes_of("_cr = ("),
                        bytes_of(")"),
                    );
                }
            }
            proof {
                assert(models(insertions.list@) =~= node_insertions(t, src@, ii, debug_level));
                assert(name_views(insertions.vars@) =~= node_vars(t, ii));
            }
            Ok(insertions)
        },
        NodeKind::ReturnStatement { argument } => {
            // Returning from a non-async function goes through the function
            // state and return-value tracking.
            if function_parent.is_some() && !function_parent_is_async {
                match argument {
                    Some(a) => {
                        push_pair_text(
                            &mut insertions,
                            a.start,
                            a.end,
                            bytes_of("(_synchronousReturnValue = ("),
                            make_return_close(),
                        );
                    },
                    None => {},
                }
            }
            proof {
                assert(models(insertions.list@) =~= node_insertions(t, src@, ii, debug_level));
                assert(name_views(insertions.vars@) =~= node_vars(t, ii));
            }
            Ok(insertions)
        },
        _ => {
            // Expression handling.
            let ident = identifier_reference(tree, i);
            if ident.is_some() && parent_obj_prop {
                // A shorthand `{ foo }` stays untouched to keep valid syntax.
                proof {
                    assert(models(insertions.list@) =~= node_insertions(t, src@, ii, debug_level));
                    assert(name_views(insertions.vars@) =~= node_vars(t, ii));
                }
                return Ok(insertions);
            }
            let mut wrap: Option<Span> = None;
            match ident {
                Some(id_idx) => {
                    proof {
                        lemma_ident_ref_kind(t, ii);
                        assert(id_idx < tree.len());
                    }
                    match &tree.nodes[id_idx].kind {
                        NodeKind::IdentifierReference { name } => {
                            let special = bytes_eq_str(name, "eval") || bytes_eq_str(name, "this")
                                || bytes_eq_str(name, "super");
                            proof {
                                assert(special == is_special_name(ident_name_of(t, ii)));
                            }
                            if !special {
                                // Wrap identifiers that are not special.
                                wrap = Some(node_span);
                            }
                        },
                        _ => {
                            proof {
                                assert(false);
                            }
                        },
                    }
                },
                None => {},
            }
            match &tree.nodes[i].kind {
                NodeKind::CallExpression => {
                    wrap = Some(node_span);  // Wrap call expressions.
                },
                NodeKind::ChainExpression => {
                    if !parent_call {
                        wrap = Some(node_span);  // Wrap optional chains that are not callees.
                    }
                },
                NodeKind::MemberExpression => {
                    if !parent_call {
                        wrap = Some(node_span);  // Wrap member accesses that are not callees.
                    }
                },
                _ => {},
            }
            let is_named_typeof_rhs = ident.is_some() && parent_typeof;
            if parent_delete {
                wrap = None;
            }
            if parent_forbids_w {
                wrap = None;
            }
            proof {
                assert(wrap == wrap_decision(t, ii));
                assert(is_named_typeof_rhs == typeof_rhs(t, ii));
            }
            if is_named_typeof_rhs {
                // `typeof foo` also tests whether `foo` exists; test it on the
                // original text before any wrapping can evaluate it.
                let tx = make_typeof_open(src, node_span);
                push_pair_text(&mut insertions, parent_span.start, parent_span.end, tx, bytes_of(")"));
            }
            match wrap {
                Some(s) => {
                    // The core of the rewrite: route the value through the
                    // implicit-await envelope.
                    push_pair_text(&mut insertions, s.start, s.end, make_wrap_open(), make_wrap_close());
                },
                None => {},
            }
            proof {
                assert(models(insertions.list@) =~= node_insertions(t, src@, ii, debug_level));
                assert(name_views(insertions.vars@) =~= node_vars(t, ii));
            }
            Ok(insertions)
        },
    }
}

/// Executable test for an arrow function kind.
fn kind_is_arrow(k: &NodeKind) -> (r: bool)
    ensures
        r == (k is ArrowFunctionExpression),
{
    match k {
        NodeKind::ArrowFunctionExpression { .. } => true,
        _ => false,
    }
}

/// The enclosing function of a node stands strictly before it.
pub proof fn lemma_enclosing_range(tree: Tree, i: int)
    requires
        tree.parents_ok(),
        0 <= i < tree.len(),
    ensures
        match tree.enclosing_fn(i) {
            Some(j) => 0 <= j < i,
            None => true,
        },
    decreases i,
{
    match tree.nodes@[i].parent {
        Some(p) => {
            if !tree.nodes@[p as int].kind.is_function_like() {
                lemma_enclosing_range(tree, p as int);
            }
        },
        None => {},
    }
}

proof fn lemma_encode_utf8_nonempty(chars: Seq<char>)
    requires
        chars.len() > 0,
    ensures
        vstd::utf8::encode_utf8(chars).len() > 0,
{
    assert(vstd::utf8::encode_scalar(chars[0] as u32).len() >= 1);
}

/// Every template, fixed or parameterized, injects at least one byte.
pub proof fn lemma_template_texts_nonempty()
    ensures
        wrap_open_text().len() > 0,
        wrap_close_text().len() > 0,
        runtime_open_text().len() > 0,
        runtime_close_text().len() > 0,
        arrow_return_open_text().len() > 0,
        return_open_text().len() > 0,
        return_close_text().len() > 0,
        no_ident_text().len() > 0,
        hoist_open_text().len() > 0,
        cr_open_text().len() > 0,
        crate::driver::iife_open_text().len() > 0,
        crate::driver::iife_close_text().len() > 0,
        crate::driver::cr_var_text().len() > 0,
        crate::driver::cr_return_text().len() > 0,
        "{".spec_bytes().len() > 0,
        "}".spec_bytes().len() > 0,
        "(".spec_bytes().len() > 0,
        ")".spec_bytes().len() > 0,
        ";".spec_bytes().len() > 0,
        "/*".spec_bytes().len() > 0,
        "*/".spec_bytes().len() > 0,
        forall|n: Seq<u8>| (#[trigger] hoist_close_text(n)).len() > 0,
        forall|n: Seq<u8>| (#[trigger] class_open_text(n)).len() > 0,
        forall|s: Seq<u8>| (#[trigger] typeof_open_text(s)).len() > 0,
        forall|n: Seq<u8>| (#[trigger] kind_comment_text(n)).len() > 0,
        forall|n: Seq<u8>| (#[trigger] crate::driver::var_decl_text(n)).len() > 0,
        forall|d: Seq<u8>| (#[trigger] crate::driver::directive_stmt_text(d)).len() > 0,
{
    reveal_strlit("(_ex = ");
    lemma_encode_utf8_nonempty("(_ex = "@);
    reveal_strlit(", _isp(_ex) ? await _ex : _ex)");
    lemma_encode_utf8_nonempty(", _isp(_ex) ? await _ex : _ex)"@);
    reveal_strlit("
    ;const _syntheticPromise = __SymbolFor('@@mongosh.syntheticPromise');

    function _markSyntheticPromise(p) {
        return Object.defineProperty(p, _syntheticPromise, {
            value: true,
        });
    }

    function _isp(p) {
        return p && p[_syntheticPromise];
    }

    let _functionState = 'sync', _synchronousReturnValue, _ex;

    const _asynchronousReturnValue = (async () => {
    try {");
    lemma_encode_utf8_nonempty("
    ;const _syntheticPromise = __SymbolFor('@@mongosh.syntheticPromise');

    function _markSyntheticPromise(p) {
        return Object.defineProperty(p, _syntheticPromise, {
            value: true,
        });
    }

    function _isp(p) {
        return p && p[_syntheticPromise];
    }

    let _functionState = 'sync', _synchronousReturnValue, _ex;

    const _asynchronousReturnValue = (async () => {
    try {"@);
    reveal_strlit("
        } catch (err) {
            if (_functionState === 'sync') {
                /* Forward synchronous exceptions. */
                _synchronousReturnValue = err;
                _functionState = 'threw';
            } else {
                throw err;
            }
            } finally {
            if (_functionState !== 'threw') {
                _functionState = 'returned';
            }
        }

        })();

        if (_functionState === 'returned') {
            return _synchronousReturnValue;
        } else if (_functionState === 'threw') {
            throw _synchronousReturnValue;
        }

        _functionState = 'async';
        return _markSyntheticPromise(_asynchronousReturnValue);
        ");
    lemma_encode_utf8_nonempty("
        } catch (err) {
            if (_functionState === 'sync') {
                /* Forward synchronous exceptions. */
                _synchronousReturnValue = err;
                _functionState = 'threw';
            } else {
                throw err;
            }
            } finally {
            if (_functionState !== 'threw') {
                _functionState = 'returned';
            }
        }

        })();

        if (_functionState === 'returned') {
            return _synchronousReturnValue;
        } else if (_functionState === 'threw') {
            throw _synchronousReturnValue;
        }

        _functionState = 'async';
        return _markSyntheticPromise(_asynchronousReturnValue);
        "@);
    reveal_strlit("return (_synchronousReturnValue = (");
    lemma_encode_utf8_nonempty("return (_synchronousReturnValue = ("@);
    reveal_strlit("(_synchronousReturnValue = (");
    lemma_encode_utf8_nonempty("(_synchronousReturnValue = ("@);
    reveal_strlit("), _functionState === 'async' ? _synchronousReturnValue : null);");
    lemma_encode_utf8_nonempty("), _functionState === 'async' ? _synchronousReturnValue : null);"@);
    reveal_strlit("/*no ident token*/");
    lemma_encode_utf8_nonempty("/*no ident token*/"@);
    reveal_strlit("__");
    lemma_encode_utf8_nonempty("__"@);
    reveal_strlit(";\n_cr = ");
    lemma_encode_utf8_nonempty(";\n_cr = "@);
    reveal_strlit("_cr = ");
    lemma_encode_utf8_nonempty("_cr = "@);
    reveal_strlit("_cr = (");
    lemma_encode_utf8_nonempty("_cr = ("@);
    reveal_strlit("(typeof ");
    lemma_encode_utf8_nonempty("(typeof "@);
    reveal_strlit(" /*");
    lemma_encode_utf8_nonempty(" /*"@);
    reveal_strlit("var ");
    lemma_encode_utf8_nonempty("var "@);
    reveal_strlit("\"");
    lemma_encode_utf8_nonempty("\""@);
    reveal_strlit(";(() => { const __SymbolFor = Symbol.for;");
    lemma_encode_utf8_nonempty(";(() => { const __SymbolFor = Symbol.for;"@);
    reveal_strlit("})()");
    lemma_encode_utf8_nonempty("})()"@);
    reveal_strlit("var _cr;");
    lemma_encode_utf8_nonempty("var _cr;"@);
    reveal_strlit(";\n return _synchronousReturnValue = _cr;");
    lemma_encode_utf8_nonempty(";\n return _synchronousReturnValue = _cr;"@);
    reveal_strlit("{");
    lemma_encode_utf8_nonempty("{"@);
    reveal_strlit("}");
    lemma_encode_utf8_nonempty("}"@);
    reveal_strlit("(");
    lemma_encode_utf8_nonempty("("@);
    reveal_strlit(")");
    lemma_encode_utf8_nonempty(")"@);
    reveal_strlit(";");
    lemma_encode_utf8_nonempty(";"@);
    reveal_strlit("/*");
    lemma_encode_utf8_nonempty("/*"@);
    reveal_strlit("*/");
    lemma_encode_utf8_nonempty("*/"@);
}


} // verus!
