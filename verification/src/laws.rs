//! The global guarantees of the rewrite, proved over the specification
//! functions that `rewrite_tree`'s contract is stated with: the output
//! preserves every source byte, the emission cursor never moves backwards,
//! wraps stay balanced, forbidden positions are never wrapped, `typeof`
//! keeps its defined-check, the completion record is recorded and returned,
//! and user-level `async` functions pass through unwrapped.

use vstd::prelude::*;
use vstd::string::StringSliceAdditionalSpecFns;
use crate::DebugLevel;
use crate::insertion::{InsertionModel, sorted, numbered, sort_spec, le,
    lemma_sort_spec_sorted, lemma_sort_spec_multiset};
use crate::rules::{ins_m, pair_m, node_insertions, debug_part, function_part,
    arrow_part, class_part, var_decl_part, expr_stmt_part, return_part, expr_part, typeof_part,
    wrap_part, fn_wrap_part, wrap_decision, typeof_rhs, object_prop_skip, parent_is_unary,
    parent_forbids_wrap, var_decl_applies, expr_stmt_suppressed, min_decl_start, max_decl_end,
    typeof_open_text, cr_open_text, hoist_open_text, hoist_close_text, no_ident_text};
use crate::driver::{driver_insertions, emit_from, vars_part, directives_part,
    all_node_insertions, all_node_vars, cr_return_text, cr_var_text};
use crate::tree::{Tree, NodeKind, UnaryOp, Declarator};

verus! {

// ------------------------------------------------------------------
// Offset monotonicity
// ------------------------------------------------------------------

/// In a list sorted by the composite key, offsets never decrease; the
/// emitter's cursor, which only ever advances to the current offset, is
/// therefore non-decreasing.
pub proof fn lemma_offsets_monotone(s: Seq<InsertionModel>)
    requires
        sorted(s),
    ensures
        forall|i: int, j: int| 0 <= i <= j < s.len() ==> (#[trigger] s[i]).offset
            <= (#[trigger] s[j]).offset,
{
    assert forall|i: int, j: int|
        0 <= i <= j < s.len() implies (#[trigger] s[i]).offset <= (#[trigger] s[j]).offset by {
        if i < j {
            assert(le(s[i], s[j]));
        }
    }
}

/// The insertion list a rewrite emits is sorted, so its offsets never
/// decrease.
pub proof fn lemma_rewrite_cursor_monotone(
    tree: Tree,
    src: Seq<u8>,
    directives: Seq<Seq<u8>>,
    debug: DebugLevel,
)
    ensures
        ({
            let emitted = sort_spec(numbered(driver_insertions(tree, src, directives, debug)));
            forall|i: int, j: int| 0 <= i <= j < emitted.len() ==> (#[trigger] emitted[i]).offset
                <= (#[trigger] emitted[j]).offset
        }),
{
    let emitted = sort_spec(numbered(driver_insertions(tree, src, directives, debug)));
    lemma_sort_spec_sorted(numbered(driver_insertions(tree, src, directives, debug)));
    lemma_offsets_monotone(emitted);
}

// ------------------------------------------------------------------
// Byte preservation
// ------------------------------------------------------------------

/// The same insertions with every text emptied.
pub open spec fn strip_texts(s: Seq<InsertionModel>) -> Seq<InsertionModel> {
    Seq::new(s.len(), |k: int| ins_m(s[k].offset, Seq::empty(), s[k].reverse))
}

/// Emitting a list of empty texts, without tracing, reproduces the source
/// from the cursor on: the source bytes that stand between the insertion
/// points are exactly the source, in order.
pub proof fn lemma_emit_empty_texts(src: Seq<u8>, s: Seq<InsertionModel>, cursor: int)
    requires
        0 <= cursor <= src.len(),
        forall|k: int| 0 <= k < s.len() ==> cursor <= (#[trigger] s[k]).offset <= src.len(),
        forall|i: int, j: int| 0 <= i <= j < s.len() ==> (#[trigger] s[i]).offset
            <= (#[trigger] s[j]).offset,
    ensures
        emit_from(src, strip_texts(s), cursor, DebugLevel::Off) == src.subrange(
            cursor,
            src.len() as int,
        ),
    decreases s.len(),
{
    let st = strip_texts(s);
    if s.len() == 0 {
        assert(st =~= Seq::<InsertionModel>::empty());
    } else {
        let m = st[0];
        let o = s[0].offset;
        assert(m.offset == o);
        let rest = s.drop_first();
        assert(strip_texts(rest) =~= st.drop_first());
        assert(forall|k: int| 0 <= k < rest.len() ==> o <= (#[trigger] rest[k]).offset
            <= src.len()) by {
            assert(forall|k: int| 0 <= k < rest.len() ==> rest[k] == s[k + 1]);
        }
        lemma_emit_empty_texts(src, rest, o);
        assert(emit_from(src, st, cursor, DebugLevel::Off) =~= src.subrange(cursor, o)
            + src.subrange(o, src.len() as int));
        assert(src.subrange(cursor, o) + src.subrange(o, src.len() as int) =~= src.subrange(
            cursor,
            src.len() as int,
        ));
    }
}

/// Byte preservation for a whole rewrite: emitting the rewrite's own sorted
/// insertion list with every injected text stripped yields the source
/// unchanged. The injected texts are thus the only bytes the rewrite adds.
pub proof fn lemma_byte_preserving(
    tree: Tree,
    src: Seq<u8>,
    directives: Seq<Seq<u8>>,
    debug: DebugLevel,
)
    requires
        tree.wf(src.len()),
    ensures
        ({
            let emitted = sort_spec(numbered(driver_insertions(tree, src, directives, debug)));
            emit_from(src, strip_texts(emitted), 0, DebugLevel::Off) == src
        }),
{
    let base = driver_insertions(tree, src, directives, debug);
    let emitted = sort_spec(numbered(base));
    lemma_sort_spec_sorted(numbered(base));
    lemma_offsets_monotone(emitted);
    crate::driver::lemma_driver_insertions_bounded(tree, src, directives, debug);
    crate::driver::lemma_sorted_numbered_bounded(base, src.len());
    lemma_emit_empty_texts(src, emitted, 0);
    assert(src.subrange(0, src.len() as int) =~= src);
}

// ------------------------------------------------------------------
// Wrap balance
// ------------------------------------------------------------------

/// Every closing insertion immediately follows its opener in production
/// order, and never closes before that opener's offset.
pub open spec fn pair_balanced(s: Seq<InsertionModel>) -> bool {
    forall|k: int| 0 <= k < s.len() && (#[trigger] s[k]).reverse ==> {
        &&& 0 < k
        &&& !s[k - 1].reverse
        &&& s[k - 1].offset <= s[k].offset
    }
}

/// Balance is preserved by concatenation when the right part does not begin
/// with a closer.
proof fn lemma_balanced_concat(s: Seq<InsertionModel>, t: Seq<InsertionModel>)
    requires
        pair_balanced(s),
        pair_balanced(t),
        t.len() > 0 ==> !t[0].reverse,
    ensures
        pair_balanced(s + t),
{
    assert forall|k: int| 0 <= k < (s + t).len() && (#[trigger] (s + t)[k]).reverse implies {
        &&& 0 < k
        &&& !(s + t)[k - 1].reverse
        &&& (s + t)[k - 1].offset <= (s + t)[k].offset
    } by {
        if k < s.len() {
            assert((s + t)[k] == s[k]);
            if k > 0 {
                assert((s + t)[k - 1] == s[k - 1]);
            }
        } else {
            assert((s + t)[k] == t[k - s.len()]);
            assert(k - s.len() > 0);
            assert((s + t)[k - 1] == t[k - s.len() - 1]);
        }
    }
}

proof fn lemma_pair_balanced(start: int, end: int, open: Seq<u8>, close: Seq<u8>)
    requires
        start <= end,
    ensures
        pair_balanced(pair_m(start, end, open, close)),
        !pair_m(start, end, open, close)[0].reverse,
{
}

/// The lowest declarator start is no lower than any common lower bound.
proof fn lemma_min_decl_start_low(ds: Seq<Declarator>, b: int)
    requires
        ds.len() > 0,
        forall|d: int| 0 <= d < ds.len() ==> b <= (#[trigger] ds[d]).span.start,
    ensures
        b <= min_decl_start(ds),
    decreases ds.len(),
{
    if ds.len() > 1 {
        lemma_min_decl_start_low(ds.drop_last(), b);
    }
}

/// The declarator range is well ordered.
proof fn lemma_min_le_max(ds: Seq<Declarator>)
    requires
        ds.len() > 0,
        forall|d: int| 0 <= d < ds.len() ==> (#[trigger] ds[d]).span.start <= ds[d].span.end,
    ensures
        min_decl_start(ds) <= max_decl_end(ds),
    decreases ds.len(),
{
    if ds.len() > 1 {
        lemma_min_le_max(ds.drop_last());
    }
}

/// Every node's contribution is balanced: closers immediately follow their
/// openers and never close before them.
#[verifier::rlimit(100)]
#[verifier::spinoff_prover]
pub proof fn lemma_node_insertions_balanced(tree: Tree, src: Seq<u8>, i: int, debug: DebugLevel)
    requires
        tree.wf(src.len()),
        0 <= i < tree.len(),
    ensures
        pair_balanced(node_insertions(tree, src, i, debug)),
        node_insertions(tree, src, i, debug).len() > 0 ==> !node_insertions(
            tree,
            src,
            i,
            debug,
        )[0].reverse,
{
    assert(tree.node_wf(i, src.len()));
    let n = tree.nodes@[i];
    let dbg = debug_part(tree, i, debug);
    assert(pair_balanced(dbg));
    match n.kind {
        NodeKind::Function { is_async, name, body } => {
            let hoist = if tree.enclosing_fn(i) is None {
                match name {
                    None => seq![ins_m(n.span.start as int, no_ident_text(), false)],
                    Some(fname) => pair_m(
                        fname.span.end as int,
                        n.span.end as int,
                        hoist_open_text(),
                        hoist_close_text(fname.text@),
                    ),
                }
            } else {
                Seq::<InsertionModel>::empty()
            };
            assert(pair_balanced(hoist));
            match body {
                Some(b) => {
                    if !is_async {
                        lemma_fn_wrap_balanced(b, true);
                        lemma_balanced_concat(hoist, fn_wrap_part(b, true));
                    }
                },
                None => {},
            }
            lemma_balanced_concat(dbg, function_part(tree, i));
        },
        NodeKind::ArrowFunctionExpression { is_async, expression, body } => {
            if !is_async {
                lemma_fn_wrap_balanced(body, !expression);
            }
            lemma_balanced_concat(dbg, arrow_part(tree, i));
        },
        NodeKind::Class { .. } => {
            lemma_balanced_concat(dbg, class_part(tree, i));
        },
        NodeKind::VariableDeclaration { declarators } => {
            if var_decl_applies(tree, i) {
                lemma_min_decl_start_low(declarators@, n.span.start as int);
                lemma_min_le_max(declarators@);
                lemma_balanced_concat(
                    pair_m(
                        n.span.start as int,
                        min_decl_start(declarators@),
                        "/*".spec_bytes(),
                        "*/".spec_bytes(),
                    ),
                    pair_m(
                        min_decl_start(declarators@),
                        max_decl_end(declarators@),
                        "(".spec_bytes(),
                        ")".spec_bytes(),
                    ),
                );
            }
            lemma_balanced_concat(dbg, var_decl_part(tree, i));
        },
        NodeKind::ExpressionStatement { expression } => {
            if !expr_stmt_suppressed(tree, i) && tree.enclosing_fn(i) is None {
                lemma_balanced_concat(
                    pair_m(
                        expression.start as int,
                        expression.end as int,
                        ";".spec_bytes(),
                        ";".spec_bytes(),
                    ),
                    pair_m(
                        expression.start as int,
                        expression.end as int,
                        cr_open_text(),
                        ")".spec_bytes(),
                    ),
                );
            }
            lemma_balanced_concat(dbg, expr_stmt_part(tree, i));
        },
        NodeKind::ReturnStatement { .. } => {
            lemma_balanced_concat(dbg, return_part(tree, i));
        },
        _ => {
            if !object_prop_skip(tree, i) {
                if typeof_rhs(tree, i) {
                    let p = tree.parent_idx(i)->Some_0;
                    assert(tree.node_wf(p, src.len()));
                }
                lemma_balanced_concat(typeof_part(tree, src, i), wrap_part(tree, i));
            }
            lemma_balanced_concat(dbg, expr_part(tree, src, i));
        },
    }
}

proof fn lemma_fn_wrap_balanced(body: crate::Span, has_block_body: bool)
    requires
        body.start <= body.end,
    ensures
        pair_balanced(fn_wrap_part(body, has_block_body)),
        !fn_wrap_part(body, has_block_body)[0].reverse,
        fn_wrap_part(body, has_block_body).len() > 0,
{
    let a = pair_m(body.start as int, body.end as int, "{".spec_bytes(), "}".spec_bytes());
    let b = pair_m(
        body.start as int,
        body.end as int,
        crate::rules::runtime_open_text(),
        crate::rules::runtime_close_text(),
    );
    lemma_balanced_concat(a, b);
    if !has_block_body {
        lemma_balanced_concat(
            a + b,
            pair_m(
                body.start as int,
                body.end as int,
                crate::rules::arrow_return_open_text(),
                crate::rules::return_close_text(),
            ),
        );
    }
}

/// The insertions of the first `upto` nodes are balanced.
proof fn lemma_all_node_insertions_balanced(tree: Tree, src: Seq<u8>, upto: int, debug: DebugLevel)
    requires
        tree.wf(src.len()),
        0 <= upto <= tree.len(),
    ensures
        pair_balanced(all_node_insertions(tree, src, upto, debug)),
    decreases upto,
{
    if upto > 0 {
        lemma_all_node_insertions_balanced(tree, src, upto - 1, debug);
        lemma_node_insertions_balanced(tree, src, upto - 1, debug);
        lemma_balanced_concat(
            all_node_insertions(tree, src, upto - 1, debug),
            node_insertions(tree, src, upto - 1, debug),
        );
    }
}

/// Wrap balance for a whole rewrite: in the produced insertion list every
/// closer immediately follows its opener and closes at or after the opener's
/// offset; and sorting only reorders, so every opener's matching closer is
/// emitted too.
pub proof fn lemma_wrap_balance(tree: Tree, src: Seq<u8>, directives: Seq<Seq<u8>>, debug: DebugLevel)
    requires
        tree.wf(src.len()),
    ensures
        pair_balanced(driver_insertions(tree, src, directives, debug)),
        sort_spec(numbered(driver_insertions(tree, src, directives, debug))).to_multiset()
            =~= numbered(driver_insertions(tree, src, directives, debug)).to_multiset(),
{
    let end = src.len() as int;
    let vp = vars_part(all_node_vars(tree, tree.len() as int));
    let dp = directives_part(directives);
    assert(pair_balanced(vp));
    assert(pair_balanced(dp));
    lemma_balanced_concat(vp, dp);
    let p1 = pair_m(0, end, crate::driver::iife_open_text(), crate::driver::iife_close_text());
    let p2 = pair_m(0, end, crate::rules::runtime_open_text(), crate::rules::runtime_close_text());
    let p3 = pair_m(0, end, cr_var_text(), cr_return_text());
    lemma_balanced_concat(vp + dp, p1);
    lemma_balanced_concat(vp + dp + p1, p2);
    lemma_balanced_concat(vp + dp + p1 + p2, p3);
    lemma_all_node_insertions_balanced(tree, src, tree.len() as int, debug);
    let rest = all_node_insertions(tree, src, tree.len() as int, debug);
    if rest.len() > 0 {
        lemma_first_node_insertion_opens(tree, src, tree.len() as int, debug);
    }
    lemma_balanced_concat(vp + dp + p1 + p2 + p3, rest);
    lemma_sort_spec_multiset(numbered(driver_insertions(tree, src, directives, debug)));
}

/// A non-empty prefix of node insertions starts with an opener.
proof fn lemma_first_node_insertion_opens(tree: Tree, src: Seq<u8>, upto: int, debug: DebugLevel)
    requires
        tree.wf(src.len()),
        0 <= upto <= tree.len(),
        all_node_insertions(tree, src, upto, debug).len() > 0,
    ensures
        !all_node_insertions(tree, src, upto, debug)[0].reverse,
    decreases upto,
{
    let prefix = all_node_insertions(tree, src, upto - 1, debug);
    if prefix.len() > 0 {
        lemma_first_node_insertion_opens(tree, src, upto - 1, debug);
        assert(all_node_insertions(tree, src, upto, debug)[0] == prefix[0]);
    } else {
        lemma_node_insertions_balanced(tree, src, upto - 1, debug);
        assert(all_node_insertions(tree, src, upto, debug)[0] == node_insertions(
            tree,
            src,
            upto - 1,
            debug,
        )[0]);
    }
}

// ------------------------------------------------------------------
// No wrap inside forbidden positions
// ------------------------------------------------------------------

/// A node standing in a forbidden position — an assignment target in any of
/// its forms, a `for` init, an `await` operand, a formal parameter, or a
/// `delete` operand — is never wrapped with the implicit-await envelope.
pub proof fn lemma_no_wrap_in_forbidden(tree: Tree, i: int)
    requires
        0 <= i < tree.len(),
        parent_forbids_wrap(tree, i) || parent_is_unary(tree, i, UnaryOp::Delete),
    ensures
        wrap_decision(tree, i) is None,
        wrap_part(tree, i) =~= Seq::<InsertionModel>::empty(),
{
}

// ------------------------------------------------------------------
// `typeof` safety
// ------------------------------------------------------------------

/// For `typeof X` with `X` an identifier reference (possibly parenthesized),
/// the rewrite injects the defined-check built from the node's original
/// source text, anchored at the `typeof` expression's start — at or before
/// any wrap of `X`, and produced before it, so the original identifier is
/// tested before any wrapping can evaluate it.
pub proof fn lemma_typeof_safety(tree: Tree, src: Seq<u8>, i: int, debug: DebugLevel)
    requires
        tree.wf(src.len()),
        0 <= i < tree.len(),
        typeof_rhs(tree, i),
        !object_prop_skip(tree, i),
    ensures
        ({
            let p = tree.parent_idx(i)->Some_0;
            let pspan = tree.nodes@[p].span;
            let nspan = tree.nodes@[i].span;
            let guard = pair_m(
                pspan.start as int,
                pspan.end as int,
                typeof_open_text(src.subrange(nspan.start as int, nspan.end as int)),
                ")".spec_bytes(),
            );
            &&& node_insertions(tree, src, i, debug) == debug_part(tree, i, debug) + guard
                + wrap_part(tree, i)
            &&& pspan.start <= nspan.start
            &&& (wrap_decision(tree, i) matches Some(s) ==> pspan.start <= s.start)
        }),
{
    assert(tree.node_wf(i, src.len()));
    tree.lemma_wf_implies_links_ok(src.len());
    let p = tree.parent_idx(i)->Some_0;
    assert(tree.node_wf(p, src.len()));
    // only an identifier reference, possibly parenthesized, can be the
    // guarded operand, so the node takes the expression rule
    match tree.nodes@[i].kind {
        NodeKind::IdentifierReference { .. } => {},
        NodeKind::ParenthesizedExpression { .. } => {},
        _ => {
            assert(tree.ident_ref(i) is None);
        },
    }
}

// ------------------------------------------------------------------
// Completion record
// ------------------------------------------------------------------

/// A top-level expression statement is recorded as the completion record:
/// its expression is wrapped in `_cr = ( … )`, and the script-level wrap
/// contains the closing insertion that returns `_cr` from the IIFE.
pub proof fn lemma_completion_record(
    tree: Tree,
    src: Seq<u8>,
    directives: Seq<Seq<u8>>,
    i: int,
    debug: DebugLevel,
)
    requires
        tree.wf(src.len()),
        0 <= i < tree.len(),
        tree.nodes@[i].kind is ExpressionStatement,
        tree.enclosing_fn(i) is None,
        !expr_stmt_suppressed(tree, i),
    ensures
        ({
            let e = tree.nodes@[i].kind->ExpressionStatement_expression;
            let cr = pair_m(e.start as int, e.end as int, cr_open_text(), ")".spec_bytes());
            &&& expr_stmt_part(tree, i) == pair_m(
                e.start as int,
                e.end as int,
                ";".spec_bytes(),
                ";".spec_bytes(),
            ) + cr
            &&& driver_insertions(tree, src, directives, debug).contains(
                ins_m(src.len() as int, cr_return_text(), true),
            )
        }),
{
    let end = src.len() as int;
    let vp = vars_part(all_node_vars(tree, tree.len() as int));
    let dp = directives_part(directives);
    let full = driver_insertions(tree, src, directives, debug);
    let pos = vp.len() + dp.len() + 5;
    assert(full[pos as int] == ins_m(end, cr_return_text(), true));
}

// ------------------------------------------------------------------
// Async passthrough
// ------------------------------------------------------------------

/// A user-level `async` function or arrow is not wrapped with the
/// function-state machinery: an async function contributes only its
/// top-level hoist (if any), an async arrow contributes nothing beyond the
/// trace comment.
pub proof fn lemma_async_passthrough(tree: Tree, src: Seq<u8>, i: int, debug: DebugLevel)
    requires
        0 <= i < tree.len(),
        tree.nodes@[i].kind.is_async_function(),
    ensures
        tree.nodes@[i].kind is ArrowFunctionExpression ==> node_insertions(tree, src, i, debug)
            == debug_part(tree, i, debug),
        tree.nodes@[i].kind is Function ==> node_insertions(tree, src, i, debug) == debug_part(
            tree,
            i,
            debug,
        ) + (if tree.enclosing_fn(i) is None {
            match tree.nodes@[i].kind->Function_name {
                None => seq![ins_m(tree.nodes@[i].span.start as int, no_ident_text(), false)],
                Some(fname) => pair_m(
                    fname.span.end as int,
                    tree.nodes@[i].span.end as int,
                    hoist_open_text(),
                    hoist_close_text(fname.text@),
                ),
            }
        } else {
            Seq::<InsertionModel>::empty()
        }),
{
    match tree.nodes@[i].kind {
        NodeKind::ArrowFunctionExpression { .. } => {
            assert(node_insertions(tree, src, i, debug) =~= debug_part(tree, i, debug));
        },
        NodeKind::Function { .. } => {},
        _ => {},
    }
}


// ------------------------------------------------------------------
// Insertion texts are never empty
// ------------------------------------------------------------------

/// All texts of a list of insertions are non-empty.
pub open spec fn texts_nonempty(s: Seq<InsertionModel>) -> bool {
    forall|k: int| 0 <= k < s.len() ==> (#[trigger] s[k]).text.len() > 0
}

/// Every byte sequence a node injects is non-empty.
#[verifier::rlimit(100)]
#[verifier::spinoff_prover]
proof fn lemma_node_texts_nonempty(tree: Tree, src: Seq<u8>, i: int, debug: DebugLevel)
    requires
        tree.wf(src.len()),
        0 <= i < tree.len(),
    ensures
        texts_nonempty(node_insertions(tree, src, i, debug)),
{
    crate::rules::lemma_template_texts_nonempty();
    assert(texts_nonempty(debug_part(tree, i, debug)));
    match tree.nodes@[i].kind {
        NodeKind::Function { .. } => {
            assert(texts_nonempty(function_part(tree, i)));
        },
        NodeKind::ArrowFunctionExpression { .. } => {
            assert(texts_nonempty(arrow_part(tree, i)));
        },
        NodeKind::Class { .. } => {
            assert(texts_nonempty(class_part(tree, i)));
        },
        NodeKind::VariableDeclaration { .. } => {
            assert(texts_nonempty(var_decl_part(tree, i)));
        },
        NodeKind::ExpressionStatement { .. } => {
            assert(texts_nonempty(expr_stmt_part(tree, i)));
        },
        NodeKind::ReturnStatement { .. } => {
            assert(texts_nonempty(return_part(tree, i)));
        },
        _ => {
            assert(texts_nonempty(expr_part(tree, src, i)));
        },
    }
}

proof fn lemma_all_node_texts_nonempty(tree: Tree, src: Seq<u8>, upto: int, debug: DebugLevel)
    requires
        tree.wf(src.len()),
        0 <= upto <= tree.len(),
    ensures
        texts_nonempty(all_node_insertions(tree, src, upto, debug)),
    decreases upto,
{
    if upto > 0 {
        lemma_all_node_texts_nonempty(tree, src, upto - 1, debug);
        lemma_node_texts_nonempty(tree, src, upto - 1, debug);
    }
}

/// The data-model invariant on insertions, for a whole rewrite: every
/// injected text holds at least one byte, in the produced list and in the
/// sorted list the emitter consumes alike.
pub proof fn lemma_texts_nonempty(
    tree: Tree,
    src: Seq<u8>,
    directives: Seq<Seq<u8>>,
    debug: DebugLevel,
)
    requires
        tree.wf(src.len()),
    ensures
        texts_nonempty(driver_insertions(tree, src, directives, debug)),
        texts_nonempty(sort_spec(numbered(driver_insertions(tree, src, directives, debug)))),
{
    crate::rules::lemma_template_texts_nonempty();
    lemma_all_node_texts_nonempty(tree, src, tree.len() as int, debug);
    let base = driver_insertions(tree, src, directives, debug);
    assert(forall|k: int| 0 <= k < base.len() ==> (#[trigger] base[k]).text.len() > 0);
    crate::insertion::lemma_sort_spec_elements(numbered(base));
    assert forall|k: int|
        0 <= k < sort_spec(numbered(base)).len() implies (#[trigger] sort_spec(
        numbered(base),
    )[k]).text.len() > 0 by {
        let e = sort_spec(numbered(base))[k];
        assert(numbered(base).contains(e));
        let j = choose|j: int| 0 <= j < numbered(base).len() && numbered(base)[j] == e;
        assert(numbered(base)[j].text == base[j].text);
    }
}

} // verus!
