//! The driver: collects every node's insertions, adds the hoisted variable
//! declarations, the preserved directives and the script-level IIFE wrap,
//! sorts the combined list, and streams the merged output.

use vstd::prelude::*;
use vstd::string::StringSliceAdditionalSpecFns;
use crate::Span;
use crate::DebugLevel;
use crate::RewriteError;
use crate::insertion::{Insertion, InsertionList, InsertionModel, models, name_views, ordv,
    sorted, numbered, sort_spec, le, ord_of, lemma_sort_spec_elements, lemma_models_push,
    lemma_models_concat};
use crate::rules::{ins_m, pair_m, node_insertions, node_vars, fn_without_body, collect_insertions,
    make_fn_insertions, push_pair_text, runtime_open_text, runtime_close_text};
use crate::text::{bytes_of, push_bytes, push_str_bytes, find_bytes, decimal_of, decimal_bytes,
    contains_bytes};
use crate::tree::Tree;
use crate::tree::{NodeKind, Declarator};
use crate::rules::{min_decl_start, max_decl_end, typeof_rhs, var_decl_applies};

verus! {

/// A hoisted `var` declaration for one collected name.
pub open spec fn var_decl_text(name: Seq<u8>) -> Seq<u8> {
    "var ".spec_bytes() + name + ";".spec_bytes()
}

/// A preserved directive, re-emitted as its own statement.
pub open spec fn directive_stmt_text(d: Seq<u8>) -> Seq<u8> {
    "\"".spec_bytes() + d + "\";".spec_bytes()
}

/// Opener of the script IIFE; the alias keeps user code that shadows
/// `Symbol` from breaking the runtime helpers.
pub open spec fn iife_open_text() -> Seq<u8> {
    ";(() => { const __SymbolFor = Symbol.for;".spec_bytes()
}

/// Closer of the script IIFE.
pub open spec fn iife_close_text() -> Seq<u8> {
    "})()".spec_bytes()
}

/// Declares the completion-record variable.
pub open spec fn cr_var_text() -> Seq<u8> {
    "var _cr;".spec_bytes()
}

/// Returns the completion record from the IIFE.
pub open spec fn cr_return_text() -> Seq<u8> {
    ";\n return _synchronousReturnValue = _cr;".spec_bytes()
}

/// The `var` insertions for the hoisted names, all at offset zero.
pub open spec fn vars_part(vs: Seq<Seq<u8>>) -> Seq<InsertionModel> {
    Seq::new(vs.len(), |k: int| ins_m(0, var_decl_text(vs[k]), false))
}

/// The directive insertions, all at offset zero.
pub open spec fn directives_part(ds: Seq<Seq<u8>>) -> Seq<InsertionModel> {
    Seq::new(ds.len(), |k: int| ins_m(0, directive_stmt_text(ds[k]), false))
}

/// The insertions of the first `upto` nodes, in traversal order.
pub open spec fn all_node_insertions(tree: Tree, src: Seq<u8>, upto: int, debug: DebugLevel) -> Seq<
    InsertionModel,
>
    decreases upto,
{
    if upto <= 0 {
        Seq::empty()
    } else {
        all_node_insertions(tree, src, upto - 1, debug) + node_insertions(tree, src, upto - 1, debug)
    }
}

/// The hoisted names of the first `upto` nodes, in traversal order.
pub open spec fn all_node_vars(tree: Tree, upto: int) -> Seq<Seq<u8>>
    decreases upto,
{
    if upto <= 0 {
        Seq::empty()
    } else {
        all_node_vars(tree, upto - 1) + node_vars(tree, upto - 1)
    }
}

/// The complete insertion list of a rewrite, in production order: hoisted
/// `var`s, preserved directives, the script IIFE, the script-level function
/// wrap, the completion-record bookkeeping, then every node's insertions.
pub open spec fn driver_insertions(
    tree: Tree,
    src: Seq<u8>,
    directives: Seq<Seq<u8>>,
    debug: DebugLevel,
) -> Seq<InsertionModel> {
    let end = src.len() as int;
    vars_part(all_node_vars(tree, tree.len() as int)) + directives_part(directives) + pair_m(
        0,
        end,
        iife_open_text(),
        iife_close_text(),
    ) + pair_m(0, end, runtime_open_text(), runtime_close_text()) + pair_m(
        0,
        end,
        cr_var_text(),
        cr_return_text(),
    ) + all_node_insertions(tree, src, tree.len() as int, debug)
}

/// The trace comment around one emitted insertion, empty unless the debug
/// level is verbose; the closing marker is suppressed when the payload itself
/// opens a comment.
pub open spec fn tag_text(m: InsertionModel, debug: DebugLevel) -> Seq<u8> {
    if debug.spec_shows_trace() {
        "/*i".spec_bytes() + decimal_bytes(ordv(m) as nat) + "@".spec_bytes() + decimal_bytes(
            m.offset as nat,
        ) + (if contains_bytes(m.text, "/*".spec_bytes()) {
            Seq::empty()
        } else {
            "*/".spec_bytes()
        })
    } else {
        Seq::empty()
    }
}

/// The emitted output from `cursor` on: for each insertion, the source bytes
/// up to its offset, then its (possibly tagged) text; after the last one, the
/// rest of the source.
pub open spec fn emit_from(
    src: Seq<u8>,
    list: Seq<InsertionModel>,
    cursor: int,
    debug: DebugLevel,
) -> Seq<u8>
    decreases list.len(),
{
    if list.len() == 0 {
        if 0 <= cursor <= src.len() {
            src.subrange(cursor, src.len() as int)
        } else {
            Seq::empty()
        }
    } else {
        let m = list[0];
        let ok = cursor <= m.offset <= src.len();
        let cut = if ok {
            src.subrange(cursor, m.offset)
        } else {
            Seq::empty()
        };
        let ncur = if ok {
            m.offset
        } else {
            cursor
        };
        let tg = tag_text(m, debug);
        cut + tg + m.text + tg + emit_from(src, list.drop_first(), ncur, debug)
    }
}

/// The whole rewrite, pinned down: the driver's insertion list, numbered and
/// sorted, emitted over the source.
pub open spec fn rewrite_spec(
    tree: Tree,
    src: Seq<u8>,
    directives: Seq<Seq<u8>>,
    debug: DebugLevel,
) -> Seq<u8> {
    emit_from(src, sort_spec(numbered(driver_insertions(tree, src, directives, debug))), 0, debug)
}

/// Builds the tagged text around one insertion.
fn make_tag(ins: &Insertion, debug: DebugLevel) -> (r: Vec<u8>)
    ensures
        r@ == tag_text(ins@, debug),
{
    let mut tag: Vec<u8> = Vec::new();
    if debug.shows_trace() {
        push_str_bytes(&mut tag, "/*i");
        let o = decimal_of(ord_of(ins));
        push_bytes(&mut tag, o.as_slice());
        push_str_bytes(&mut tag, "@");
        let f = decimal_of(ins.offset);
        push_bytes(&mut tag, f.as_slice());
        if !find_bytes(&ins.text, "/*") {
            push_str_bytes(&mut tag, "*/");
        }
        assert(tag@ =~= tag_text(ins@, debug));
    }
    tag
}

/// Streams the merged output: source bytes up to each insertion's offset,
/// the insertion's text, and finally the rest of the source. The cursor
/// never moves backwards because the list is sorted.
pub fn emit(src: &Vec<u8>, list: &Vec<Insertion>, debug: DebugLevel) -> (out: Vec<u8>)
    requires
        sorted(models(list@)),
        forall|k: int| 0 <= k < list@.len() ==> 0 <= (#[trigger] models(list@)[k]).offset
            <= src@.len(),
    ensures
        out@ == emit_from(src@, models(list@), 0, debug),
{
    let ghost full = models(list@);
    let mut out: Vec<u8> = Vec::new();
    let mut prev: usize = 0;
    let n = list.len();
    let mut idx: usize = 0;
    proof {
        assert(full.skip(0) =~= full);
        assert(out@ + emit_from(src@, full, 0, debug) =~= emit_from(src@, full, 0, debug));
    }
    while idx < n
        invariant
            n == list@.len(),
            0 <= idx <= n,
            full == models(list@),
            sorted(full),
            forall|k: int| 0 <= k < n ==> 0 <= (#[trigger] full[k]).offset <= src@.len(),
            prev <= src@.len(),
            idx == 0 ==> prev == 0,
            idx > 0 ==> prev as int == full[idx - 1].offset,
            out@ + emit_from(src@, full.skip(idx as int), prev as int, debug) == emit_from(
                src@,
                full,
                0,
                debug,
            ),
        decreases n - idx,
    {
        let ghost pre_out = out@;
        let ghost prev0 = prev as int;
        let ghost rest = full.skip(idx as int);
        proof {
            assert(rest[0] == full[idx as int]);
            assert(rest.drop_first() =~= full.skip(idx + 1));
            if idx > 0 {
                assert(le(full[idx - 1], full[idx as int]));
            }
            assert(prev as int <= full[idx as int].offset);
        }
        let ins = &list[idx];
        proof {
            assert(ins@ == full[idx as int]);
        }
        if ins.offset != prev {
            let s: &[u8] = src.as_slice();
            push_bytes(&mut out, &s[prev..ins.offset]);
            prev = ins.offset;
        }
        let tag = make_tag(ins, debug);
        push_bytes(&mut out, tag.as_slice());
        push_bytes(&mut out, ins.text.as_slice());
        push_bytes(&mut out, tag.as_slice());
        proof {
            let m = full[idx as int];
            let tg = tag_text(m, debug);
            assert(out@ =~= pre_out + src@.subrange(prev0, m.offset) + tg + m.text + tg);
            assert(out@ + emit_from(src@, full.skip(idx + 1), m.offset, debug) =~= emit_from(
                src@,
                full,
                0,
                debug,
            ));
        }
        idx += 1;
    }
    proof {
        assert(full.skip(n as int) =~= Seq::<InsertionModel>::empty());
    }
    let s: &[u8] = src.as_slice();
    push_bytes(&mut out, &s[prev..src.len()]);
    proof {
        assert(out@ =~= emit_from(src@, full, 0, debug));
    }
    out
}


/// All offsets of a list of insertions lie within the source.
pub open spec fn offsets_bounded(s: Seq<InsertionModel>, len: nat) -> bool {
    forall|k: int| 0 <= k < s.len() ==> 0 <= (#[trigger] s[k]).offset <= len
}

proof fn lemma_min_decl_start_bounded(ds: Seq<Declarator>, len: nat)
    requires
        ds.len() > 0,
        forall|d: int| 0 <= d < ds.len() ==> (#[trigger] ds[d]).span.valid(len),
    ensures
        0 <= min_decl_start(ds) <= len,
    decreases ds.len(),
{
    if ds.len() > 1 {
        lemma_min_decl_start_bounded(ds.drop_last(), len);
    }
}

proof fn lemma_max_decl_end_bounded(ds: Seq<Declarator>, len: nat)
    requires
        ds.len() > 0,
        forall|d: int| 0 <= d < ds.len() ==> (#[trigger] ds[d]).span.valid(len),
    ensures
        0 <= max_decl_end(ds) <= len,
    decreases ds.len(),
{
    if ds.len() > 1 {
        lemma_max_decl_end_bounded(ds.drop_last(), len);
    }
}

/// Every insertion a node contributes stays inside the source buffer.
proof fn lemma_node_insertions_bounded(tree: Tree, src: Seq<u8>, i: int, debug: DebugLevel)
    requires
        tree.wf(src.len()),
        0 <= i < tree.len(),
    ensures
        offsets_bounded(node_insertions(tree, src, i, debug), src.len()),
{
    assert(tree.node_wf(i, src.len()));
    let n = tree.nodes@[i];
    match n.kind {
        NodeKind::Function { .. } => {},
        NodeKind::ArrowFunctionExpression { .. } => {},
        NodeKind::Class { .. } => {},
        NodeKind::VariableDeclaration { declarators } => {
            if var_decl_applies(tree, i) {
                lemma_min_decl_start_bounded(declarators@, src.len());
                lemma_max_decl_end_bounded(declarators@, src.len());
            }
        },
        NodeKind::ExpressionStatement { .. } => {},
        NodeKind::ReturnStatement { .. } => {},
        _ => {
            if typeof_rhs(tree, i) {
                let p = tree.parent_idx(i)->Some_0;
                assert(tree.node_wf(p, src.len()));
            }
        },
    }
}

/// Every insertion of the first `upto` nodes stays inside the source buffer.
proof fn lemma_all_node_insertions_bounded(tree: Tree, src: Seq<u8>, upto: int, debug: DebugLevel)
    requires
        tree.wf(src.len()),
        0 <= upto <= tree.len(),
    ensures
        offsets_bounded(all_node_insertions(tree, src, upto, debug), src.len()),
    decreases upto,
{
    if upto > 0 {
        lemma_all_node_insertions_bounded(tree, src, upto - 1, debug);
        lemma_node_insertions_bounded(tree, src, upto - 1, debug);
    }
}

/// Every insertion the driver produces stays inside the source buffer.
pub proof fn lemma_driver_insertions_bounded(
    tree: Tree,
    src: Seq<u8>,
    directives: Seq<Seq<u8>>,
    debug: DebugLevel,
)
    requires
        tree.wf(src.len()),
    ensures
        offsets_bounded(driver_insertions(tree, src, directives, debug), src.len()),
{
    lemma_all_node_insertions_bounded(tree, src, tree.len() as int, debug);
}

/// Numbering keeps every offset; sorting keeps every element. So the sorted,
/// numbered list stays inside the source buffer.
pub proof fn lemma_sorted_numbered_bounded(s: Seq<InsertionModel>, len: nat)
    requires
        offsets_bounded(s, len),
    ensures
        offsets_bounded(sort_spec(numbered(s)), len),
{
    assert(offsets_bounded(numbered(s), len));
    lemma_sort_spec_elements(numbered(s));
    assert forall|k: int|
        0 <= k < sort_spec(numbered(s)).len() implies 0 <= (#[trigger] sort_spec(numbered(s))[k]).offset
        <= len by {
        let e = sort_spec(numbered(s))[k];
        assert(numbered(s).contains(e));
        let j = choose|j: int| 0 <= j < numbered(s).len() && numbered(s)[j] == e;
        assert(numbered(s)[j].offset == e.offset);
    }
}

/// Rewrites a parsed script: collects every node's insertions and hoisted
/// names, adds the hoisted `var` declarations, the preserved directives, the
/// script IIFE and its function-state wrap and the completion-record
/// bookkeeping, sorts everything by the composite key, and emits the output.
///
/// Fails exactly on a tree that is not well formed over `src`, or on a
/// function node without a body.
pub fn rewrite_tree(
    src: &Vec<u8>,
    tree: &Tree,
    directives: &Vec<Vec<u8>>,
    debug_level: DebugLevel,
) -> (r: Result<Vec<u8>, RewriteError>)
    ensures
        match r {
            Ok(out) => {
                &&& tree.wf(src@.len())
                &&& forall|j: int| 0 <= j < tree.len() ==> !fn_without_body(*tree, j)
                &&& out@ == rewrite_spec(*tree, src@, name_views(directives@), debug_level)
            },
            Err(e) => match e {
                RewriteError::MalformedTree => !tree.wf(src@.len()),
                RewriteError::FunctionWithoutBody => {
                    &&& tree.wf(src@.len())
                    &&& exists|j: int| 0 <= j < tree.len() && fn_without_body(*tree, j)
                },
            },
        },
{
    let ghost t = *tree;
    if !crate::tree::check_wf(tree, src.len()) {
        return Err(RewriteError::MalformedTree);
    }
    let n = tree.nodes.len();

    // Gather the insertions and hoisted names of every node.
    let mut collected = InsertionList::new();
    let mut idx: usize = 0;
    while idx < n
        invariant
            t == *tree,
            tree.wf(src@.len()),
            n == tree.len(),
            0 <= idx <= n,
            models(collected.list@) == all_node_insertions(t, src@, idx as int, debug_level),
            name_views(collected.vars@) == all_node_vars(t, idx as int),
            forall|j: int| 0 <= j < idx ==> !fn_without_body(t, j),
        decreases n - idx,
    {
        let mut more = match collect_insertions(tree, idx, src, debug_level) {
            Ok(l) => l,
            Err(e) => {
                proof {
                    assert(fn_without_body(t, idx as int));
                }
                return Err(e);
            },
        };
        collected.append(&mut more);
        proof {
            assert(models(collected.list@) =~= all_node_insertions(
                t,
                src@,
                idx + 1,
                debug_level,
            ));
            assert(name_views(collected.vars@) =~= all_node_vars(t, idx + 1));
        }
        idx += 1;
    }

    let mut insertions = InsertionList::new();

    // Declare every hoisted name at the very start of the output.
    let vn = collected.vars.len();
    let mut k: usize = 0;
    proof {
        assert(models(insertions.list@) =~= vars_part(
            name_views(collected.vars@).take(0),
        ));
    }
    while k < vn
        invariant
            vn == collected.vars@.len(),
            0 <= k <= vn,
            name_views(collected.vars@) == all_node_vars(t, t.len() as int),
            models(insertions.list@) == vars_part(name_views(collected.vars@).take(k as int)),
            insertions.vars@.len() == 0,
        decreases vn - k,
    {
        let mut v = bytes_of("var ");
        push_bytes(&mut v, collected.vars[k].as_slice());
        push_str_bytes(&mut v, ";");
        proof {
            assert(v@ =~= var_decl_text(name_views(collected.vars@)[k as int]));
        }
        let ghost pre_list = insertions.list@;
        let ins = Insertion::new(0, v, false);
        insertions.push_back(ins);
        proof {
            lemma_models_push(pre_list, ins);
            assert(models(insertions.list@) =~= vars_part(
                name_views(collected.vars@).take(k + 1),
            ));
        }
        k += 1;
    }
    proof {
        assert(name_views(collected.vars@).take(vn as int) =~= name_views(collected.vars@));
    }

    // Copy all directives (`'use strict'` and friends) so that the directive
    // prologue survives the IIFE wrap.
    let dn = directives.len();
    let mut k2: usize = 0;
    let ghost vpart = models(insertions.list@);
    while k2 < dn
        invariant
            dn == directives@.len(),
            0 <= k2 <= dn,
            models(insertions.list@) == vpart + directives_part(
                name_views(directives@).take(k2 as int),
            ),
            insertions.vars@.len() == 0,
        decreases dn - k2,
    {
        let mut v = bytes_of("\"");
        push_bytes(&mut v, directives[k2].as_slice());
        push_str_bytes(&mut v, "\";");
        proof {
            assert(v@ =~= directive_stmt_text(name_views(directives@)[k2 as int]));
        }
        let ghost pre_list = insertions.list@;
        let ins = Insertion::new(0, v, false);
        insertions.push_back(ins);
        proof {
            lemma_models_push(pre_list, ins);
            assert(models(insertions.list@) =~= vpart + directives_part(
                name_views(directives@).take(k2 + 1),
            ));
        }
        k2 += 1;
    }
    proof {
        assert(name_views(directives@).take(dn as int) =~= name_views(directives@));
    }

    // Wrap the original source in an IIFE so that the helpers and the
    // function-state tracking are in scope for the whole script.
    let input_span = Span::new(0, src.len());
    push_pair_text(
        &mut insertions,
        0,
        src.len(),
        bytes_of(";(() => { const __SymbolFor = Symbol.for;"),
        bytes_of("})()"),
    );
    let ghost before_rt = insertions.list@;
    let rt = make_fn_insertions(input_span);
    insertions.push_pair(rt);
    proof {
        lemma_models_push(before_rt, rt.0);
        lemma_models_push(before_rt.push(rt.0), rt.1);
        assert(models(insertions.list@) =~= models(before_rt) + pair_m(
            0,
            src@.len() as int,
            runtime_open_text(),
            runtime_close_text(),
        ));
    }
    // Keep track of the completion-record value and return it from the IIFE.
    push_pair_text(
        &mut insertions,
        0,
        src.len(),
        bytes_of("var _cr;"),
        bytes_of(";\n return _synchronousReturnValue = _cr;"),
    );
    let ghost before_nodes = insertions.list@;
    let ghost collected_list = collected.list@;
    insertions.append(&mut collected);
    proof {
        lemma_models_concat(before_nodes, collected_list);
        assert(models(insertions.list@) =~= driver_insertions(
            t,
            src@,
            name_views(directives@),
            debug_level,
        ));
    }

    insertions.sort();

    proof {
        lemma_driver_insertions_bounded(t, src@, name_views(directives@), debug_level);
        lemma_sorted_numbered_bounded(
            driver_insertions(t, src@, name_views(directives@), debug_level),
            src@.len(),
        );
    }
    let out = emit(src, &insertions.list, debug_level);
    Ok(out)
}

} // verus!
