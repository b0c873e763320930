//! The invariants of lowering, stated and proved once for every valid
//! input program:
//!
//! - every lowered block carries a distinct id;
//! - every free variable a block's body reads appears in its context or its
//!   locals, and every context a child captures is reachable from its
//!   parent (context closure);
//! - `wait` and `submit` are disjoint and both lie inside the context;
//! - context fields carry the kinds assigned by declarations, parameters
//!   and for-indices (kind preservation).

use vstd::prelude::*;

use crate::ast::{SpecBlockAst, SpecExpr, SpecParam, Type};
use crate::names::{
    map_contains_key, map_sorted, set_contains, set_sorted, spec_find, spec_map_get,
    spec_map_insert, spec_map_insert_all, spec_map_remove, spec_map_remove_all, spec_put,
    spec_set_diff, spec_set_insert, spec_set_insert_all,
};
use crate::translator::{
    spec_call_sets, spec_captures, spec_decl_names, spec_item_count, spec_items_count,
    spec_lower_block, spec_lower_call, spec_lower_child, spec_lower_for, spec_lower_if,
    spec_lower_stmts, spec_lower_sub, spec_param_pairs, spec_type_names, spec_visit_item,
    spec_visit_items, SpecBlock, SpecBlockKind, SpecExterns, SpecFoldState, SpecTransState,
};

verus! {

broadcast use vstd::seq::group_seq_axioms;

// ---------------------------------------------------------------------------
// The invariants, as predicates over lowered blocks.
// ---------------------------------------------------------------------------

/// Structural well-formedness of a lowered block and its subtree: sorted
/// canonical sets, `wait` and `submit` disjoint and inside the context,
/// locals outside the context, and every name a body or a child reads
/// reachable through the context or the locals.
pub open spec fn wf_block(b: SpecBlock) -> bool
    decreases b, 1int,
{
    &&& map_sorted(b.ctx)
    &&& set_sorted(b.local)
    &&& set_sorted(b.wait)
    &&& set_sorted(b.submit)
    &&& (forall|n: Seq<char>| set_contains(b.wait, n) ==> !set_contains(b.submit, n))
    &&& (forall|n: Seq<char>| set_contains(b.wait, n) ==> map_contains_key(b.ctx, n))
    &&& (forall|n: Seq<char>| set_contains(b.submit, n) ==> map_contains_key(b.ctx, n))
    &&& (forall|n: Seq<char>| map_contains_key(b.ctx, n) ==> !set_contains(b.local, n))
    &&& match b.kind {
        SpecBlockKind::Fork { children, decls } => {
            &&& (forall|i: int| 0 <= i < children.len() ==> wf_block(#[trigger] children[i]))
            &&& (forall|i: int, n: Seq<char>|
                0 <= i < children.len() && #[trigger] map_contains_key(children[i].ctx, n)
                    ==> set_contains(b.local, n) || map_contains_key(b.ctx, n))
        },
        SpecBlockKind::For { index, lower, upper, body } => {
            &&& wf_block(*body)
            &&& (forall|n: Seq<char>|
                set_contains(spec_captures(lower), n) ==> set_contains(b.wait, n))
            &&& (forall|n: Seq<char>|
                set_contains(spec_captures(upper), n) ==> set_contains(b.wait, n))
            &&& set_contains(b.local, index)
            &&& (forall|n: Seq<char>|
                map_contains_key(body.ctx, n) ==> n == index || map_contains_key(b.ctx, n))
        },
        SpecBlockKind::If { cond, body } => {
            &&& wf_block(*body)
            &&& (forall|n: Seq<char>|
                set_contains(spec_captures(cond), n) ==> set_contains(b.wait, n))
            &&& (forall|n: Seq<char>|
                map_contains_key(body.ctx, n) ==> map_contains_key(b.ctx, n))
        },
        SpecBlockKind::ExternCall { symbol, args, params } => {
            forall|j: int, n: Seq<char>|
                0 <= j < args.len() && #[trigger] set_contains(spec_captures(args[j]), n)
                    ==> set_contains(b.wait, n) || set_contains(b.submit, n)
        },
    }
}

/// Kind preservation along the tree: a context field of a child carries
/// either the kind of the same field in its parent, or — for a handle the
/// parent declares, or a for-index — the kind that declaration assigns.
pub open spec fn kinds_linked(b: SpecBlock) -> bool
    decreases b, 1int,
{
    match b.kind {
        SpecBlockKind::Fork { children, decls } => {
            &&& (forall|i: int| 0 <= i < children.len() ==> kinds_linked(#[trigger] children[i]))
            &&& (forall|i: int, n: Seq<char>|
                0 <= i < children.len() && #[trigger] map_contains_key(children[i].ctx, n) ==> (
                set_contains(b.local, n) && spec_map_get(children[i].ctx, n) == Option::Some(
                    Type::Value,
                )) || spec_map_get(children[i].ctx, n) == spec_map_get(b.ctx, n))
        },
        SpecBlockKind::For { index, lower, upper, body } => {
            &&& kinds_linked(*body)
            &&& (forall|n: Seq<char>|
                map_contains_key(body.ctx, n) ==> (n == index && spec_map_get(body.ctx, n)
                    == Option::Some(Type::Int)) || spec_map_get(body.ctx, n) == spec_map_get(
                    b.ctx,
                    n,
                ))
        },
        SpecBlockKind::If { cond, body } => {
            &&& kinds_linked(*body)
            &&& (forall|n: Seq<char>|
                map_contains_key(body.ctx, n) ==> spec_map_get(body.ctx, n) == spec_map_get(
                    b.ctx,
                    n,
                ))
        },
        SpecBlockKind::ExternCall { .. } => true,
    }
}

/// The block ids of a subtree in post order: children first, then the
/// block's own id.
pub open spec fn post_ids(b: SpecBlock) -> Seq<int>
    decreases b, 1int,
{
    (match b.kind {
        SpecBlockKind::Fork { children, .. } => post_ids_cat(children),
        SpecBlockKind::For { body, .. } => post_ids(*body),
        SpecBlockKind::If { body, .. } => post_ids(*body),
        SpecBlockKind::ExternCall { .. } => Seq::empty(),
    }).push(b.id as int)
}

pub open spec fn post_ids_cat(cs: Seq<SpecBlock>) -> Seq<int>
    decreases cs, 0int,
{
    if cs.len() == 0 {
        Seq::empty()
    } else {
        post_ids(cs[0]) + post_ids_cat(cs.drop_first())
    }
}

/// `s` is exactly the integers `lo, lo+1, ..., hi-1`, in order.
pub open spec fn is_range(s: Seq<int>, lo: int, hi: int) -> bool {
    &&& s.len() == hi - lo
    &&& forall|k: int| 0 <= k < s.len() ==> s[k] == lo + k
}

pub proof fn lemma_post_ids_cat_push(cs: Seq<SpecBlock>, b: SpecBlock)
    ensures
        post_ids_cat(cs.push(b)) == post_ids_cat(cs) + post_ids(b),
    decreases cs.len(),
{
    if cs.len() == 0 {
        assert(cs.push(b)[0] == b);
        assert(cs.push(b).drop_first() =~= Seq::<SpecBlock>::empty());
        assert(post_ids_cat(cs.push(b)) == post_ids(b) + post_ids_cat(cs.push(b).drop_first()));
        assert(post_ids_cat(cs.push(b).drop_first()).len() == 0);
        assert(post_ids_cat(cs).len() == 0);
        assert(post_ids_cat(cs.push(b)) =~= post_ids_cat(cs) + post_ids(b));
    } else {
        assert(cs.push(b)[0] == cs[0]);
        assert(cs.push(b).drop_first() =~= cs.drop_first().push(b));
        lemma_post_ids_cat_push(cs.drop_first(), b);
        assert(post_ids_cat(cs.push(b)) =~= post_ids_cat(cs) + post_ids(b));
    }
}

// ---------------------------------------------------------------------------
// Fold lemmas for the helper recursions of lowering.
// ---------------------------------------------------------------------------

/// Every entry of `ctx` carries the kind the environment assigns its name.
pub open spec fn ctx_agrees(ctx: Seq<(Seq<char>, Type)>, env: Seq<(Seq<char>, Type)>) -> bool {
    forall|n: Seq<char>|
        #[trigger] map_contains_key(ctx, n) ==> spec_map_get(ctx, n) == spec_map_get(env, n)
}

pub proof fn lemma_type_names_wf(
    env: Seq<(Seq<char>, Type)>,
    ctx: Seq<(Seq<char>, Type)>,
    names: Seq<Seq<char>>,
    i: int,
)
    requires
        map_sorted(ctx),
        ctx_agrees(ctx, env),
        0 <= i <= names.len(),
    ensures
        spec_type_names(env, ctx, names, i) matches Ok(c2) ==> {
            &&& map_sorted(c2)
            &&& ctx_agrees(c2, env)
            &&& forall|n: Seq<char>|
                #[trigger] map_contains_key(c2, n) <==> (map_contains_key(ctx, n) || exists|j: int|
                    i <= j < names.len() && names[j] == n)
        },
    decreases names.len() - i,
{
    if i < names.len() {
        match spec_map_get(env, names[i]) {
            Option::None => {},
            Option::Some(t) => {
                let c1 = spec_map_insert(ctx, names[i], t);
                crate::names::lemma_map_insert_sorted(ctx, names[i], t);
                assert forall|n: Seq<char>| #[trigger] map_contains_key(c1, n) implies
                    spec_map_get(c1, n) == spec_map_get(env, n) by {
                    crate::names::lemma_map_insert_get(ctx, names[i], t, n);
                    crate::names::lemma_map_insert_contains(ctx, names[i], t, n);
                }
                assert(ctx_agrees(c1, env));
                lemma_type_names_wf(env, c1, names, i + 1);
                match spec_type_names(env, ctx, names, i) {
                    Err(_) => {},
                    Ok(c2) => {
                    assert forall|n: Seq<char>| #[trigger] map_contains_key(c2, n) <==> (
                    map_contains_key(ctx, n) || exists|j: int|
                        i <= j < names.len() && names[j] == n) by {
                        crate::names::lemma_map_insert_contains(ctx, names[i], t, n);
                        if map_contains_key(c2, n) {
                            if map_contains_key(c1, n) && !map_contains_key(ctx, n) {
                                assert(names[i] == n);
                                assert(i <= i < names.len() && names[i] == n);
                            }
                        }
                        if map_contains_key(ctx, n) {
                            assert(map_contains_key(c1, n));
                        }
                        if exists|j: int| i <= j < names.len() && names[j] == n {
                            let j = choose|j: int| i <= j < names.len() && names[j] == n;
                            if j == i {
                                assert(map_contains_key(c1, n));
                            } else {
                                assert(i + 1 <= j < names.len() && names[j] == n);
                            }
                        }
                    }
                    },
                }
            },
        }
    }
}

pub proof fn lemma_call_sets_wf(
    env: Seq<(Seq<char>, Type)>,
    params: Seq<SpecParam>,
    args: Seq<SpecExpr>,
    i: int,
    ctx: Seq<(Seq<char>, Type)>,
    wait: Seq<Seq<char>>,
    submit: Seq<Seq<char>>,
)
    requires
        map_sorted(ctx),
        ctx_agrees(ctx, env),
        set_sorted(wait),
        set_sorted(submit),
        forall|n: Seq<char>| set_contains(wait, n) ==> map_contains_key(ctx, n),
        forall|n: Seq<char>| set_contains(submit, n) ==> map_contains_key(ctx, n),
        0 <= i <= params.len(),
        params.len() == args.len(),
    ensures
        spec_call_sets(env, params, args, i, ctx, wait, submit) matches Ok(r) ==> {
            &&& map_sorted(r.0)
            &&& ctx_agrees(r.0, env)
            &&& set_sorted(r.1)
            &&& set_sorted(r.2)
            &&& (forall|n: Seq<char>| set_contains(r.1, n) ==> map_contains_key(r.0, n))
            &&& (forall|n: Seq<char>| set_contains(r.2, n) ==> map_contains_key(r.0, n))
            &&& (forall|j: int, n: Seq<char>|
                i <= j < args.len() && #[trigger] set_contains(spec_captures(args[j]), n)
                    ==> set_contains(r.1, n) || set_contains(r.2, n))
            &&& (forall|n: Seq<char>| set_contains(wait, n) ==> set_contains(r.1, n))
            &&& (forall|n: Seq<char>| set_contains(submit, n) ==> set_contains(r.2, n))
        },
    decreases params.len() - i,
{
    if i < params.len() {
        let caps = spec_captures(args[i]);
        match spec_type_names(env, ctx, caps, 0) {
            Err(_) => {},
            Ok(ctx2) => {
                lemma_type_names_wf(env, ctx, caps, 0);
                assert forall|n: Seq<char>| set_contains(caps, n) implies map_contains_key(
                    ctx2,
                    n,
                ) by {
                    let x = choose|x: int| 0 <= x < caps.len() && caps[x] == n;
                    assert(0 <= x < caps.len() && caps[x] == n);
                }
                crate::translator::lemma_captures_sorted(args[i]);
                match params[i].ty {
                    Type::Name => {
                        let s2 = spec_set_insert_all(submit, caps, 0);
                        crate::names::lemma_set_insert_all_sorted(submit, caps, 0);
                        assert forall|n: Seq<char>| set_contains(s2, n) implies
                            map_contains_key(ctx2, n) by {
                            crate::names::lemma_set_insert_all_contains(submit, caps, 0, n);
                        }
                        assert forall|n: Seq<char>| set_contains(wait, n) implies
                            map_contains_key(ctx2, n) by {}
                        lemma_call_sets_wf(env, params, args, i + 1, ctx2, wait, s2);
                        match spec_call_sets(env, params, args, i, ctx, wait, submit) {
                            Err(_) => {},
                            Ok(r) => {
                            assert forall|j: int, n: Seq<char>|
                                i <= j < args.len() && #[trigger] set_contains(
                                    spec_captures(args[j]),
                                    n,
                                ) implies set_contains(r.1, n) || set_contains(r.2, n) by {
                                if j == i {
                                    crate::names::lemma_set_insert_all_contains(
                                        submit,
                                        caps,
                                        0,
                                        n,
                                    );
                                    assert(set_contains(s2, n));
                                }
                            }
                            assert forall|n: Seq<char>| set_contains(submit, n) implies
                                set_contains(r.2, n) by {
                                crate::names::lemma_set_insert_all_contains(submit, caps, 0, n);
                            }
                            },
                        }
                    },
                    _ => {
                        let w2 = spec_set_insert_all(wait, caps, 0);
                        crate::names::lemma_set_insert_all_sorted(wait, caps, 0);
                        assert forall|n: Seq<char>| set_contains(w2, n) implies
                            map_contains_key(ctx2, n) by {
                            crate::names::lemma_set_insert_all_contains(wait, caps, 0, n);
                        }
                        assert forall|n: Seq<char>| set_contains(submit, n) implies
                            map_contains_key(ctx2, n) by {}
                        lemma_call_sets_wf(env, params, args, i + 1, ctx2, w2, submit);
                        match spec_call_sets(env, params, args, i, ctx, wait, submit) {
                            Err(_) => {},
                            Ok(r) => {
                            assert forall|j: int, n: Seq<char>|
                                i <= j < args.len() && #[trigger] set_contains(
                                    spec_captures(args[j]),
                                    n,
                                ) implies set_contains(r.1, n) || set_contains(r.2, n) by {
                                if j == i {
                                    crate::names::lemma_set_insert_all_contains(wait, caps, 0, n);
                                    assert(set_contains(w2, n));
                                }
                            }
                            assert forall|n: Seq<char>| set_contains(wait, n) implies
                                set_contains(r.1, n) by {
                                crate::names::lemma_set_insert_all_contains(wait, caps, 0, n);
                            }
                            },
                        }
                    },
                }
            },
        }
    }
}


// ---------------------------------------------------------------------------
// The fold invariant of one block's statement list.
// ---------------------------------------------------------------------------

/// What holds of the fold state while the statements of one block are
/// lowered against the enclosing environment `env0`.
pub open spec fn inv_fold(fs: SpecFoldState, env0: Seq<(Seq<char>, Type)>) -> bool {
    &&& map_sorted(fs.env)
    &&& set_sorted(fs.local)
    &&& map_sorted(fs.ctx)
    &&& (forall|n: Seq<char>|
        #[trigger] set_contains(fs.local, n) ==> spec_map_get(fs.env, n) == Option::Some(
            Type::Value,
        ))
    &&& (forall|n: Seq<char>|
        !set_contains(fs.local, n) ==> #[trigger] spec_map_get(fs.env, n) == spec_map_get(
            env0,
            n,
        ))
    &&& (forall|n: Seq<char>|
        #[trigger] map_contains_key(fs.ctx, n) ==> if set_contains(fs.local, n) {
            spec_map_get(fs.ctx, n) == Option::Some(Type::Value)
        } else {
            spec_map_get(fs.ctx, n) == spec_map_get(env0, n)
        })
    &&& (forall|i: int|
        0 <= i < fs.children.len() ==> wf_block(#[trigger] fs.children[i]) && kinds_linked(
            fs.children[i],
        ))
    &&& (forall|i: int, n: Seq<char>|
        0 <= i < fs.children.len() && #[trigger] map_contains_key(fs.children[i].ctx, n)
            ==> map_contains_key(fs.ctx, n) && spec_map_get(fs.children[i].ctx, n)
            == spec_map_get(fs.ctx, n))
}

pub proof fn lemma_range_concat(a: Seq<int>, b: Seq<int>, lo: int, m: int, hi: int)
    requires
        is_range(a, lo, m),
        is_range(b, m, hi),
    ensures
        is_range(a + b, lo, hi),
{
}

/// Merging a lowered child's context into the accumulated context keeps
/// every binding: both maps agree wherever they overlap, because both take
/// their kinds from the same environment.
pub proof fn lemma_merge_child_ctx(
    ctx: Seq<(Seq<char>, Type)>,
    cctx: Seq<(Seq<char>, Type)>,
    env: Seq<(Seq<char>, Type)>,
    env0: Seq<(Seq<char>, Type)>,
    local: Seq<Seq<char>>,
)
    requires
        map_sorted(ctx),
        map_sorted(cctx),
        ctx_agrees(cctx, env),
        forall|n: Seq<char>|
            #[trigger] set_contains(local, n) ==> spec_map_get(env, n) == Option::Some(
                Type::Value,
            ),
        forall|n: Seq<char>|
            !set_contains(local, n) ==> #[trigger] spec_map_get(env, n) == spec_map_get(env0, n),
        forall|n: Seq<char>|
            #[trigger] map_contains_key(ctx, n) ==> if set_contains(local, n) {
                spec_map_get(ctx, n) == Option::Some(Type::Value)
            } else {
                spec_map_get(ctx, n) == spec_map_get(env0, n)
            },
    ensures
        ({
            let m = spec_map_insert_all(ctx, cctx, 0);
            &&& map_sorted(m)
            &&& (forall|n: Seq<char>|
                #[trigger] map_contains_key(m, n) <==> (map_contains_key(ctx, n)
                    || map_contains_key(cctx, n)))
            &&& (forall|n: Seq<char>|
                #[trigger] map_contains_key(ctx, n) ==> spec_map_get(m, n) == spec_map_get(
                    ctx,
                    n,
                ))
            &&& (forall|n: Seq<char>|
                #[trigger] map_contains_key(cctx, n) ==> spec_map_get(m, n) == spec_map_get(
                    cctx,
                    n,
                ))
            &&& (forall|n: Seq<char>|
                #[trigger] map_contains_key(m, n) ==> if set_contains(local, n) {
                    spec_map_get(m, n) == Option::Some(Type::Value)
                } else {
                    spec_map_get(m, n) == spec_map_get(env0, n)
                })
        }),
{
    let m = spec_map_insert_all(ctx, cctx, 0);
    crate::names::lemma_map_insert_all_sorted(ctx, cctx, 0);
    assert forall|n: Seq<char>| #[trigger] map_contains_key(m, n) <==> (map_contains_key(ctx, n)
        || map_contains_key(cctx, n)) by {
        crate::names::lemma_map_insert_all_get(ctx, cctx, 0, n);
    }
    // wherever both sides bind a name, they bind the same kind
    assert forall|n: Seq<char>|
        map_contains_key(ctx, n) && map_contains_key(cctx, n) implies spec_map_get(ctx, n)
        == spec_map_get(cctx, n) by {
        assert(spec_map_get(cctx, n) == spec_map_get(env, n));
        if set_contains(local, n) {
            assert(spec_map_get(ctx, n) == Option::Some(Type::Value));
            assert(spec_map_get(env, n) == Option::Some(Type::Value));
        } else {
            assert(spec_map_get(ctx, n) == spec_map_get(env0, n));
            assert(spec_map_get(env, n) == spec_map_get(env0, n));
        }
    }
    assert forall|n: Seq<char>| #[trigger] map_contains_key(m, n) implies ({
        &&& map_contains_key(ctx, n) ==> spec_map_get(m, n) == spec_map_get(ctx, n)
        &&& map_contains_key(cctx, n) ==> spec_map_get(m, n) == spec_map_get(cctx, n)
    }) by {
        crate::names::lemma_map_insert_all_get(ctx, cctx, 0, n);
        crate::names::lemma_map_get_contains(m, n);
        crate::names::lemma_map_get_contains(ctx, n);
        crate::names::lemma_map_get_contains(cctx, n);
        let t = spec_map_get(m, n)->Some_0;
        assert(spec_map_get(m, n) == Option::Some(t));
        if spec_map_get(ctx, n) == Option::Some(t) {
            // the merged kind is the accumulated one
            if map_contains_key(cctx, n) {
                assert(spec_map_get(ctx, n) == spec_map_get(cctx, n));
            }
        } else {
            let j = choose|j: int| 0 <= j < cctx.len() && cctx[j] == (n, t);
            crate::names::lemma_map_get_at_index(cctx, j);
            assert(spec_map_get(cctx, n) == Option::Some(t));
            if map_contains_key(ctx, n) {
                assert(spec_map_get(ctx, n) == spec_map_get(cctx, n));
            }
        }
    }
    assert forall|n: Seq<char>| #[trigger] map_contains_key(m, n) implies (if set_contains(
        local,
        n,
    ) {
        spec_map_get(m, n) == Option::Some(Type::Value)
    } else {
        spec_map_get(m, n) == spec_map_get(env0, n)
    }) by {
        if map_contains_key(ctx, n) {
        } else {
            assert(map_contains_key(cctx, n));
            assert(spec_map_get(m, n) == spec_map_get(cctx, n));
            assert(spec_map_get(cctx, n) == spec_map_get(env, n));
        }
    }
    assert forall|n: Seq<char>| #[trigger] map_contains_key(ctx, n) implies spec_map_get(m, n)
        == spec_map_get(ctx, n) by {
        assert(map_contains_key(m, n));
    }
    assert forall|n: Seq<char>| #[trigger] map_contains_key(cctx, n) implies spec_map_get(m, n)
        == spec_map_get(cctx, n) by {
        assert(map_contains_key(m, n));
    }
}

pub proof fn lemma_decl_names_wf(
    fs: SpecFoldState,
    reserved: Seq<Seq<char>>,
    names: Seq<Seq<char>>,
    i: int,
    env0: Seq<(Seq<char>, Type)>,
)
    requires
        inv_fold(fs, env0),
        0 <= i <= names.len(),
    ensures
        spec_decl_names(fs, reserved, names, i) matches Ok(fs2) ==> {
            &&& inv_fold(fs2, env0)
            &&& fs2.ctx == fs.ctx
            &&& fs2.children == fs.children
            &&& (forall|n: Seq<char>|
                set_contains(fs2.local, n) ==> set_contains(fs.local, n) || !set_contains(
                    reserved,
                    n,
                ))
            &&& (forall|n: Seq<char>|
                set_contains(fs.local, n) ==> set_contains(fs2.local, n))
        },
    decreases names.len() - i,
{
    if i < names.len() {
        let n = names[i];
        if set_contains(fs.local, n) || set_contains(reserved, n) || map_contains_key(
            fs.ctx,
            n,
        ) {
        } else {
            let fs1 = SpecFoldState {
                env: spec_map_insert(fs.env, n, Type::Value),
                local: spec_set_insert(fs.local, n),
                decls: fs.decls.push(n),
                ..fs
            };
            crate::names::lemma_map_insert_sorted(fs.env, n, Type::Value);
            crate::names::lemma_set_insert_sorted(fs.local, n);
            assert forall|m: Seq<char>| #[trigger] set_contains(fs1.local, m) implies
                spec_map_get(fs1.env, m) == Option::Some(Type::Value) by {
                crate::names::lemma_set_insert_contains(fs.local, n, m);
                crate::names::lemma_map_insert_get(fs.env, n, Type::Value, m);
            }
            assert forall|m: Seq<char>| !set_contains(fs1.local, m) implies #[trigger]
                spec_map_get(fs1.env, m) == spec_map_get(env0, m) by {
                crate::names::lemma_set_insert_contains(fs.local, n, m);
                crate::names::lemma_map_insert_get(fs.env, n, Type::Value, m);
            }
            assert forall|m: Seq<char>| #[trigger] map_contains_key(fs1.ctx, m) implies (if
            set_contains(fs1.local, m) {
                spec_map_get(fs1.ctx, m) == Option::Some(Type::Value)
            } else {
                spec_map_get(fs1.ctx, m) == spec_map_get(env0, m)
            }) by {
                crate::names::lemma_set_insert_contains(fs.local, n, m);
                // a context key is never the newly declared name
                assert(m != n);
            }
            assert(inv_fold(fs1, env0));
            lemma_decl_names_wf(fs1, reserved, names, i + 1, env0);
            assert forall|m: Seq<char>| set_contains(fs1.local, m) implies set_contains(
                fs.local,
                m,
            ) || !set_contains(reserved, m) by {
                crate::names::lemma_set_insert_contains(fs.local, n, m);
            }
            assert forall|m: Seq<char>| set_contains(fs.local, m) implies set_contains(
                fs1.local,
                m,
            ) by {
                crate::names::lemma_set_insert_contains(fs.local, n, m);
            }
        }
    }
}

// ---------------------------------------------------------------------------
// The per-kind lowering lemmas.
// ---------------------------------------------------------------------------

pub proof fn lemma_lower_call_wf(
    ex: SpecExterns,
    env: Seq<(Seq<char>, Type)>,
    ident: Seq<char>,
    args: Seq<SpecExpr>,
    c: int,
)
    requires
        map_sorted(env),
        0 <= c,
        c + 1 <= u64::MAX,
    ensures
        ({
            let r = spec_lower_call(ex, env, ident, args, c);
            &&& c <= r.1 <= c + 1
            &&& (r.0 matches Ok(blk) ==> {
                &&& wf_block(blk)
                &&& kinds_linked(blk)
                &&& ctx_agrees(blk.ctx, env)
                &&& is_range(post_ids(blk), c, r.1)
                &&& r.1 == c + 1
            })
        }),
{
    match spec_find(ex, ident) {
        Option::None => {},
        Option::Some(params) => {
            if params.len() == args.len() {
                match spec_call_sets(env, params, args, 0, Seq::empty(), Seq::empty(),
                    Seq::empty()) {
                    Err(_) => {},
                    Ok(r) => {
                        lemma_call_sets_wf(
                            env,
                            params,
                            args,
                            0,
                            Seq::empty(),
                            Seq::empty(),
                            Seq::empty(),
                        );
                        let (ctx, wait0, submit) = r;
                        let wait = spec_set_diff(wait0, submit);
                        crate::names::lemma_set_diff_sorted(wait0, submit);
                        assert forall|n: Seq<char>| set_contains(wait, n) implies
                            !set_contains(submit, n) && map_contains_key(ctx, n) by {
                            crate::names::lemma_set_diff_contains(wait0, submit, n);
                        }
                        let rr = spec_lower_call(ex, env, ident, args, c);
                        match rr.0 {
                            Err(_) => { assert(false); },
                            Ok(blk) => {
                                assert(blk.wait == wait);
                                assert forall|j: int, n: Seq<char>|
                                    0 <= j < args.len() && #[trigger] set_contains(
                                        spec_captures(args[j]),
                                        n,
                                    ) implies set_contains(blk.wait, n) || set_contains(
                                    blk.submit,
                                    n,
                                ) by {
                                    crate::names::lemma_set_diff_contains(wait0, submit, n);
                                }
                                assert(forall|n: Seq<char>|
                                    #[trigger] set_contains(blk.local, n) == false);
                                assert(wf_block(blk));
                                assert(post_ids(blk) =~= seq![c]);
                                assert(is_range(post_ids(blk), c, c + 1));
                            },
                        }
                    },
                }
            }
        },
    }
}


pub proof fn lemma_lower_for_wf(
    ex: SpecExterns,
    env: Seq<(Seq<char>, Type)>,
    index: Seq<char>,
    lower: SpecExpr,
    upper: SpecExpr,
    body: SpecBlockAst,
    c: int,
)
    requires
        map_sorted(env),
        0 <= c,
        c + 1 + crate::translator::spec_block_count(body) <= u64::MAX,
    ensures
        ({
            let r = spec_lower_for(ex, env, index, lower, upper, body, c);
            &&& c <= r.1 <= c + 1 + crate::translator::spec_block_count(body)
            &&& (r.0 matches Ok(blk) ==> {
                &&& wf_block(blk)
                &&& kinds_linked(blk)
                &&& ctx_agrees(blk.ctx, env)
                &&& is_range(post_ids(blk), c, r.1)
                &&& r.1 == c + 1 + crate::translator::spec_block_count(body)
            })
        }),
    decreases body, 2int,
{
    let caps = spec_set_insert_all(spec_captures(lower), spec_captures(upper), 0);
    if !set_contains(caps, index) {
        let env1 = spec_map_insert(env, index, Type::Int);
        crate::names::lemma_map_insert_sorted(env, index, Type::Int);
        lemma_lower_block_wf(ex, env1, Seq::empty(), body, c);
        let r = spec_lower_block(ex, env1, Seq::empty(), body, c);
        match r.0 {
            Err(_) => {},
            Ok(child) => {
                let ctx0 = spec_map_remove(child.ctx, index);
                crate::names::lemma_map_remove_sorted(child.ctx, index);
                assert forall|n: Seq<char>| #[trigger] map_contains_key(ctx0, n) implies
                    spec_map_get(ctx0, n) == spec_map_get(env, n) by {
                    crate::names::lemma_map_remove_get(child.ctx, index, n);
                    crate::names::lemma_map_get_contains(ctx0, n);
                    assert(n != index);
                    crate::names::lemma_map_get_contains(child.ctx, n);
                    assert(map_contains_key(child.ctx, n));
                    assert(spec_map_get(child.ctx, n) == spec_map_get(env1, n));
                    crate::names::lemma_map_insert_get(env, index, Type::Int, n);
                }
                match spec_type_names(env, ctx0, caps, 0) {
                    Err(_) => {},
                    Ok(ctx1) => {
                        lemma_type_names_wf(env, ctx0, caps, 0);
                        crate::translator::lemma_captures_sorted(lower);
                        crate::translator::lemma_captures_sorted(upper);
                        crate::names::lemma_set_insert_all_sorted(
                            spec_captures(lower),
                            spec_captures(upper),
                            0,
                        );
                        let rr = spec_lower_for(ex, env, index, lower, upper, body, c);
                        match rr.0 {
                            Err(_) => { assert(false); },
                            Ok(blk) => {
                                // every waited name is in the context
                                assert forall|n: Seq<char>| set_contains(caps, n) implies
                                    map_contains_key(ctx1, n) by {
                                    let x = choose|x: int|
                                        0 <= x < caps.len() && caps[x] == n;
                                    assert(0 <= x < caps.len() && caps[x] == n);
                                }
                                // the index is local and not captured
                                assert(!map_contains_key(ctx1, index)) by {
                                    crate::names::lemma_map_remove_get(child.ctx, index, index);
                                    crate::names::lemma_map_get_contains(ctx0, index);
                                }
                                assert forall|n: Seq<char>|
                                    #[trigger] map_contains_key(blk.ctx, n) implies
                                    !set_contains(blk.local, n) by {
                                    if n == index {
                                    } else {
                                        assert(!set_contains(seq![index], n));
                                    }
                                }
                                assert forall|n: Seq<char>|
                                    set_contains(spec_captures(lower), n) implies set_contains(
                                    blk.wait,
                                    n,
                                ) by {
                                    crate::names::lemma_set_insert_all_contains(
                                        spec_captures(lower),
                                        spec_captures(upper),
                                        0,
                                        n,
                                    );
                                }
                                assert forall|n: Seq<char>|
                                    set_contains(spec_captures(upper), n) implies set_contains(
                                    blk.wait,
                                    n,
                                ) by {
                                    crate::names::lemma_set_insert_all_contains(
                                        spec_captures(lower),
                                        spec_captures(upper),
                                        0,
                                        n,
                                    );
                                    let x = choose|x: int|
                                        0 <= x < spec_captures(upper).len() && spec_captures(
                                            upper,
                                        )[x] == n;
                                    assert(0 <= x < spec_captures(upper).len()
                                        && spec_captures(upper)[x] == n);
                                }
                                assert(set_contains(blk.local, index)) by {
                                    assert(seq![index][0] == index);
                                }
                                // context closure toward the body
                                assert forall|n: Seq<char>| map_contains_key(child.ctx, n)
                                    implies n == index || map_contains_key(blk.ctx, n) by {
                                    if n != index {
                                        crate::names::lemma_map_remove_get(
                                            child.ctx,
                                            index,
                                            n,
                                        );
                                        crate::names::lemma_map_get_contains(child.ctx, n);
                                        crate::names::lemma_map_get_contains(ctx0, n);
                                    }
                                }
                                assert(wf_block(blk));
                                // kinds along the edge to the body
                                assert forall|n: Seq<char>| map_contains_key(child.ctx, n)
                                    implies (n == index && spec_map_get(child.ctx, n)
                                    == Option::Some(Type::Int)) || spec_map_get(child.ctx, n)
                                    == spec_map_get(blk.ctx, n) by {
                                    crate::names::lemma_map_insert_get(
                                        env,
                                        index,
                                        Type::Int,
                                        n,
                                    );
                                    if n == index {
                                        assert(spec_map_get(child.ctx, n) == spec_map_get(
                                            env1,
                                            n,
                                        ));
                                    } else {
                                        crate::names::lemma_map_remove_get(
                                            child.ctx,
                                            index,
                                            n,
                                        );
                                        crate::names::lemma_map_get_contains(child.ctx, n);
                                        crate::names::lemma_map_get_contains(ctx0, n);
                                        assert(map_contains_key(ctx1, n));
                                        assert(spec_map_get(ctx1, n) == spec_map_get(env, n));
                                        assert(spec_map_get(child.ctx, n) == spec_map_get(
                                            env1,
                                            n,
                                        ));
                                    }
                                }
                                assert(kinds_linked(blk));
                                assert(post_ids(blk) =~= post_ids(child).push(
                                    blk.id as int,
                                ));
                                assert(is_range(post_ids(blk), c, rr.1));
                            },
                        }
                    },
                }
            },
        }
    }
}

pub proof fn lemma_lower_if_wf(
    ex: SpecExterns,
    env: Seq<(Seq<char>, Type)>,
    cond: SpecExpr,
    body: SpecBlockAst,
    c: int,
)
    requires
        map_sorted(env),
        0 <= c,
        c + 1 + crate::translator::spec_block_count(body) <= u64::MAX,
    ensures
        ({
            let r = spec_lower_if(ex, env, cond, body, c);
            &&& c <= r.1 <= c + 1 + crate::translator::spec_block_count(body)
            &&& (r.0 matches Ok(blk) ==> {
                &&& wf_block(blk)
                &&& kinds_linked(blk)
                &&& ctx_agrees(blk.ctx, env)
                &&& is_range(post_ids(blk), c, r.1)
                &&& r.1 == c + 1 + crate::translator::spec_block_count(body)
            })
        }),
    decreases body, 2int,
{
    let caps = spec_captures(cond);
    lemma_lower_block_wf(ex, env, Seq::empty(), body, c);
    let r = spec_lower_block(ex, env, Seq::empty(), body, c);
    match r.0 {
        Err(_) => {},
        Ok(child) => {
            match spec_type_names(env, child.ctx, caps, 0) {
                Err(_) => {},
                Ok(ctx1) => {
                    lemma_type_names_wf(env, child.ctx, caps, 0);
                    crate::translator::lemma_captures_sorted(cond);
                    let rr = spec_lower_if(ex, env, cond, body, c);
                    match rr.0 {
                        Err(_) => { assert(false); },
                        Ok(blk) => {
                            assert forall|n: Seq<char>| set_contains(caps, n) implies
                                map_contains_key(ctx1, n) by {
                                let x = choose|x: int| 0 <= x < caps.len() && caps[x] == n;
                                assert(0 <= x < caps.len() && caps[x] == n);
                            }
                            assert forall|n: Seq<char>| map_contains_key(child.ctx, n) implies
                                map_contains_key(blk.ctx, n) by {}
                            assert(forall|n: Seq<char>|
                                #[trigger] set_contains(blk.local, n) == false);
                            assert(wf_block(blk));
                            assert forall|n: Seq<char>| map_contains_key(child.ctx, n) implies
                                spec_map_get(child.ctx, n) == spec_map_get(blk.ctx, n) by {
                                assert(spec_map_get(child.ctx, n) == spec_map_get(env, n));
                                assert(spec_map_get(ctx1, n) == spec_map_get(env, n));
                            }
                            assert(kinds_linked(blk));
                            assert(post_ids(blk) =~= post_ids(child).push(blk.id as int));
                            assert(is_range(post_ids(blk), c, rr.1));
                        },
                    }
                },
            }
        },
    }
}


// ---------------------------------------------------------------------------
// The main induction over lowering.
// ---------------------------------------------------------------------------

pub proof fn lemma_lower_block_wf(
    ex: SpecExterns,
    env0: Seq<(Seq<char>, Type)>,
    rs: Seq<Seq<char>>,
    b: SpecBlockAst,
    c: int,
)
    requires
        map_sorted(env0),
        0 <= c,
        c + crate::translator::spec_block_count(b) <= u64::MAX,
    ensures
        ({
            let r = spec_lower_block(ex, env0, rs, b, c);
            &&& c <= r.1 <= c + crate::translator::spec_block_count(b)
            &&& (r.0 matches Ok(blk) ==> {
                &&& wf_block(blk)
                &&& kinds_linked(blk)
                &&& ctx_agrees(blk.ctx, env0)
                &&& is_range(post_ids(blk), c, r.1)
                &&& (forall|n: Seq<char>|
                    set_contains(blk.local, n) ==> !set_contains(rs, n))
                &&& r.1 == c + crate::translator::spec_block_count(b)
            })
        }),
    decreases b, 0int,
{
    let init = SpecFoldState {
        env: env0,
        local: Seq::empty(),
        decls: Seq::empty(),
        children: Seq::empty(),
        ctx: Seq::empty(),
    };
    assert(inv_fold(init, env0));
    assert(is_range(post_ids_cat(init.children), c, c));
    lemma_lower_stmts_wf(ex, rs, env0, init, b.stmts, c, c);
    let r = spec_lower_stmts(ex, rs, init, b.stmts, c);
    match r.0 {
        Err(_) => {},
        Ok(fs2) => {
            let bctx = spec_map_remove_all(fs2.ctx, fs2.local, 0);
            let rr = spec_lower_block(ex, env0, rs, b, c);
            match rr.0 {
                Err(_) => { assert(false); },
                Ok(blk) => {
                    assert(blk.ctx == bctx);
                    assert(blk.local == fs2.local);
                    assert forall|n: Seq<char>| #[trigger] map_contains_key(bctx, n) implies
                        !set_contains(fs2.local, n) && spec_map_get(bctx, n) == spec_map_get(
                        fs2.ctx,
                        n,
                    ) && map_contains_key(fs2.ctx, n) by {
                        crate::names::lemma_map_remove_all_get(fs2.ctx, fs2.local, 0, n);
                        crate::names::lemma_map_get_contains(bctx, n);
                        crate::names::lemma_map_get_contains(fs2.ctx, n);
                        if set_contains(fs2.local, n) {
                            let j = choose|j: int|
                                0 <= j < fs2.local.len() && fs2.local[j] == n;
                            assert(0 <= j < fs2.local.len() && fs2.local[j] == n);
                            assert(spec_map_get(bctx, n) is None);
                        }
                    }
                    assert(map_sorted(bctx)) by {
                        crate::names::lemma_map_remove_all_get(
                            fs2.ctx,
                            fs2.local,
                            0,
                            Seq::empty(),
                        );
                    }
                    assert forall|i: int, n: Seq<char>|
                        0 <= i < fs2.children.len() && #[trigger] map_contains_key(
                            fs2.children[i].ctx,
                            n,
                        ) implies set_contains(blk.local, n) || map_contains_key(blk.ctx, n) by {
                        if !set_contains(fs2.local, n) {
                            crate::names::lemma_map_remove_all_get(fs2.ctx, fs2.local, 0, n);
                            crate::names::lemma_map_get_contains(fs2.ctx, n);
                            crate::names::lemma_map_get_contains(bctx, n);
                        }
                    }
                    assert(wf_block(blk));
                    assert forall|i: int, n: Seq<char>|
                        0 <= i < fs2.children.len() && #[trigger] map_contains_key(
                            fs2.children[i].ctx,
                            n,
                        ) implies (set_contains(blk.local, n) && spec_map_get(
                        fs2.children[i].ctx,
                        n,
                    ) == Option::Some(Type::Value)) || spec_map_get(fs2.children[i].ctx, n)
                        == spec_map_get(blk.ctx, n) by {
                        if set_contains(fs2.local, n) {
                            assert(spec_map_get(fs2.ctx, n) == Option::Some(Type::Value));
                            assert(spec_map_get(fs2.children[i].ctx, n) == spec_map_get(
                                fs2.ctx,
                                n,
                            ));
                        } else {
                            crate::names::lemma_map_remove_all_get(fs2.ctx, fs2.local, 0, n);
                        }
                    }
                    assert(kinds_linked(blk));
                    assert forall|n: Seq<char>| #[trigger] map_contains_key(blk.ctx, n) implies
                        spec_map_get(blk.ctx, n) == spec_map_get(env0, n) by {}
                    assert(blk.id as int == r.1) by {
                        assert(r.1 == c + crate::translator::spec_stmts_count(b.stmts));
                    }
                    assert(post_ids(blk) =~= post_ids_cat(fs2.children).push(blk.id as int));
                    assert(is_range(post_ids(blk), c, rr.1));
                },
            }
        },
    }
}

pub proof fn lemma_lower_stmts_wf(
    ex: SpecExterns,
    rs: Seq<Seq<char>>,
    env0: Seq<(Seq<char>, Type)>,
    fs: SpecFoldState,
    stmts: Seq<crate::ast::SpecStmt>,
    c: int,
    cstart: int,
)
    requires
        map_sorted(env0),
        inv_fold(fs, env0),
        is_range(post_ids_cat(fs.children), cstart, c),
        0 <= cstart <= c,
        c + crate::translator::spec_stmts_count(stmts) <= u64::MAX,
    ensures
        ({
            let r = spec_lower_stmts(ex, rs, fs, stmts, c);
            &&& c <= r.1 <= c + crate::translator::spec_stmts_count(stmts)
            &&& (r.0 matches Ok(fs2) ==> {
                &&& inv_fold(fs2, env0)
                &&& is_range(post_ids_cat(fs2.children), cstart, r.1)
                &&& (forall|n: Seq<char>|
                    set_contains(fs2.local, n) ==> set_contains(fs.local, n) || !set_contains(
                        rs,
                        n,
                    ))
                &&& (forall|n: Seq<char>|
                    set_contains(fs.local, n) ==> set_contains(fs2.local, n))
                &&& r.1 == c + crate::translator::spec_stmts_count(stmts)
            })
        }),
    decreases stmts, 1int,
{
    if stmts.len() == 0 {
    } else {
        assert(crate::translator::spec_stmts_count(stmts)
            == crate::translator::spec_stmt_count(stmts[0])
            + crate::translator::spec_stmts_count(stmts.drop_first()));
        match stmts[0] {
            crate::ast::SpecStmt::Decl(names) => {
                lemma_decl_names_wf(fs, rs, names, 0, env0);
                match spec_decl_names(fs, rs, names, 0) {
                    Err(_) => {},
                    Ok(fsd) => {
                        lemma_lower_stmts_wf(ex, rs, env0, fsd, stmts.drop_first(), c, cstart);
                    },
                }
            },
            crate::ast::SpecStmt::Blk(inner) => {
                assert(crate::translator::spec_stmt_count(stmts[0])
                    == crate::translator::spec_block_count(inner));
                lemma_lower_block_wf(ex, fs.env, Seq::empty(), inner, c);
                lemma_lower_child_wf(
                    ex,
                    rs,
                    env0,
                    fs,
                    stmts.drop_first(),
                    spec_lower_block(ex, fs.env, Seq::empty(), inner, c),
                    c,
                    cstart,
                );
            },
            crate::ast::SpecStmt::For { index, lower, upper, body } => {
                assert(crate::translator::spec_stmt_count(stmts[0]) == 1
                    + crate::translator::spec_block_count(body));
                lemma_lower_for_wf(ex, fs.env, index, lower, upper, body, c);
                lemma_lower_child_wf(
                    ex,
                    rs,
                    env0,
                    fs,
                    stmts.drop_first(),
                    spec_lower_for(ex, fs.env, index, lower, upper, body, c),
                    c,
                    cstart,
                );
            },
            crate::ast::SpecStmt::If { cond, body } => {
                assert(crate::translator::spec_stmt_count(stmts[0]) == 1
                    + crate::translator::spec_block_count(body));
                lemma_lower_if_wf(ex, fs.env, cond, body, c);
                lemma_lower_child_wf(
                    ex,
                    rs,
                    env0,
                    fs,
                    stmts.drop_first(),
                    spec_lower_if(ex, fs.env, cond, body, c),
                    c,
                    cstart,
                );
            },
            crate::ast::SpecStmt::Call { ident, args } => {
                assert(crate::translator::spec_stmt_count(stmts[0]) == 1);
                lemma_lower_call_wf(ex, fs.env, ident, args, c);
                lemma_lower_child_wf(
                    ex,
                    rs,
                    env0,
                    fs,
                    stmts.drop_first(),
                    spec_lower_call(ex, fs.env, ident, args, c),
                    c,
                    cstart,
                );
            },
        }
    }
}

pub proof fn lemma_lower_child_wf(
    ex: SpecExterns,
    rs: Seq<Seq<char>>,
    env0: Seq<(Seq<char>, Type)>,
    fs: SpecFoldState,
    rest: Seq<crate::ast::SpecStmt>,
    cr: crate::translator::SpecLowered,
    c0: int,
    cstart: int,
)
    requires
        map_sorted(env0),
        inv_fold(fs, env0),
        is_range(post_ids_cat(fs.children), cstart, c0),
        0 <= cstart <= c0,
        c0 <= cr.1,
        cr.1 + crate::translator::spec_stmts_count(rest) <= u64::MAX,
        cr.0 matches Ok(child) ==> {
            &&& wf_block(child)
            &&& kinds_linked(child)
            &&& ctx_agrees(child.ctx, fs.env)
            &&& map_sorted(child.ctx)
            &&& is_range(post_ids(child), c0, cr.1)
        },
    ensures
        ({
            let out = spec_lower_child(ex, rs, fs, rest, cr);
            &&& cr.1 <= out.1 <= cr.1 + crate::translator::spec_stmts_count(rest)
            &&& (out.0 matches Ok(fs2) ==> {
                &&& inv_fold(fs2, env0)
                &&& is_range(post_ids_cat(fs2.children), cstart, out.1)
                &&& (forall|n: Seq<char>|
                    set_contains(fs2.local, n) ==> set_contains(fs.local, n) || !set_contains(
                        rs,
                        n,
                    ))
                &&& (forall|n: Seq<char>|
                    set_contains(fs.local, n) ==> set_contains(fs2.local, n))
                &&& out.1 == cr.1 + crate::translator::spec_stmts_count(rest)
            })
        }),
    decreases rest, 3int,
{
    match cr.0 {
        Err(_) => {},
        Ok(child) => {
            let m = spec_map_insert_all(fs.ctx, child.ctx, 0);
            lemma_merge_child_ctx(fs.ctx, child.ctx, fs.env, env0, fs.local);
            let fs1 = SpecFoldState {
                children: fs.children.push(child),
                ctx: m,
                ..fs
            };
            assert forall|i: int|
                0 <= i < fs1.children.len() implies wf_block(#[trigger] fs1.children[i])
                && kinds_linked(fs1.children[i]) by {
                if i < fs.children.len() {
                    assert(fs1.children[i] == fs.children[i]);
                } else {
                    assert(fs1.children[i] == child);
                }
            }
            assert forall|i: int, n: Seq<char>|
                0 <= i < fs1.children.len() && #[trigger] map_contains_key(
                    fs1.children[i].ctx,
                    n,
                ) implies map_contains_key(fs1.ctx, n) && spec_map_get(fs1.children[i].ctx, n)
                == spec_map_get(fs1.ctx, n) by {
                if i < fs.children.len() {
                    assert(fs1.children[i] == fs.children[i]);
                    assert(map_contains_key(fs.ctx, n));
                    assert(spec_map_get(m, n) == spec_map_get(fs.ctx, n));
                } else {
                    assert(fs1.children[i] == child);
                    assert(spec_map_get(m, n) == spec_map_get(child.ctx, n));
                }
            }
            assert(inv_fold(fs1, env0));
            lemma_post_ids_cat_push(fs.children, child);
            lemma_range_concat(
                post_ids_cat(fs.children),
                post_ids(child),
                cstart,
                c0,
                cr.1,
            );
            lemma_lower_stmts_wf(ex, rs, env0, fs1, rest, cr.1, cstart);
        },
    }
}


// ---------------------------------------------------------------------------
// Subroutines and whole files.
// ---------------------------------------------------------------------------

/// The environment a subroutine's parameters induce.
pub open spec fn params_env(sig: crate::ast::SpecSignature) -> Seq<(Seq<char>, Type)> {
    spec_map_insert_all(Seq::empty(), spec_param_pairs(sig.params), 0)
}

pub proof fn lemma_lower_sub_wf(ex: SpecExterns, sig: crate::ast::SpecSignature, body: SpecBlockAst, c: int)
    requires
        0 <= c,
        c + crate::translator::spec_block_count(body) <= u64::MAX,
    ensures
        ({
            let r = spec_lower_sub(ex, sig, body, c);
            &&& c <= r.1 <= c + crate::translator::spec_block_count(body)
            &&& (r.0 matches Ok(blk) ==> {
                &&& wf_block(blk)
                &&& kinds_linked(blk)
                &&& ctx_agrees(blk.ctx, params_env(sig))
                &&& is_range(post_ids(blk), c, r.1)
                &&& r.1 == c + crate::translator::spec_block_count(body)
            })
        }),
{
    let pairs = spec_param_pairs(sig.params);
    let pnames = crate::translator::spec_param_names(sig.params);
    let env0 = params_env(sig);
    let rs = spec_set_insert_all(Seq::empty(), pnames, 0);
    crate::names::lemma_map_insert_all_sorted(Seq::empty(), pairs, 0);
    crate::names::lemma_set_insert_all_sorted(Seq::empty(), pnames, 0);
    crate::translator::lemma_param_pairs_index(sig.params);
    crate::translator::lemma_param_names_index(sig.params);
    lemma_lower_block_wf(ex, env0, rs, body, c);
    let r = spec_lower_block(ex, env0, rs, body, c);
    match r.0 {
        Err(_) => {},
        Ok(blk0) => {
            let ctx1 = spec_map_insert_all(blk0.ctx, pairs, 0);
            crate::names::lemma_map_insert_all_sorted(blk0.ctx, pairs, 0);
            // a name of the parameter list is reserved
            assert forall|n: Seq<char>|
                (exists|j: int| 0 <= j < pairs.len() && pairs[j].0 == n) implies set_contains(
                rs,
                n,
            ) by {
                let j = choose|j: int| 0 <= j < pairs.len() && pairs[j].0 == n;
                crate::names::lemma_set_insert_all_contains(Seq::empty(), pnames, 0, n);
                assert(pnames[j] == n);
            }
            // every binding of the final context carries the parameter kind
            assert forall|n: Seq<char>| #[trigger] map_contains_key(ctx1, n) implies
                spec_map_get(ctx1, n) == spec_map_get(env0, n) by {
                crate::names::lemma_map_insert_all_get(blk0.ctx, pairs, 0, n);
                if exists|j: int| 0 <= j < pairs.len() && pairs[j].0 == n {
                    crate::names::lemma_map_insert_all_indep(
                        blk0.ctx,
                        Seq::empty(),
                        pairs,
                        0,
                        n,
                    );
                } else {
                    crate::names::lemma_map_insert_all_get_absent(blk0.ctx, pairs, 0, n);
                    crate::names::lemma_map_insert_all_get_absent(Seq::empty(), pairs, 0, n);
                    crate::names::lemma_map_get_contains(blk0.ctx, n);
                    crate::names::lemma_map_get_contains(ctx1, n);
                }
            }
            let rr = spec_lower_sub(ex, sig, body, c);
            match rr.0 {
                Err(_) => { assert(false); },
                Ok(blk) => {
                    assert(blk.ctx == ctx1);
                    assert(blk.kind == blk0.kind);
                    // locals never collide with the widened context
                    assert forall|n: Seq<char>| #[trigger] map_contains_key(ctx1, n) implies
                        !set_contains(blk.local, n) by {
                        crate::names::lemma_map_insert_all_get(blk0.ctx, pairs, 0, n);
                        if map_contains_key(blk0.ctx, n) {
                        } else {
                            let j = choose|j: int| 0 <= j < pairs.len() && pairs[j].0 == n;
                            assert(set_contains(rs, n));
                        }
                    }
                    // the context only widens
                    assert forall|n: Seq<char>| map_contains_key(blk0.ctx, n) implies
                        map_contains_key(ctx1, n) && spec_map_get(ctx1, n) == spec_map_get(
                        blk0.ctx,
                        n,
                    ) by {
                        crate::names::lemma_map_insert_all_get(blk0.ctx, pairs, 0, n);
                    }
                    assert(wf_block(blk)) by {
                        match blk.kind {
                            SpecBlockKind::Fork { children, decls } => {
                                assert forall|i: int, n: Seq<char>|
                                    0 <= i < children.len() && #[trigger] map_contains_key(
                                        children[i].ctx,
                                        n,
                                    ) implies set_contains(blk.local, n) || map_contains_key(
                                    blk.ctx,
                                    n,
                                ) by {}
                            },
                            _ => {},
                        }
                    }
                    assert(kinds_linked(blk)) by {
                        match blk.kind {
                            SpecBlockKind::Fork { children, decls } => {
                                assert forall|i: int, n: Seq<char>|
                                    0 <= i < children.len() && #[trigger] map_contains_key(
                                        children[i].ctx,
                                        n,
                                    ) implies (set_contains(blk.local, n) && spec_map_get(
                                    children[i].ctx,
                                    n,
                                ) == Option::Some(Type::Value)) || spec_map_get(
                                    children[i].ctx,
                                    n,
                                ) == spec_map_get(blk.ctx, n) by {
                                    if !(set_contains(blk.local, n) && spec_map_get(
                                        children[i].ctx,
                                        n,
                                    ) == Option::Some(Type::Value)) {
                                        assert(spec_map_get(children[i].ctx, n)
                                            == spec_map_get(blk0.ctx, n));
                                        assert(map_contains_key(blk0.ctx, n)) by {
                                            crate::names::lemma_map_get_contains(
                                                children[i].ctx,
                                                n,
                                            );
                                            crate::names::lemma_map_get_contains(blk0.ctx, n);
                                        }
                                    }
                                }
                            },
                            _ => {},
                        }
                    }
                    assert(post_ids(blk) =~= post_ids(blk0));
                },
            }
        },
    }
}

/// Invariant of a whole translation: every stored root block is
/// well-formed, kind-consistent, and the id lists of the stored blocks are
/// duplicate-free and pairwise disjoint, all below the counter.
pub open spec fn st_inv(st: SpecTransState) -> bool {
    &&& 0 <= st.counter
    &&& (forall|i: int|
        0 <= i < st.blocks.len() ==> wf_block(#[trigger] st.blocks[i].1) && kinds_linked(
            st.blocks[i].1,
        ))
    &&& (forall|i: int, k: int|
        0 <= i < st.blocks.len() && 0 <= k < post_ids(st.blocks[i].1).len() ==> 0 <= #[trigger]
            post_ids(st.blocks[i].1)[k] < st.counter)
    &&& (forall|i: int, k: int, l: int|
        0 <= i < st.blocks.len() && 0 <= k < post_ids(st.blocks[i].1).len() && 0 <= l
            < post_ids(st.blocks[i].1).len() && k != l ==> #[trigger] post_ids(
            st.blocks[i].1,
        )[k] != #[trigger] post_ids(st.blocks[i].1)[l])
    &&& (forall|i: int, j: int, k: int, l: int|
        0 <= i < st.blocks.len() && 0 <= j < st.blocks.len() && i != j && 0 <= k < post_ids(
            st.blocks[i].1,
        ).len() && 0 <= l < post_ids(st.blocks[j].1).len() ==> #[trigger] post_ids(
            st.blocks[i].1,
        )[k] != #[trigger] post_ids(st.blocks[j].1)[l])
}

pub proof fn lemma_visit_item_inv(st: SpecTransState, it: crate::ast::SpecItem)
    requires
        st_inv(st),
        st.counter + spec_item_count(it) <= u64::MAX,
    ensures
        st_inv(spec_visit_item(st, it)),
        st.counter <= spec_visit_item(st, it).counter <= st.counter + spec_item_count(it),
{
    match it {
        crate::ast::SpecItem::Import(_) => {},
        crate::ast::SpecItem::Sub(sig, body) => {
            lemma_lower_sub_wf(st.externs, sig, body, st.counter);
            let r = spec_lower_sub(st.externs, sig, body, st.counter);
            match r.0 {
                Err(_) => {},
                Ok(blk) => {
                    let bl2 = spec_put(st.blocks, sig.ident, blk);
                    let j = crate::names::lemma_spec_put_shape(st.blocks, sig.ident, blk);
                    let st2 = spec_visit_item(st, it);
                    assert(st2.blocks == bl2);
                    if j < st.blocks.len() {
                        assert(forall|x: int|
                            0 <= x < bl2.len() && x != j ==> bl2[x] == st.blocks[x]);
                        assert(bl2[j].1 == blk);
                    } else {
                        assert(forall|x: int|
                            0 <= x < st.blocks.len() ==> bl2[x] == st.blocks[x]);
                        assert(bl2[j].1 == blk);
                    }
                    assert(st_inv(st2));
                },
            }
        },
    }
}

pub proof fn lemma_visit_items_inv(st: SpecTransState, items: Seq<crate::ast::SpecItem>)
    requires
        st_inv(st),
        st.counter + spec_items_count(items) <= u64::MAX,
    ensures
        st_inv(spec_visit_items(st, items)),
    decreases items,
{
    if items.len() > 0 {
        assert(spec_items_count(items) == spec_item_count(items[0]) + spec_items_count(
            items.drop_first(),
        ));
        lemma_visit_item_inv(st, items[0]);
        lemma_visit_items_inv(spec_visit_item(st, items[0]), items.drop_first());
    }
}

// ---------------------------------------------------------------------------
// The laws, at the level of a whole source file.
// ---------------------------------------------------------------------------

/// Block-id uniqueness: after translating a file, any two blocks of the
/// lowered forest — within one subroutine or across subroutines — carry
/// distinct ids.
pub proof fn lemma_block_id_uniqueness(f: crate::ast::SpecFile)
    requires
        spec_items_count(f.items) <= u64::MAX,
    ensures
        ({
            let st = spec_visit_items(crate::translator::spec_init_state(), f.items);
            forall|i: int, j: int, k: int, l: int|
                0 <= i < st.blocks.len() && 0 <= j < st.blocks.len() && 0 <= k < post_ids(
                    st.blocks[i].1,
                ).len() && 0 <= l < post_ids(st.blocks[j].1).len() && (i != j || k != l)
                    ==> #[trigger] post_ids(st.blocks[i].1)[k] != #[trigger] post_ids(
                    st.blocks[j].1,
                )[l]
        }),
{
    assert(st_inv(crate::translator::spec_init_state()));
    lemma_visit_items_inv(crate::translator::spec_init_state(), f.items);
}

/// Context closure and wait/submit partition: every block of the lowered
/// forest is well-formed — its `wait` and `submit` sets are disjoint and
/// both lie inside its context, every free variable of its body is
/// reachable through the context or the locals, and every captured field
/// carries the kind its declaration assigned ([`wf_block`],
/// [`kinds_linked`]).
pub proof fn lemma_lowered_invariants(f: crate::ast::SpecFile)
    requires
        spec_items_count(f.items) <= u64::MAX,
    ensures
        ({
            let st = spec_visit_items(crate::translator::spec_init_state(), f.items);
            forall|i: int|
                0 <= i < st.blocks.len() ==> wf_block(#[trigger] st.blocks[i].1)
                    && kinds_linked(st.blocks[i].1)
        }),
{
    assert(st_inv(crate::translator::spec_init_state()));
    lemma_visit_items_inv(crate::translator::spec_init_state(), f.items);
}

/// Kind preservation at a subroutine's root: every context field of the
/// root block carries exactly the kind the subroutine's parameter list
/// declares for that name.
pub proof fn lemma_sub_context_kinds(
    ex: SpecExterns,
    sig: crate::ast::SpecSignature,
    body: SpecBlockAst,
    c: int,
)
    requires
        0 <= c,
        c + crate::translator::spec_block_count(body) <= u64::MAX,
    ensures
        spec_lower_sub(ex, sig, body, c).0 matches Ok(blk) ==> forall|n: Seq<char>|
            #[trigger] map_contains_key(blk.ctx, n) ==> spec_map_get(blk.ctx, n)
                == spec_map_get(params_env(sig), n),
{
    lemma_lower_sub_wf(ex, sig, body, c);
}

} // verus!
