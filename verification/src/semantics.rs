//! The reference semantics of a comprehension and of a compiled pipeline,
//! and the theorem that compilation preserves it.
//!
//! Expression leaves are opaque, so their meaning comes from a host
//! evaluator, modelled as three arbitrary mathematical functions: one
//! yields a source's element sequence, one a condition's truth value, one
//! the mapping's value, each under an environment of pattern bindings
//! (outermost clause first). The semantics is the nested-loop reading:
//! outermost clause varies slowest, each source keeps its own order, an
//! element contributes only where every condition of its clause holds.

use vstd::prelude::*;

use crate::ast::ClauseView;
use crate::ast::ComprehensionView;
use crate::pipeline::spec_compile;
use crate::pipeline::PipelineBodyView;
use crate::pipeline::PipelineView;

verus! {

/// One pattern binding: the opaque pattern leaf and the element bound to it.
pub ghost struct Binding<V> {
    pub pattern: u64,
    pub value: V,
}

/// A host expression evaluator, as arbitrary mathematical functions from an
/// environment (enclosing bindings, outermost first) and an opaque
/// expression to its meaning.
#[verifier::reject_recursive_types(V)]
pub ghost struct Interp<V> {
    /// The element sequence a source expression evaluates to.
    pub source_of: spec_fn(Seq<Binding<V>>, Seq<u64>) -> Seq<V>,
    /// The truth value a condition expression evaluates to.
    pub cond_of: spec_fn(Seq<Binding<V>>, Seq<u64>) -> bool,
    /// The value the mapping expression evaluates to.
    pub map_of: spec_fn(Seq<Binding<V>>, Seq<u64>) -> V,
}

/// Whether every condition of a clause holds in `env`. A pure boolean
/// conjunction: the order of the list does not matter here.
pub open spec fn holds_all<V>(i: Interp<V>, env: Seq<Binding<V>>, conds: Seq<Seq<u64>>) -> bool {
    forall|k: int| 0 <= k < conds.len() ==> (i.cond_of)(env, #[trigger] conds[k])
}

/// The nested-loop meaning of the clause list `clauses` (with `mapping`
/// yielded innermost), under `env`. No clauses left means one yield of the
/// mapping value.
pub open spec fn clauses_sem<V>(
    i: Interp<V>,
    env: Seq<Binding<V>>,
    clauses: Seq<ClauseView>,
    mapping: Seq<u64>,
) -> Seq<V>
    decreases clauses.len(), 0int, 0int,
{
    if clauses.len() == 0 {
        seq![(i.map_of)(env, mapping)]
    } else {
        clause_loop(
            i,
            env,
            clauses[0],
            clauses.skip(1),
            mapping,
            (i.source_of)(env, clauses[0].source),
        )
    }
}

/// The loop of one clause over the elements of its source that are still to
/// be consumed: each element is bound, filtered by the clause's conditions,
/// and contributes the meaning of the remaining clauses; contributions are
/// concatenated in element order.
pub open spec fn clause_loop<V>(
    i: Interp<V>,
    env: Seq<Binding<V>>,
    c: ClauseView,
    rest: Seq<ClauseView>,
    mapping: Seq<u64>,
    elems: Seq<V>,
) -> Seq<V>
    decreases rest.len(), 1int, elems.len(),
{
    if elems.len() == 0 {
        Seq::empty()
    } else {
        let env1 = env.push(Binding { pattern: c.pattern, value: elems[0] });
        let head = if holds_all(i, env1, c.conditions) {
            clauses_sem(i, env1, rest, mapping)
        } else {
            Seq::empty()
        };
        head + clause_loop(i, env, c, rest, mapping, elems.drop_first())
    }
}

/// The meaning of a whole comprehension: its clause list under the empty
/// environment.
pub open spec fn comp_sem<V>(i: Interp<V>, c: ComprehensionView) -> Seq<V> {
    clauses_sem(i, Seq::empty(), c.clauses, c.mapping)
}

/// The meaning of a compiled pipeline layer: draw from the layer's source,
/// bind, filter, and yield what the body says -- the mapping's value at the
/// innermost layer, the flattened output of the inner pipeline elsewhere.
pub open spec fn pipeline_sem<V>(i: Interp<V>, env: Seq<Binding<V>>, p: PipelineView) -> Seq<V>
    decreases p, 0int,
{
    pipe_loop(i, env, p.pattern, p.conditions, p.body, (i.source_of)(env, p.sequence))
}

/// The loop of one pipeline layer over its remaining source elements.
pub open spec fn pipe_loop<V>(
    i: Interp<V>,
    env: Seq<Binding<V>>,
    pattern: u64,
    conds: Seq<Seq<u64>>,
    body: PipelineBodyView,
    elems: Seq<V>,
) -> Seq<V>
    decreases body, 1int, elems.len(),
{
    if elems.len() == 0 {
        Seq::empty()
    } else {
        let env1 = env.push(Binding { pattern, value: elems[0] });
        let head = if holds_all(i, env1, conds) {
            match body {
                PipelineBodyView::Yield(m) => seq![(i.map_of)(env1, m)],
                PipelineBodyView::Nested(q) => pipeline_sem(i, env1, *q),
            }
        } else {
            Seq::empty()
        };
        head + pipe_loop(i, env, pattern, conds, body, elems.drop_first())
    }
}

/// Compiler correctness, layer by layer: the loop of the layer compiled
/// from a clause means exactly the clause's own loop.
proof fn lemma_compile_loop_correct<V>(
    i: Interp<V>,
    env: Seq<Binding<V>>,
    c: ClauseView,
    rest: Seq<ClauseView>,
    mapping: Seq<u64>,
    elems: Seq<V>,
)
    ensures
        pipe_loop(
            i,
            env,
            c.pattern,
            c.conditions,
            (if rest.len() == 0 {
                PipelineBodyView::Yield(mapping)
            } else {
                PipelineBodyView::Nested(Box::new(spec_compile(rest, mapping)))
            }),
            elems,
        ) == clause_loop(i, env, c, rest, mapping, elems),
    decreases rest.len(), 1int, elems.len(),
{
    let body = if rest.len() == 0 {
        PipelineBodyView::Yield(mapping)
    } else {
        PipelineBodyView::Nested(Box::new(spec_compile(rest, mapping)))
    };
    if elems.len() == 0 {
        assert(pipe_loop(i, env, c.pattern, c.conditions, body, elems) == Seq::<V>::empty());
        assert(clause_loop(i, env, c, rest, mapping, elems) == Seq::<V>::empty());
    } else {
        let env1 = env.push(Binding { pattern: c.pattern, value: elems[0] });
        let head_p = if holds_all(i, env1, c.conditions) {
            match body {
                PipelineBodyView::Yield(m) => seq![(i.map_of)(env1, m)],
                PipelineBodyView::Nested(q) => pipeline_sem(i, env1, *q),
            }
        } else {
            Seq::<V>::empty()
        };
        let head_c = if holds_all(i, env1, c.conditions) {
            clauses_sem(i, env1, rest, mapping)
        } else {
            Seq::<V>::empty()
        };
        assert(pipe_loop(i, env, c.pattern, c.conditions, body, elems) == head_p + pipe_loop(
            i,
            env,
            c.pattern,
            c.conditions,
            body,
            elems.drop_first(),
        ));
        assert(clause_loop(i, env, c, rest, mapping, elems) == head_c + clause_loop(
            i,
            env,
            c,
            rest,
            mapping,
            elems.drop_first(),
        ));
        if holds_all(i, env1, c.conditions) && rest.len() > 0 {
            lemma_compile_correct(i, env1, rest, mapping);
        }
        assert(head_p == head_c);
        lemma_compile_loop_correct(i, env, c, rest, mapping, elems.drop_first());
    }
}

/// Compiler correctness: the compiled pipeline of a non-empty clause list
/// means exactly the nested-loop semantics of the comprehension, under any
/// host evaluator and any environment.
pub proof fn lemma_compile_correct<V>(
    i: Interp<V>,
    env: Seq<Binding<V>>,
    clauses: Seq<ClauseView>,
    mapping: Seq<u64>,
)
    requires
        clauses.len() >= 1,
    ensures
        pipeline_sem(i, env, spec_compile(clauses, mapping)) == clauses_sem(
            i,
            env,
            clauses,
            mapping,
        ),
    decreases clauses.len(), 0int, 0int,
{
    let p = spec_compile(clauses, mapping);
    let elems = (i.source_of)(env, clauses[0].source);
    if clauses.len() == 1 {
        assert(clauses.skip(1).len() == 0);
        lemma_compile_loop_correct(i, env, clauses[0], clauses.skip(1), mapping, elems);
    } else {
        lemma_compile_loop_correct(i, env, clauses[0], clauses.skip(1), mapping, elems);
    }
}

/// The comprehension-level reading of compiler correctness: running the
/// compiled pipeline from an empty environment means the comprehension.
pub proof fn lemma_pipeline_means_comprehension<V>(i: Interp<V>, c: ComprehensionView)
    requires
        c.clauses.len() >= 1,
    ensures
        pipeline_sem(i, Seq::empty(), spec_compile(c.clauses, c.mapping)) == comp_sem(i, c),
{
    lemma_compile_correct(i, Seq::empty(), c.clauses, c.mapping);
}

} // verus!
