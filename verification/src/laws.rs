//! The library's laws: properties of the comprehension semantics that hold
//! for every host evaluator, proved once and for all.

use vstd::prelude::*;

use crate::ast::ClauseView;
use crate::ast::ComprehensionView;
use crate::semantics::clause_loop;
use crate::semantics::clauses_sem;
use crate::semantics::comp_sem;
use crate::semantics::holds_all;
use crate::semantics::Binding;
use crate::semantics::Interp;

verus! {

/// A clause's loop with no further clauses inside and no conditions maps
/// each element straight to the mapping's value.
proof fn lemma_clause_loop_map<V>(
    i: Interp<V>,
    env: Seq<Binding<V>>,
    c: ClauseView,
    mapping: Seq<u64>,
    elems: Seq<V>,
)
    requires
        c.conditions.len() == 0,
    ensures
        clause_loop(i, env, c, Seq::empty(), mapping, elems) == elems.map_values(
            (|v: V| (i.map_of)(env.push(Binding { pattern: c.pattern, value: v }), mapping)),
        ),
    decreases elems.len(),
{
    let f = |v: V| (i.map_of)(env.push(Binding { pattern: c.pattern, value: v }), mapping);
    if elems.len() == 0 {
        assert(elems.map_values(f) =~= Seq::<V>::empty());
    } else {
        lemma_clause_loop_map(i, env, c, mapping, elems.drop_first());
        let env1 = env.push(Binding { pattern: c.pattern, value: elems[0] });
        assert(clauses_sem(i, env1, Seq::empty(), mapping) == seq![f(elems[0])]);
        assert(seq![f(elems[0])] + elems.drop_first().map_values(f) =~= elems.map_values(f));
    }
}

/// A comprehension with exactly one clause and no conditions means the
/// mapping applied to every element of the source, in source order (and so
/// with identical length).
pub proof fn lemma_single_clause_equivalence<V>(i: Interp<V>, c: ComprehensionView)
    requires
        c.clauses.len() == 1,
        c.clauses[0].conditions.len() == 0,
    ensures
        ({
            let env0 = Seq::<Binding<V>>::empty();
            let src = (i.source_of)(env0, c.clauses[0].source);
            comp_sem(i, c) == src.map_values(
                (|v: V| (i.map_of)(
                    env0.push(Binding { pattern: c.clauses[0].pattern, value: v }),
                    c.mapping,
                )),
            )
        }),
{
    let env0 = Seq::<Binding<V>>::empty();
    let src = (i.source_of)(env0, c.clauses[0].source);
    assert(c.clauses.skip(1) =~= Seq::<ClauseView>::empty());
    lemma_clause_loop_map(i, env0, c.clauses[0], c.mapping, src);
}

/// A clause's loop splits around a final element: processing `elems.push(v)`
/// is processing `elems`, then `v` alone.
proof fn lemma_clause_loop_push<V>(
    i: Interp<V>,
    env: Seq<Binding<V>>,
    c: ClauseView,
    rest: Seq<ClauseView>,
    mapping: Seq<u64>,
    elems: Seq<V>,
    v: V,
)
    ensures
        clause_loop(i, env, c, rest, mapping, elems.push(v)) == clause_loop(
            i,
            env,
            c,
            rest,
            mapping,
            elems,
        ) + clause_loop(i, env, c, rest, mapping, seq![v]),
    decreases elems.len(),
{
    if elems.len() == 0 {
        assert(elems.push(v) =~= seq![v]);
        assert(Seq::<V>::empty() + clause_loop(i, env, c, rest, mapping, seq![v])
            =~= clause_loop(i, env, c, rest, mapping, seq![v]));
    } else {
        assert(elems.push(v).drop_first() =~= elems.drop_first().push(v));
        assert(elems.push(v)[0] == elems[0]);
        lemma_clause_loop_push(i, env, c, rest, mapping, elems.drop_first(), v);
        let env1 = env.push(Binding { pattern: c.pattern, value: elems[0] });
        let head = if holds_all(i, env1, c.conditions) {
            clauses_sem(i, env1, rest, mapping)
        } else {
            Seq::<V>::empty()
        };
        let t1 = clause_loop(i, env, c, rest, mapping, elems.drop_first());
        let t2 = clause_loop(i, env, c, rest, mapping, seq![v]);
        assert((head + (t1 + t2)) =~= ((head + t1) + t2));
    }
}

/// A clause's loop processes its source piecewise: the elements consumed so
/// far fully determine the output produced so far. Splitting the source
/// splits the output at the matching point, so a consumer that stops after
/// the output of the first `m` source elements never needs the rest of the
/// source -- the laziness that permits early termination.
pub proof fn lemma_prefix_of_source_gives_prefix_of_output<V>(
    i: Interp<V>,
    env: Seq<Binding<V>>,
    c: ClauseView,
    rest: Seq<ClauseView>,
    mapping: Seq<u64>,
    elems: Seq<V>,
    m: int,
)
    requires
        0 <= m <= elems.len(),
    ensures
        clause_loop(i, env, c, rest, mapping, elems) == clause_loop(
            i,
            env,
            c,
            rest,
            mapping,
            elems.take(m),
        ) + clause_loop(i, env, c, rest, mapping, elems.skip(m)),
    decreases m,
{
    if m == 0 {
        assert(elems.take(0) =~= Seq::<V>::empty());
        assert(elems.skip(0) =~= elems);
        assert(Seq::<V>::empty() + clause_loop(i, env, c, rest, mapping, elems)
            =~= clause_loop(i, env, c, rest, mapping, elems));
    } else {
        let env1 = env.push(Binding { pattern: c.pattern, value: elems[0] });
        let head = if holds_all(i, env1, c.conditions) {
            clauses_sem(i, env1, rest, mapping)
        } else {
            Seq::<V>::empty()
        };
        assert(elems.take(m)[0] == elems[0]);
        assert(elems.take(m).drop_first() =~= elems.drop_first().take(m - 1));
        assert(elems.skip(m) =~= elems.drop_first().skip(m - 1));
        lemma_prefix_of_source_gives_prefix_of_output(
            i,
            env,
            c,
            rest,
            mapping,
            elems.drop_first(),
            m - 1,
        );
        let t1 = clause_loop(i, env, c, rest, mapping, elems.drop_first().take(m - 1));
        let t2 = clause_loop(i, env, c, rest, mapping, elems.drop_first().skip(m - 1));
        assert((head + t1) + t2 =~= head + (t1 + t2));
    }
}

/// A clause's loop over one element, with no further clauses inside: the
/// element's mapped value if every condition holds, else nothing.
proof fn lemma_clause_loop_singleton<V>(
    i: Interp<V>,
    env: Seq<Binding<V>>,
    c: ClauseView,
    mapping: Seq<u64>,
    v: V,
)
    ensures
        clause_loop(i, env, c, Seq::empty(), mapping, seq![v]) == (if holds_all(
            i,
            env.push(Binding { pattern: c.pattern, value: v }),
            c.conditions,
        ) {
            seq![(i.map_of)(env.push(Binding { pattern: c.pattern, value: v }), mapping)]
        } else {
            Seq::<V>::empty()
        }),
{
    let env1 = env.push(Binding { pattern: c.pattern, value: v });
    assert(seq![v].drop_first() =~= Seq::<V>::empty());
    assert(clause_loop(i, env, c, Seq::empty(), mapping, Seq::empty()) == Seq::<V>::empty());
    if holds_all(i, env1, c.conditions) {
        assert(clauses_sem(i, env1, Seq::empty(), mapping)
            == seq![(i.map_of)(env1, mapping)]);
        assert(seq![(i.map_of)(env1, mapping)] + Seq::<V>::empty()
            =~= seq![(i.map_of)(env1, mapping)]);
    } else {
        assert(Seq::<V>::empty() + Seq::<V>::empty() =~= Seq::<V>::empty());
    }
}

/// A clause's loop with no further clauses inside is filter followed by
/// map: keep the elements whose bindings satisfy every condition, map each
/// kept element to the mapping's value.
proof fn lemma_clause_loop_filter<V>(
    i: Interp<V>,
    env: Seq<Binding<V>>,
    c: ClauseView,
    mapping: Seq<u64>,
    elems: Seq<V>,
)
    ensures
        clause_loop(i, env, c, Seq::empty(), mapping, elems) == elems.filter(
            (|v: V| holds_all(i, env.push(Binding { pattern: c.pattern, value: v }), c.conditions)),
        ).map_values(
            (|v: V| (i.map_of)(env.push(Binding { pattern: c.pattern, value: v }), mapping)),
        ),
    decreases elems.len(),
{
    let keep = |v: V| holds_all(i, env.push(Binding { pattern: c.pattern, value: v }), c.conditions);
    let f = |v: V| (i.map_of)(env.push(Binding { pattern: c.pattern, value: v }), mapping);
    if elems.len() == 0 {
        reveal(Seq::filter);
        assert(elems.filter(keep).map_values(f) =~= Seq::<V>::empty());
    } else {
        let front = elems.drop_last();
        let x = elems.last();
        lemma_clause_loop_filter(i, env, c, mapping, front);
        assert(elems =~= front.push(x));
        lemma_clause_loop_push(i, env, c, Seq::empty(), mapping, front, x);
        lemma_clause_loop_singleton(i, env, c, mapping, x);
        front.lemma_filter_push(x, keep);
        assert(elems.filter(keep) == if keep(x) {
            front.filter(keep).push(x)
        } else {
            front.filter(keep)
        });
        if keep(x) {
            assert(front.filter(keep).push(x).map_values(f)
                =~= front.filter(keep).map_values(f) + seq![f(x)]);
        } else {
            assert(front.filter(keep).map_values(f) + Seq::<V>::empty()
                =~= front.filter(keep).map_values(f));
        }
    }
}

/// For a single clause with any number of conditions, an element's mapped
/// value stands in the output exactly when every condition holds of its
/// binding; kept elements stay in source order.
pub proof fn lemma_filter_correctness<V>(i: Interp<V>, c: ComprehensionView)
    requires
        c.clauses.len() == 1,
    ensures
        ({
            let env0 = Seq::<Binding<V>>::empty();
            let src = (i.source_of)(env0, c.clauses[0].source);
            comp_sem(i, c) == src.filter(
                (|v: V| holds_all(
                    i,
                    env0.push(Binding { pattern: c.clauses[0].pattern, value: v }),
                    c.clauses[0].conditions,
                )),
            ).map_values(
                (|v: V| (i.map_of)(
                    env0.push(Binding { pattern: c.clauses[0].pattern, value: v }),
                    c.mapping,
                )),
            )
        }),
{
    let env0 = Seq::<Binding<V>>::empty();
    let src = (i.source_of)(env0, c.clauses[0].source);
    assert(c.clauses.skip(1) =~= Seq::<ClauseView>::empty());
    lemma_clause_loop_filter(i, env0, c.clauses[0], c.mapping, src);
}

/// Two condition lists that hold the same set of condition expressions
/// filter alike: conjunction does not depend on order or repetition.
pub proof fn lemma_holds_all_same_set<V>(
    i: Interp<V>,
    env: Seq<Binding<V>>,
    a: Seq<Seq<u64>>,
    b: Seq<Seq<u64>>,
)
    requires
        a.to_set() == b.to_set(),
    ensures
        holds_all(i, env, a) == holds_all(i, env, b),
{
    if holds_all(i, env, a) {
        assert forall|k: int| 0 <= k < b.len() implies (i.cond_of)(env, #[trigger] b[k]) by {
            assert(b.contains(b[k]));
            assert(a.to_set().contains(b[k]));
            let m = choose|m: int| 0 <= m < a.len() && a[m] == b[k];
            assert((i.cond_of)(env, a[m]));
        }
    }
    if holds_all(i, env, b) {
        assert forall|k: int| 0 <= k < a.len() implies (i.cond_of)(env, #[trigger] a[k]) by {
            assert(a.contains(a[k]));
            assert(b.to_set().contains(a[k]));
            let m = choose|m: int| 0 <= m < b.len() && b[m] == a[k];
            assert((i.cond_of)(env, b[m]));
        }
    }
}

/// Clause lists that differ only in how each clause's condition list is
/// ordered (same set of condition expressions).
pub open spec fn same_but_condition_order(ca: Seq<ClauseView>, cb: Seq<ClauseView>) -> bool {
    &&& ca.len() == cb.len()
    &&& forall|k: int| 0 <= k < ca.len() ==> {
        &&& (#[trigger] ca[k]).pattern == cb[k].pattern
        &&& ca[k].source == cb[k].source
        &&& ca[k].conditions.to_set() == cb[k].conditions.to_set()
    }
}

proof fn lemma_clauses_sem_condition_order<V>(
    i: Interp<V>,
    env: Seq<Binding<V>>,
    ca: Seq<ClauseView>,
    cb: Seq<ClauseView>,
    mapping: Seq<u64>,
)
    requires
        same_but_condition_order(ca, cb),
    ensures
        clauses_sem(i, env, ca, mapping) == clauses_sem(i, env, cb, mapping),
    decreases ca.len(), 0int, 0int,
{
    if ca.len() > 0 {
        assert(same_but_condition_order(ca.skip(1), cb.skip(1)));
        lemma_clause_loop_condition_order(
            i,
            env,
            ca[0],
            cb[0],
            ca.skip(1),
            cb.skip(1),
            mapping,
            (i.source_of)(env, ca[0].source),
        );
    }
}

proof fn lemma_clause_loop_condition_order<V>(
    i: Interp<V>,
    env: Seq<Binding<V>>,
    a0: ClauseView,
    b0: ClauseView,
    ra: Seq<ClauseView>,
    rb: Seq<ClauseView>,
    mapping: Seq<u64>,
    elems: Seq<V>,
)
    requires
        a0.pattern == b0.pattern,
        a0.source == b0.source,
        a0.conditions.to_set() == b0.conditions.to_set(),
        same_but_condition_order(ra, rb),
    ensures
        clause_loop(i, env, a0, ra, mapping, elems) == clause_loop(i, env, b0, rb, mapping, elems),
    decreases ra.len(), 1int, elems.len(),
{
    if elems.len() > 0 {
        let env1 = env.push(Binding { pattern: a0.pattern, value: elems[0] });
        lemma_holds_all_same_set(i, env1, a0.conditions, b0.conditions);
        if holds_all(i, env1, a0.conditions) {
            lemma_clauses_sem_condition_order(i, env1, ra, rb, mapping);
        }
        lemma_clause_loop_condition_order(i, env, a0, b0, ra, rb, mapping, elems.drop_first());
    }
}

/// Condition order is immaterial: two comprehensions that differ only in
/// the order (or repetition) of each clause's conditions mean the same
/// sequence. Order affects only short-circuit evaluation cost, never
/// inclusion.
pub proof fn lemma_condition_order_irrelevant<V>(
    i: Interp<V>,
    a: ComprehensionView,
    b: ComprehensionView,
)
    requires
        a.mapping == b.mapping,
        same_but_condition_order(a.clauses, b.clauses),
    ensures
        comp_sem(i, a) == comp_sem(i, b),
{
    lemma_clauses_sem_condition_order(i, Seq::empty(), a.clauses, b.clauses, a.mapping);
}

/// Row-major position of the combination `(j, k)` in the flat output of a
/// two-clause comprehension whose inner source has length `width`.
pub open spec fn grid_index(j: int, k: int, width: int) -> int {
    j * width + k
}

proof fn lemma_cart_loop<V>(
    i: Interp<V>,
    c0: ClauseView,
    c1: ClauseView,
    mapping: Seq<u64>,
    inner_src: Seq<V>,
    elems: Seq<V>,
)
    requires
        c0.conditions.len() == 0,
        c1.conditions.len() == 0,
        forall|v: V| (i.source_of)(
            #[trigger] Seq::<Binding<V>>::empty().push(Binding { pattern: c0.pattern, value: v }),
            c1.source,
        ) == inner_src,
    ensures
        ({
            let out = clause_loop(i, Seq::empty(), c0, seq![c1], mapping, elems);
            let n = inner_src.len() as int;
            &&& out.len() == elems.len() * inner_src.len()
            &&& forall|j: int, k: int| 0 <= j < elems.len() && 0 <= k < n
                ==> out[#[trigger] grid_index(j, k, n)] == (i.map_of)(
                    Seq::<Binding<V>>::empty().push(
                        Binding { pattern: c0.pattern, value: elems[j] },
                    ).push(Binding { pattern: c1.pattern, value: inner_src[k] }),
                    mapping,
                )
        }),
    decreases elems.len(),
{
    let env0 = Seq::<Binding<V>>::empty();
    let out = clause_loop(i, env0, c0, seq![c1], mapping, elems);
    let n = inner_src.len() as int;
    if elems.len() == 0 {
        assert(out.len() == 0);
        assert(0 * inner_src.len() == 0);
    } else {
        let env1 = env0.push(Binding { pattern: c0.pattern, value: elems[0] });
        assert((i.source_of)(env1, c1.source) == inner_src);
        assert(holds_all(i, env1, c0.conditions));
        assert(seq![c1].skip(1) =~= Seq::<ClauseView>::empty());
        lemma_clause_loop_map(i, env1, c1, mapping, inner_src);
        let head = clauses_sem(i, env1, seq![c1], mapping);
        assert(head.len() == n);
        let tail = clause_loop(i, env0, c0, seq![c1], mapping, elems.drop_first());
        assert(out == head + tail);
        lemma_cart_loop(i, c0, c1, mapping, inner_src, elems.drop_first());
        assert(tail.len() == (elems.len() - 1) * inner_src.len());
        assert(inner_src.len() + (elems.len() - 1) * inner_src.len() == elems.len()
            * inner_src.len()) by (nonlinear_arith)
            requires
                elems.len() >= 1,
        ;
        assert forall|j: int, k: int| 0 <= j < elems.len() && 0 <= k < n implies out[#[trigger] grid_index(
            j,
            k,
            n,
        )] == (i.map_of)(
            Seq::<Binding<V>>::empty().push(Binding { pattern: c0.pattern, value: elems[j] }).push(
                Binding { pattern: c1.pattern, value: inner_src[k] },
            ),
            mapping,
        ) by {
            assert(grid_index(j, k, n) == j * n + k);
            if j == 0 {
                assert(grid_index(0, k, n) == k);
                assert(out[k] == head[k]);
                assert(head[k] == (i.map_of)(
                    env1.push(Binding { pattern: c1.pattern, value: inner_src[k] }),
                    mapping,
                ));
            } else {
                assert(j * n + k >= n && j * n + k - n == (j - 1) * n + k && j * n + k
                    < elems.len() * n) by (nonlinear_arith)
                    requires
                        1 <= j < elems.len(),
                        0 <= k < n,
                ;
                assert(out.len() == elems.len() * n);
                assert(out[grid_index(j, k, n)] == tail[grid_index(j - 1, k, n)]);
                assert(elems.drop_first()[j - 1] == elems[j]);
                assert(tail[grid_index(j - 1, k, n)] == (i.map_of)(
                    Seq::<Binding<V>>::empty().push(
                        Binding { pattern: c0.pattern, value: elems.drop_first()[j - 1] },
                    ).push(Binding { pattern: c1.pattern, value: inner_src[k] }),
                    mapping,
                ));
            }
        }
    }
}

/// Two clauses, no conditions, and an inner source that does not depend on
/// the outer binding produce one mapped value per combination -- the
/// Cartesian product of the two sources -- ordered with the outer clause
/// varying slowest, each source in its own order.
pub proof fn lemma_nesting_cartesian_product<V>(
    i: Interp<V>,
    c: ComprehensionView,
    inner_src: Seq<V>,
)
    requires
        c.clauses.len() == 2,
        c.clauses[0].conditions.len() == 0,
        c.clauses[1].conditions.len() == 0,
        forall|v: V| (i.source_of)(
            #[trigger] Seq::<Binding<V>>::empty().push(
                Binding { pattern: c.clauses[0].pattern, value: v },
            ),
            c.clauses[1].source,
        ) == inner_src,
    ensures
        ({
            let outer = (i.source_of)(Seq::<Binding<V>>::empty(), c.clauses[0].source);
            let n = inner_src.len() as int;
            &&& comp_sem(i, c).len() == outer.len() * inner_src.len()
            &&& forall|j: int, k: int| 0 <= j < outer.len() && 0 <= k < n
                ==> comp_sem(i, c)[#[trigger] grid_index(j, k, n)] == (i.map_of)(
                    Seq::<Binding<V>>::empty().push(
                        Binding { pattern: c.clauses[0].pattern, value: outer[j] },
                    ).push(Binding { pattern: c.clauses[1].pattern, value: inner_src[k] }),
                    c.mapping,
                )
        }),
{
    let outer = (i.source_of)(Seq::<Binding<V>>::empty(), c.clauses[0].source);
    assert(c.clauses.skip(1) =~= seq![c.clauses[1]]);
    lemma_cart_loop(i, c.clauses[0], c.clauses[1], c.mapping, inner_src, outer);
}

/// Whether `x` is the mapping's value under some environment.
pub open spec fn is_mapped_value<V>(i: Interp<V>, mapping: Seq<u64>, x: V) -> bool {
    exists|env: Seq<Binding<V>>| x == #[trigger] (i.map_of)(env, mapping)
}

proof fn lemma_clauses_sem_flat<V>(
    i: Interp<V>,
    env: Seq<Binding<V>>,
    clauses: Seq<ClauseView>,
    mapping: Seq<u64>,
)
    ensures
        forall|t: int| 0 <= t < clauses_sem(i, env, clauses, mapping).len()
            ==> is_mapped_value(i, mapping, clauses_sem(i, env, clauses, mapping)[t]),
    decreases clauses.len(), 0int, 0int,
{
    let out = clauses_sem(i, env, clauses, mapping);
    if clauses.len() == 0 {
        assert forall|t: int| 0 <= t < out.len() implies is_mapped_value(i, mapping, out[t]) by {
            assert(out[t] == (i.map_of)(env, mapping));
        }
    } else {
        let elems = (i.source_of)(env, clauses[0].source);
        lemma_clause_loop_flat(i, env, clauses[0], clauses.skip(1), mapping, elems);
        assert forall|t: int| 0 <= t < out.len() implies is_mapped_value(i, mapping, out[t]) by {
            assert(is_mapped_value(
                i,
                mapping,
                clause_loop(i, env, clauses[0], clauses.skip(1), mapping, elems)[t],
            ));
        }
    }
}

proof fn lemma_clause_loop_flat<V>(
    i: Interp<V>,
    env: Seq<Binding<V>>,
    c: ClauseView,
    rest: Seq<ClauseView>,
    mapping: Seq<u64>,
    elems: Seq<V>,
)
    ensures
        forall|t: int| 0 <= t < clause_loop(i, env, c, rest, mapping, elems).len()
            ==> is_mapped_value(i, mapping, clause_loop(i, env, c, rest, mapping, elems)[t]),
    decreases rest.len(), 1int, elems.len(),
{
    if elems.len() > 0 {
        let env1 = env.push(Binding { pattern: c.pattern, value: elems[0] });
        if holds_all(i, env1, c.conditions) {
            lemma_clauses_sem_flat(i, env1, rest, mapping);
        }
        lemma_clause_loop_flat(i, env, c, rest, mapping, elems.drop_first());
        let out = clause_loop(i, env, c, rest, mapping, elems);
        let head = if holds_all(i, env1, c.conditions) {
            clauses_sem(i, env1, rest, mapping)
        } else {
            Seq::<V>::empty()
        };
        let tail = clause_loop(i, env, c, rest, mapping, elems.drop_first());
        assert(out == head + tail);
        assert forall|t: int| 0 <= t < out.len() implies is_mapped_value(i, mapping, out[t]) by {
            if t < head.len() {
                assert(out[t] == head[t]);
                assert(is_mapped_value(i, mapping, clauses_sem(i, env1, rest, mapping)[t]));
            } else {
                assert(out[t] == tail[t - head.len()]);
                assert(is_mapped_value(
                    i,
                    mapping,
                    clause_loop(i, env, c, rest, mapping, elems.drop_first())[t - head.len()],
                ));
            }
        }
    }
}

/// However many nesting levels a comprehension has, every element of its
/// meaning is a single mapped value -- the output is flat, never a sequence
/// of sequences. (The structural half of this invariant is
/// `pipeline::lemma_compile_structure`.)
pub proof fn lemma_output_flat<V>(i: Interp<V>, c: ComprehensionView)
    ensures
        forall|t: int| 0 <= t < comp_sem(i, c).len()
            ==> is_mapped_value(i, c.mapping, comp_sem(i, c)[t]),
{
    lemma_clauses_sem_flat(i, Seq::empty(), c.clauses, c.mapping);
}

/// An empty outermost source means an empty output, never an error.
pub proof fn lemma_empty_source<V>(i: Interp<V>, c: ComprehensionView)
    requires
        c.clauses.len() >= 1,
        (i.source_of)(Seq::<Binding<V>>::empty(), c.clauses[0].source).len() == 0,
    ensures
        comp_sem(i, c) == Seq::<V>::empty(),
{
}

} // verus!
