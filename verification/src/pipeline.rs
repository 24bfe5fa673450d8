//! The pipeline compiler: a fold over the clause list, innermost clause
//! first.
//!
//! The emitted pipeline is one layer per clause. Every layer draws from its
//! clause's source, binds the pattern, and evaluates the clause's conditions
//! in order, dropping elements that fail one. The innermost layer yields the
//! mapping expression directly; every other layer yields the already
//! compiled inner pipeline and therefore flattens one level, so the final
//! result is always a single flat sequence of mapped values.

use vstd::prelude::*;

use crate::ast::Clause;
use crate::ast::ClauseView;
use crate::ast::Comprehension;
use crate::ast::Expr;
use crate::ast::Pattern;

verus! {

/// What one pipeline layer produces per element that passes its filters.
#[derive(Debug)]
pub enum PipelineBody {
    /// Innermost layer: yield the mapping expression's value. No flatten.
    Yield(Expr),
    /// Outer layer: yield the inner pipeline's whole output, then flatten
    /// one level.
    Nested(Box<Pipeline>),
}

/// One lazy layer of the compiled pipeline.
#[derive(Debug)]
pub struct Pipeline {
    pub sequence: Expr,
    pub pattern: Pattern,
    pub conditions: Vec<Expr>,
    pub body: PipelineBody,
}

/// The mathematical shape of a pipeline body.
#[verifier::ext_equal]
pub ghost enum PipelineBodyView {
    Yield(Seq<u64>),
    Nested(Box<PipelineView>),
}

/// The mathematical shape of a pipeline layer.
#[verifier::ext_equal]
pub ghost struct PipelineView {
    pub sequence: Seq<u64>,
    pub pattern: u64,
    pub conditions: Seq<Seq<u64>>,
    pub body: PipelineBodyView,
}

impl Pipeline {
    /// The mathematical shape of this pipeline, all layers deep.
    pub open spec fn model(self) -> PipelineView
        decreases self,
    {
        PipelineView {
            sequence: self.sequence@,
            pattern: self.pattern@,
            conditions: self.conditions@.map_values(|e: Expr| e@),
            body: match self.body {
                PipelineBody::Yield(m) => PipelineBodyView::Yield(m@),
                PipelineBody::Nested(inner) => PipelineBodyView::Nested(
                    Box::new((*inner).model()),
                ),
            },
        }
    }
}

impl View for Pipeline {
    type V = PipelineView;

    open spec fn view(&self) -> PipelineView {
        (*self).model()
    }
}

/// The compilation fold, stated mathematically: the last clause becomes the
/// innermost (yielding) layer, every earlier clause wraps the layers built
/// from the clauses after it.
pub open spec fn spec_compile(clauses: Seq<ClauseView>, mapping: Seq<u64>) -> PipelineView
    decreases clauses.len(),
{
    if clauses.len() <= 1 {
        PipelineView {
            sequence: clauses[0].source,
            pattern: clauses[0].pattern,
            conditions: clauses[0].conditions,
            body: PipelineBodyView::Yield(mapping),
        }
    } else {
        PipelineView {
            sequence: clauses[0].source,
            pattern: clauses[0].pattern,
            conditions: clauses[0].conditions,
            body: PipelineBodyView::Nested(Box::new(spec_compile(clauses.skip(1), mapping))),
        }
    }
}

/// How many layers a pipeline has.
pub open spec fn depth(p: PipelineView) -> nat
    decreases p,
{
    match p.body {
        PipelineBodyView::Yield(_) => 1,
        PipelineBodyView::Nested(q) => 1 + depth(*q),
    }
}

/// The expression the innermost layer yields.
pub open spec fn innermost_yield(p: PipelineView) -> Seq<u64>
    decreases p,
{
    match p.body {
        PipelineBodyView::Yield(m) => m,
        PipelineBodyView::Nested(q) => innermost_yield(*q),
    }
}

/// The fields of layer `k` (0 = outermost), as a clause-shaped triple.
pub open spec fn layer(p: PipelineView, k: int) -> ClauseView
    decreases p,
{
    if k <= 0 {
        ClauseView { pattern: p.pattern, source: p.sequence, conditions: p.conditions }
    } else {
        match p.body {
            PipelineBodyView::Yield(_) => ClauseView { pattern: p.pattern, source: p.sequence, conditions: p.conditions },
            PipelineBodyView::Nested(q) => layer(*q, k - 1),
        }
    }
}

/// Compiling `n` clauses emits exactly `n` layers, one per clause in order,
/// with the mapping yielded at the innermost layer only; every one of the
/// `n - 1` outer layers nests (and therefore flattens) exactly once, so the
/// emitted pipeline is flat however deep the nesting.
pub proof fn lemma_compile_structure(clauses: Seq<ClauseView>, mapping: Seq<u64>)
    requires
        clauses.len() >= 1,
    ensures
        depth(spec_compile(clauses, mapping)) == clauses.len(),
        innermost_yield(spec_compile(clauses, mapping)) == mapping,
        forall|k: int| 0 <= k < clauses.len()
            ==> layer(spec_compile(clauses, mapping), k) == (ClauseView {
                pattern: clauses[k].pattern,
                source: clauses[k].source,
                conditions: clauses[k].conditions,
            }),
    decreases clauses.len(),
{
    if clauses.len() > 1 {
        lemma_compile_structure(clauses.skip(1), mapping);
        assert forall|k: int| 0 <= k < clauses.len() implies layer(
            spec_compile(clauses, mapping),
            k,
        ) == (ClauseView {
            pattern: clauses[k].pattern,
            source: clauses[k].source,
            conditions: clauses[k].conditions,
        }) by {
            if k > 0 {
                assert(layer(spec_compile(clauses, mapping), k)
                    == layer(spec_compile(clauses.skip(1), mapping), k - 1));
                assert(clauses.skip(1)[k - 1] == clauses[k]);
            }
        }
    }
}

/// Compile a comprehension into its lazy pipeline, consuming it (a
/// comprehension is consumed exactly once).
pub fn compile(c: Comprehension) -> (p: Pipeline)
    requires
        c@.clauses.len() >= 1,
    ensures
        p@ == spec_compile(c@.clauses, c@.mapping),
{
    let ghost gclauses = c@.clauses;
    let ghost gmapping = c@.mapping;
    let Comprehension { mapping, clauses } = c;
    let mut clauses = clauses;
    let ghost n = gclauses.len() as int;
    proof {
        assert(clauses@.map_values(|cl: Clause| cl@) == gclauses);
        assert(clauses@.len() == gclauses.len());
    }
    let last = clauses.pop().unwrap();
    let mut p = Pipeline {
        sequence: last.source,
        pattern: last.pattern,
        conditions: last.conditions,
        body: PipelineBody::Yield(mapping),
    };
    proof {
        assert(last@ == gclauses[n - 1]);
        assert(gclauses.skip(n - 1)[0] == gclauses[n - 1]);
        assert(p@ =~~= spec_compile(gclauses.skip(n - 1), gmapping));
        assert(clauses@.map_values(|cl: Clause| cl@) =~= gclauses.take(n - 1));
    }
    while clauses.len() > 0
        invariant
            clauses@.len() < gclauses.len(),
            clauses@.map_values(|cl: Clause| cl@) == gclauses.take(clauses@.len() as int),
            p@ == spec_compile(gclauses.skip(clauses@.len() as int), gmapping),
        decreases clauses@.len(),
    {
        let ghost m = clauses@.len() as int;
        let cl = clauses.pop().unwrap();
        p = Pipeline {
            sequence: cl.source,
            pattern: cl.pattern,
            conditions: cl.conditions,
            body: PipelineBody::Nested(Box::new(p)),
        };
        proof {
            assert(cl@ == gclauses.take(m)[m - 1]);
            assert(cl@ == gclauses[m - 1]);
            assert(gclauses.skip(m - 1).skip(1) =~= gclauses.skip(m));
            assert(gclauses.skip(m - 1)[0] == gclauses[m - 1]);
            assert(gclauses.skip(m - 1).len() >= 2);
            assert(p@ =~~= spec_compile(gclauses.skip(m - 1), gmapping));
            assert(clauses@.map_values(|x: Clause| x@) =~= gclauses.take(m - 1));
        }
    }
    proof {
        assert(gclauses.skip(0) =~= gclauses);
    }
    p
}

} // verus!
