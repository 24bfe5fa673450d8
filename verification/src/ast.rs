//! Surface tokens and the comprehension abstract syntax tree.
//!
//! Expression and pattern leaves are opaque: an expression is a non-empty run
//! of atoms (host-grammar token handles), a pattern a single atom. The
//! library reads only the three keywords; every atom is threaded through
//! unchanged.

use vstd::prelude::*;

verus! {

/// One token of the comprehension surface syntax.
///
/// `Atom` carries an opaque handle into the host expression grammar: the
/// library never interprets it, it only recognises the three keywords.
#[derive(Clone, Copy, PartialEq, Eq, Structural, Debug)]
pub enum Token {
    /// The `for` keyword, opening a generator clause.
    KwFor,
    /// The `in` keyword, separating a clause's pattern from its source.
    KwIn,
    /// The `if` keyword, opening a filter condition.
    KwIf,
    /// An opaque leaf of the host expression grammar.
    Atom(u64),
}

/// An opaque host expression: a non-empty run of atoms, kept in order.
#[derive(PartialEq, Eq, Debug)]
pub struct Expr {
    pub atoms: Vec<u64>,
}

impl View for Expr {
    type V = Seq<u64>;

    open spec fn view(&self) -> Seq<u64> {
        self.atoms@
    }
}

impl Expr {
    /// A well-formed expression holds at least one atom.
    pub open spec fn wf(&self) -> bool {
        self@.len() >= 1
    }
}

/// An opaque binding pattern: a single (non-alternation) host pattern leaf.
#[derive(Clone, Copy, PartialEq, Eq, Structural, Debug)]
pub struct Pattern {
    pub atom: u64,
}

impl View for Pattern {
    type V = u64;

    open spec fn view(&self) -> u64 {
        self.atom
    }
}

/// The mathematical shape of one generator clause.
#[verifier::ext_equal]
pub ghost struct ClauseView {
    pub pattern: u64,
    pub source: Seq<u64>,
    pub conditions: Seq<Seq<u64>>,
}

/// One `for <pattern> in <source> [if <condition>]*` unit.
#[derive(PartialEq, Eq, Debug)]
pub struct Clause {
    pub pattern: Pattern,
    pub source: Expr,
    pub conditions: Vec<Expr>,
}

impl View for Clause {
    type V = ClauseView;

    open spec fn view(&self) -> ClauseView {
        ClauseView {
            pattern: self.pattern@,
            source: self.source@,
            conditions: self.conditions@.map_values(|e: Expr| e@),
        }
    }
}

impl ClauseView {
    /// Source and every condition are well-formed opaque expressions.
    pub open spec fn wf(&self) -> bool {
        &&& self.source.len() >= 1
        &&& forall|k: int| 0 <= k < self.conditions.len() ==> #[trigger] self.conditions[k].len() >= 1
    }
}

/// The mathematical shape of a parsed comprehension.
#[verifier::ext_equal]
pub ghost struct ComprehensionView {
    pub mapping: Seq<u64>,
    pub clauses: Seq<ClauseView>,
}

/// A parsed comprehension: one mapping expression plus its ordered generator
/// clauses, outermost first. Invariant: at least one clause.
#[derive(PartialEq, Eq, Debug)]
pub struct Comprehension {
    pub mapping: Expr,
    pub clauses: Vec<Clause>,
}

impl View for Comprehension {
    type V = ComprehensionView;

    open spec fn view(&self) -> ComprehensionView {
        ComprehensionView {
            mapping: self.mapping@,
            clauses: self.clauses@.map_values(|c: Clause| c@),
        }
    }
}

impl ComprehensionView {
    /// Mapping and clauses are well-formed and there is at least one clause.
    pub open spec fn wf(&self) -> bool {
        &&& self.mapping.len() >= 1
        &&& self.clauses.len() >= 1
        &&& forall|k: int| 0 <= k < self.clauses.len() ==> (#[trigger] self.clauses[k]).wf()
    }
}

/// A parse failure, tagged with the index of the offending token.
#[derive(Clone, Copy, PartialEq, Eq, Structural, Debug)]
pub struct SyntaxError {
    pub pos: usize,
}

} // verus!
