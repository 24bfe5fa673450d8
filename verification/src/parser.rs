//! The grammar parser: a pure, stateless, single pass over the token
//! sequence.
//!
//! The grammar is
//! ```text
//! Comprehension := Mapping Clause Clause*
//! Clause        := "for" Pattern "in" Expression Condition*
//! Condition     := "if" Expression
//! ```
//! where an expression is a maximal non-empty atom run (greedy: the host
//! grammar owns every atom) and a pattern a single atom. Repetition is
//! parsed zero-or-more: a failed attempt rolls its cursor back and stops the
//! repetition silently; the mandatory parts raise a `SyntaxError` carrying
//! the offending token position. Trailing tokens are left to the caller.
//!
//! The `spec_parse_*` functions are the grammar stated mathematically; each
//! executable parser is proved to return exactly what they say.

use vstd::prelude::*;

use crate::ast::Clause;
use crate::ast::ClauseView;
use crate::ast::Comprehension;
use crate::ast::ComprehensionView;
use crate::ast::Expr;
use crate::ast::Pattern;
use crate::ast::SyntaxError;
use crate::ast::Token;

verus! {

/// Whether a token is an opaque host-grammar leaf.
pub open spec fn is_atom(t: Token) -> bool {
    matches!(t, Token::Atom(_))
}

/// The handle an atom token carries (immaterial for keywords).
pub open spec fn atom_val(t: Token) -> u64 {
    match t {
        Token::Atom(a) => a,
        _ => 0,
    }
}

/// Length of the maximal atom run starting at `i`.
pub open spec fn run_len(toks: Seq<Token>, i: int) -> int
    decreases toks.len() - i,
{
    if 0 <= i && i < toks.len() && is_atom(toks[i]) {
        1 + run_len(toks, i + 1)
    } else {
        0
    }
}

/// The atoms of the maximal run starting at `i`, in order.
pub open spec fn run_atoms(toks: Seq<Token>, i: int) -> Seq<u64> {
    Seq::new(run_len(toks, i) as nat, |k: int| atom_val(toks[i + k]))
}

/// The maximal atom run stays inside the sequence, consists of atoms, and is
/// maximal: the token after it (if any) is not an atom.
pub proof fn lemma_run_len(toks: Seq<Token>, i: int)
    requires
        0 <= i <= toks.len(),
    ensures
        0 <= run_len(toks, i),
        i + run_len(toks, i) <= toks.len(),
        forall|k: int| i <= k < i + run_len(toks, i) ==> is_atom(#[trigger] toks[k]),
        i + run_len(toks, i) < toks.len() ==> !is_atom(toks[i + run_len(toks, i)]),
    decreases toks.len() - i,
{
    if i < toks.len() && is_atom(toks[i]) {
        lemma_run_len(toks, i + 1);
    }
}

/// A run of atoms followed by a non-atom (or the end) is the maximal run.
pub proof fn lemma_run_len_exact(toks: Seq<Token>, i: int, j: int)
    requires
        0 <= i <= j <= toks.len(),
        forall|k: int| i <= k < j ==> is_atom(#[trigger] toks[k]),
        j < toks.len() ==> !is_atom(toks[j]),
    ensures
        run_len(toks, i) == j - i,
    decreases j - i,
{
    if i < j {
        lemma_run_len_exact(toks, i + 1, j);
    }
}

/// Parsing one expression: the maximal atom run, which must be non-empty.
pub open spec fn spec_parse_expr(toks: Seq<Token>, i: int) -> Result<(Seq<u64>, int), int> {
    if run_len(toks, i) == 0 {
        Err(i)
    } else {
        Ok((run_atoms(toks, i), i + run_len(toks, i)))
    }
}

/// Zero or more `"if" Expression` conditions. An attempt that finds no `if`
/// keyword, or no expression after it, rolls back and ends the repetition
/// silently; the cursor then rests on the first unconsumed token.
pub open spec fn spec_parse_conds(toks: Seq<Token>, i: int) -> (Seq<Seq<u64>>, int)
    decreases toks.len() - i,
    when 0 <= i <= toks.len()
    via spec_parse_conds_dec
{
    if i < toks.len() && toks[i] == Token::KwIf && run_len(toks, i + 1) > 0 {
        let j = i + 1 + run_len(toks, i + 1);
        let (rest, end) = spec_parse_conds(toks, j);
        (seq![run_atoms(toks, i + 1)] + rest, end)
    } else {
        (Seq::empty(), i)
    }
}

#[via_fn]
proof fn spec_parse_conds_dec(toks: Seq<Token>, i: int) {
    if i < toks.len() && toks[i] == Token::KwIf && run_len(toks, i + 1) > 0 {
        lemma_run_len(toks, i + 1);
    }
}

/// The condition list parse moves the cursor forward, stays inside the
/// sequence, and yields only non-empty (well-formed) expressions.
pub proof fn lemma_spec_parse_conds(toks: Seq<Token>, i: int)
    requires
        0 <= i <= toks.len(),
    ensures
        i <= spec_parse_conds(toks, i).1 <= toks.len(),
        forall|k: int|
            0 <= k < spec_parse_conds(toks, i).0.len()
                ==> #[trigger] spec_parse_conds(toks, i).0[k].len() >= 1,
    decreases toks.len() - i,
{
    if i < toks.len() && toks[i] == Token::KwIf && run_len(toks, i + 1) > 0 {
        lemma_run_len(toks, i + 1);
        lemma_spec_parse_conds(toks, i + 1 + run_len(toks, i + 1));
    }
}

/// Parsing one clause: `"for" Pattern "in" Expression Condition*`. Each
/// missing mandatory part fails at its own token position.
pub open spec fn spec_parse_clause(toks: Seq<Token>, i: int) -> Result<(ClauseView, int), int> {
    if !(0 <= i && i < toks.len() && toks[i] == Token::KwFor) {
        Err(i)
    } else if !(i + 1 < toks.len() && is_atom(toks[i + 1])) {
        Err(i + 1)
    } else if !(i + 2 < toks.len() && toks[i + 2] == Token::KwIn) {
        Err(i + 2)
    } else if run_len(toks, i + 3) == 0 {
        Err(i + 3)
    } else {
        let src_end = i + 3 + run_len(toks, i + 3);
        let (conds, end) = spec_parse_conds(toks, src_end);
        Ok(
            (
                ClauseView {
                    pattern: atom_val(toks[i + 1]),
                    source: run_atoms(toks, i + 3),
                    conditions: conds,
                },
                end,
            ),
        )
    }
}

/// A successfully parsed clause consumes at least its four mandatory tokens,
/// stays inside the sequence, and is well-formed.
pub proof fn lemma_spec_parse_clause(toks: Seq<Token>, i: int)
    requires
        0 <= i <= toks.len(),
    ensures
        spec_parse_clause(toks, i) matches Ok(p) ==> i + 4 <= p.1 <= toks.len() && p.0.wf(),
{
    if spec_parse_clause(toks, i) is Ok {
        lemma_run_len(toks, i + 3);
        lemma_spec_parse_conds(toks, i + 3 + run_len(toks, i + 3));
    }
}

/// Zero or more additional clauses: a failed attempt rolls back and ends the
/// repetition silently.
pub open spec fn spec_parse_more_clauses(toks: Seq<Token>, i: int) -> (Seq<ClauseView>, int)
    decreases toks.len() - i,
    when 0 <= i <= toks.len()
    via spec_parse_more_clauses_dec
{
    match spec_parse_clause(toks, i) {
        Ok(p) => {
            let (rest, end) = spec_parse_more_clauses(toks, p.1);
            (seq![p.0] + rest, end)
        },
        Err(_) => (Seq::empty(), i),
    }
}

#[via_fn]
proof fn spec_parse_more_clauses_dec(toks: Seq<Token>, i: int) {
    lemma_spec_parse_clause(toks, i);
}

/// The clause list parse moves the cursor forward, stays inside the
/// sequence, and yields only well-formed clauses.
pub proof fn lemma_spec_parse_more_clauses(toks: Seq<Token>, i: int)
    requires
        0 <= i <= toks.len(),
    ensures
        i <= spec_parse_more_clauses(toks, i).1 <= toks.len(),
        forall|k: int|
            0 <= k < spec_parse_more_clauses(toks, i).0.len()
                ==> (#[trigger] spec_parse_more_clauses(toks, i).0[k]).wf(),
    decreases toks.len() - i,
{
    lemma_spec_parse_clause(toks, i);
    if spec_parse_clause(toks, i) is Ok {
        let p = spec_parse_clause(toks, i)->Ok_0;
        lemma_spec_parse_more_clauses(toks, p.1);
    }
}

/// Parsing a whole comprehension: `Mapping Clause Clause*`. The mapping and
/// the first clause are mandatory; the repetition afterwards ends silently,
/// leaving trailing tokens to the caller.
pub open spec fn spec_parse_comprehension(toks: Seq<Token>) -> Result<(ComprehensionView, int), int> {
    match spec_parse_expr(toks, 0) {
        Err(p) => Err(p),
        Ok(m) => match spec_parse_clause(toks, m.1) {
            Err(p) => Err(p),
            Ok(first) => {
                let (rest, end) = spec_parse_more_clauses(toks, first.1);
                Ok(
                    (
                        ComprehensionView {
                            mapping: m.0,
                            clauses: seq![first.0] + rest,
                        },
                        end,
                    ),
                )
            },
        },
    }
}

/// A successfully parsed comprehension is well-formed and ends inside the
/// sequence.
pub proof fn lemma_spec_parse_comprehension(toks: Seq<Token>)
    ensures
        spec_parse_comprehension(toks) matches Ok(p)
            ==> p.0.wf() && 0 <= p.1 <= toks.len(),
{
    if spec_parse_comprehension(toks) is Ok {
        lemma_run_len(toks, 0);
        let m = spec_parse_expr(toks, 0)->Ok_0;
        lemma_spec_parse_clause(toks, m.1);
        let first = spec_parse_clause(toks, m.1)->Ok_0;
        lemma_spec_parse_more_clauses(toks, first.1);
    }
}

/// Whether a token is an opaque host-grammar leaf (executable form).
fn tok_is_atom(t: Token) -> (b: bool)
    ensures
        b == is_atom(t),
{
    matches!(t, Token::Atom(_))
}

/// Greedily parse one opaque expression: the maximal atom run at `pos`,
/// which must be non-empty.
pub fn parse_expr(toks: &Vec<Token>, pos: usize) -> (r: Result<(Expr, usize), SyntaxError>)
    requires
        pos <= toks@.len(),
    ensures
        (match spec_parse_expr(toks@, pos as int) {
            Ok(p) => r matches Ok(q) && q.0@ == p.0 && q.1 as int == p.1,
            Err(sp) => r matches Err(e) && e.pos as int == sp,
        }),
{
    let n = toks.len();
    let mut atoms: Vec<u64> = Vec::new();
    let mut j: usize = pos;
    while j < n && tok_is_atom(toks[j])
        invariant
            pos <= j <= n,
            n == toks@.len(),
            forall|k: int| pos <= k < j ==> is_atom(#[trigger] toks@[k]),
            atoms@.len() == j - pos,
            forall|k: int| 0 <= k < atoms@.len() ==> atoms@[k] == atom_val(toks@[pos + k]),
        decreases n - j,
    {
        let a = match toks[j] {
            Token::Atom(x) => x,
            _ => 0,
        };
        atoms.push(a);
        j = j + 1;
    }
    proof {
        lemma_run_len_exact(toks@, pos as int, j as int);
        if j > pos {
            assert(atoms@ =~= run_atoms(toks@, pos as int));
        }
    }
    if j == pos {
        Err(SyntaxError { pos })
    } else {
        Ok((Expr { atoms }, j))
    }
}

/// Parse one clause starting at `pos`: the two keywords, the pattern atom,
/// the source expression, then zero or more conditions with silent rollback.
pub fn parse_clause(toks: &Vec<Token>, pos: usize) -> (r: Result<(Clause, usize), SyntaxError>)
    requires
        pos <= toks@.len(),
    ensures
        (match spec_parse_clause(toks@, pos as int) {
            Ok(p) => r matches Ok(q) && q.0@ == p.0 && q.1 as int == p.1,
            Err(sp) => r matches Err(e) && e.pos as int == sp,
        }),
{
    let n = toks.len();
    if !(pos < n && toks[pos] == Token::KwFor) {
        return Err(SyntaxError { pos });
    }
    if !(pos + 1 < n && tok_is_atom(toks[pos + 1])) {
        return Err(SyntaxError { pos: pos + 1 });
    }
    if !(pos + 2 < n && toks[pos + 2] == Token::KwIn) {
        return Err(SyntaxError { pos: pos + 2 });
    }
    let pat_atom = match toks[pos + 1] {
        Token::Atom(x) => x,
        _ => 0,
    };
    let source = match parse_expr(toks, pos + 3) {
        Ok(se) => se,
        Err(e) => {
            return Err(e);
        },
    };
    let (source, src_end) = source;
    let ghost start = src_end as int;
    proof {
        lemma_run_len(toks@, pos as int + 3);
        assert(Seq::<Expr>::empty().map_values(|e: Expr| e@) =~= Seq::<Seq<u64>>::empty());
        assert(Seq::<Seq<u64>>::empty() + spec_parse_conds(toks@, start).0
            =~= spec_parse_conds(toks@, start).0);
    }
    let mut conditions: Vec<Expr> = Vec::new();
    let mut j: usize = src_end;
    let mut done = false;
    while !done
        invariant
            0 <= start <= j <= n,
            n == toks@.len(),
            spec_parse_conds(toks@, start).0 == conditions@.map_values(|e: Expr| e@)
                + spec_parse_conds(toks@, j as int).0,
            spec_parse_conds(toks@, start).1 == spec_parse_conds(toks@, j as int).1,
            done ==> spec_parse_conds(toks@, j as int).0 == Seq::<Seq<u64>>::empty()
                && spec_parse_conds(toks@, j as int).1 == j as int,
        decreases n - j + (if done { 0int } else { 1int }),
    {
        if j < n && toks[j] == Token::KwIf {
            match parse_expr(toks, j + 1) {
                Ok(ce) => {
                    let (cond, cend) = ce;
                    proof {
                        lemma_run_len(toks@, j as int + 1);
                        assert(run_len(toks@, j as int + 1) > 0);
                        assert(cend as int <= toks@.len());
                        assert(spec_parse_conds(toks@, j as int).0
                            == seq![cond@] + spec_parse_conds(toks@, cend as int).0);
                        let prev = conditions@.map_values(|e: Expr| e@);
                        assert(conditions@.push(cond).map_values(|e: Expr| e@)
                            =~= prev.push(cond@));
                        assert(prev + (seq![cond@] + spec_parse_conds(toks@, cend as int).0)
                            =~= prev.push(cond@) + spec_parse_conds(toks@, cend as int).0);
                    }
                    conditions.push(cond);
                    j = cend;
                },
                Err(_) => {
                    done = true;
                },
            }
        } else {
            done = true;
        }
    }
    let result = Clause { pattern: Pattern { atom: pat_atom }, source, conditions };
    proof {
        assert(spec_parse_conds(toks@, start).0 =~= conditions@.map_values(|e: Expr| e@));
        let p = spec_parse_clause(toks@, pos as int)->Ok_0;
        assert(result@ =~~= p.0);
    }
    Ok((result, j))
}

/// Parse a whole comprehension from the front of the token sequence,
/// returning it with the index of the first unconsumed token, or the
/// position of the offending token.
pub fn parse_comprehension(toks: &Vec<Token>) -> (r: Result<(Comprehension, usize), SyntaxError>)
    ensures
        (match spec_parse_comprehension(toks@) {
            Ok(p) => r matches Ok(q) && q.0@ == p.0 && q.1 as int == p.1 && q.0@.wf(),
            Err(sp) => r matches Err(e) && e.pos as int == sp,
        }),
{
    let mapping = match parse_expr(toks, 0) {
        Ok(m) => m,
        Err(e) => {
            return Err(e);
        },
    };
    let (mapping, mpos) = mapping;
    proof {
        lemma_run_len(toks@, 0);
    }
    let first = match parse_clause(toks, mpos) {
        Ok(c) => c,
        Err(e) => {
            return Err(e);
        },
    };
    proof {
        lemma_spec_parse_clause(toks@, mpos as int);
    }
    let (first, fpos) = first;
    let ghost sfirst = spec_parse_clause(toks@, mpos as int)->Ok_0.0;
    let ghost start = fpos as int;
    let mut clauses: Vec<Clause> = Vec::new();
    clauses.push(first);
    let mut j: usize = fpos;
    let mut done = false;
    while !done
        invariant
            0 <= start <= j <= toks@.len(),
            clauses@.len() >= 1,
            clauses@[0]@ == sfirst,
            spec_parse_more_clauses(toks@, start).0
                == clauses@.map_values(|c: Clause| c@).skip(1)
                + spec_parse_more_clauses(toks@, j as int).0,
            spec_parse_more_clauses(toks@, start).1 == spec_parse_more_clauses(toks@, j as int).1,
            done ==> spec_parse_more_clauses(toks@, j as int).0 == Seq::<ClauseView>::empty()
                && spec_parse_more_clauses(toks@, j as int).1 == j as int,
        decreases toks@.len() - j + (if done { 0int } else { 1int }),
    {
        match parse_clause(toks, j) {
            Ok(c) => {
                let (c, cend) = c;
                proof {
                    lemma_spec_parse_clause(toks@, j as int);
                    let f = |cl: Clause| cl@;
                    assert(clauses@.push(c).map_values(f) =~= clauses@.map_values(f).push(c@));
                    assert(clauses@.map_values(f).push(c@).skip(1)
                        =~= clauses@.map_values(f).skip(1).push(c@));
                    assert(clauses@.map_values(f).skip(1).push(c@)
                        + spec_parse_more_clauses(toks@, cend as int).0
                        =~= clauses@.map_values(f).skip(1)
                        + (seq![c@] + spec_parse_more_clauses(toks@, cend as int).0));
                }
                clauses.push(c);
                j = cend;
            },
            Err(_) => {
                done = true;
            },
        }
    }
    proof {
        assert(spec_parse_more_clauses(toks@, start).0
            =~= clauses@.map_values(|c: Clause| c@).skip(1));
        let p = spec_parse_comprehension(toks@)->Ok_0;
        assert((Comprehension { mapping: mapping, clauses: clauses })@ =~~= p.0) by {
            assert(seq![sfirst] + clauses@.map_values(|c: Clause| c@).skip(1)
                =~= clauses@.map_values(|c: Clause| c@));
        }
        lemma_spec_parse_comprehension(toks@);
    }
    Ok((Comprehension { mapping, clauses }, j))
}

} // verus!
