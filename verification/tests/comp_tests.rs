// End-to-end tests: token streams through the parser and the pipeline
// compiler, executed by a small host evaluator with a lazy, pull-based
// interpreter over the compiled pipeline.
//
// Atom encoding used by this host (the library never looks inside atoms):
//   1..=9    variables (1 = x, 2 = a, 3 = b)
//   20..=29  binary operators (20 = +, 21 = *, 22 = !=)
//   50..=59  named source sequences (looked up in the host's table)
//   100..    integer literals (atom 100 + n means n)

use comp::ast::{Comprehension, SyntaxError, Token};
use comp::parser::parse_comprehension;
use comp::pipeline::{compile, Pipeline, PipelineBody};
use comp::translate;

const X: u64 = 1;
const A: u64 = 2;
const B: u64 = 3;
const PLUS: u64 = 20;
const STAR: u64 = 21;
const NE: u64 = 22;
const SRC123: u64 = 50;
const SRC1020: u64 = 51;
const SRCEMPTY: u64 = 52;
const SRC12: u64 = 53;

fn lit(n: i64) -> u64 {
    (100 + n) as u64
}

struct Host {
    sources: Vec<(u64, Vec<i64>)>,
    source_evals: usize,
    cond_evals: usize,
    map_evals: usize,
}

impl Host {
    fn new() -> Host {
        Host {
            sources: vec![
                (SRC123, vec![1, 2, 3]),
                (SRC1020, vec![10, 20]),
                (SRCEMPTY, vec![]),
                (SRC12, vec![1, 2]),
            ],
            source_evals: 0,
            cond_evals: 0,
            map_evals: 0,
        }
    }

    fn atom_value(env: &[(u64, i64)], atom: u64) -> i64 {
        if atom >= 100 {
            (atom - 100) as i64
        } else {
            env.iter()
                .rev()
                .find(|b| b.0 == atom)
                .expect("unbound variable")
                .1
        }
    }

    fn eval_expr(env: &[(u64, i64)], atoms: &[u64]) -> i64 {
        match atoms {
            [a] => Host::atom_value(env, *a),
            [a, op, b] => {
                let va = Host::atom_value(env, *a);
                let vb = Host::atom_value(env, *b);
                match *op {
                    PLUS => va + vb,
                    STAR => va * vb,
                    NE => {
                        if va != vb {
                            1
                        } else {
                            0
                        }
                    }
                    _ => panic!("unknown operator"),
                }
            }
            _ => panic!("unknown expression shape"),
        }
    }

    fn eval_source(&mut self, _env: &[(u64, i64)], atoms: &[u64]) -> Vec<i64> {
        self.source_evals += 1;
        match atoms {
            [s] => self
                .sources
                .iter()
                .find(|e| e.0 == *s)
                .expect("unknown source")
                .1
                .clone(),
            _ => panic!("unknown source shape"),
        }
    }

    fn eval_cond(&mut self, env: &[(u64, i64)], atoms: &[u64]) -> bool {
        self.cond_evals += 1;
        Host::eval_expr(env, atoms) != 0
    }

    fn eval_map(&mut self, env: &[(u64, i64)], atoms: &[u64]) -> i64 {
        self.map_evals += 1;
        Host::eval_expr(env, atoms)
    }
}

// One active layer of the lazy pipeline: a cursor into its source's
// elements, and the inner layer spawned by the element under the cursor.
struct Layer<'a> {
    pipe: &'a Pipeline,
    env: Vec<(u64, i64)>,
    elems: Vec<i64>,
    pos: usize,
    inner: Option<Box<Layer<'a>>>,
}

impl<'a> Layer<'a> {
    fn new(pipe: &'a Pipeline, env: Vec<(u64, i64)>, host: &mut Host) -> Layer<'a> {
        let elems = host.eval_source(&env, &pipe.sequence.atoms);
        Layer {
            pipe,
            env,
            elems,
            pos: 0,
            inner: None,
        }
    }

    fn next(&mut self, host: &mut Host) -> Option<i64> {
        loop {
            if let Some(inner) = self.inner.as_mut() {
                if let Some(v) = inner.next(host) {
                    return Some(v);
                }
                self.inner = None;
            }
            if self.pos >= self.elems.len() {
                return None;
            }
            let v = self.elems[self.pos];
            self.pos += 1;
            let mut env1 = self.env.clone();
            env1.push((self.pipe.pattern.atom, v));
            let mut ok = true;
            for c in self.pipe.conditions.iter() {
                if !host.eval_cond(&env1, &c.atoms) {
                    ok = false;
                    break;
                }
            }
            if !ok {
                continue;
            }
            match &self.pipe.body {
                PipelineBody::Yield(m) => return Some(host.eval_map(&env1, &m.atoms)),
                PipelineBody::Nested(q) => {
                    let layer = Layer::new(q, env1, host);
                    self.inner = Some(Box::new(layer));
                }
            }
        }
    }
}

fn run_all(pipe: &Pipeline, host: &mut Host) -> Vec<i64> {
    let mut layer = Layer::new(pipe, Vec::new(), host);
    let mut out = Vec::new();
    while let Some(v) = layer.next(host) {
        out.push(v);
    }
    out
}

fn translate_ok(toks: &Vec<Token>) -> (Pipeline, usize) {
    match translate(toks) {
        Ok(p) => p,
        Err(e) => panic!("unexpected syntax error at {}", e.pos),
    }
}

// `x + 1 for x in [1,2,3] if x != 3 if x != 2` collects to exactly [2].
#[test]
fn it_works() {
    let toks: Vec<Token> = vec![
        Token::Atom(X),
        Token::Atom(PLUS),
        Token::Atom(lit(1)),
        Token::KwFor,
        Token::Atom(X),
        Token::KwIn,
        Token::Atom(SRC123),
        Token::KwIf,
        Token::Atom(X),
        Token::Atom(NE),
        Token::Atom(lit(3)),
        Token::KwIf,
        Token::Atom(X),
        Token::Atom(NE),
        Token::Atom(lit(2)),
    ];
    let (pipe, end) = translate_ok(&toks);
    assert_eq!(end, toks.len());
    let result = run_all(&pipe, &mut Host::new());
    assert_eq!(result, vec![2]);
}

// `a * b for a in [1,2] for b in [10,20]` produces the Cartesian product in
// row-major order: [10, 20, 20, 40].
#[test]
fn nested_cartesian_order() {
    let toks: Vec<Token> = vec![
        Token::Atom(A),
        Token::Atom(STAR),
        Token::Atom(B),
        Token::KwFor,
        Token::Atom(A),
        Token::KwIn,
        Token::Atom(SRC12),
        Token::KwFor,
        Token::Atom(B),
        Token::KwIn,
        Token::Atom(SRC1020),
    ];
    let (pipe, end) = translate_ok(&toks);
    assert_eq!(end, toks.len());
    let result = run_all(&pipe, &mut Host::new());
    assert_eq!(result, vec![10, 20, 20, 40]);
}

// A comprehension over an empty source produces an empty output, no error.
#[test]
fn empty_source_empty_output() {
    let toks: Vec<Token> = vec![
        Token::Atom(X),
        Token::Atom(PLUS),
        Token::Atom(lit(1)),
        Token::KwFor,
        Token::Atom(X),
        Token::KwIn,
        Token::Atom(SRCEMPTY),
    ];
    let (pipe, _) = translate_ok(&toks);
    let result = run_all(&pipe, &mut Host::new());
    assert_eq!(result, Vec::<i64>::new());
}

// One clause, no conditions: the mapping applied to every element in order.
#[test]
fn single_clause_maps_every_element() {
    let toks: Vec<Token> = vec![
        Token::Atom(X),
        Token::Atom(PLUS),
        Token::Atom(lit(1)),
        Token::KwFor,
        Token::Atom(X),
        Token::KwIn,
        Token::Atom(SRC123),
    ];
    let (pipe, _) = translate_ok(&toks);
    let result = run_all(&pipe, &mut Host::new());
    assert_eq!(result, vec![2, 3, 4]);
}

// Swapping the order of a clause's conditions never changes which elements
// are included.
#[test]
fn condition_order_does_not_change_output() {
    let front: Vec<Token> = vec![
        Token::Atom(X),
        Token::Atom(PLUS),
        Token::Atom(lit(1)),
        Token::KwFor,
        Token::Atom(X),
        Token::KwIn,
        Token::Atom(SRC123),
    ];
    let cond_ne3 = [Token::KwIf, Token::Atom(X), Token::Atom(NE), Token::Atom(lit(3))];
    let cond_ne2 = [Token::KwIf, Token::Atom(X), Token::Atom(NE), Token::Atom(lit(2))];
    let mut one = front.clone();
    one.extend(cond_ne3.iter().cloned());
    one.extend(cond_ne2.iter().cloned());
    let mut two = front.clone();
    two.extend(cond_ne2.iter().cloned());
    two.extend(cond_ne3.iter().cloned());
    let (pipe_one, _) = translate_ok(&one);
    let (pipe_two, _) = translate_ok(&two);
    assert_eq!(
        run_all(&pipe_one, &mut Host::new()),
        run_all(&pipe_two, &mut Host::new())
    );
}

// Lazily pulling only the first element of a nested comprehension evaluates
// the outer source and one inner source, maps once, and never touches the
// combinations after the first.
#[test]
fn first_element_is_lazy() {
    let toks: Vec<Token> = vec![
        Token::Atom(A),
        Token::Atom(STAR),
        Token::Atom(B),
        Token::KwFor,
        Token::Atom(A),
        Token::KwIn,
        Token::Atom(SRC12),
        Token::KwFor,
        Token::Atom(B),
        Token::KwIn,
        Token::Atom(SRC1020),
    ];
    let (pipe, _) = translate_ok(&toks);
    let mut host = Host::new();
    let mut layer = Layer::new(&pipe, Vec::new(), &mut host);
    let first = layer.next(&mut host);
    assert_eq!(first, Some(10));
    assert_eq!(host.source_evals, 2);
    assert_eq!(host.map_evals, 1);
}

// Pulling the first element evaluates conditions only for the elements
// inspected so far, short-circuiting within each condition list.
#[test]
fn conditions_evaluated_on_demand() {
    let toks: Vec<Token> = vec![
        Token::Atom(X),
        Token::Atom(PLUS),
        Token::Atom(lit(1)),
        Token::KwFor,
        Token::Atom(X),
        Token::KwIn,
        Token::Atom(SRC123),
        Token::KwIf,
        Token::Atom(X),
        Token::Atom(NE),
        Token::Atom(lit(3)),
        Token::KwIf,
        Token::Atom(X),
        Token::Atom(NE),
        Token::Atom(lit(2)),
    ];
    let (pipe, _) = translate_ok(&toks);
    let mut host = Host::new();
    let mut layer = Layer::new(&pipe, Vec::new(), &mut host);
    assert_eq!(layer.next(&mut host), Some(2));
    // Only x = 1 was inspected: both of its conditions, nothing further.
    assert_eq!(host.cond_evals, 2);
    // x = 2 fails its second condition after passing the first (short
    // circuit on x = 3's first condition): two more evaluations, then one.
    assert_eq!(layer.next(&mut host), None);
    assert_eq!(host.cond_evals, 5);
}

// Three nesting levels still come out as one flat sequence of values.
#[test]
fn deep_nesting_stays_flat() {
    let toks: Vec<Token> = vec![
        Token::Atom(X),
        Token::KwFor,
        Token::Atom(A),
        Token::KwIn,
        Token::Atom(SRC12),
        Token::KwFor,
        Token::Atom(B),
        Token::KwIn,
        Token::Atom(SRC12),
        Token::KwFor,
        Token::Atom(X),
        Token::KwIn,
        Token::Atom(SRC12),
    ];
    let (pipe, _) = translate_ok(&toks);
    let result = run_all(&pipe, &mut Host::new());
    assert_eq!(result, vec![1, 2, 1, 2, 1, 2, 1, 2]);
}

// The compiled pipeline nests innermost-first: the outermost layer holds the
// first clause's source and nests, only the innermost layer yields the
// mapping.
#[test]
fn pipeline_structure_mirrors_clauses() {
    let toks: Vec<Token> = vec![
        Token::Atom(A),
        Token::Atom(STAR),
        Token::Atom(B),
        Token::KwFor,
        Token::Atom(A),
        Token::KwIn,
        Token::Atom(SRC12),
        Token::KwFor,
        Token::Atom(B),
        Token::KwIn,
        Token::Atom(SRC1020),
    ];
    let (pipe, _) = translate_ok(&toks);
    assert_eq!(pipe.sequence.atoms, vec![SRC12]);
    assert_eq!(pipe.pattern.atom, A);
    match &pipe.body {
        PipelineBody::Nested(inner) => {
            assert_eq!(inner.sequence.atoms, vec![SRC1020]);
            assert_eq!(inner.pattern.atom, B);
            match &inner.body {
                PipelineBody::Yield(m) => {
                    assert_eq!(m.atoms, vec![A, STAR, B]);
                }
                PipelineBody::Nested(_) => panic!("innermost layer must yield"),
            }
        }
        PipelineBody::Yield(_) => panic!("outer layer must nest"),
    }
}

fn parse_err(toks: &Vec<Token>) -> SyntaxError {
    match parse_comprehension(toks) {
        Ok(_) => panic!("expected a syntax error"),
        Err(e) => e,
    }
}

#[test]
fn empty_input_fails_at_zero() {
    assert_eq!(parse_err(&vec![]).pos, 0);
}

#[test]
fn missing_mapping_fails_at_zero() {
    assert_eq!(parse_err(&vec![Token::KwFor, Token::Atom(X)]).pos, 0);
}

#[test]
fn missing_for_fails_after_mapping() {
    assert_eq!(parse_err(&vec![Token::Atom(X)]).pos, 1);
    assert_eq!(
        parse_err(&vec![Token::Atom(X), Token::KwIn, Token::Atom(X)]).pos,
        1
    );
}

#[test]
fn malformed_pattern_fails_at_its_token() {
    assert_eq!(
        parse_err(&vec![Token::Atom(X), Token::KwFor, Token::KwIf]).pos,
        2
    );
}

#[test]
fn missing_in_fails_at_its_token() {
    assert_eq!(
        parse_err(&vec![
            Token::Atom(X),
            Token::KwFor,
            Token::Atom(X),
            Token::Atom(SRC123),
        ])
        .pos,
        3
    );
}

#[test]
fn missing_source_fails_at_its_token() {
    assert_eq!(
        parse_err(&vec![
            Token::Atom(X),
            Token::KwFor,
            Token::Atom(X),
            Token::KwIn,
            Token::KwIf,
        ])
        .pos,
        4
    );
}

// A minimal comprehension: one clause, no conditions; the parser keeps the
// clause structure and consumes everything.
#[test]
fn minimal_comprehension_parses() {
    let toks: Vec<Token> = vec![
        Token::Atom(X),
        Token::KwFor,
        Token::Atom(X),
        Token::KwIn,
        Token::Atom(SRC123),
        Token::Atom(PLUS),
        Token::Atom(lit(7)),
    ];
    let (c, end): (Comprehension, usize) = parse_comprehension(&toks).unwrap();
    assert_eq!(end, toks.len());
    assert_eq!(c.mapping.atoms, vec![X]);
    assert_eq!(c.clauses.len(), 1);
    assert_eq!(c.clauses[0].pattern.atom, X);
    // The source expression is greedy: it swallows the whole atom run.
    assert_eq!(c.clauses[0].source.atoms, vec![SRC123, PLUS, lit(7)]);
    assert!(c.clauses[0].conditions.is_empty());
}

// A trailing `if` without an expression is not a condition: the attempt
// rolls back and the keyword is left for the caller.
#[test]
fn trailing_if_rolls_back() {
    let toks: Vec<Token> = vec![
        Token::Atom(X),
        Token::KwFor,
        Token::Atom(X),
        Token::KwIn,
        Token::Atom(SRC123),
        Token::KwIf,
    ];
    let (c, end) = parse_comprehension(&toks).unwrap();
    assert_eq!(c.clauses[0].conditions.len(), 0);
    assert_eq!(end, 5);
}

// An incomplete additional clause is not part of the comprehension: the
// attempt rolls back to just after the last complete clause.
#[test]
fn incomplete_second_clause_rolls_back() {
    let toks: Vec<Token> = vec![
        Token::Atom(X),
        Token::KwFor,
        Token::Atom(X),
        Token::KwIn,
        Token::Atom(SRC123),
        Token::KwFor,
        Token::Atom(B),
    ];
    let (c, end) = parse_comprehension(&toks).unwrap();
    assert_eq!(c.clauses.len(), 1);
    assert_eq!(end, 5);
}

// Unrelated trailing tokens are left to the caller.
#[test]
fn trailing_tokens_are_left() {
    let toks: Vec<Token> = vec![
        Token::Atom(X),
        Token::KwFor,
        Token::Atom(X),
        Token::KwIn,
        Token::Atom(SRC123),
        Token::KwIn,
        Token::Atom(B),
    ];
    let (_, end) = parse_comprehension(&toks).unwrap();
    assert_eq!(end, 5);
}

// Conditions belong to their own clause; a second clause may carry its own.
#[test]
fn conditions_attach_to_their_clause() {
    let toks: Vec<Token> = vec![
        Token::Atom(A),
        Token::Atom(PLUS),
        Token::Atom(B),
        Token::KwFor,
        Token::Atom(A),
        Token::KwIn,
        Token::Atom(SRC12),
        Token::KwIf,
        Token::Atom(A),
        Token::Atom(NE),
        Token::Atom(lit(1)),
        Token::KwFor,
        Token::Atom(B),
        Token::KwIn,
        Token::Atom(SRC1020),
        Token::KwIf,
        Token::Atom(B),
        Token::Atom(NE),
        Token::Atom(lit(10)),
    ];
    let (c, end) = parse_comprehension(&toks).unwrap();
    assert_eq!(end, toks.len());
    assert_eq!(c.clauses.len(), 2);
    assert_eq!(c.clauses[0].conditions.len(), 1);
    assert_eq!(c.clauses[1].conditions.len(), 1);
    let pipe = compile(c);
    let result = run_all(&pipe, &mut Host::new());
    // a = 2 survives, b = 20 survives: one combination.
    assert_eq!(result, vec![22]);
}

// The translation reports the parse error unchanged.
#[test]
fn translate_reports_syntax_error() {
    match translate(&vec![Token::Atom(X)]) {
        Ok(_) => panic!("expected a syntax error"),
        Err(e) => assert_eq!(e.pos, 1),
    }
}

// An expression used as a pattern must be a single binding atom; a bare
// keyword cannot open one.
#[test]
fn expr_stops_at_keywords() {
    let toks: Vec<Token> = vec![
        Token::Atom(X),
        Token::Atom(PLUS),
        Token::Atom(lit(1)),
        Token::KwFor,
        Token::Atom(X),
        Token::KwIn,
        Token::Atom(SRC123),
        Token::KwIf,
        Token::Atom(X),
        Token::Atom(NE),
        Token::Atom(lit(3)),
    ];
    let (c, _) = parse_comprehension(&toks).unwrap();
    // The mapping run stopped at `for`, the source run at `if`.
    assert_eq!(c.mapping.atoms, vec![X, PLUS, lit(1)]);
    assert_eq!(c.clauses[0].source.atoms, vec![SRC123]);
    assert_eq!(c.clauses[0].conditions[0].atoms, vec![X, NE, lit(3)]);
}
