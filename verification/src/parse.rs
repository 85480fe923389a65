//! Structural parse: the token sequence becomes a tree of instructions in
//! which each bracket pair wraps its body in a loop node. Bracket balance is
//! enforced: an unmatched bracket in either direction is a parse error and no
//! tree is returned.

use vstd::prelude::*;

use crate::token::Token;

verus! {

/// One node of the executable instruction tree. A `TapeLoop` node exclusively
/// owns its child sequence; the tree is immutable once parsed.
#[derive(Debug)]
pub enum Instruction {
    TapeRight,
    TapeLeft,
    CellInc,
    CellDec,
    CellPrint,
    CellFetch,
    TapeLoop(Vec<Instruction>),
}

/// The mathematical model of an instruction tree: the same shape with ghost
/// sequences for loop bodies. Contracts speak of this type.
pub enum InstView {
    TapeRight,
    TapeLeft,
    CellInc,
    CellDec,
    CellPrint,
    CellFetch,
    TapeLoop(Seq<InstView>),
}

/// A parse-time error: brackets that do not nest.
#[derive(Clone, Copy, PartialEq, Eq, Structural, Debug)]
pub enum ParseError {
    /// A `[` was never closed.
    UnmatchedOpen,
    /// A `]` had no `[` to close.
    UnmatchedClose,
}

/// The model of one instruction node.
pub open spec fn inst_view(inst: Instruction) -> InstView
    decreases inst,
{
    match inst {
        Instruction::TapeRight => InstView::TapeRight,
        Instruction::TapeLeft => InstView::TapeLeft,
        Instruction::CellInc => InstView::CellInc,
        Instruction::CellDec => InstView::CellDec,
        Instruction::CellPrint => InstView::CellPrint,
        Instruction::CellFetch => InstView::CellFetch,
        Instruction::TapeLoop(body) => InstView::TapeLoop(prog_view(body@)),
    }
}

/// The model of an instruction sequence, node by node.
pub open spec fn prog_view(s: Seq<Instruction>) -> Seq<InstView>
    decreases s,
{
    if s.len() == 0 {
        Seq::empty()
    } else {
        seq![inst_view(s[0])] + prog_view(s.drop_first())
    }
}

pub proof fn lemma_prog_view_index(s: Seq<Instruction>)
    ensures
        prog_view(s).len() == s.len(),
        forall|i: int| 0 <= i < s.len() ==> prog_view(s)[i] == inst_view(s[i]),
    decreases s.len(),
{
    if s.len() > 0 {
        lemma_prog_view_index(s.drop_first());
    }
}

/// The leaf node a non-bracket token stands for.
pub open spec fn leaf_view(t: Token) -> InstView
    recommends
        t != Token::LoopStart,
        t != Token::LoopStop,
{
    match t {
        Token::MoveRight => InstView::TapeRight,
        Token::MoveLeft => InstView::TapeLeft,
        Token::IncCell => InstView::CellInc,
        Token::DecCell => InstView::CellDec,
        Token::PrintIO => InstView::CellPrint,
        Token::FetchIO => InstView::CellFetch,
        _ => vstd::pervasive::arbitrary(),
    }
}

/// The parse of tokens `t[i..]` continued from a stack of open contexts:
/// `stack[0]` is the top-level context, `stack.last()` the innermost open
/// loop body. A non-bracket token appends its leaf to the innermost context;
/// `[` opens a context; `]` closes the innermost one and wraps it in a loop
/// node, or fails if only the top level is open. At end of input any context
/// still open beyond the top level is an unmatched `[`.
pub open spec fn parse_at(t: Seq<Token>, i: int, stack: Seq<Seq<InstView>>) -> Result<
    Seq<InstView>,
    ParseError,
>
    recommends
        0 <= i <= t.len(),
        stack.len() >= 1,
    decreases t.len() - i,
{
    if i < 0 || i >= t.len() {
        if stack.len() == 1 {
            Ok(stack[0])
        } else {
            Err(ParseError::UnmatchedOpen)
        }
    } else {
        match t[i] {
            Token::LoopStart => parse_at(t, i + 1, stack.push(Seq::empty())),
            Token::LoopStop => if stack.len() <= 1 {
                Err(ParseError::UnmatchedClose)
            } else {
                let child = stack.last();
                let popped = stack.drop_last();
                parse_at(
                    t,
                    i + 1,
                    popped.update(
                        popped.len() - 1,
                        popped.last().push(InstView::TapeLoop(child)),
                    ),
                )
            },
            tok => parse_at(
                t,
                i + 1,
                stack.update(stack.len() - 1, stack.last().push(leaf_view(tok))),
            ),
        }
    }
}

/// The parse of a whole token sequence: either the top-level instruction
/// sequence or the error for the first bracket fault.
pub open spec fn parse_spec(t: Seq<Token>) -> Result<Seq<InstView>, ParseError> {
    parse_at(t, 0, seq![Seq::empty()])
}

/// The model of a stack of open contexts.
pub open spec fn stack_view(s: Seq<Vec<Instruction>>) -> Seq<Seq<InstView>> {
    Seq::new(s.len(), |i: int| prog_view(s[i]@))
}

impl Instruction {
    /// Builds the instruction tree for a token sequence, or reports the
    /// first unmatched bracket.
    pub fn from_tokens(tokens: Vec<Token>) -> (r: Result<Vec<Instruction>, ParseError>)
        ensures
            match r {
                Ok(prog) => parse_spec(tokens@) == Ok::<_, ParseError>(prog_view(prog@)),
                Err(e) => parse_spec(tokens@) == Err::<Seq<InstView>, _>(e),
            },
    {
        let mut stack: Vec<Vec<Instruction>> = Vec::new();
        stack.push(Vec::new());
        proof {
            assert(stack_view(stack@) =~= seq![Seq::<InstView>::empty()]);
        }
        let n = tokens.len();
        let mut i: usize = 0;
        while i < n
            invariant
                i <= n,
                n == tokens@.len(),
                stack@.len() >= 1,
                parse_at(tokens@, i as int, stack_view(stack@)) == parse_spec(tokens@),
            decreases n - i,
        {
            let ghost pre_stack = stack_view(stack@);
            let tok = tokens[i];
            match tok {
                Token::LoopStart => {
                    stack.push(Vec::new());
                    proof {
                        assert(stack_view(stack@) =~= pre_stack.push(Seq::empty()));
                    }
                },
                Token::LoopStop => {
                    if stack.len() == 1 {
                        return Err(ParseError::UnmatchedClose);
                    }
                    let child = stack.pop().unwrap();
                    let mut top = stack.pop().unwrap();
                    proof {
                        lemma_prog_view_index(top@);
                        lemma_prog_view_index(top@.push(Instruction::TapeLoop(child)));
                        assert(prog_view(top@.push(Instruction::TapeLoop(child))) =~= prog_view(
                            top@,
                        ).push(InstView::TapeLoop(prog_view(child@))));
                    }
                    top.push(Instruction::TapeLoop(child));
                    stack.push(top);
                    proof {
                        let popped = pre_stack.drop_last();
                        assert(stack_view(stack@) =~= popped.update(
                            popped.len() - 1,
                            popped.last().push(InstView::TapeLoop(pre_stack.last())),
                        ));
                    }
                },
                _ => {
                    let mut top = stack.pop().unwrap();
                    let leaf = match tok {
                        Token::MoveRight => Instruction::TapeRight,
                        Token::MoveLeft => Instruction::TapeLeft,
                        Token::IncCell => Instruction::CellInc,
                        Token::DecCell => Instruction::CellDec,
                        Token::PrintIO => Instruction::CellPrint,
                        Token::FetchIO => Instruction::CellFetch,
                        _ => Instruction::CellInc,  // brackets are handled above
                    };
                    proof {
                        lemma_prog_view_index(top@);
                        lemma_prog_view_index(top@.push(leaf));
                        assert(prog_view(top@.push(leaf)) =~= prog_view(top@).push(
                            leaf_view(tok),
                        ));
                    }
                    top.push(leaf);
                    stack.push(top);
                    proof {
                        assert(stack_view(stack@) =~= pre_stack.update(
                            pre_stack.len() - 1,
                            pre_stack.last().push(leaf_view(tok)),
                        ));
                    }
                },
            }
            i = i + 1;
        }
        if stack.len() == 1 {
            let prog = stack.pop().unwrap();
            Ok(prog)
        } else {
            Err(ParseError::UnmatchedOpen)
        }
    }
}

/// The bracket weight of a token: `[` opens, `]` closes, the rest are flat.
pub open spec fn token_delta(t: Token) -> int {
    match t {
        Token::LoopStart => 1,
        Token::LoopStop => -1,
        _ => 0,
    }
}

/// How many brackets a token sequence leaves open.
pub open spec fn balance(t: Seq<Token>) -> int
    decreases t.len(),
{
    if t.len() == 0 {
        0
    } else {
        balance(t.drop_last()) + token_delta(t.last())
    }
}

/// Some prefix closes a bracket that was never opened.
pub open spec fn dips_negative(t: Seq<Token>) -> bool {
    exists|j: int| 0 <= j <= t.len() && balance(#[trigger] t.take(j)) < 0
}

/// Every `]` closes an open `[` and every `[` is closed again.
pub open spec fn well_bracketed(t: Seq<Token>) -> bool {
    balance(t) == 0 && !dips_negative(t)
}

proof fn lemma_balance_step(t: Seq<Token>, i: int)
    requires
        0 <= i < t.len(),
    ensures
        balance(t.take(i + 1)) == balance(t.take(i)) + token_delta(t[i]),
{
    assert(t.take(i + 1).drop_last() =~= t.take(i));
    assert(t.take(i + 1).last() == t[i]);
}

proof fn lemma_parse_at_classify(t: Seq<Token>, i: int, stack: Seq<Seq<InstView>>)
    requires
        0 <= i <= t.len(),
        stack.len() == 1 + balance(t.take(i)),
        forall|j: int| 0 <= j <= i ==> balance(#[trigger] t.take(j)) >= 0,
    ensures
        parse_at(t, i, stack) is Ok ==> well_bracketed(t),
        parse_at(t, i, stack) == Err::<Seq<InstView>, ParseError>(ParseError::UnmatchedClose)
            ==> dips_negative(t),
        parse_at(t, i, stack) == Err::<Seq<InstView>, ParseError>(ParseError::UnmatchedOpen) ==> (
        !dips_negative(t) && balance(t) != 0),
    decreases t.len() - i,
{
    if i == t.len() {
        assert(t.take(i) =~= t);
    } else {
        lemma_balance_step(t, i);
        match t[i] {
            Token::LoopStart => {
                lemma_parse_at_classify(t, i + 1, stack.push(Seq::empty()));
            },
            Token::LoopStop => {
                if stack.len() <= 1 {
                    assert(balance(t.take(i + 1)) < 0);
                } else {
                    let child = stack.last();
                    let popped = stack.drop_last();
                    lemma_parse_at_classify(
                        t,
                        i + 1,
                        popped.update(
                            popped.len() - 1,
                            popped.last().push(InstView::TapeLoop(child)),
                        ),
                    );
                }
            },
            tok => {
                lemma_parse_at_classify(
                    t,
                    i + 1,
                    stack.update(stack.len() - 1, stack.last().push(leaf_view(tok))),
                );
            },
        }
    }
}

/// Bracket law: a token sequence parses exactly when it is well bracketed;
/// a `]` that closes nothing gives `UnmatchedClose`, and otherwise a `[`
/// left open gives `UnmatchedOpen` — each if and only if.
pub proof fn lemma_parse_classification(t: Seq<Token>)
    ensures
        parse_spec(t) is Ok <==> well_bracketed(t),
        parse_spec(t) == Err::<Seq<InstView>, ParseError>(ParseError::UnmatchedClose)
            <==> dips_negative(t),
        parse_spec(t) == Err::<Seq<InstView>, ParseError>(ParseError::UnmatchedOpen) <==> (
        !dips_negative(t) && balance(t) != 0),
{
    assert(t.take(0) =~= Seq::<Token>::empty());
    assert(forall|j: int|
        0 <= j <= 0 ==> balance(#[trigger] t.take(j)) >= 0) by {
        assert(t.take(0) =~= Seq::<Token>::empty());
    }
    lemma_parse_at_classify(t, 0, seq![Seq::empty()]);
    match parse_spec(t) {
        Ok(_) => {},
        Err(e) => match e {
            ParseError::UnmatchedClose => {},
            ParseError::UnmatchedOpen => {},
        },
    }
}

/// Determinism law: the parse of a token sequence is a function of that
/// sequence alone, so lexing and parsing the same source twice yields
/// structurally equal instruction trees.
pub proof fn lemma_parse_deterministic(s1: Seq<char>, s2: Seq<char>)
    requires
        s1 == s2,
    ensures
        parse_spec(crate::token::lex_spec(s1)) == parse_spec(crate::token::lex_spec(s2)),
{
}

fn inst_eq(a: &Instruction, b: &Instruction) -> (r: bool)
    ensures
        r == (inst_view(*a) == inst_view(*b)),
    decreases *a,
{
    match (a, b) {
        (Instruction::TapeRight, Instruction::TapeRight) => true,
        (Instruction::TapeLeft, Instruction::TapeLeft) => true,
        (Instruction::CellInc, Instruction::CellInc) => true,
        (Instruction::CellDec, Instruction::CellDec) => true,
        (Instruction::CellPrint, Instruction::CellPrint) => true,
        (Instruction::CellFetch, Instruction::CellFetch) => true,
        (Instruction::TapeLoop(x), Instruction::TapeLoop(y)) => prog_eq(x, y),
        _ => false,
    }
}

fn prog_eq(x: &Vec<Instruction>, y: &Vec<Instruction>) -> (r: bool)
    ensures
        r == (prog_view(x@) == prog_view(y@)),
    decreases *x,
{
    proof {
        lemma_prog_view_index(x@);
        lemma_prog_view_index(y@);
    }
    if x.len() != y.len() {
        return false;
    }
    let n = x.len();
    let mut i: usize = 0;
    while i < n
        invariant
            i <= n,
            n == x@.len(),
            n == y@.len(),
            forall|j: int| 0 <= j < i ==> inst_view(x@[j]) == inst_view(y@[j]),
            prog_view(x@).len() == n,
            prog_view(y@).len() == n,
            forall|j: int| 0 <= j < n ==> #[trigger] prog_view(x@)[j] == inst_view(x@[j]),
            forall|j: int| 0 <= j < n ==> #[trigger] prog_view(y@)[j] == inst_view(y@[j]),
        decreases n - i,
    {
        if !inst_eq(&x[i], &y[i]) {
            assert(prog_view(x@)[i as int] != prog_view(y@)[i as int]);
            return false;
        }
        i = i + 1;
    }
    proof {
        assert(prog_view(x@) =~= prog_view(y@));
    }
    true
}

impl PartialEq for Instruction {
    /// Structural equality of instruction trees.
    fn eq(&self, other: &Self) -> bool {
        inst_eq(self, other)
    }
}

impl Eq for Instruction {

}

impl vstd::std_specs::cmp::PartialEqSpecImpl for Instruction {
    open spec fn obeys_eq_spec() -> bool {
        true
    }

    open spec fn eq_spec(&self, other: &Self) -> bool {
        inst_view(*self) == inst_view(*other)
    }
}

} // verus!
