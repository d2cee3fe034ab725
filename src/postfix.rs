use vstd::prelude::*;

use crate::operand::{
    build, operands_view, ExprError, Lexeme, Operand, OperandView, Priority, Tree, Type,
};
use crate::text::{chars_of, split_line, tokens_of};

verus! {

/// Where the converter stands between two lexemes: the operator stack (top last),
/// the postfix output so far, and whether an operand is expected next.
pub struct ConvState {
    pub stack: Seq<OperandView>,
    pub out: Seq<OperandView>,
    pub unary: bool,
}

pub open spec fn start_state() -> ConvState {
    ConvState { stack: seq![], out: seq![], unary: true }
}

/// Moves every unary operator on top of the stack to the output.
pub open spec fn pop_unary(stack: Seq<OperandView>, out: Seq<OperandView>) -> (Seq<OperandView>, Seq<OperandView>)
    decreases stack.len(),
{
    if stack.len() > 0 && stack.last().priority == Priority::Unary {
        pop_unary(stack.drop_last(), out.push(stack.last()))
    } else {
        (stack, out)
    }
}

/// Moves to the output every operator on top of the stack that binds at least as
/// strongly as `p`, stopping at a left parenthesis.
pub open spec fn pop_at_least(stack: Seq<OperandView>, out: Seq<OperandView>, p: Priority) -> (Seq<OperandView>, Seq<OperandView>)
    decreases stack.len(),
{
    if stack.len() > 0 && stack.last().priority.rank() >= p.rank() && stack.last().priority
        != Priority::LeftParens {
        pop_at_least(stack.drop_last(), out.push(stack.last()), p)
    } else {
        (stack, out)
    }
}

/// Moves operators to the output down to the nearest left parenthesis, which is
/// dropped; `None` where the stack holds none.
pub open spec fn pop_to_paren(stack: Seq<OperandView>, out: Seq<OperandView>) -> Option<(Seq<OperandView>, Seq<OperandView>)>
    decreases stack.len(),
{
    if stack.len() == 0 {
        None
    } else if stack.last().priority == Priority::LeftParens {
        Some((stack.drop_last(), out))
    } else {
        pop_to_paren(stack.drop_last(), out.push(stack.last()))
    }
}

/// Moves the whole stack to the output, failing on a parenthesis left in it.
pub open spec fn flush(stack: Seq<OperandView>, out: Seq<OperandView>) -> Result<Seq<OperandView>, ExprError>
    decreases stack.len(),
{
    if stack.len() == 0 {
        Ok(out)
    } else if stack.last().priority == Priority::LeftParens || stack.last().priority
        == Priority::RightParens {
        Err(ExprError::MismatchedParenthesis)
    } else {
        flush(stack.drop_last(), out.push(stack.last()))
    }
}

pub open spec fn is_unary_text(t: Seq<char>) -> bool {
    t == seq!['~'] || t == seq!['+'] || t == seq!['-']
}

/// The converter's rule for one lexeme.
pub open spec fn step(st: ConvState, tok: Lexeme) -> Result<ConvState, ExprError> {
    match tok {
        Lexeme::Num(t) => {
            let (s, o) = pop_unary(
                st.stack,
                st.out.push(OperandView { text: t, priority: Priority::Number }),
            );
            Ok(ConvState { stack: s, out: o, unary: false })
        },
        Lexeme::Sym(t, p) => {
            if p.is_binary() {
                if st.unary {
                    if is_unary_text(t) {
                        Ok(
                            ConvState {
                                stack: st.stack.push(OperandView { text: t, priority: Priority::Unary }),
                                out: st.out,
                                unary: true,
                            },
                        )
                    } else {
                        Err(ExprError::InvalidUnaryOperator)
                    }
                } else {
                    let (s, o) = pop_at_least(st.stack, st.out, p);
                    Ok(ConvState { stack: s.push(OperandView { text: t, priority: p }), out: o, unary: true })
                }
            } else if p == Priority::LeftParens {
                Ok(ConvState { stack: st.stack.push(OperandView { text: t, priority: p }), out: st.out, unary: true })
            } else if p == Priority::RightParens {
                match pop_to_paren(st.stack, st.out) {
                    None => Err(ExprError::MismatchedParenthesis),
                    Some((s, o)) => Ok(ConvState { stack: s, out: o, unary: false }),
                }
            } else {
                Err(ExprError::UnexpectedSymbol)
            }
        },
    }
}

/// The converter's state after the lexemes `toks`, from `st`; the first error met.
pub open spec fn run(st: ConvState, toks: Seq<Lexeme>) -> Result<ConvState, ExprError>
    decreases toks.len(),
{
    if toks.len() == 0 {
        Ok(st)
    } else {
        match step(st, toks[0]) {
            Err(e) => Err(e),
            Ok(next) => run(next, toks.drop_first()),
        }
    }
}

/// The postfix sequence of a lexeme sequence, or the error that stops it.
pub open spec fn postfix(toks: Seq<Lexeme>) -> Result<Seq<OperandView>, ExprError> {
    match run(start_state(), toks) {
        Err(e) => Err(e),
        Ok(st) => flush(st.stack, st.out),
    }
}

fn is_unary_symbol(sym: &String) -> (r: bool)
    ensures
        r == is_unary_text(sym@),
{
    let cs = chars_of(sym.as_str());
    if cs.len() == 1 {
        let c = cs[0];
        assert(cs@ =~= seq![c]);
        c == '~' || c == '+' || c == '-'
    } else {
        assert(cs@.len() != seq!['~'].len());
        assert(cs@.len() != seq!['+'].len());
        assert(cs@.len() != seq!['-'].len());
        false
    }
}

/// Moves the top stack entry to the end of the output.
fn move_top(stack: &mut Vec<Operand>, output: &mut Vec<Operand>)
    requires
        old(stack)@.len() > 0,
    ensures
        final(stack)@.len() == old(stack)@.len() - 1,
        operands_view(final(stack)@) == operands_view(old(stack)@).drop_last(),
        operands_view(final(output)@) == operands_view(old(output)@).push(
            operands_view(old(stack)@).last(),
        ),
{
    let ghost s0 = operands_view(stack@);
    let ghost o0 = operands_view(output@);
    match stack.pop() {
        Some(top) => {
            output.push(top);
        },
        None => {},
    }
    assert(operands_view(stack@) =~= s0.drop_last());
    assert(operands_view(output@) =~= o0.push(s0.last()));
}

fn push_operand(v: &mut Vec<Operand>, o: Operand)
    ensures
        operands_view(final(v)@) == operands_view(old(v)@).push(o@),
{
    let ghost v0 = operands_view(v@);
    v.push(o);
    assert(operands_view(v@) =~= v0.push(o@));
}

/// Converts a lexeme sequence from infix to postfix order (shunting-yard),
/// resolving precedence, left associativity, unary signs and parentheses.
#[verifier::loop_isolation(false)]
pub fn to_postfix(tokens: &Vec<Type>) -> (r: Result<Vec<Operand>, ExprError>)
    ensures
        match r {
            Ok(v) => postfix(tokens@.map_values(|t: Type| t@)) == Ok::<Seq<OperandView>, ExprError>(operands_view(v@)),
            Err(e) => postfix(tokens@.map_values(|t: Type| t@)) == Err::<Seq<OperandView>, ExprError>(e),
        },
{
    let ghost toks = tokens@.map_values(|t: Type| t@);
    let mut stack: Vec<Operand> = Vec::new();
    let mut output: Vec<Operand> = Vec::new();
    let mut canparseunary = true;
    let mut i: usize = 0;
    assert(toks.skip(0) =~= toks);
    assert(operands_view(stack@) =~= seq![]);
    assert(operands_view(output@) =~= seq![]);
    while i < tokens.len()
        invariant
            i <= tokens.len(),
            toks == tokens@.map_values(|t: Type| t@),
            run(start_state(), toks) == run(
                ConvState { stack: operands_view(stack@), out: operands_view(output@), unary: canparseunary },
                toks.skip(i as int),
            ),
        decreases tokens.len() - i,
    {
        let ghost st = ConvState { stack: operands_view(stack@), out: operands_view(output@), unary: canparseunary };
        assert(toks.skip(i as int).drop_first() =~= toks.skip(i as int + 1));
        assert(toks.skip(i as int)[0] == tokens@[i as int]@);
        match &tokens[i] {
            Type::Number(num) => {
                canparseunary = false;
                push_operand(&mut output, Operand::new(num.clone(), Priority::Number));
                while stack.len() > 0 && stack[stack.len() - 1].priority == Priority::Unary
                    invariant
                        pop_unary(st.stack, st.out.push(OperandView { text: num@, priority: Priority::Number }))
                            == pop_unary(operands_view(stack@), operands_view(output@)),
                    decreases stack.len(),
                {
                    move_top(&mut stack, &mut output);
                }
                let ghost next = ConvState { stack: operands_view(stack@), out: operands_view(output@), unary: false };
                assert(step(st, toks[i as int]) == Ok::<ConvState, ExprError>(next));
            },
            Type::Symbol(sym, prio) => {
                let prio = *prio;
                if prio.binary() {
                    if canparseunary {
                        if !is_unary_symbol(sym) {
                            assert(step(st, toks[i as int]) is Err);
                            return Err(ExprError::InvalidUnaryOperator);
                        }
                        push_operand(&mut stack, Operand::new(sym.clone(), Priority::Unary));
                        let ghost next = ConvState { stack: operands_view(stack@), out: operands_view(output@), unary: true };
                        assert(step(st, toks[i as int]) == Ok::<ConvState, ExprError>(next));
                    } else {
                        let level = prio.level();
                        while stack.len() > 0 && stack[stack.len() - 1].priority.level() >= level
                            && stack[stack.len() - 1].priority != Priority::LeftParens
                            invariant
                                level as int == prio.rank(),
                                pop_at_least(st.stack, st.out, prio) == pop_at_least(
                                    operands_view(stack@),
                                    operands_view(output@),
                                    prio,
                                ),
                            decreases stack.len(),
                        {
                            move_top(&mut stack, &mut output);
                        }
                        push_operand(&mut stack, Operand::new(sym.clone(), prio));
                        let ghost next = ConvState { stack: operands_view(stack@), out: operands_view(output@), unary: true };
                        assert(step(st, toks[i as int]) == Ok::<ConvState, ExprError>(next));
                    }
                    canparseunary = true;
                } else if prio == Priority::LeftParens {
                    push_operand(&mut stack, Operand::new(sym.clone(), prio));
                    canparseunary = true;
                    let ghost next = ConvState { stack: operands_view(stack@), out: operands_view(output@), unary: true };
                    assert(step(st, toks[i as int]) == Ok::<ConvState, ExprError>(next));
                } else if prio == Priority::RightParens {
                    while stack.len() > 0 && stack[stack.len() - 1].priority != Priority::LeftParens
                        invariant
                            pop_to_paren(st.stack, st.out) == pop_to_paren(
                                operands_view(stack@),
                                operands_view(output@),
                            ),
                        decreases stack.len(),
                    {
                        move_top(&mut stack, &mut output);
                    }
                    if stack.len() == 0 {
                        assert(step(st, toks[i as int]) is Err);
                        return Err(ExprError::MismatchedParenthesis);
                    }
                    let ghost s0 = operands_view(stack@);
                    stack.pop();
                    assert(operands_view(stack@) =~= s0.drop_last());
                    canparseunary = false;
                    let ghost next = ConvState { stack: operands_view(stack@), out: operands_view(output@), unary: false };
                    assert(step(st, toks[i as int]) == Ok::<ConvState, ExprError>(next));
                } else {
                    assert(step(st, toks[i as int]) is Err);
                    return Err(ExprError::UnexpectedSymbol);
                }
            },
        }
        i += 1;
    }
    assert(toks.skip(i as int) =~= seq![]);
    while stack.len() > 0
        invariant
            postfix(toks) == flush(operands_view(stack@), operands_view(output@)),
        decreases stack.len(),
    {
        let p = stack[stack.len() - 1].priority;
        if p == Priority::LeftParens || p == Priority::RightParens {
            return Err(ExprError::MismatchedParenthesis);
        }
        move_top(&mut stack, &mut output);
    }
    Ok(output)
}

/// The expression tree of a line: its lexemes, their postfix order, and the tree
/// built from the end of that sequence.
pub open spec fn tree_of(line: Seq<char>) -> Result<crate::operand::NodeView, ExprError> {
    match postfix(tokens_of(line)) {
        Err(e) => Err(e),
        Ok(ops) => {
            let (n, ok, _) = build(ops);
            match ok {
                Err(e) => Err(e),
                Ok(_) => Ok(n),
            }
        },
    }
}

/// Reads a line into an expression tree, ready to be evaluated.
pub fn parse_tree(line: &String) -> (r: Result<Tree, ExprError>)
    ensures
        match r {
            Ok(t) => tree_of(line@) == Ok::<crate::operand::NodeView, ExprError>(t.head.model()),
            Err(e) => tree_of(line@) == Err::<crate::operand::NodeView, ExprError>(e),
        },
{
    let tokens = split_line(line);
    let mut output = to_postfix(&tokens)?;
    let mut tree = Tree::new();
    tree.populate(&mut output)?;
    Ok(tree)
}

} // verus!
