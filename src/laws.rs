use vstd::prelude::*;

use crate::operand::{Lexeme, NodeView, OperandView, Priority};
use crate::postfix::{
    flush, pop_at_least, pop_to_paren, pop_unary, postfix, run, start_state, step, tree_of,
    ConvState,
};
use crate::text::{is_white_space, lex, strip_spaces, symbol_priority, tokens_of};

verus! {

/// The same converter state with `pre` slid under its stack.
pub open spec fn lift(st: ConvState, pre: Seq<OperandView>) -> ConvState {
    ConvState { stack: pre + st.stack, out: st.out, unary: st.unary }
}

pub open spec fn paren_lexeme(c: char) -> Lexeme {
    Lexeme::Sym(seq![c], symbol_priority(c))
}

proof fn lemma_strip_front(c: char, s: Seq<char>)
    requires
        !is_white_space(c),
    ensures
        strip_spaces(seq![c] + s) == seq![c] + strip_spaces(s),
    decreases s.len(),
{
    if s.len() == 0 {
        assert(seq![c] + s =~= seq![c]);
        assert(seq![c].drop_last() =~= s);
        assert(seq![c].last() == c);
        assert(strip_spaces(seq![c]) == strip_spaces(s).push(c));
        assert(seq![c] + strip_spaces(s) =~= strip_spaces(s).push(c));
    } else {
        lemma_strip_front(c, s.drop_last());
        assert((seq![c] + s).drop_last() =~= seq![c] + s.drop_last());
        assert((seq![c] + s).last() == s.last());
        assert((seq![c] + strip_spaces(s.drop_last())).push(s.last()) =~= seq![c]
            + strip_spaces(s.drop_last()).push(s.last()));
    }
}

proof fn lemma_strip_back(s: Seq<char>, c: char)
    requires
        !is_white_space(c),
    ensures
        strip_spaces(s + seq![c]) == strip_spaces(s) + seq![c],
{
    assert((s + seq![c]).drop_last() =~= s);
    assert(strip_spaces(s).push(c) =~= strip_spaces(s) + seq![c]);
}

proof fn lemma_lex_back(s: Seq<char>, run: Seq<char>)
    ensures
        lex(s + seq![')'], run) == lex(s, run) + seq![paren_lexeme(')')],
    decreases s.len(),
{
    if s.len() == 0 {
        assert(s + seq![')'] =~= seq![')']);
        assert(seq![')'].drop_first() =~= seq![]);
        assert(lex(seq![], seq![]) =~= seq![]);
        assert(lex(s + seq![')'], run) =~= lex(s, run) + seq![paren_lexeme(')')]);
    } else {
        assert((s + seq![')']).drop_first() =~= s.drop_first() + seq![')']);
        assert((s + seq![')'])[0] == s[0]);
        if crate::text::is_symbol_char(s[0]) {
            lemma_lex_back(s.drop_first(), seq![]);
            assert(lex(s + seq![')'], run) =~= lex(s, run) + seq![paren_lexeme(')')]);
        } else {
            lemma_lex_back(s.drop_first(), run.push(s[0]));
        }
    }
}

/// Wrapping a line in parentheses wraps its lexemes in the two parenthesis lexemes.
pub proof fn lemma_tokens_in_parens(line: Seq<char>)
    ensures
        tokens_of(seq!['('] + line + seq![')']) == seq![paren_lexeme('(')] + tokens_of(line) + seq![
            paren_lexeme(')'),
        ],
{
    assert(!is_white_space('('));
    assert(!is_white_space(')'));
    lemma_strip_front('(', line);
    lemma_strip_back(seq!['('] + line, ')');
    let s = strip_spaces(line);
    let w = seq!['('] + s + seq![')'];
    assert(w[0] == '(');
    assert(w.drop_first() =~= s + seq![')']);
    lemma_lex_back(s, seq![]);
    assert(lex(w, seq![]) =~= seq![paren_lexeme('(')] + lex(s, seq![]) + seq![paren_lexeme(')')]);
}

proof fn lemma_pop_unary_lift(pre: Seq<OperandView>, s: Seq<OperandView>, o: Seq<OperandView>)
    requires
        pre.len() > 0,
        pre.last().priority == Priority::LeftParens,
    ensures
        pop_unary(pre + s, o) == (pre + pop_unary(s, o).0, pop_unary(s, o).1),
    decreases s.len(),
{
    if s.len() == 0 {
        assert(pre + s =~= pre);
    } else {
        assert((pre + s).drop_last() =~= pre + s.drop_last());
        assert((pre + s).last() == s.last());
        lemma_pop_unary_lift(pre, s.drop_last(), o.push(s.last()));
    }
}

proof fn lemma_pop_at_least_lift(
    pre: Seq<OperandView>,
    s: Seq<OperandView>,
    o: Seq<OperandView>,
    p: Priority,
)
    requires
        pre.len() > 0,
        pre.last().priority == Priority::LeftParens,
    ensures
        pop_at_least(pre + s, o, p) == (pre + pop_at_least(s, o, p).0, pop_at_least(s, o, p).1),
    decreases s.len(),
{
    if s.len() == 0 {
        assert(pre + s =~= pre);
    } else {
        assert((pre + s).drop_last() =~= pre + s.drop_last());
        assert((pre + s).last() == s.last());
        lemma_pop_at_least_lift(pre, s.drop_last(), o.push(s.last()), p);
    }
}

proof fn lemma_pop_to_paren_lift(pre: Seq<OperandView>, s: Seq<OperandView>, o: Seq<OperandView>)
    requires
        pop_to_paren(s, o) is Some,
    ensures
        ({
            let (rs, ro) = pop_to_paren(s, o)->0;
            pop_to_paren(pre + s, o) == Some((pre + rs, ro))
        }),
    decreases s.len(),
{
    assert((pre + s).drop_last() =~= pre + s.drop_last());
    assert((pre + s).last() == s.last());
    if s.last().priority != Priority::LeftParens {
        lemma_pop_to_paren_lift(pre, s.drop_last(), o.push(s.last()));
    }
}

proof fn lemma_step_lift(st: ConvState, tok: Lexeme, pre: Seq<OperandView>)
    requires
        pre.len() > 0,
        pre.last().priority == Priority::LeftParens,
        step(st, tok) is Ok,
    ensures
        step(lift(st, pre), tok) == Ok::<ConvState, crate::operand::ExprError>(
            lift(step(st, tok)->Ok_0, pre),
        ),
{
    match tok {
        Lexeme::Num(t) => {
            lemma_pop_unary_lift(
                pre,
                st.stack,
                st.out.push(OperandView { text: t, priority: Priority::Number }),
            );
        },
        Lexeme::Sym(t, p) => {
            if p.is_binary() {
                if st.unary {
                    assert((pre + st.stack).push(OperandView { text: t, priority: Priority::Unary })
                        =~= pre + st.stack.push(OperandView { text: t, priority: Priority::Unary }));
                } else {
                    lemma_pop_at_least_lift(pre, st.stack, st.out, p);
                    let s = pop_at_least(st.stack, st.out, p).0;
                    assert((pre + s).push(OperandView { text: t, priority: p }) =~= pre + s.push(
                        OperandView { text: t, priority: p },
                    ));
                }
            } else if p == Priority::LeftParens {
                assert((pre + st.stack).push(OperandView { text: t, priority: p }) =~= pre
                    + st.stack.push(OperandView { text: t, priority: p }));
            } else {
                lemma_pop_to_paren_lift(pre, st.stack, st.out);
            }
        },
    }
}

proof fn lemma_run_lift(st: ConvState, toks: Seq<Lexeme>, pre: Seq<OperandView>)
    requires
        pre.len() > 0,
        pre.last().priority == Priority::LeftParens,
        run(st, toks) is Ok,
    ensures
        run(lift(st, pre), toks) == Ok::<ConvState, crate::operand::ExprError>(
            lift(run(st, toks)->Ok_0, pre),
        ),
    decreases toks.len(),
{
    if toks.len() > 0 {
        lemma_step_lift(st, toks[0], pre);
        lemma_run_lift(step(st, toks[0])->Ok_0, toks.drop_first(), pre);
    }
}

proof fn lemma_run_append(st: ConvState, a: Seq<Lexeme>, b: Seq<Lexeme>)
    ensures
        run(st, a + b) == match run(st, a) {
            Err(e) => Err(e),
            Ok(mid) => run(mid, b),
        },
    decreases a.len(),
{
    if a.len() == 0 {
        assert(a + b =~= b);
    } else {
        assert((a + b)[0] == a[0]);
        assert((a + b).drop_first() =~= a.drop_first() + b);
        match step(st, a[0]) {
            Err(_) => {},
            Ok(next) => {
                lemma_run_append(next, a.drop_first(), b);
            },
        }
    }
}

proof fn lemma_close_flushes(paren: OperandView, s: Seq<OperandView>, o: Seq<OperandView>)
    requires
        paren.priority == Priority::LeftParens,
        flush(s, o) is Ok,
    ensures
        pop_to_paren(seq![paren] + s, o) == Some((Seq::<OperandView>::empty(), flush(s, o)->Ok_0)),
    decreases s.len(),
{
    if s.len() == 0 {
        assert(seq![paren] + s =~= seq![paren]);
        assert(seq![paren].drop_last() =~= Seq::<OperandView>::empty());
    } else {
        assert((seq![paren] + s).drop_last() =~= seq![paren] + s.drop_last());
        assert((seq![paren] + s).last() == s.last());
        lemma_close_flushes(paren, s.drop_last(), o.push(s.last()));
    }
}

/// Wrapping a lexeme sequence that converts in a pair of parentheses changes
/// nothing of its postfix order.
pub proof fn lemma_postfix_in_parens(toks: Seq<Lexeme>)
    requires
        postfix(toks) is Ok,
    ensures
        postfix(seq![paren_lexeme('(')] + toks + seq![paren_lexeme(')')]) == postfix(toks),
{
    let lp = OperandView { text: seq!['('], priority: Priority::LeftParens };
    let pre = seq![lp];
    let opened = ConvState { stack: pre, out: seq![], unary: true };
    let whole = seq![paren_lexeme('(')] + toks + seq![paren_lexeme(')')];
    assert(whole =~= seq![paren_lexeme('(')] + (toks + seq![paren_lexeme(')')]));
    lemma_run_append(start_state(), seq![paren_lexeme('(')], toks + seq![paren_lexeme(')')]);
    assert(seq![paren_lexeme('(')].drop_first() =~= Seq::<Lexeme>::empty());
    assert(seq![paren_lexeme('(')][0] == paren_lexeme('('));
    assert(Seq::<OperandView>::empty().push(lp) =~= pre);
    assert(step(start_state(), paren_lexeme('(')) == Ok::<ConvState, crate::operand::ExprError>(
        opened,
    ));
    assert(run(opened, Seq::<Lexeme>::empty()) == Ok::<ConvState, crate::operand::ExprError>(opened));
    assert(run(start_state(), seq![paren_lexeme('(')]) == Ok::<ConvState, crate::operand::ExprError>(
        opened,
    ));
    lemma_run_append(opened, toks, seq![paren_lexeme(')')]);
    assert(lift(start_state(), pre) == opened) by {
        assert(pre + Seq::<OperandView>::empty() =~= pre);
    }
    lemma_run_lift(start_state(), toks, pre);
    let fin = run(start_state(), toks)->Ok_0;
    lemma_close_flushes(lp, fin.stack, fin.out);
    let closed = ConvState {
        stack: Seq::<OperandView>::empty(),
        out: flush(fin.stack, fin.out)->Ok_0,
        unary: false,
    };
    assert(step(lift(fin, pre), paren_lexeme(')')) == Ok::<ConvState, crate::operand::ExprError>(
        closed,
    ));
    assert(seq![paren_lexeme(')')].drop_first() =~= Seq::<Lexeme>::empty());
    assert(seq![paren_lexeme(')')][0] == paren_lexeme(')'));
    assert(run(closed, Seq::<Lexeme>::empty()) == Ok::<ConvState, crate::operand::ExprError>(closed));
    assert(run(lift(fin, pre), seq![paren_lexeme(')')]) == Ok::<
        ConvState,
        crate::operand::ExprError,
    >(closed));
}

/// For every line whose lexemes convert, the line wrapped in parentheses has the
/// same postfix order and therefore the same expression tree: grouping the whole
/// expression does not change its value.
pub proof fn parens_keep_tree(line: Seq<char>)
    requires
        postfix(tokens_of(line)) is Ok,
    ensures
        postfix(tokens_of(seq!['('] + line + seq![')'])) == postfix(tokens_of(line)),
        tree_of(seq!['('] + line + seq![')']) == tree_of(line),
{
    lemma_tokens_in_parens(line);
    lemma_postfix_in_parens(tokens_of(line));
}

/// Left parentheses held in a converter stack.
pub open spec fn opens_in(s: Seq<OperandView>) -> int
    decreases s.len(),
{
    if s.len() == 0 {
        0
    } else {
        opens_in(s.drop_last()) + if s.last().priority == Priority::LeftParens {
            1int
        } else {
            0int
        }
    }
}

pub open spec fn paren_weight(t: Lexeme) -> int {
    match t {
        Lexeme::Sym(_, Priority::LeftParens) => 1,
        Lexeme::Sym(_, Priority::RightParens) => -1,
        _ => 0,
    }
}

/// Left parenthesis lexemes less right parenthesis lexemes.
pub open spec fn paren_balance(toks: Seq<Lexeme>) -> int
    decreases toks.len(),
{
    if toks.len() == 0 {
        0
    } else {
        paren_weight(toks[0]) + paren_balance(toks.drop_first())
    }
}

proof fn lemma_push_opens(s: Seq<OperandView>, x: OperandView)
    ensures
        opens_in(s.push(x)) == opens_in(s) + if x.priority == Priority::LeftParens {
            1int
        } else {
            0int
        },
{
    assert(s.push(x).drop_last() =~= s);
}

proof fn lemma_pop_unary_opens(s: Seq<OperandView>, o: Seq<OperandView>)
    ensures
        opens_in(pop_unary(s, o).0) == opens_in(s),
    decreases s.len(),
{
    if s.len() > 0 && s.last().priority == Priority::Unary {
        lemma_pop_unary_opens(s.drop_last(), o.push(s.last()));
    }
}

proof fn lemma_pop_at_least_opens(s: Seq<OperandView>, o: Seq<OperandView>, p: Priority)
    ensures
        opens_in(pop_at_least(s, o, p).0) == opens_in(s),
    decreases s.len(),
{
    if s.len() > 0 && s.last().priority.rank() >= p.rank() && s.last().priority
        != Priority::LeftParens {
        lemma_pop_at_least_opens(s.drop_last(), o.push(s.last()), p);
    }
}

proof fn lemma_pop_to_paren_opens(s: Seq<OperandView>, o: Seq<OperandView>)
    requires
        pop_to_paren(s, o) is Some,
    ensures
        opens_in((pop_to_paren(s, o)->0).0) == opens_in(s) - 1,
    decreases s.len(),
{
    if s.last().priority != Priority::LeftParens {
        lemma_pop_to_paren_opens(s.drop_last(), o.push(s.last()));
    }
}

proof fn lemma_step_opens(st: ConvState, tok: Lexeme)
    requires
        step(st, tok) is Ok,
    ensures
        opens_in((step(st, tok)->Ok_0).stack) == opens_in(st.stack) + paren_weight(tok),
{
    match tok {
        Lexeme::Num(t) => {
            lemma_pop_unary_opens(
                st.stack,
                st.out.push(OperandView { text: t, priority: Priority::Number }),
            );
        },
        Lexeme::Sym(t, p) => {
            if p.is_binary() {
                if st.unary {
                    lemma_push_opens(st.stack, OperandView { text: t, priority: Priority::Unary });
                } else {
                    lemma_pop_at_least_opens(st.stack, st.out, p);
                    lemma_push_opens(
                        pop_at_least(st.stack, st.out, p).0,
                        OperandView { text: t, priority: p },
                    );
                }
            } else if p == Priority::LeftParens {
                lemma_push_opens(st.stack, OperandView { text: t, priority: p });
            } else {
                lemma_pop_to_paren_opens(st.stack, st.out);
            }
        },
    }
}

proof fn lemma_run_opens(st: ConvState, toks: Seq<Lexeme>)
    requires
        run(st, toks) is Ok,
    ensures
        opens_in((run(st, toks)->Ok_0).stack) == opens_in(st.stack) + paren_balance(toks),
    decreases toks.len(),
{
    if toks.len() > 0 {
        lemma_step_opens(st, toks[0]);
        lemma_run_opens(step(st, toks[0])->Ok_0, toks.drop_first());
    }
}

proof fn lemma_flush_opens(s: Seq<OperandView>, o: Seq<OperandView>)
    requires
        flush(s, o) is Ok,
    ensures
        opens_in(s) == 0,
    decreases s.len(),
{
    if s.len() > 0 {
        lemma_flush_opens(s.drop_last(), o.push(s.last()));
    }
}

/// A lexeme sequence with more left than right parentheses, or fewer, never
/// converts: it ends in an error, never in a postfix sequence.
pub proof fn unbalanced_parens_fail(toks: Seq<Lexeme>)
    requires
        paren_balance(toks) != 0,
    ensures
        postfix(toks) is Err,
{
    if run(start_state(), toks) is Ok {
        lemma_run_opens(start_state(), toks);
        let fin = run(start_state(), toks)->Ok_0;
        if flush(fin.stack, fin.out) is Ok {
            lemma_flush_opens(fin.stack, fin.out);
        }
    }
}

pub open spec fn char_weight(c: char) -> int {
    if c == '(' {
        1
    } else if c == ')' {
        -1
    } else {
        0
    }
}

/// Left parenthesis chars less right parenthesis chars.
pub open spec fn char_balance(s: Seq<char>) -> int
    decreases s.len(),
{
    if s.len() == 0 {
        0
    } else {
        char_weight(s[0]) + char_balance(s.drop_first())
    }
}

proof fn lemma_char_balance_back(s: Seq<char>)
    requires
        s.len() > 0,
    ensures
        char_balance(s) == char_balance(s.drop_last()) + char_weight(s.last()),
    decreases s.len(),
{
    if s.len() > 1 {
        assert(s.drop_first().drop_last() =~= s.drop_last().drop_first());
        lemma_char_balance_back(s.drop_first());
    } else {
        assert(s.drop_first() =~= Seq::<char>::empty());
        assert(s.drop_last() =~= Seq::<char>::empty());
    }
}

proof fn lemma_strip_balance(s: Seq<char>)
    ensures
        char_balance(strip_spaces(s)) == char_balance(s),
    decreases s.len(),
{
    if s.len() > 0 {
        lemma_strip_balance(s.drop_last());
        lemma_char_balance_back(s);
        if !is_white_space(s.last()) {
            let t = strip_spaces(s.drop_last()).push(s.last());
            assert(t.drop_last() =~= strip_spaces(s.drop_last()));
            lemma_char_balance_back(t);
        }
    }
}

proof fn lemma_balance_append(a: Seq<Lexeme>, b: Seq<Lexeme>)
    ensures
        paren_balance(a + b) == paren_balance(a) + paren_balance(b),
    decreases a.len(),
{
    if a.len() == 0 {
        assert(a + b =~= b);
    } else {
        assert((a + b)[0] == a[0]);
        assert((a + b).drop_first() =~= a.drop_first() + b);
        lemma_balance_append(a.drop_first(), b);
    }
}

proof fn lemma_lex_balance(s: Seq<char>, run: Seq<char>)
    ensures
        paren_balance(lex(s, run)) == char_balance(s),
    decreases s.len(),
{
    let pending = crate::text::number_run(run);
    assert(paren_balance(Seq::<Lexeme>::empty()) == 0);
    if run.len() > 0 {
        assert(pending.drop_first() =~= Seq::<Lexeme>::empty());
        assert(paren_weight(pending[0]) == 0);
    }
    assert(paren_balance(pending) == 0);
    if s.len() > 0 {
        let c = s[0];
        if crate::text::is_symbol_char(c) {
            let sym = seq![Lexeme::Sym(seq![c], symbol_priority(c))];
            assert(sym.drop_first() =~= Seq::<Lexeme>::empty());
            assert(paren_balance(Seq::<Lexeme>::empty()) == 0);
            assert(paren_balance(sym) == char_weight(c));
            lemma_lex_balance(s.drop_first(), seq![]);
            lemma_balance_append(pending, sym);
            lemma_balance_append(pending + sym, lex(s.drop_first(), seq![]));
        } else {
            lemma_lex_balance(s.drop_first(), run.push(c));
        }
    }
}

/// A line with more `(` than `)`, or fewer, never yields an expression tree: it
/// ends in an error, never in a value.
pub proof fn unbalanced_line_fails(line: Seq<char>)
    requires
        char_balance(line) != 0,
    ensures
        is_paren_error(postfix(tokens_of(line))),
        tree_of(line) == Err::<NodeView, crate::operand::ExprError>(
            crate::operand::ExprError::MismatchedParenthesis,
        ) || tree_of(line) == Err::<NodeView, crate::operand::ExprError>(
            crate::operand::ExprError::InvalidUnaryOperator,
        ),
{
    lemma_line_errors(line);
    lemma_strip_balance(line);
    lemma_lex_balance(strip_spaces(line), seq![]);
    unbalanced_parens_fail(tokens_of(line));
}

pub open spec fn is_sign_char(u: char) -> bool {
    u == '-' || u == '~' || u == '+'
}

/// A sign char written before a parenthesized line adds the sign lexeme in front
/// of the line's parenthesized lexemes.
proof fn lemma_tokens_signed_group(u: char, line: Seq<char>)
    requires
        is_sign_char(u),
    ensures
        tokens_of(seq![u, '('] + line + seq![')']) == seq![paren_lexeme(u)] + (seq![
            paren_lexeme('('),
        ] + tokens_of(line) + seq![paren_lexeme(')')]),
{
    let w = seq!['('] + line + seq![')'];
    assert(seq![u, '('] + line + seq![')'] =~= seq![u] + w);
    assert(!is_white_space(u));
    lemma_strip_front(u, w);
    lemma_tokens_in_parens(line);
    let sw = strip_spaces(w);
    let uw = seq![u] + sw;
    assert(uw[0] == u);
    assert(uw.drop_first() =~= sw);
    assert(crate::text::number_run(seq![]) =~= Seq::<Lexeme>::empty());
    assert(lex(uw, seq![]) =~= seq![paren_lexeme(u)] + lex(sw, seq![]));
}

/// For every line whose lexemes convert, a sign before the parenthesized line
/// is applied after the group: the postfix order is the line's own, followed by
/// the sign as a unary operator.
pub proof fn lemma_postfix_signed_group(u: char, toks: Seq<Lexeme>)
    requires
        is_sign_char(u),
        postfix(toks) is Ok,
    ensures
        postfix(seq![paren_lexeme(u)] + (seq![paren_lexeme('(')] + toks + seq![paren_lexeme(')')]))
            == Ok::<Seq<OperandView>, crate::operand::ExprError>(
            (postfix(toks)->Ok_0).push(OperandView { text: seq![u], priority: Priority::Unary }),
        ),
{
    let sign = OperandView { text: seq![u], priority: Priority::Unary };
    let lp = OperandView { text: seq!['('], priority: Priority::LeftParens };
    let signed = ConvState { stack: seq![sign], out: seq![], unary: true };
    let pre = seq![sign, lp];
    let opened = ConvState { stack: pre, out: seq![], unary: true };
    let group = seq![paren_lexeme('(')] + toks + seq![paren_lexeme(')')];
    // the sign
    lemma_run_append(start_state(), seq![paren_lexeme(u)], group);
    assert(seq![paren_lexeme(u)][0] == paren_lexeme(u));
    assert(seq![paren_lexeme(u)].drop_first() =~= Seq::<Lexeme>::empty());
    assert(seq![u] == seq!['-'] || seq![u] == seq!['~'] || seq![u] == seq!['+']);
    assert(Seq::<OperandView>::empty().push(sign) =~= seq![sign]);
    assert(step(start_state(), paren_lexeme(u)) == Ok::<ConvState, crate::operand::ExprError>(
        signed,
    ));
    assert(run(signed, Seq::<Lexeme>::empty()) == Ok::<ConvState, crate::operand::ExprError>(signed));
    // the opening parenthesis
    assert(group =~= seq![paren_lexeme('(')] + (toks + seq![paren_lexeme(')')]));
    lemma_run_append(signed, seq![paren_lexeme('(')], toks + seq![paren_lexeme(')')]);
    assert(seq![paren_lexeme('(')][0] == paren_lexeme('('));
    assert(seq![paren_lexeme('(')].drop_first() =~= Seq::<Lexeme>::empty());
    assert(seq![sign].push(lp) =~= pre);
    assert(step(signed, paren_lexeme('(')) == Ok::<ConvState, crate::operand::ExprError>(opened));
    assert(run(opened, Seq::<Lexeme>::empty()) == Ok::<ConvState, crate::operand::ExprError>(opened));
    // the group's own lexemes, above the two entries
    lemma_run_append(opened, toks, seq![paren_lexeme(')')]);
    assert(lift(start_state(), pre) == opened) by {
        assert(pre + Seq::<OperandView>::empty() =~= pre);
    }
    lemma_run_lift(start_state(), toks, pre);
    let fin = run(start_state(), toks)->Ok_0;
    let flushed = flush(fin.stack, fin.out)->Ok_0;
    // the closing parenthesis
    lemma_close_flushes(lp, fin.stack, fin.out);
    lemma_pop_to_paren_lift(seq![sign], seq![lp] + fin.stack, fin.out);
    assert(pre + fin.stack =~= seq![sign] + (seq![lp] + fin.stack));
    assert(seq![sign] + Seq::<OperandView>::empty() =~= seq![sign]);
    let closed = ConvState { stack: seq![sign], out: flushed, unary: false };
    assert(step(lift(fin, pre), paren_lexeme(')')) == Ok::<ConvState, crate::operand::ExprError>(
        closed,
    ));
    assert(seq![paren_lexeme(')')][0] == paren_lexeme(')'));
    assert(seq![paren_lexeme(')')].drop_first() =~= Seq::<Lexeme>::empty());
    assert(run(closed, Seq::<Lexeme>::empty()) == Ok::<ConvState, crate::operand::ExprError>(closed));
    // the sign leaves the stack last
    assert(seq![sign].drop_last() =~= Seq::<OperandView>::empty());
    assert(flush(Seq::<OperandView>::empty(), flushed.push(sign)) == Ok::<
        Seq<OperandView>,
        crate::operand::ExprError,
    >(flushed.push(sign)));
}

/// For every line that yields a tree, a sign before the parenthesized line
/// yields a unary node for the sign whose only child is that tree: the sign is
/// applied after the group evaluates.
pub proof fn sign_applies_after_group(u: char, line: Seq<char>)
    requires
        is_sign_char(u),
        tree_of(line) is Ok,
    ensures
        tree_of(seq![u, '('] + line + seq![')']) == Ok::<NodeView, crate::operand::ExprError>(
            NodeView {
                operand: Some(OperandView { text: seq![u], priority: Priority::Unary }),
                left: Some(Box::new(tree_of(line)->Ok_0)),
                right: None,
            },
        ),
{
    lemma_tokens_signed_group(u, line);
    lemma_postfix_signed_group(u, tokens_of(line));
    let ops = postfix(tokens_of(line))->Ok_0;
    let sign = OperandView { text: seq![u], priority: Priority::Unary };
    assert(ops.push(sign).drop_last() =~= ops);
    assert(ops.push(sign).last() == sign);
}

/// A lexeme that the converter has a rule for: a number, or a symbol of a binary
/// class or a parenthesis.
pub open spec fn plain_lexeme(t: Lexeme) -> bool {
    match t {
        Lexeme::Num(_) => true,
        Lexeme::Sym(_, p) => p.is_binary() || p == Priority::LeftParens || p
            == Priority::RightParens,
    }
}

pub open spec fn all_plain(toks: Seq<Lexeme>) -> bool
    decreases toks.len(),
{
    toks.len() == 0 || (plain_lexeme(toks[0]) && all_plain(toks.drop_first()))
}

proof fn lemma_plain_append(a: Seq<Lexeme>, b: Seq<Lexeme>)
    ensures
        all_plain(a + b) == (all_plain(a) && all_plain(b)),
    decreases a.len(),
{
    if a.len() == 0 {
        assert(a + b =~= b);
    } else {
        assert((a + b)[0] == a[0]);
        assert((a + b).drop_first() =~= a.drop_first() + b);
        lemma_plain_append(a.drop_first(), b);
    }
}

proof fn lemma_lex_plain(s: Seq<char>, run: Seq<char>)
    ensures
        all_plain(lex(s, run)),
    decreases s.len(),
{
    let pending = crate::text::number_run(run);
    assert(all_plain(Seq::<Lexeme>::empty()));
    if run.len() > 0 {
        assert(pending.drop_first() =~= Seq::<Lexeme>::empty());
    }
    assert(all_plain(pending));
    if s.len() > 0 {
        let c = s[0];
        if crate::text::is_symbol_char(c) {
            let sym = seq![Lexeme::Sym(seq![c], symbol_priority(c))];
            assert(sym.drop_first() =~= Seq::<Lexeme>::empty());
            assert(all_plain(sym));
            lemma_lex_plain(s.drop_first(), seq![]);
            lemma_plain_append(pending, sym);
            lemma_plain_append(pending + sym, lex(s.drop_first(), seq![]));
        } else {
            lemma_lex_plain(s.drop_first(), run.push(c));
        }
    }
}

pub open spec fn is_paren_error(r: Result<Seq<OperandView>, crate::operand::ExprError>) -> bool {
    r == Err::<Seq<OperandView>, crate::operand::ExprError>(
        crate::operand::ExprError::MismatchedParenthesis,
    ) || r == Err::<Seq<OperandView>, crate::operand::ExprError>(
        crate::operand::ExprError::InvalidUnaryOperator,
    )
}

proof fn lemma_flush_error(s: Seq<OperandView>, o: Seq<OperandView>)
    ensures
        flush(s, o) is Err ==> flush(s, o) == Err::<Seq<OperandView>, crate::operand::ExprError>(
            crate::operand::ExprError::MismatchedParenthesis,
        ),
    decreases s.len(),
{
    if s.len() > 0 {
        lemma_flush_error(s.drop_last(), o.push(s.last()));
    }
}

proof fn lemma_run_error(st: ConvState, toks: Seq<Lexeme>)
    requires
        all_plain(toks),
    ensures
        run(st, toks) is Err ==> run(st, toks) == Err::<ConvState, crate::operand::ExprError>(
            crate::operand::ExprError::MismatchedParenthesis,
        ) || run(st, toks) == Err::<ConvState, crate::operand::ExprError>(
            crate::operand::ExprError::InvalidUnaryOperator,
        ),
    decreases toks.len(),
{
    if toks.len() > 0 {
        if step(st, toks[0]) is Ok {
            lemma_run_error(step(st, toks[0])->Ok_0, toks.drop_first());
        }
    }
}

/// The lexemes of a line convert, or fail on a parenthesis or a misplaced unary
/// operator; nothing else stops them.
proof fn lemma_line_errors(line: Seq<char>)
    ensures
        postfix(tokens_of(line)) is Err ==> is_paren_error(postfix(tokens_of(line))),
{
    lemma_lex_plain(strip_spaces(line), seq![]);
    lemma_run_error(start_state(), tokens_of(line));
    if run(start_state(), tokens_of(line)) is Ok {
        let fin = run(start_state(), tokens_of(line))->Ok_0;
        lemma_flush_error(fin.stack, fin.out);
    }
}

/// The lexemes that reading `a` emits, after the pending number text `run`,
/// before whatever follows `a`.
pub open spec fn lex_emitted(a: Seq<char>, run: Seq<char>) -> Seq<Lexeme>
    decreases a.len(),
{
    if a.len() == 0 {
        seq![]
    } else if crate::text::is_symbol_char(a[0]) {
        crate::text::number_run(run) + seq![Lexeme::Sym(seq![a[0]], symbol_priority(a[0]))]
            + lex_emitted(a.drop_first(), seq![])
    } else {
        lex_emitted(a.drop_first(), run.push(a[0]))
    }
}

/// The number text still pending after reading `a`.
pub open spec fn lex_pending(a: Seq<char>, run: Seq<char>) -> Seq<char>
    decreases a.len(),
{
    if a.len() == 0 {
        run
    } else if crate::text::is_symbol_char(a[0]) {
        lex_pending(a.drop_first(), seq![])
    } else {
        lex_pending(a.drop_first(), run.push(a[0]))
    }
}

proof fn lemma_lex_split(a: Seq<char>, b: Seq<char>, run: Seq<char>)
    ensures
        lex(a + b, run) == lex_emitted(a, run) + lex(b, lex_pending(a, run)),
        paren_balance(lex_emitted(a, run)) == char_balance(a),
    decreases a.len(),
{
    if a.len() == 0 {
        assert(a + b =~= b);
        assert(Seq::<Lexeme>::empty() + lex(b, run) =~= lex(b, run));
    } else {
        let c = a[0];
        assert((a + b)[0] == c);
        assert((a + b).drop_first() =~= a.drop_first() + b);
        if crate::text::is_symbol_char(c) {
            lemma_lex_split(a.drop_first(), b, seq![]);
            let pending = crate::text::number_run(run);
            let sym = seq![Lexeme::Sym(seq![c], symbol_priority(c))];
            let e = lex_emitted(a.drop_first(), seq![]);
            assert(pending + sym + (e + lex(b, lex_pending(a.drop_first(), seq![]))) =~= (pending
                + sym + e) + lex(b, lex_pending(a.drop_first(), seq![])));
            assert(paren_balance(Seq::<Lexeme>::empty()) == 0);
            if run.len() > 0 {
                assert(pending.drop_first() =~= Seq::<Lexeme>::empty());
                assert(paren_weight(pending[0]) == 0);
            }
            assert(sym.drop_first() =~= Seq::<Lexeme>::empty());
            assert(paren_balance(sym) == char_weight(c));
            lemma_balance_append(pending, sym);
            lemma_balance_append(pending + sym, e);
        } else {
            lemma_lex_split(a.drop_first(), b, run.push(c));
        }
    }
}

proof fn lemma_strip_append(a: Seq<char>, b: Seq<char>)
    ensures
        strip_spaces(a + b) == strip_spaces(a) + strip_spaces(b),
    decreases b.len(),
{
    if b.len() == 0 {
        assert(a + b =~= a);
        assert(strip_spaces(a) + strip_spaces(b) =~= strip_spaces(a));
    } else {
        assert((a + b).drop_last() =~= a + b.drop_last());
        assert((a + b).last() == b.last());
        lemma_strip_append(a, b.drop_last());
        if !is_white_space(b.last()) {
            assert((strip_spaces(a) + strip_spaces(b.drop_last())).push(b.last()) =~= strip_spaces(
                a,
            ) + strip_spaces(b.drop_last()).push(b.last()));
        }
    }
}

proof fn lemma_opens_nonneg(s: Seq<OperandView>)
    ensures
        opens_in(s) >= 0,
    decreases s.len(),
{
    if s.len() > 0 {
        lemma_opens_nonneg(s.drop_last());
    }
}

/// A line some prefix of which holds more `)` than `(` never yields an
/// expression tree: it fails on a parenthesis, or on a misplaced unary operator
/// met first.
pub proof fn early_close_fails(line: Seq<char>, k: int)
    requires
        0 <= k <= line.len(),
        char_balance(line.take(k)) < 0,
    ensures
        is_paren_error(postfix(tokens_of(line))),
        tree_of(line) == Err::<NodeView, crate::operand::ExprError>(
            crate::operand::ExprError::MismatchedParenthesis,
        ) || tree_of(line) == Err::<NodeView, crate::operand::ExprError>(
            crate::operand::ExprError::InvalidUnaryOperator,
        ),
{
    let a = line.take(k);
    let b = line.skip(k);
    assert(line =~= a + b);
    lemma_strip_append(a, b);
    lemma_strip_balance(a);
    lemma_lex_split(strip_spaces(a), strip_spaces(b), seq![]);
    let e = lex_emitted(strip_spaces(a), seq![]);
    let rest = lex(strip_spaces(b), lex_pending(strip_spaces(a), seq![]));
    assert(tokens_of(line) == e + rest);
    lemma_run_append(start_state(), e, rest);
    if run(start_state(), e) is Ok {
        lemma_run_opens(start_state(), e);
        lemma_opens_nonneg((run(start_state(), e)->Ok_0).stack);
        assert(opens_in(Seq::<OperandView>::empty()) == 0);
    }
    lemma_line_errors(line);
}

} // verus!
