use vstd::prelude::*;

use crate::operand::{Lexeme, Priority, Type};

verus! {

/// Unicode's White_Space property.
pub open spec fn is_white_space(c: char) -> bool {
    let u = c as u32;
    (0x9 <= u <= 0xd) || u == 0x20 || u == 0x85 || u == 0xa0 || u == 0x1680 || (0x2000 <= u
        <= 0x200a) || u == 0x2028 || u == 0x2029 || u == 0x202f || u == 0x205f || u == 0x3000
}

/// Whether the char has Unicode's White_Space property, as `char::is_whitespace`.
fn char_is_whitespace(c: char) -> (r: bool)
    ensures
        r == is_white_space(c),
{
    let u: u32 = c as u32;
    (0x9 <= u && u <= 0xd) || u == 0x20 || u == 0x85 || u == 0xa0 || u == 0x1680 || (0x2000 <= u
        && u <= 0x200a) || u == 0x2028 || u == 0x2029 || u == 0x202f || u == 0x205f || u == 0x3000
}

/// The chars of the text, in order.
pub(crate) fn chars_of(s: &str) -> (r: Vec<char>)
    ensures
        r@ == s@,
{
    let mut out: Vec<char> = Vec::new();
    for c in it: s.chars()
        invariant
            out@ == it.seq().take(it.index() as int),
            it.seq() == s@,
    {
        out.push(c);
    }
    out
}

/// Relies on `String`'s `FromIterator<&char>`: the string holds the chars in order.
#[verifier::external_body]
fn text_of(cs: &[char]) -> (r: String)
    ensures
        r@ == cs@,
{
    cs.iter().collect()
}

/// The text with every whitespace char taken out.
pub open spec fn strip_spaces(s: Seq<char>) -> Seq<char>
    decreases s.len(),
{
    if s.len() == 0 {
        s
    } else if is_white_space(s.last()) {
        strip_spaces(s.drop_last())
    } else {
        strip_spaces(s.drop_last()).push(s.last())
    }
}

pub open spec fn is_symbol_char(c: char) -> bool {
    c == '+' || c == '-' || c == '*' || c == '/' || c == '%' || c == '^' || c == '|' || c == '&'
        || c == '(' || c == ')' || c == '~'
}

/// The class that the fixed symbol table gives a symbol char.
pub open spec fn symbol_priority(c: char) -> Priority {
    if c == '+' || c == '-' {
        Priority::High
    } else if c == '*' || c == '/' || c == '%' {
        Priority::Higher
    } else if c == '^' {
        Priority::Max
    } else if c == '(' {
        Priority::LeftParens
    } else if c == ')' {
        Priority::RightParens
    } else {
        Priority::Low
    }
}

/// A number lexeme for a pending run of text, if the run is not empty.
pub open spec fn number_run(run: Seq<char>) -> Seq<Lexeme> {
    if run.len() == 0 {
        seq![]
    } else {
        seq![Lexeme::Num(run)]
    }
}

/// The lexemes of `s`, where `run` is the number text read just before it.
pub open spec fn lex(s: Seq<char>, run: Seq<char>) -> Seq<Lexeme>
    decreases s.len(),
{
    if s.len() == 0 {
        number_run(run)
    } else if is_symbol_char(s[0]) {
        number_run(run) + seq![Lexeme::Sym(seq![s[0]], symbol_priority(s[0]))] + lex(
            s.drop_first(),
            seq![],
        )
    } else {
        lex(s.drop_first(), run.push(s[0]))
    }
}

/// The lexemes of a line: its whitespace is taken out, each symbol char stands
/// alone, and each maximal run of other chars becomes one number.
pub open spec fn tokens_of(line: Seq<char>) -> Seq<Lexeme> {
    lex(strip_spaces(line), seq![])
}

fn symbol_class(c: char) -> (r: Priority)
    ensures
        r == symbol_priority(c),
{
    if c == '+' || c == '-' {
        Priority::High
    } else if c == '*' || c == '/' || c == '%' {
        Priority::Higher
    } else if c == '^' {
        Priority::Max
    } else if c == '(' {
        Priority::LeftParens
    } else if c == ')' {
        Priority::RightParens
    } else {
        Priority::Low
    }
}

fn remove_spaces(s: &Vec<char>) -> (r: Vec<char>)
    ensures
        r@ == strip_spaces(s@),
{
    let mut out: Vec<char> = Vec::new();
    let mut i: usize = 0;
    while i < s.len()
        invariant
            i <= s.len(),
            out@ == strip_spaces(s@.take(i as int)),
        decreases s.len() - i,
    {
        assert(s@.take(i as int + 1).drop_last() =~= s@.take(i as int));
        let c = s[i];
        if !char_is_whitespace(c) {
            out.push(c);
        }
        i += 1;
    }
    assert(s@.take(i as int) =~= s@);
    out
}

/// Splits a line into number and symbol lexemes.
pub fn split_line(buf: &String) -> (r: Vec<Type>)
    ensures
        r@.map_values(|t: Type| t@) == tokens_of(buf@),
{
    let s = remove_spaces(&chars_of(buf.as_str()));
    let ghost all = s@;
    let mut separated: Vec<Type> = Vec::new();
    let mut run: Vec<char> = Vec::new();
    let mut i: usize = 0;
    assert(all.skip(0) =~= all);
    assert(separated@.map_values(|t: Type| t@) =~= seq![]);
    assert(run@ =~= seq![]);
    while i < s.len()
        invariant
            i <= s.len(),
            all == s@,
            all == strip_spaces(buf@),
            lex(all, seq![]) == separated@.map_values(|t: Type| t@) + lex(
                all.skip(i as int),
                run@,
            ),
        decreases s.len() - i,
    {
        let ghost before = separated@.map_values(|t: Type| t@);
        assert(all.skip(i as int).drop_first() =~= all.skip(i as int + 1));
        assert(all.skip(i as int)[0] == s[i as int]);
        let c = s[i];
        if c == '+' || c == '-' || c == '*' || c == '/' || c == '%' || c == '^' || c == '|' || c
            == '&' || c == '(' || c == ')' || c == '~' {
            if run.len() > 0 {
                separated.push(Type::Number(text_of(run.as_slice())));
            }
            let ghost mid = separated@.map_values(|t: Type| t@);
            assert(mid =~= before + number_run(run@));
            let sym = vec![c];
            separated.push(Type::Symbol(text_of(sym.as_slice()), symbol_class(c)));
            assert(sym@ =~= seq![c]);
            assert(separated@.map_values(|t: Type| t@) =~= before + number_run(run@) + seq![
                Lexeme::Sym(seq![c], symbol_priority(c)),
            ]);
            run = Vec::new();
            assert(run@ =~= seq![]);
        } else {
            run.push(c);
        }
        i += 1;
    }
    assert(all.skip(i as int) =~= seq![]);
    let ghost before = separated@.map_values(|t: Type| t@);
    if run.len() > 0 {
        separated.push(Type::Number(text_of(run.as_slice())));
    }
    assert(separated@.map_values(|t: Type| t@) =~= before + number_run(run@));
    separated
}

} // verus!
