use vstd::prelude::*;

verus! {

/// Binding strength of a token, from weakest to strongest.
#[derive(Debug, Clone, Copy, PartialEq, Eq, Structural, Hash)]
pub enum Priority {
    Number,
    Low,
    Medium,
    High,
    Higher,
    Max,
    Unary,
    LeftParens,
    RightParens,
}

impl Priority {
    /// Position of the class in the order `Number < Low < ... < RightParens`.
    pub open spec fn rank(self) -> int {
        match self {
            Priority::Number => 0,
            Priority::Low => 1,
            Priority::Medium => 2,
            Priority::High => 3,
            Priority::Higher => 4,
            Priority::Max => 5,
            Priority::Unary => 6,
            Priority::LeftParens => 7,
            Priority::RightParens => 8,
        }
    }

    /// Classes of operators that may stand between two operands.
    pub open spec fn is_binary(self) -> bool {
        match self {
            Priority::Low | Priority::Medium | Priority::High | Priority::Higher
            | Priority::Max => true,
            _ => false,
        }
    }

    pub fn level(&self) -> (r: u8)
        ensures
            r as int == self.rank(),
    {
        match self {
            Priority::Number => 0,
            Priority::Low => 1,
            Priority::Medium => 2,
            Priority::High => 3,
            Priority::Higher => 4,
            Priority::Max => 5,
            Priority::Unary => 6,
            Priority::LeftParens => 7,
            Priority::RightParens => 8,
        }
    }

    pub fn binary(&self) -> (r: bool)
        ensures
            r == self.is_binary(),
    {
        match self {
            Priority::Low | Priority::Medium | Priority::High | Priority::Higher
            | Priority::Max => true,
            _ => false,
        }
    }
}

/// A lexeme of the input: a run of number text, or one operator symbol with its class.
#[derive(Debug, Clone)]
pub enum Type {
    Symbol(String, Priority),
    Number(String),
}

/// What a `Type` holds, as mathematical text.
pub enum Lexeme {
    Num(Seq<char>),
    Sym(Seq<char>, Priority),
}

impl View for Type {
    type V = Lexeme;

    open spec fn view(&self) -> Lexeme {
        match self {
            Type::Symbol(s, p) => Lexeme::Sym(s@, *p),
            Type::Number(s) => Lexeme::Num(s@),
        }
    }
}

/// An entry of the postfix sequence: a number or an operator with its class.
#[derive(Debug, Clone)]
pub struct Operand {
    pub symbol: String,
    pub priority: Priority,
}

pub struct OperandView {
    pub text: Seq<char>,
    pub priority: Priority,
}

impl View for Operand {
    type V = OperandView;

    open spec fn view(&self) -> OperandView {
        OperandView { text: self.symbol@, priority: self.priority }
    }
}

impl Operand {
    pub fn new(symbol: String, priority: Priority) -> (r: Operand)
        ensures
            r.symbol == symbol,
            r.priority == priority,
    {
        Operand { symbol, priority }
    }
}

impl PartialEq for Operand {
    /// Two operands compare equal when they share a class, whatever their text.
    fn eq(&self, other: &Operand) -> (r: bool) {
        self.priority == other.priority
    }
}

impl vstd::std_specs::cmp::PartialEqSpecImpl for Operand {
    open spec fn obeys_eq_spec() -> bool {
        true
    }

    open spec fn eq_spec(&self, other: &Operand) -> bool {
        self.priority == other.priority
    }
}

impl Eq for Operand {

}

pub open spec fn order_of(a: int, b: int) -> core::cmp::Ordering {
    if a < b {
        core::cmp::Ordering::Less
    } else if a == b {
        core::cmp::Ordering::Equal
    } else {
        core::cmp::Ordering::Greater
    }
}

impl PartialOrd for Operand {
    /// Operands are ordered by the strength of their class.
    fn partial_cmp(&self, other: &Operand) -> (r: Option<core::cmp::Ordering>) {
        let a: u8 = self.priority.level();
        let b: u8 = other.priority.level();
        if a < b {
            Some(core::cmp::Ordering::Less)
        } else if a == b {
            Some(core::cmp::Ordering::Equal)
        } else {
            Some(core::cmp::Ordering::Greater)
        }
    }
}

impl vstd::std_specs::cmp::PartialOrdSpecImpl for Operand {
    open spec fn obeys_partial_cmp_spec() -> bool {
        true
    }

    open spec fn partial_cmp_spec(&self, other: &Operand) -> Option<core::cmp::Ordering> {
        Some(order_of(self.priority.rank(), other.priority.rank()))
    }
}

/// The views of a sequence of operands, in order.
pub open spec fn operands_view(s: Seq<Operand>) -> Seq<OperandView> {
    s.map_values(|o: Operand| o@)
}

/// A vertex of the expression tree. A binary operator has two children, a unary
/// operator a left child only, and a number none.
#[derive(Debug)]
pub struct Node {
    pub operand: Option<Operand>,
    pub left: Option<Box<Node>>,
    pub right: Option<Box<Node>>,
}

pub struct NodeView {
    pub operand: Option<OperandView>,
    pub left: Option<Box<NodeView>>,
    pub right: Option<Box<NodeView>>,
}

pub open spec fn empty_node() -> NodeView {
    NodeView { operand: None, left: None, right: None }
}

pub open spec fn lone_node(op: OperandView) -> NodeView {
    NodeView { operand: Some(op), left: None, right: None }
}

/// The tree that the tail of `ops` encodes, read from its last entry towards its
/// first, together with whether it was well formed and the entries left unread.
/// Where a child could not be built, the node keeps its operand and no children.
pub open spec fn build(ops: Seq<OperandView>) -> (NodeView, Result<(), ExprError>, Seq<
    OperandView,
>)
    decreases ops.len(),
{
    if ops.len() == 0 {
        (empty_node(), Ok(()), ops)
    } else {
        let op = ops.last();
        let rest = ops.drop_last();
        if op.priority != Priority::Number && op.priority != Priority::Unary && rest.len() > 1 {
            let (r, r_ok, rest1) = build(rest);
            if r_ok is Err {
                (lone_node(op), r_ok, rest1)
            } else if rest1.len() < ops.len() {
                let (l, l_ok, rest2) = build(rest1);
                if l_ok is Err {
                    (lone_node(op), l_ok, rest2)
                } else {
                    (
                        NodeView { operand: Some(op), left: Some(Box::new(l)), right: Some(Box::new(r)) },
                        Ok(()),
                        rest2,
                    )
                }
            } else {
                (lone_node(op), Err(ExprError::MalformedExpression), rest1)
            }
        } else if op.priority == Priority::Unary {
            let (l, l_ok, rest1) = build(rest);
            if l_ok is Err {
                (lone_node(op), l_ok, rest1)
            } else {
                (NodeView { operand: Some(op), left: Some(Box::new(l)), right: None }, Ok(()), rest1)
            }
        } else if op.priority == Priority::Number {
            (lone_node(op), Ok(()), rest)
        } else {
            (lone_node(op), Err(ExprError::MalformedExpression), rest)
        }
    }
}

/// Why a line could not be turned into an expression tree.
#[derive(Debug, Clone, Copy, PartialEq, Eq, Structural)]
pub enum ExprError {
    /// A symbol other than `+`, `-` or `~` where an operand was expected.
    InvalidUnaryOperator,
    /// A `(` without its `)`, or a `)` without its `(`.
    MismatchedParenthesis,
    /// An operator with fewer operands than it takes.
    MalformedExpression,
    /// A symbol token tagged as a number or as a unary operator.
    UnexpectedSymbol,
}

impl Node {
    pub open spec fn model(&self) -> NodeView
        decreases self,
    {
        NodeView {
            operand: match &self.operand {
                Some(o) => Some(o@),
                None => None,
            },
            left: match &self.left {
                Some(l) => Some(Box::new((**l).model())),
                None => None,
            },
            right: match &self.right {
                Some(r) => Some(Box::new((**r).model())),
                None => None,
            },
        }
    }

    pub fn new_empty() -> (r: Node)
        ensures
            r.model() == empty_node(),
    {
        Node { operand: None, left: None, right: None }
    }

    /// Replaces this node by the tree that the tail of `operands` encodes, taking
    /// the entries it uses off the end of `operands`. With no operands the node
    /// stays as it was.
    pub fn populate(&mut self, operands: &mut Vec<Operand>) -> (r: Result<(), ExprError>)
        ensures
            old(operands)@.len() == 0 ==> r == Ok::<(), ExprError>(()) && final(self).model() == old(self).model()
                && final(operands)@ == old(operands)@,
            old(operands)@.len() > 0 ==> (final(self).model(), r, operands_view(final(operands)@))
                == build(operands_view(old(operands)@)),
            final(operands)@.len() <= old(operands)@.len(),
        decreases old(operands)@.len(),
    {
        proof {
            reveal_with_fuel(build, 1);
        }
        let ghost ops0 = operands_view(operands@);
        match operands.pop() {
            None => {
                Ok(())
            },
            Some(op) => {
                assert(operands_view(operands@) =~= ops0.drop_last());
                let prio = op.priority;
                if prio != Priority::Number && prio != Priority::Unary && operands.len() > 1 {
                    let mut right = Node::new_empty();
                    let rr = right.populate(operands);
                    if let Err(e) = rr {
                        *self = Node { operand: Some(op), left: None, right: None };
                        return Err(e);
                    }
                    let mut left = Node::new_empty();
                    let ghost before = operands_view(operands@);
                    let ghost fresh = left.model();
                    let ghost n0 = before.len();
                    let lr = left.populate(operands);
                    proof {
                        if n0 == 0 {
                            assert(build(before) == (empty_node(), Ok::<(), ExprError>(()), before));
                            assert(fresh == empty_node());
                            assert(left.model() == fresh);
                        }
                    }
                    assert((left.model(), lr, operands_view(operands@)) == build(before));
                    if let Err(e) = lr {
                        *self = Node { operand: Some(op), left: None, right: None };
                        return Err(e);
                    }
                    *self = Node {
                        operand: Some(op),
                        left: Some(Box::new(left)),
                        right: Some(Box::new(right)),
                    };
                    Ok(())
                } else if prio == Priority::Unary {
                    let mut left = Node::new_empty();
                    let ghost before = operands_view(operands@);
                    let ghost fresh = left.model();
                    let ghost n0 = before.len();
                    let lr = left.populate(operands);
                    proof {
                        if n0 == 0 {
                            assert(build(before) == (empty_node(), Ok::<(), ExprError>(()), before));
                            assert(fresh == empty_node());
                            assert(left.model() == fresh);
                        }
                    }
                    assert((left.model(), lr, operands_view(operands@)) == build(before));
                    if let Err(e) = lr {
                        *self = Node { operand: Some(op), left: None, right: None };
                        return Err(e);
                    }
                    *self = Node { operand: Some(op), left: Some(Box::new(left)), right: None };
                    Ok(())
                } else if prio == Priority::Number {
                    *self = Node { operand: Some(op), left: None, right: None };
                    Ok(())
                } else {
                    *self = Node { operand: Some(op), left: None, right: None };
                    Err(ExprError::MalformedExpression)
                }
            },
        }
    }
}

/// An expression tree, owned through its root.
#[derive(Debug)]
pub struct Tree {
    pub head: Node,
}

impl Tree {
    pub fn new() -> (r: Tree)
        ensures
            r.head.model() == empty_node(),
    {
        Tree { head: Node::new_empty() }
    }

    /// Replaces the tree by the one that the tail of `operands` encodes; with no
    /// operands the tree stays as it was.
    pub fn populate(&mut self, operands: &mut Vec<Operand>) -> (r: Result<(), ExprError>)
        ensures
            old(operands)@.len() == 0 ==> r == Ok::<(), ExprError>(()) && final(self).head.model() == old(self).head.model()
                && final(operands)@ == old(operands)@,
            old(operands)@.len() > 0 ==> (final(self).head.model(), r, operands_view(final(operands)@))
                == build(operands_view(old(operands)@)),
            final(operands)@.len() <= old(operands)@.len(),
    {
        self.head.populate(operands)
    }
}

} // verus!
