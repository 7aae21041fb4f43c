//! The abstract syntax tree: expressions, conditions, statements, and source
//! lines. Pure data; the parser builds these and the interpreter walks them.
//!
//! Each node type has a mathematical view (`ExprV`, `StmtV`, `LineV`) in
//! which text is a `Seq<char>` and lists are `Seq`; all contracts about
//! parsing and evaluation are stated over these views.

use vstd::prelude::*;

verus! {

/// A relational operator, used only inside an IF condition.
#[derive(Debug, Clone, Copy, PartialEq, Eq, Structural)]
pub enum RelationOperator {
    Equal,
    NotEqual,
    LessThan,
    LessThanOrEqual,
    GreaterThan,
    GreaterThanOrEqual,
}

/// An optional sign in front of a unary term.
#[derive(Debug, Clone, Copy, PartialEq, Eq, Structural)]
pub enum UnaryOperator {
    Plus,
    Minus,
}

/// One of the four arithmetic operators.
#[derive(Debug, Clone, Copy, PartialEq, Eq, Structural)]
pub enum ArithmeticOperator {
    Add,
    Subtract,
    Multiply,
    Divide,
}

/// An optional sign applied to one operand.
#[derive(Debug, PartialEq)]
pub struct UnaryExpression {
    pub operator: Option<UnaryOperator>,
    pub argument: Box<Expression>,
}

/// An arithmetic operator applied to two operands. The parser keeps
/// multiplication and division below addition and subtraction in the tree,
/// so a tree-walking evaluation respects precedence.
#[derive(Debug, PartialEq)]
pub struct BinaryExpression {
    pub operator: ArithmeticOperator,
    pub left: Box<Expression>,
    pub right: Box<Expression>,
}

/// A variable assignment: a name bound to the value of an expression.
#[derive(Debug, PartialEq)]
pub struct VarDeclaration {
    pub name: String,
    pub value: Expression,
}

/// A reference to a variable by name.
#[derive(Debug, PartialEq)]
pub struct Identifier {
    pub name: String,
}

/// A literal constant: an unsigned number or a piece of text.
#[derive(Debug, PartialEq)]
#[allow(inconsistent_fields)]
pub enum Literal {
    Number { value: usize },
    Text { value: String },
}

/// An expression: a literal, a variable reference, a signed term, or an
/// arithmetic combination of two sub-expressions.
#[derive(Debug, PartialEq)]
pub enum Expression {
    UnaryExpression(UnaryExpression),
    BinaryExpression(BinaryExpression),
    Identifier(Identifier),
    Literal(Literal),
}

/// The condition of an IF statement: a relational operator between two
/// expressions.
#[derive(Debug, PartialEq)]
pub struct IfCondition {
    pub operator: RelationOperator,
    pub left: Expression,
    pub right: Expression,
}

/// A statement. THEN accepts exactly one nested statement, not a block.
#[derive(Debug, PartialEq)]
pub enum Statement {
    IfStatement { condition: IfCondition, then_branch: Box<Statement> },
    PrintStatement { expressions: Vec<Expression> },
    InputStatement { variables: Vec<Identifier> },
    VarStatement { declaration: VarDeclaration },
    GoToStatement { location: Expression },
    GoSubStatement { location: Expression },
    NewStatement,
    RunStatement,
    ReturnStatement,
    EndStatement,
    HelpStatement,
    ClsStatement,
    ListStatement,
    RemStatement,
    LoadStatement,
    SaveStatement,
    Empty,
}

/// A source line. A line with a number is stored in the program; one without
/// a number is a direct command, executed immediately and never stored.
/// `source` keeps the verbatim text of the line as it was entered, which is
/// what LIST and SAVE reproduce.
#[derive(Debug, PartialEq)]
pub struct Line {
    pub number: Option<usize>,
    pub statement: Statement,
    pub source: String,
}

/// The mathematical view of a literal.
pub enum LitV {
    Num(nat),
    Text(Seq<char>),
}

/// The mathematical view of an expression.
pub enum ExprV {
    Unary(Option<UnaryOperator>, Box<ExprV>),
    Binary(ArithmeticOperator, Box<ExprV>, Box<ExprV>),
    Ident(Seq<char>),
    Lit(LitV),
}

/// The mathematical view of a statement.
pub enum StmtV {
    If(RelationOperator, ExprV, ExprV, Box<StmtV>),
    Print(Seq<ExprV>),
    Input(Seq<Seq<char>>),
    Assign(Seq<char>, ExprV),
    Goto(ExprV),
    Gosub(ExprV),
    New,
    Run,
    Return,
    End,
    Help,
    Cls,
    List,
    Rem,
    Load,
    Save,
    Empty,
}

/// The mathematical view of a source line.
pub struct LineV {
    pub number: Option<nat>,
    pub statement: StmtV,
    pub source: Seq<char>,
}

/// The view of a literal.
pub open spec fn lit_view(l: Literal) -> LitV {
    match l {
        Literal::Number { value } => LitV::Num(value as nat),
        Literal::Text { value } => LitV::Text(value@),
    }
}

/// The view of an expression.
pub open spec fn expr_view(e: Expression) -> ExprV
    decreases e,
{
    match e {
        Expression::UnaryExpression(u) => ExprV::Unary(u.operator, Box::new(expr_view(*u.argument))),
        Expression::BinaryExpression(b) => ExprV::Binary(
            b.operator,
            Box::new(expr_view(*b.left)),
            Box::new(expr_view(*b.right)),
        ),
        Expression::Identifier(id) => ExprV::Ident(id.name@),
        Expression::Literal(l) => ExprV::Lit(lit_view(l)),
    }
}

/// The view of a statement.
pub open spec fn stmt_view(s: Statement) -> StmtV
    decreases s,
{
    match s {
        Statement::IfStatement { condition, then_branch } => StmtV::If(
            condition.operator,
            expr_view(condition.left),
            expr_view(condition.right),
            Box::new(stmt_view(*then_branch)),
        ),
        Statement::PrintStatement { expressions } => StmtV::Print(
            expressions@.map_values(|e: Expression| expr_view(e)),
        ),
        Statement::InputStatement { variables } => StmtV::Input(
            variables@.map_values(|v: Identifier| v.name@),
        ),
        Statement::VarStatement { declaration } => StmtV::Assign(
            declaration.name@,
            expr_view(declaration.value),
        ),
        Statement::GoToStatement { location } => StmtV::Goto(expr_view(location)),
        Statement::GoSubStatement { location } => StmtV::Gosub(expr_view(location)),
        Statement::NewStatement => StmtV::New,
        Statement::RunStatement => StmtV::Run,
        Statement::ReturnStatement => StmtV::Return,
        Statement::EndStatement => StmtV::End,
        Statement::HelpStatement => StmtV::Help,
        Statement::ClsStatement => StmtV::Cls,
        Statement::ListStatement => StmtV::List,
        Statement::RemStatement => StmtV::Rem,
        Statement::LoadStatement => StmtV::Load,
        Statement::SaveStatement => StmtV::Save,
        Statement::Empty => StmtV::Empty,
    }
}

/// The view of a source line.
pub open spec fn line_view(l: Line) -> LineV {
    LineV {
        number: match l.number {
            Option::Some(n) => Option::Some(n as nat),
            Option::None => Option::None,
        },
        statement: stmt_view(l.statement),
        source: l.source@,
    }
}

impl View for Literal {
    type V = LitV;

    open spec fn view(&self) -> LitV {
        lit_view(*self)
    }
}

impl View for Expression {
    type V = ExprV;

    open spec fn view(&self) -> ExprV {
        expr_view(*self)
    }
}

impl View for Statement {
    type V = StmtV;

    open spec fn view(&self) -> StmtV {
        stmt_view(*self)
    }
}

impl View for Line {
    type V = LineV;

    open spec fn view(&self) -> LineV {
        line_view(*self)
    }
}

impl Expression {
    /// A structural copy; the result has the same view as the original.
    pub fn duplicate(&self) -> (r: Expression)
        ensures
            r@ == self@,
        decreases self,
    {
        match self {
            Expression::UnaryExpression(u) => Expression::UnaryExpression(UnaryExpression {
                operator: u.operator,
                argument: Box::new(u.argument.duplicate()),
            }),
            Expression::BinaryExpression(b) => Expression::BinaryExpression(BinaryExpression {
                operator: b.operator,
                left: Box::new(b.left.duplicate()),
                right: Box::new(b.right.duplicate()),
            }),
            Expression::Identifier(id) => Expression::Identifier(Identifier {
                name: id.name.clone(),
            }),
            Expression::Literal(l) => Expression::Literal(
                match l {
                    Literal::Number { value } => Literal::Number { value: *value },
                    Literal::Text { value } => Literal::Text { value: value.clone() },
                },
            ),
        }
    }
}

impl Statement {
    /// A structural copy; the result has the same view as the original.
    pub fn duplicate(&self) -> (r: Statement)
        ensures
            r@ == self@,
        decreases self,
    {
        match self {
            Statement::IfStatement { condition, then_branch } => {
                let r = Statement::IfStatement {
                    condition: IfCondition {
                        operator: condition.operator,
                        left: condition.left.duplicate(),
                        right: condition.right.duplicate(),
                    },
                    then_branch: Box::new(then_branch.duplicate()),
                };
                proof {
                    assert(stmt_view(r) == stmt_view(*self));
                }
                r
            },
            Statement::PrintStatement { expressions } => {
                let mut copies: Vec<Expression> = Vec::new();
                let mut i: usize = 0;
                while i < expressions.len()
                    invariant
                        i <= expressions.len(),
                        copies@.len() == i,
                        forall|j: int| 0 <= j < i ==> #[trigger] expr_view(copies@[j])
                            == expr_view(expressions@[j]),
                    decreases expressions.len() - i,
                {
                    copies.push(expressions[i].duplicate());
                    i = i + 1;
                }
                let r = Statement::PrintStatement { expressions: copies };
                proof {
                    assert(copies@.map_values(|e: Expression| expr_view(e))
                        =~= expressions@.map_values(|e: Expression| expr_view(e)));
                    assert(stmt_view(r) == stmt_view(*self));
                }
                r
            },
            Statement::InputStatement { variables } => {
                let mut copies: Vec<Identifier> = Vec::new();
                let mut i: usize = 0;
                while i < variables.len()
                    invariant
                        i <= variables.len(),
                        copies@.len() == i,
                        forall|j: int| 0 <= j < i ==> #[trigger] copies@[j].name@
                            == variables@[j].name@,
                    decreases variables.len() - i,
                {
                    copies.push(Identifier { name: variables[i].name.clone() });
                    i = i + 1;
                }
                let r = Statement::InputStatement { variables: copies };
                proof {
                    assert(copies@.map_values(|v: Identifier| v.name@)
                        =~= variables@.map_values(|v: Identifier| v.name@));
                    assert(stmt_view(r) == stmt_view(*self));
                }
                r
            },
            Statement::VarStatement { declaration } => Statement::VarStatement {
                declaration: VarDeclaration {
                    name: declaration.name.clone(),
                    value: declaration.value.duplicate(),
                },
            },
            Statement::GoToStatement { location } => Statement::GoToStatement {
                location: location.duplicate(),
            },
            Statement::GoSubStatement { location } => Statement::GoSubStatement {
                location: location.duplicate(),
            },
            Statement::NewStatement => Statement::NewStatement,
            Statement::RunStatement => Statement::RunStatement,
            Statement::ReturnStatement => Statement::ReturnStatement,
            Statement::EndStatement => Statement::EndStatement,
            Statement::HelpStatement => Statement::HelpStatement,
            Statement::ClsStatement => Statement::ClsStatement,
            Statement::ListStatement => Statement::ListStatement,
            Statement::RemStatement => Statement::RemStatement,
            Statement::LoadStatement => Statement::LoadStatement,
            Statement::SaveStatement => Statement::SaveStatement,
            Statement::Empty => Statement::Empty,
        }
    }
}

impl Line {
    /// A structural copy; the result has the same view as the original.
    pub fn duplicate(&self) -> (r: Line)
        ensures
            r@ == self@,
    {
        Line {
            number: self.number,
            statement: self.statement.duplicate(),
            source: self.source.clone(),
        }
    }
}

} // verus!
