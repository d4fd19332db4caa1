use vstd::prelude::*;
use crate::token::{SToken, Token};

verus! {

/// A whole program: the statements of a file, in order.
#[derive(Debug, PartialEq)]
pub struct Program {
    pub statements: Vec<Statement>,
}

/// An instruction that does not produce a value of its own.
#[derive(Debug, PartialEq)]
#[allow(inconsistent_fields)]
pub enum Statement {
    /// `let x = 5` or `let self.health = 10`
    Let { name: Expression, value: Expression },
    /// `return x`
    Return(Expression),
    /// an expression on a line by itself
    Expression(Expression),
    /// the statements of a `when` branch, a loop or a function body
    Block(Vec<Statement>),
    /// `class Player: ... done`
    ClassStatement { name: String, body: Box<Statement> },
}

/// A piece of code that produces a value.
#[derive(Debug, PartialEq)]
pub enum Expression {
    Identifier(String),
    Integer(i64),
    String(String),
    Boolean(bool),
    /// `-5`, `new Player()`
    Prefix { operator: Token, right: Box<Expression> },
    /// `5 + 5`, `x < 10`
    Infix { left: Box<Expression>, operator: Token, right: Box<Expression> },
    /// `when x < 10: ... otherwise: ... done`
    If {
        condition: Box<Expression>,
        consequence: Box<Statement>,
        alternative: Option<Box<Statement>>,
    },
    /// `fn(x, y): ... done`
    Function { parameters: Vec<String>, body: Box<Statement> },
    /// `add(2, 3)`
    Call { function: Box<Expression>, arguments: Vec<Expression> },
    /// `[1, 2, 3]`
    ArrayLiteral(Vec<Expression>),
    /// `my_list[0]`
    IndexExpression { left: Box<Expression>, index: Box<Expression> },
    /// `{"name": "shivam"}`
    HashLiteral(Vec<(Expression, Expression)>),
    /// `while x < 10: ... done`
    WhileExpression { condition: Box<Expression>, body: Box<Statement> },
    /// `import "math.kc"`
    ImportExpression(Box<Expression>),
    /// `math.add`
    MemberExpression { left: Box<Expression>, property: String },
    /// stands for a piece of code that could not be parsed
    Dummy,
}

/// The value of a statement, with strings taken by their characters.
#[allow(inconsistent_fields)]
pub enum SStmt {
    Let { name: SExpr, value: SExpr },
    Return(SExpr),
    Expression(SExpr),
    Block(Seq<SStmt>),
    ClassStatement { name: Seq<char>, body: Box<SStmt> },
}

/// The value of an expression, with strings taken by their characters.
pub enum SExpr {
    Identifier(Seq<char>),
    Integer(i64),
    Str(Seq<char>),
    Boolean(bool),
    Prefix { operator: SToken, right: Box<SExpr> },
    Infix { left: Box<SExpr>, operator: SToken, right: Box<SExpr> },
    If { condition: Box<SExpr>, consequence: Box<SStmt>, alternative: Option<Box<SStmt>> },
    Function { parameters: Seq<Seq<char>>, body: Box<SStmt> },
    Call { function: Box<SExpr>, arguments: Seq<SExpr> },
    ArrayLiteral(Seq<SExpr>),
    IndexExpression { left: Box<SExpr>, index: Box<SExpr> },
    HashLiteral(Seq<(SExpr, SExpr)>),
    WhileExpression { condition: Box<SExpr>, body: Box<SStmt> },
    ImportExpression(Box<SExpr>),
    MemberExpression { left: Box<SExpr>, property: Seq<char> },
    Dummy,
}

/// The characters of each string.
pub open spec fn strings_view(v: Seq<String>) -> Seq<Seq<char>> {
    v.map_values(|s: String| s@)
}

/// The values of a sequence of expressions.
pub open spec fn exprs_view(s: Seq<Expression>) -> Seq<SExpr>
    decreases s,
{
    if s.len() == 0 {
        Seq::empty()
    } else {
        seq![expr_view(s[0])] + exprs_view(s.subrange(1, s.len() as int))
    }
}

/// The values of a sequence of key-value expression pairs.
pub open spec fn pairs_view(s: Seq<(Expression, Expression)>) -> Seq<(SExpr, SExpr)>
    decreases s,
{
    if s.len() == 0 {
        Seq::empty()
    } else {
        seq![(expr_view(s[0].0), expr_view(s[0].1))] + pairs_view(s.subrange(1, s.len() as int))
    }
}

/// The values of a sequence of statements.
pub open spec fn stmts_view(s: Seq<Statement>) -> Seq<SStmt>
    decreases s,
{
    if s.len() == 0 {
        Seq::empty()
    } else {
        seq![stmt_view(s[0])] + stmts_view(s.subrange(1, s.len() as int))
    }
}

/// The value of an expression.
pub open spec fn expr_view(e: Expression) -> SExpr
    decreases e,
{
    match e {
        Expression::Identifier(s) => SExpr::Identifier(s@),
        Expression::Integer(i) => SExpr::Integer(i),
        Expression::String(s) => SExpr::Str(s@),
        Expression::Boolean(b) => SExpr::Boolean(b),
        Expression::Prefix { operator, right } => SExpr::Prefix {
            operator: operator@,
            right: Box::new(expr_view(*right)),
        },
        Expression::Infix { left, operator, right } => SExpr::Infix {
            left: Box::new(expr_view(*left)),
            operator: operator@,
            right: Box::new(expr_view(*right)),
        },
        Expression::If { condition, consequence, alternative } => SExpr::If {
            condition: Box::new(expr_view(*condition)),
            consequence: Box::new(stmt_view(*consequence)),
            alternative: match alternative {
                Some(a) => Some(Box::new(stmt_view(*a))),
                None => None,
            },
        },
        Expression::Function { parameters, body } => SExpr::Function {
            parameters: strings_view(parameters@),
            body: Box::new(stmt_view(*body)),
        },
        Expression::Call { function, arguments } => SExpr::Call {
            function: Box::new(expr_view(*function)),
            arguments: exprs_view(arguments@),
        },
        Expression::ArrayLiteral(v) => SExpr::ArrayLiteral(exprs_view(v@)),
        Expression::IndexExpression { left, index } => SExpr::IndexExpression {
            left: Box::new(expr_view(*left)),
            index: Box::new(expr_view(*index)),
        },
        Expression::HashLiteral(v) => SExpr::HashLiteral(pairs_view(v@)),
        Expression::WhileExpression { condition, body } => SExpr::WhileExpression {
            condition: Box::new(expr_view(*condition)),
            body: Box::new(stmt_view(*body)),
        },
        Expression::ImportExpression(p) => SExpr::ImportExpression(Box::new(expr_view(*p))),
        Expression::MemberExpression { left, property } => SExpr::MemberExpression {
            left: Box::new(expr_view(*left)),
            property: property@,
        },
        Expression::Dummy => SExpr::Dummy,
    }
}

/// The value of a statement.
pub open spec fn stmt_view(s: Statement) -> SStmt
    decreases s,
{
    match s {
        Statement::Let { name, value } => SStmt::Let { name: expr_view(name), value: expr_view(value) },
        Statement::Return(e) => SStmt::Return(expr_view(e)),
        Statement::Expression(e) => SStmt::Expression(expr_view(e)),
        Statement::Block(v) => SStmt::Block(stmts_view(v@)),
        Statement::ClassStatement { name, body } => SStmt::ClassStatement {
            name: name@,
            body: Box::new(stmt_view(*body)),
        },
    }
}

impl View for Expression {
    type V = SExpr;

    open spec fn view(&self) -> SExpr {
        expr_view(*self)
    }
}

impl View for Statement {
    type V = SStmt;

    open spec fn view(&self) -> SStmt {
        stmt_view(*self)
    }
}

impl View for Program {
    type V = Seq<SStmt>;

    open spec fn view(&self) -> Seq<SStmt> {
        stmts_view(self.statements@)
    }
}


/// A copy of each string.
pub fn copy_strings(v: &Vec<String>) -> (res: Vec<String>)
    ensures
        strings_view(res@) == strings_view(v@),
        res@.len() == v@.len(),
{
    let mut res: Vec<String> = Vec::new();
    let mut i: usize = 0;
    while i < v.len()
        invariant
            i <= v@.len(),
            res@.len() == i,
            forall|j: int| 0 <= j < i ==> res@[j]@ == v@[j]@,
        decreases v@.len() - i,
    {
        res.push(v[i].clone());
        i = i + 1;
    }
    assert(strings_view(res@) =~= strings_view(v@));
    res
}

/// Appending an expression appends its value.
pub proof fn lemma_exprs_push(s: Seq<Expression>, e: Expression)
    ensures
        exprs_view(s.push(e)) == exprs_view(s).push(expr_view(e)),
    decreases s.len(),
{
    if s.len() == 0 {
        assert(s.push(e).subrange(1, 1) =~= Seq::<Expression>::empty());
        assert(exprs_view(s.push(e).subrange(1, 1)) == exprs_view(Seq::<Expression>::empty()));
        assert(s.push(e)[0] == e);
        assert(exprs_view(s.push(e)) =~= exprs_view(s).push(expr_view(e)));
    } else {
        lemma_exprs_push(s.subrange(1, s.len() as int), e);
        assert(s.push(e).subrange(1, s.len() + 1int) =~= s.subrange(1, s.len() as int).push(e));
        assert(exprs_view(s.push(e)) =~= exprs_view(s).push(expr_view(e)));
    }
}

/// Appending a pair appends its value.
pub proof fn lemma_pairs_push(s: Seq<(Expression, Expression)>, e: (Expression, Expression))
    ensures
        pairs_view(s.push(e)) == pairs_view(s).push((expr_view(e.0), expr_view(e.1))),
    decreases s.len(),
{
    if s.len() == 0 {
        assert(s.push(e).subrange(1, 1) =~= Seq::<(Expression, Expression)>::empty());
        assert(pairs_view(s.push(e).subrange(1, 1)) == pairs_view(Seq::<(Expression, Expression)>::empty()));
        assert(s.push(e)[0] == e);
        assert(pairs_view(s.push(e)) =~= pairs_view(s).push((expr_view(e.0), expr_view(e.1))));
    } else {
        lemma_pairs_push(s.subrange(1, s.len() as int), e);
        assert(s.push(e).subrange(1, s.len() + 1int) =~= s.subrange(1, s.len() as int).push(e));
        assert(pairs_view(s.push(e)) =~= pairs_view(s).push((expr_view(e.0), expr_view(e.1))));
    }
}

/// Appending a statement appends its value.
pub proof fn lemma_stmts_push(s: Seq<Statement>, e: Statement)
    ensures
        stmts_view(s.push(e)) == stmts_view(s).push(stmt_view(e)),
    decreases s.len(),
{
    if s.len() == 0 {
        assert(s.push(e).subrange(1, 1) =~= Seq::<Statement>::empty());
        assert(stmts_view(s.push(e).subrange(1, 1)) == stmts_view(Seq::<Statement>::empty()));
        assert(s.push(e)[0] == e);
        assert(stmts_view(s.push(e)) =~= stmts_view(s).push(stmt_view(e)));
    } else {
        lemma_stmts_push(s.subrange(1, s.len() as int), e);
        assert(s.push(e).subrange(1, s.len() + 1int) =~= s.subrange(1, s.len() as int).push(e));
        assert(stmts_view(s.push(e)) =~= stmts_view(s).push(stmt_view(e)));
    }
}

/// The view of a sequence of expressions has one value per expression, in order.
pub proof fn lemma_exprs_view_index(s: Seq<Expression>)
    ensures
        exprs_view(s).len() == s.len(),
        forall|i: int| 0 <= i < s.len() ==> #[trigger] exprs_view(s)[i] == expr_view(s[i]),
    decreases s.len(),
{
    if s.len() > 0 {
        lemma_exprs_view_index(s.subrange(1, s.len() as int));
    }
}

/// The view of a sequence of pairs has one value per pair, in order.
pub proof fn lemma_pairs_view_index(s: Seq<(Expression, Expression)>)
    ensures
        pairs_view(s).len() == s.len(),
        forall|i: int|
            0 <= i < s.len() ==> #[trigger] pairs_view(s)[i] == (expr_view(s[i].0), expr_view(s[i].1)),
    decreases s.len(),
{
    if s.len() > 0 {
        lemma_pairs_view_index(s.subrange(1, s.len() as int));
    }
}

/// The view of a sequence of statements has one value per statement, in order.
pub proof fn lemma_stmts_view_index(s: Seq<Statement>)
    ensures
        stmts_view(s).len() == s.len(),
        forall|i: int| 0 <= i < s.len() ==> #[trigger] stmts_view(s)[i] == stmt_view(s[i]),
    decreases s.len(),
{
    if s.len() > 0 {
        lemma_stmts_view_index(s.subrange(1, s.len() as int));
    }
}




impl Expression {
    /// A copy of the expression.
    pub fn copy(&self) -> (res: Expression)
        ensures
            res@ == self@,
        decreases self,
    {
        match self {
            Expression::Identifier(s) => Expression::Identifier(s.clone()),
            Expression::Integer(i) => Expression::Integer(*i),
            Expression::String(s) => Expression::String(s.clone()),
            Expression::Boolean(b) => Expression::Boolean(*b),
            Expression::Prefix { operator, right } => Expression::Prefix {
                operator: operator.copy(),
                right: Box::new(right.copy()),
            },
            Expression::Infix { left, operator, right } => Expression::Infix {
                left: Box::new(left.copy()),
                operator: operator.copy(),
                right: Box::new(right.copy()),
            },
            Expression::If { condition, consequence, alternative } => {
                let c = condition.copy();
                let k = consequence.copy();
                let a = match alternative {
                    Some(a) => Some(Box::new(a.copy())),
                    None => None,
                };
                Expression::If { condition: Box::new(c), consequence: Box::new(k), alternative: a }
            },
            Expression::Function { parameters, body } => Expression::Function {
                parameters: copy_strings(parameters),
                body: Box::new(body.copy()),
            },
            Expression::Call { function, arguments } => {
                let f = function.copy();
                let args = copy_exprs(arguments);
                Expression::Call { function: Box::new(f), arguments: args }
            },
            Expression::ArrayLiteral(v) => Expression::ArrayLiteral(copy_exprs(v)),
            Expression::IndexExpression { left, index } => Expression::IndexExpression {
                left: Box::new(left.copy()),
                index: Box::new(index.copy()),
            },
            Expression::HashLiteral(v) => Expression::HashLiteral(copy_pairs(v)),
            Expression::WhileExpression { condition, body } => Expression::WhileExpression {
                condition: Box::new(condition.copy()),
                body: Box::new(body.copy()),
            },
            Expression::ImportExpression(p) => Expression::ImportExpression(Box::new(p.copy())),
            Expression::MemberExpression { left, property } => Expression::MemberExpression {
                left: Box::new(left.copy()),
                property: property.clone(),
            },
            Expression::Dummy => Expression::Dummy,
        }
    }
}

/// A copy of each expression.
pub fn copy_exprs(v: &Vec<Expression>) -> (res: Vec<Expression>)
    ensures
        exprs_view(res@) == exprs_view(v@),
    decreases v,
{
    let mut res: Vec<Expression> = Vec::new();
    let mut i: usize = 0;
    while i < v.len()
        invariant
            i <= v@.len(),
            exprs_view(res@) == exprs_view(v@.subrange(0, i as int)),
        decreases v@.len() - i,
    {
        proof {
            assert(decreases_to!(v => v@[i as int]));
        }
        let e = v[i].copy();
        proof {
            lemma_exprs_push(res@, e);
            lemma_exprs_push(v@.subrange(0, i as int), v@[i as int]);
            assert(v@.subrange(0, i + 1) =~= v@.subrange(0, i as int).push(v@[i as int]));
        }
        res.push(e);
        i = i + 1;
    }
    assert(v@.subrange(0, v@.len() as int) =~= v@);
    res
}

/// A copy of each key-value pair.
pub fn copy_pairs(v: &Vec<(Expression, Expression)>) -> (res: Vec<(Expression, Expression)>)
    ensures
        pairs_view(res@) == pairs_view(v@),
    decreases v,
{
    let mut res: Vec<(Expression, Expression)> = Vec::new();
    let mut i: usize = 0;
    while i < v.len()
        invariant
            i <= v@.len(),
            pairs_view(res@) == pairs_view(v@.subrange(0, i as int)),
        decreases v@.len() - i,
    {
        proof {
            assert(decreases_to!(v => v@[i as int]));
        }
        let k = v[i].0.copy();
        let x = v[i].1.copy();
        proof {
            lemma_pairs_push(res@, (k, x));
            lemma_pairs_push(v@.subrange(0, i as int), v@[i as int]);
            assert(v@.subrange(0, i + 1) =~= v@.subrange(0, i as int).push(v@[i as int]));
        }
        res.push((k, x));
        i = i + 1;
    }
    assert(v@.subrange(0, v@.len() as int) =~= v@);
    res
}

impl Statement {
    /// A copy of the statement.
    pub fn copy(&self) -> (res: Statement)
        ensures
            res@ == self@,
        decreases self,
    {
        match self {
            Statement::Let { name, value } => Statement::Let { name: name.copy(), value: value.copy() },
            Statement::Return(e) => Statement::Return(e.copy()),
            Statement::Expression(e) => Statement::Expression(e.copy()),
            Statement::Block(v) => Statement::Block(copy_stmts(v)),
            Statement::ClassStatement { name, body } => Statement::ClassStatement {
                name: name.clone(),
                body: Box::new(body.copy()),
            },
        }
    }
}

/// A copy of each statement.
pub fn copy_stmts(v: &Vec<Statement>) -> (res: Vec<Statement>)
    ensures
        stmts_view(res@) == stmts_view(v@),
    decreases v,
{
    let mut res: Vec<Statement> = Vec::new();
    let mut i: usize = 0;
    while i < v.len()
        invariant
            i <= v@.len(),
            stmts_view(res@) == stmts_view(v@.subrange(0, i as int)),
        decreases v@.len() - i,
    {
        proof {
            assert(decreases_to!(v => v@[i as int]));
        }
        let e = v[i].copy();
        proof {
            lemma_stmts_push(res@, e);
            lemma_stmts_push(v@.subrange(0, i as int), v@[i as int]);
            assert(v@.subrange(0, i + 1) =~= v@.subrange(0, i as int).push(v@[i as int]));
        }
        res.push(e);
        i = i + 1;
    }
    assert(v@.subrange(0, v@.len() as int) =~= v@);
    res
}

} // verus!
