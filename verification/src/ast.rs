//! The expression-tree model that the transform works on: a function body is
//! a list of statements over expressions, and a suspend-point is an awaited
//! sub-expression anywhere inside them. Mathematical views (`…V`) mirror the
//! executable tree with strings as character sequences.

use vstd::prelude::*;

verus! {

/// An identifier: one written in the source, or a synthetic one assigned to
/// a suspend-point ordinal at collection time (positional tagging keeps two
/// textually identical awaits apart).
pub enum Ident {
    /// A name written in the source.
    Named(String),
    /// The binding that holds the not-yet-started task of ordinal `i`.
    TaskSlot(usize),
    /// The binding that holds the extracted result of ordinal `i`.
    ValueSlot(usize),
}

/// An expression of a function body.
pub enum Expr {
    /// An integer literal.
    IntLit(u64),
    /// A string literal.
    StrLit(String),
    /// A reference to a bound identifier.
    Var(Ident),
    /// An issued request to the echo collaborator for a key; awaiting it
    /// suspends until the key is fulfilled.
    Request(String),
    /// A suspend-point: awaits the operand expression.
    Await(Box<Expr>),
    /// String concatenation of the two operands.
    Concat(Box<Expr>, Box<Expr>),
}

/// A statement of a function body; the body's trailing `Expr` statement is
/// the body's result.
pub enum Stmt {
    /// `let <ident> = <expr>;`
    Let(Ident, Expr),
    /// A bare expression.
    Expr(Expr),
    /// The emitted definition of the join combinator, specialized to the
    /// given number of tasks.
    JoinDef(usize),
    /// The emitted `let (<results…>) = join(<tasks…>).await;` binding.
    JoinAwait { results: Vec<Ident>, tasks: Vec<Ident> },
}

/// A function: whether it is declared asynchronous, and its body.
pub struct Fun {
    pub is_async: bool,
    pub body: Vec<Stmt>,
}

/// Mathematical view of an identifier.
pub enum IdentV {
    Named(Seq<char>),
    TaskSlot(int),
    ValueSlot(int),
}

/// Mathematical view of an expression.
pub enum ExprV {
    IntLit(u64),
    StrLit(Seq<char>),
    Var(IdentV),
    Request(Seq<char>),
    Await(Box<ExprV>),
    Concat(Box<ExprV>, Box<ExprV>),
}

/// Mathematical view of a statement.
pub enum StmtV {
    Let(IdentV, ExprV),
    Expr(ExprV),
    JoinDef(int),
    JoinAwait { results: Seq<IdentV>, tasks: Seq<IdentV> },
}

/// Mathematical view of a function.
pub struct FunV {
    pub is_async: bool,
    pub body: Seq<StmtV>,
}

impl View for Ident {
    type V = IdentV;

    open spec fn view(&self) -> IdentV {
        match self {
            Ident::Named(s) => IdentV::Named(s@),
            Ident::TaskSlot(i) => IdentV::TaskSlot(*i as int),
            Ident::ValueSlot(i) => IdentV::ValueSlot(*i as int),
        }
    }
}

impl DeepView for Ident {
    type V = IdentV;

    open spec fn deep_view(&self) -> IdentV {
        self.view()
    }
}

/// The view of an expression tree.
pub open spec fn expr_view(e: Expr) -> ExprV
    decreases e,
{
    match e {
        Expr::IntLit(n) => ExprV::IntLit(n),
        Expr::StrLit(s) => ExprV::StrLit(s@),
        Expr::Var(id) => ExprV::Var(id@),
        Expr::Request(s) => ExprV::Request(s@),
        Expr::Await(b) => ExprV::Await(Box::new(expr_view(*b))),
        Expr::Concat(a, b) => ExprV::Concat(Box::new(expr_view(*a)), Box::new(expr_view(*b))),
    }
}

impl View for Expr {
    type V = ExprV;

    open spec fn view(&self) -> ExprV {
        expr_view(*self)
    }
}

impl DeepView for Expr {
    type V = ExprV;

    open spec fn deep_view(&self) -> ExprV {
        self.view()
    }
}

impl View for Stmt {
    type V = StmtV;

    open spec fn view(&self) -> StmtV {
        match self {
            Stmt::Let(id, e) => StmtV::Let(id@, e@),
            Stmt::Expr(e) => StmtV::Expr(e@),
            Stmt::JoinDef(n) => StmtV::JoinDef(*n as int),
            Stmt::JoinAwait { results, tasks } => StmtV::JoinAwait {
                results: results.deep_view(),
                tasks: tasks.deep_view(),
            },
        }
    }
}

impl DeepView for Stmt {
    type V = StmtV;

    open spec fn deep_view(&self) -> StmtV {
        self.view()
    }
}

impl View for Fun {
    type V = FunV;

    open spec fn view(&self) -> FunV {
        FunV { is_async: self.is_async, body: self.body.deep_view() }
    }
}

/// A deep copy of an identifier, equal under the view.
pub fn dup_ident(id: &Ident) -> (r: Ident)
    ensures
        r@ == id@,
{
    match id {
        Ident::Named(s) => Ident::Named(s.clone()),
        Ident::TaskSlot(i) => Ident::TaskSlot(*i),
        Ident::ValueSlot(i) => Ident::ValueSlot(*i),
    }
}

/// A deep copy of an expression, equal under the view.
pub fn dup_expr(e: &Expr) -> (r: Expr)
    ensures
        r@ == e@,
    decreases *e,
{
    match e {
        Expr::IntLit(n) => Expr::IntLit(*n),
        Expr::StrLit(s) => Expr::StrLit(s.clone()),
        Expr::Var(id) => Expr::Var(dup_ident(id)),
        Expr::Request(s) => Expr::Request(s.clone()),
        Expr::Await(b) => Expr::Await(Box::new(dup_expr(b))),
        Expr::Concat(a, b) => Expr::Concat(Box::new(dup_expr(a)), Box::new(dup_expr(b))),
    }
}

/// A deep copy of an identifier list, equal under the view.
pub fn dup_idents(v: &Vec<Ident>) -> (r: Vec<Ident>)
    ensures
        r.deep_view() == v.deep_view(),
{
    let mut r: Vec<Ident> = Vec::new();
    let n = v.len();
    let mut i: usize = 0;
    while i < n
        invariant
            n == v@.len(),
            i <= n,
            r.deep_view() =~= v.deep_view().take(i as int),
        decreases n - i,
    {
        let ghost pre = r.deep_view();
        r.push(dup_ident(&v[i]));
        proof {
            assert(r.deep_view() =~= pre.push(v.deep_view()[i as int]));
            assert(v.deep_view().take(i as int + 1) =~= v.deep_view().take(i as int).push(
                v.deep_view()[i as int],
            ));
        }
        i = i + 1;
    }
    proof {
        assert(v.deep_view().take(n as int) =~= v.deep_view());
    }
    r
}

/// A deep copy of a statement, equal under the view.
pub fn dup_stmt(s: &Stmt) -> (r: Stmt)
    ensures
        r@ == s@,
{
    match s {
        Stmt::Let(id, e) => Stmt::Let(dup_ident(id), dup_expr(e)),
        Stmt::Expr(e) => Stmt::Expr(dup_expr(e)),
        Stmt::JoinDef(n) => Stmt::JoinDef(*n),
        Stmt::JoinAwait { results, tasks } => Stmt::JoinAwait {
            results: dup_idents(results),
            tasks: dup_idents(tasks),
        },
    }
}

/// Whether two identifiers are the same name or the same slot.
pub fn ident_eq(a: &Ident, b: &Ident) -> (r: bool)
    ensures
        r == (a@ == b@),
{
    match a {
        Ident::Named(x) => match b {
            Ident::Named(y) => *x == *y,
            _ => false,
        },
        Ident::TaskSlot(x) => match b {
            Ident::TaskSlot(y) => *x == *y,
            _ => false,
        },
        Ident::ValueSlot(x) => match b {
            Ident::ValueSlot(y) => *x == *y,
            _ => false,
        },
    }
}

/// Whether two expressions are structurally the same under the view.
pub fn expr_eq(a: &Expr, b: &Expr) -> (r: bool)
    ensures
        r == (a@ == b@),
    decreases *a,
{
    match a {
        Expr::IntLit(x) => match b {
            Expr::IntLit(y) => *x == *y,
            _ => false,
        },
        Expr::StrLit(x) => match b {
            Expr::StrLit(y) => *x == *y,
            _ => false,
        },
        Expr::Var(x) => match b {
            Expr::Var(y) => ident_eq(x, y),
            _ => false,
        },
        Expr::Request(x) => match b {
            Expr::Request(y) => *x == *y,
            _ => false,
        },
        Expr::Await(x) => match b {
            Expr::Await(y) => expr_eq(x, y),
            _ => false,
        },
        Expr::Concat(xa, xb) => match b {
            Expr::Concat(ya, yb) => {
                let left = expr_eq(xa, ya);
                left && expr_eq(xb, yb)
            },
            _ => false,
        },
    }
}

/// Whether two identifier lists agree elementwise.
pub fn idents_eq(a: &Vec<Ident>, b: &Vec<Ident>) -> (r: bool)
    ensures
        r == (a.deep_view() == b.deep_view()),
{
    if a.len() != b.len() {
        proof {
            assert(a.deep_view().len() != b.deep_view().len());
        }
        return false;
    }
    let n = a.len();
    let mut i: usize = 0;
    while i < n
        invariant
            n == a@.len(),
            n == b@.len(),
            i <= n,
            forall|j: int| 0 <= j < i ==> a.deep_view()[j] == b.deep_view()[j],
        decreases n - i,
    {
        if !ident_eq(&a[i], &b[i]) {
            proof {
                assert(a.deep_view()[i as int] != b.deep_view()[i as int]);
            }
            return false;
        }
        i = i + 1;
    }
    proof {
        assert(a.deep_view() =~= b.deep_view());
    }
    true
}

/// Whether two statements are structurally the same under the view.
pub fn stmt_eq(a: &Stmt, b: &Stmt) -> (r: bool)
    ensures
        r == (a@ == b@),
{
    match a {
        Stmt::Let(xi, xe) => match b {
            Stmt::Let(yi, ye) => {
                let ids = ident_eq(xi, yi);
                ids && expr_eq(xe, ye)
            },
            _ => false,
        },
        Stmt::Expr(x) => match b {
            Stmt::Expr(y) => expr_eq(x, y),
            _ => false,
        },
        Stmt::JoinDef(x) => match b {
            Stmt::JoinDef(y) => *x == *y,
            _ => false,
        },
        Stmt::JoinAwait { results: xr, tasks: xt } => match b {
            Stmt::JoinAwait { results: yr, tasks: yt } => {
                let rs = idents_eq(xr, yr);
                rs && idents_eq(xt, yt)
            },
            _ => false,
        },
    }
}

/// Whether two bodies agree statement by statement.
pub fn body_eq(a: &Vec<Stmt>, b: &Vec<Stmt>) -> (r: bool)
    ensures
        r == (a.deep_view() == b.deep_view()),
{
    if a.len() != b.len() {
        proof {
            assert(a.deep_view().len() != b.deep_view().len());
        }
        return false;
    }
    let n = a.len();
    let mut i: usize = 0;
    while i < n
        invariant
            n == a@.len(),
            n == b@.len(),
            i <= n,
            forall|j: int| 0 <= j < i ==> a.deep_view()[j] == b.deep_view()[j],
        decreases n - i,
    {
        if !stmt_eq(&a[i], &b[i]) {
            proof {
                assert(a.deep_view()[i as int] != b.deep_view()[i as int]);
            }
            return false;
        }
        i = i + 1;
    }
    proof {
        assert(a.deep_view() =~= b.deep_view());
    }
    true
}

/// Whether two functions agree in asynchrony and body.
pub fn fun_eq(a: &Fun, b: &Fun) -> (r: bool)
    ensures
        r == (a@ == b@),
{
    let bodies = body_eq(&a.body, &b.body);
    a.is_async == b.is_async && bodies
}

} // verus!
