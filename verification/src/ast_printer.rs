//! A demonstration pretty-printer over the expression tree: every node is
//! rendered as a parenthesized group holding its head and its children,
//! separated by single spaces.

use vstd::prelude::*;
use vstd::string::StringExecFns;

use crate::expr::{expr_size, Expr};
use crate::token::LiteralModel;

verus! {

/// How a literal payload prints: string and number literals print their
/// text, the null payload prints as `nil`.
pub open spec fn render_literal(v: LiteralModel) -> Seq<char> {
    match v {
        LiteralModel::StringValue(s) => s,
        LiteralModel::NumberValue(s) => s,
        LiteralModel::Null => "nil"@,
    }
}

/// How a whole expression prints: its head and its rendered children inside
/// one pair of parentheses.
pub open spec fn render_expr(e: Expr) -> Seq<char>
    decreases e,
{
    match e {
        Expr::Binary { left, operator, right } => "("@ + operator.lexeme@ + " "@ + render_expr(
            *left,
        ) + " "@ + render_expr(*right) + ")"@,
        Expr::Grouping { expression } => "("@ + "group"@ + " "@ + render_expr(*expression) + ")"@,
        Expr::Literal { value } => "("@ + render_literal(value@) + ")"@,
        Expr::Unary { operator, right } => "("@ + operator.lexeme@ + " "@ + render_expr(*right)
            + ")"@,
    }
}

/// The renderings of the children `es[a..b)`, each preceded by one space.
pub open spec fn render_children_range(es: Seq<&Expr>, a: int, b: int) -> Seq<char>
    decreases b - a,
{
    if a >= b {
        Seq::<char>::empty()
    } else {
        " "@ + render_expr(*es[a]) + render_children_range(es, a + 1, b)
    }
}

/// The renderings of all the children, each preceded by one space.
pub open spec fn render_children(es: Seq<&Expr>) -> Seq<char> {
    render_children_range(es, 0, es.len() as int)
}

/// The combined structural size of a child list.
pub open spec fn exprs_size(es: Seq<&Expr>) -> nat
    decreases es.len(),
{
    if es.len() == 0 {
        0
    } else {
        expr_size(*es[0]) + exprs_size(es.drop_first())
    }
}

/// No child outweighs the whole child list.
proof fn lemma_exprs_size_element(es: Seq<&Expr>, i: int)
    requires
        0 <= i < es.len(),
    ensures
        expr_size(*es[i]) <= exprs_size(es),
    decreases es.len(),
{
    if i > 0 {
        lemma_exprs_size_element(es.drop_first(), i - 1);
        assert(es.drop_first()[i - 1] == es[i]);
    }
}

/// Rendering one more child appends one space and that child's rendering.
proof fn lemma_render_children_snoc(es: Seq<&Expr>, a: int, b: int)
    requires
        0 <= a <= b < es.len(),
    ensures
        render_children_range(es, a, b + 1) == render_children_range(es, a, b) + " "@
            + render_expr(*es[b]),
    decreases b - a,
{
    if a == b {
        assert(render_children_range(es, a + 1, a + 1) == Seq::<char>::empty());
        assert(render_children_range(es, a, b + 1) =~= render_children_range(es, a, b) + " "@
            + render_expr(*es[b]));
    } else {
        lemma_render_children_snoc(es, a + 1, b);
        assert(render_children_range(es, a, b + 1) =~= render_children_range(es, a, b) + " "@
            + render_expr(*es[b]));
    }
}

impl Expr {
    /// The node's printable head and its children in print order, as the
    /// pretty-printer consumes them: wrapping the head and the rendered
    /// children in parentheses yields exactly the node's own rendering.
    pub fn ast_printer(&self) -> (r: (String, Vec<&Expr>))
        ensures
            "("@ + r.0@ + render_children(r.1@) + ")"@ == render_expr(*self),
            exprs_size(r.1@) < expr_size(*self),
    {
        match self {
            Expr::Binary { left, operator, right } => {
                let children: Vec<&Expr> = vec![&**left, &**right];
                proof {
                    assert(children@[0] == &**left);
                    assert(children@[1] == &**right);
                    assert(render_children_range(children@, 2, 2) == Seq::<char>::empty());
                    assert(render_children_range(children@, 1, 2) == " "@ + render_expr(
                        *children@[1],
                    ) + render_children_range(children@, 2, 2));
                    assert(render_children_range(children@, 0, 2) == " "@ + render_expr(
                        *children@[0],
                    ) + render_children_range(children@, 1, 2));
                    assert("("@ + operator.lexeme@ + render_children(children@) + ")"@
                        =~= render_expr(*self));
                    assert(children@.drop_first() =~= seq![&**right]);
                    assert(seq![&**right].drop_first() =~= Seq::<&Expr>::empty());
                    assert(exprs_size(Seq::<&Expr>::empty()) == 0);
                    assert(exprs_size(seq![&**right]) == expr_size(**right));
                    assert(exprs_size(children@) == expr_size(**left) + expr_size(**right));
                }
                (operator.lexeme.clone(), children)
            },
            Expr::Grouping { expression } => {
                let children: Vec<&Expr> = vec![&**expression];
                proof {
                    assert(children@[0] == &**expression);
                    assert(render_children_range(children@, 1, 1) == Seq::<char>::empty());
                    assert(render_children_range(children@, 0, 1) == " "@ + render_expr(
                        *children@[0],
                    ) + render_children_range(children@, 1, 1));
                    assert("("@ + "group"@ + render_children(children@) + ")"@ =~= render_expr(
                        *self,
                    ));
                    assert(children@.drop_first() =~= Seq::<&Expr>::empty());
                    assert(exprs_size(Seq::<&Expr>::empty()) == 0);
                    assert(exprs_size(children@) == expr_size(**expression));
                }
                ("group".to_owned(), children)
            },
            Expr::Literal { value } => {
                let text: String = match value {
                    crate::token::LiteralValue::StringValue(s) => s.clone(),
                    crate::token::LiteralValue::NumberValue(s) => s.clone(),
                    crate::token::LiteralValue::Null => "nil".to_owned(),
                };
                let children: Vec<&Expr> = Vec::new();
                proof {
                    assert("("@ + text@ + render_children(children@) + ")"@ =~= render_expr(
                        *self,
                    ));
                }
                (text, children)
            },
            Expr::Unary { operator, right } => {
                let children: Vec<&Expr> = vec![&**right];
                proof {
                    assert(children@[0] == &**right);
                    assert(render_children_range(children@, 1, 1) == Seq::<char>::empty());
                    assert(render_children_range(children@, 0, 1) == " "@ + render_expr(
                        *children@[0],
                    ) + render_children_range(children@, 1, 1));
                    assert("("@ + operator.lexeme@ + render_children(children@) + ")"@
                        =~= render_expr(*self));
                    assert(children@.drop_first() =~= Seq::<&Expr>::empty());
                    assert(exprs_size(Seq::<&Expr>::empty()) == 0);
                    assert(exprs_size(children@) == expr_size(**right));
                }
                (operator.lexeme.clone(), children)
            },
        }
    }
}

/// The demonstration pretty-printer itself; it carries no state of its own.
pub struct AstPrinter {

}

impl AstPrinter {
    /// A fresh printer.
    pub fn new() -> (p: AstPrinter) {
        AstPrinter {  }
    }

    /// Assemble one parenthesized group: the head, then every child's
    /// rendering preceded by a space.
    fn parenthesize(&mut self, name: String, exprs: Vec<&Expr>) -> (s: String)
        ensures
            s@ == "("@ + name@ + render_children(exprs@) + ")"@,
        decreases exprs_size(exprs@), 1nat,
    {
        let mut builder: String = "(".to_owned();
        builder.append(name.as_str());
        let mut i: usize = 0;
        while i < exprs.len()
            invariant
                i <= exprs@.len(),
                builder@ == "("@ + name@ + render_children_range(exprs@, 0, i as int),
            decreases exprs@.len() - i,
        {
            builder.append(" ");
            proof {
                lemma_exprs_size_element(exprs@, i as int);
            }
            let child_text = self.print(exprs[i]);
            builder.append(child_text.as_str());
            proof {
                lemma_render_children_snoc(exprs@, 0, i as int);
                assert(builder@ =~= "("@ + name@ + render_children_range(
                    exprs@,
                    0,
                    i + 1int,
                ));
            }
            i = i + 1;
        }
        builder.append(")");
        builder
    }

    /// Render one expression tree as parenthesized text.
    pub fn print(&mut self, expr: &Expr) -> (s: String)
        ensures
            s@ == render_expr(*expr),
        decreases expr_size(*expr), 0nat,
    {
        let r = expr.ast_printer();
        let name = r.0;
        let children = r.1;
        self.parenthesize(name, children)
    }
}

} // verus!
