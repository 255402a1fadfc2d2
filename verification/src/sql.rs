//! A small SQL abstract syntax and its rendering to query text.

use vstd::prelude::*;

use crate::query::int_str;

verus! {

/// Binary and postfix operators of the SQL expression language.
#[derive(Debug, Clone, Copy, PartialEq, Eq, Structural)]
pub enum SqlOp {
    Eq,
    Neq,
    Gt,
    Gte,
    Lt,
    Lte,
    And,
    Or,
    Like,
    IsNull,
    IsNotNull,
}

/// A qualified reference to a field of an aliased object.
#[derive(Debug, Clone, PartialEq, Eq)]
pub struct SqlFieldRef {
    pub object: String,
    pub field: String,
}

/// A SQL expression.
#[derive(Debug, PartialEq, Eq)]
pub enum SqlExpr {
    Null,
    StringLiteral(String),
    IntLiteral(i64),
    Ref(SqlFieldRef),
    BinaryOp { left: Box<SqlExpr>, op: SqlOp, right: Box<SqlExpr> },
}

/// An object brought into a query under an alias.
#[derive(Debug, Clone, PartialEq, Eq)]
pub struct SqlObjectRef {
    pub object: String,
    pub alias: String,
}

/// The join flavors.
#[derive(Debug, Clone, Copy, PartialEq, Eq, Structural)]
pub enum SqlJoinType {
    Inner,
    Left,
    Right,
    Outer,
}

/// One join of a `FROM` clause.
#[derive(Debug, PartialEq, Eq)]
pub struct SqlJoin {
    pub join_type: SqlJoinType,
    pub object: SqlObjectRef,
    pub on: SqlExpr,
}

/// A `FROM` clause: a primary object and its joins.
#[derive(Debug, PartialEq, Eq)]
pub struct SqlFromClause {
    pub object: SqlObjectRef,
    pub joins: Vec<SqlJoin>,
}

/// A whole `SELECT` query.
#[derive(Debug, PartialEq, Eq)]
pub struct SqlQuery {
    pub projection: Vec<SqlFieldRef>,
    pub from: SqlFromClause,
    pub where_clause: Option<SqlExpr>,
}

// ---------------------------------------------------------------------------
// The rendered text, mathematically
// ---------------------------------------------------------------------------

/// How an identifier renders: as itself.
pub open spec fn sql_identifier_text(ident: Seq<char>) -> Seq<char> {
    ident
}

/// The token of an operator.
pub open spec fn sql_op_text(op: SqlOp) -> Seq<char> {
    match op {
        SqlOp::Eq => seq!['='],
        SqlOp::Neq => seq!['<', '>'],
        SqlOp::Gt => seq!['>'],
        SqlOp::Gte => seq!['>', '='],
        SqlOp::Lt => seq!['<'],
        SqlOp::Lte => seq!['<', '='],
        SqlOp::And => seq!['A', 'N', 'D'],
        SqlOp::Or => seq!['O', 'R'],
        SqlOp::Like => seq!['L', 'I', 'K', 'E'],
        SqlOp::IsNull => seq!['I', 'S', ' ', 'N', 'U', 'L', 'L'],
        SqlOp::IsNotNull => seq!['I', 'S', ' ', 'N', 'O', 'T', ' ', 'N', 'U', 'L', 'L'],
    }
}

/// The token of a join flavor.
pub open spec fn sql_join_type_text(t: SqlJoinType) -> Seq<char> {
    match t {
        SqlJoinType::Inner => seq!['I', 'N', 'N', 'E', 'R', ' ', 'J', 'O', 'I', 'N'],
        SqlJoinType::Left => seq!['L', 'E', 'F', 'T', ' ', 'J', 'O', 'I', 'N'],
        SqlJoinType::Right => seq!['R', 'I', 'G', 'H', 'T', ' ', 'J', 'O', 'I', 'N'],
        SqlJoinType::Outer => seq!['O', 'U', 'T', 'E', 'R', ' ', 'J', 'O', 'I', 'N'],
    }
}

/// How a field reference renders: `object.field`.
pub open spec fn sql_field_ref_text(r: SqlFieldRef) -> Seq<char> {
    sql_identifier_text(r.object@) + seq!['.'] + sql_identifier_text(r.field@)
}

/// How an object reference renders: `object AS alias`.
pub open spec fn sql_object_ref_text(o: SqlObjectRef) -> Seq<char> {
    sql_identifier_text(o.object@) + seq![' ', 'A', 'S', ' '] + sql_identifier_text(o.alias@)
}

/// How an expression renders: literals quoted or printed as digits, and a
/// binary operation as its operands around the operator, space-separated.
pub open spec fn sql_expr_text(e: SqlExpr) -> Seq<char>
    decreases e,
{
    match e {
        SqlExpr::Null => seq!['N', 'U', 'L', 'L'],
        SqlExpr::StringLiteral(s) => seq!['\''] + s@ + seq!['\''],
        SqlExpr::IntLiteral(i) => int_str(i as int),
        SqlExpr::Ref(r) => sql_field_ref_text(r),
        SqlExpr::BinaryOp { left, op, right } => sql_expr_text(*left) + seq![' '] + sql_op_text(op)
            + seq![' '] + sql_expr_text(*right),
    }
}

/// How a join renders: `<flavor> <object> ON <condition>`.
pub open spec fn sql_join_text(j: SqlJoin) -> Seq<char> {
    sql_join_type_text(j.join_type) + seq![' '] + sql_object_ref_text(j.object) + seq![
        ' ',
        'O',
        'N',
        ' ',
    ] + sql_expr_text(j.on)
}

/// How the joins from position `k` on render: each preceded by one space.
pub open spec fn sql_joins_text(js: Seq<SqlJoin>, k: int) -> Seq<char>
    decreases js.len() - k,
{
    if 0 <= k < js.len() {
        seq![' '] + sql_join_text(js[k]) + sql_joins_text(js, k + 1)
    } else {
        Seq::empty()
    }
}

/// How a `FROM` clause renders: the primary object, then the joins.
pub open spec fn sql_from_text(f: SqlFromClause) -> Seq<char> {
    sql_object_ref_text(f.object) + sql_joins_text(f.joins@, 0)
}

/// How the projection from position `k` on renders: field references joined
/// by a comma and a space.
pub open spec fn sql_projection_text(ps: Seq<SqlFieldRef>, k: int) -> Seq<char>
    decreases ps.len() - k,
{
    if 0 <= k < ps.len() {
        if k == 0 {
            sql_field_ref_text(ps[0]) + sql_projection_text(ps, 1)
        } else {
            seq![',', ' '] + sql_field_ref_text(ps[k]) + sql_projection_text(ps, k + 1)
        }
    } else {
        Seq::empty()
    }
}

/// How a whole query renders.
pub open spec fn sql_query_text(q: SqlQuery) -> Seq<char> {
    let head = seq!['S', 'E', 'L', 'E', 'C', 'T', ' '] + sql_projection_text(q.projection@, 0)
        + seq![' ', 'F', 'R', 'O', 'M', ' '] + sql_from_text(q.from);
    match q.where_clause {
        Some(e) => head + seq![' ', 'W', 'H', 'E', 'R', 'E', ' '] + sql_expr_text(e),
        None => head,
    }
}

// ---------------------------------------------------------------------------
// The dialect
// ---------------------------------------------------------------------------

/// Renders SQL syntax to query text. Every method must produce exactly the
/// text the corresponding spec function describes.
pub trait SqlDialect {
    /// Renders a whole query.
    fn query(&self, query: &SqlQuery) -> (r: String)
        ensures
            r@ == sql_query_text(*query),
    ;

    /// Renders a projection list.
    fn projection(&self, projection: &Vec<SqlFieldRef>) -> (r: String)
        ensures
            r@ == sql_projection_text(projection@, 0),
    ;

    /// Renders a `FROM` clause.
    fn from_clause(&self, from: &SqlFromClause) -> (r: String)
        ensures
            r@ == sql_from_text(*from),
    ;

    /// Renders one join.
    fn join(&self, join: &SqlJoin) -> (r: String)
        ensures
            r@ == sql_join_text(*join),
    ;

    /// Renders an expression.
    fn expr(&self, expr: &SqlExpr) -> (r: String)
        ensures
            r@ == sql_expr_text(*expr),
    ;

    /// Renders a field reference.
    fn field_ref(&self, r: &SqlFieldRef) -> (s: String)
        ensures
            s@ == sql_field_ref_text(*r),
    ;

    /// Renders a binary operation.
    fn binary_op(&self, left: &SqlExpr, op: SqlOp, right: &SqlExpr) -> (r: String)
        ensures
            r@ == sql_expr_text(*left) + seq![' '] + sql_op_text(op) + seq![' '] + sql_expr_text(
                *right,
            ),
    ;

    /// Renders an object reference.
    fn object_ref(&self, object: &SqlObjectRef) -> (r: String)
        ensures
            r@ == sql_object_ref_text(*object),
    ;

    /// Renders an identifier.
    fn identifier(&self, ident: &str) -> (r: String)
        ensures
            r@ == sql_identifier_text(ident@),
    ;
}

/// The plain SQL dialect.
#[derive(Debug, Clone, Copy, PartialEq, Eq, Structural, Default)]
pub struct Sql;

impl SqlDialect for Sql {
    fn query(&self, query: &SqlQuery) -> (r: String) {
        proof {
            reveal_strlit("SELECT ");
            reveal_strlit(" FROM ");
            reveal_strlit(" WHERE ");
        }
        let mut r = String::from_str("SELECT ");
        let projection = self.projection(&query.projection);
        r.append(projection.as_str());
        r.append(" FROM ");
        let from = self.from_clause(&query.from);
        r.append(from.as_str());
        match &query.where_clause {
            Some(where_expr) => {
                r.append(" WHERE ");
                let cond = self.expr(where_expr);
                r.append(cond.as_str());
                proof {
                    assert(r@ =~= sql_query_text(*query));
                }
            },
            None => {
                proof {
                    assert(r@ =~= sql_query_text(*query));
                }
            },
        }
        r
    }

    fn projection(&self, projection: &Vec<SqlFieldRef>) -> (r: String) {
        let mut r = String::new();
        let mut i: usize = 0;
        while i < projection.len()
            invariant
                i <= projection@.len(),
                r@ + sql_projection_text(projection@, i as int) == sql_projection_text(
                    projection@,
                    0,
                ),
            decreases projection@.len() - i,
        {
            if i > 0 {
                proof {
                    reveal_strlit(", ");
                }
                r.append(", ");
            }
            let field = self.field_ref(&projection[i]);
            r.append(field.as_str());
            proof {
                assert(r@ + sql_projection_text(projection@, i + 1) =~= sql_projection_text(
                    projection@,
                    0,
                ));
            }
            i = i + 1;
        }
        proof {
            assert(r@ =~= sql_projection_text(projection@, 0));
        }
        r
    }

    fn from_clause(&self, from: &SqlFromClause) -> (r: String) {
        let mut r = self.object_ref(&from.object);
        let mut i: usize = 0;
        while i < from.joins.len()
            invariant
                i <= from.joins@.len(),
                r@ + sql_joins_text(from.joins@, i as int) == sql_from_text(*from),
            decreases from.joins@.len() - i,
        {
            proof {
                reveal_strlit(" ");
            }
            r.append(" ");
            let join = self.join(&from.joins[i]);
            r.append(join.as_str());
            proof {
                assert(r@ + sql_joins_text(from.joins@, i + 1) =~= sql_from_text(*from));
            }
            i = i + 1;
        }
        proof {
            assert(r@ =~= sql_from_text(*from));
        }
        r
    }

    fn join(&self, join: &SqlJoin) -> (r: String) {
        proof {
            reveal_strlit("INNER JOIN");
            reveal_strlit("LEFT JOIN");
            reveal_strlit("RIGHT JOIN");
            reveal_strlit("OUTER JOIN");
            reveal_strlit(" ");
            reveal_strlit(" ON ");
        }
        let mut r = String::from_str(
            match join.join_type {
                SqlJoinType::Inner => "INNER JOIN",
                SqlJoinType::Left => "LEFT JOIN",
                SqlJoinType::Right => "RIGHT JOIN",
                SqlJoinType::Outer => "OUTER JOIN",
            },
        );
        r.append(" ");
        let object = self.object_ref(&join.object);
        r.append(object.as_str());
        r.append(" ON ");
        let on = self.expr(&join.on);
        r.append(on.as_str());
        proof {
            assert(r@ =~= sql_join_text(*join));
        }
        r
    }

    fn expr(&self, expr: &SqlExpr) -> (r: String) {
        render_expr(expr)
    }

    fn field_ref(&self, r: &SqlFieldRef) -> (s: String) {
        proof {
            reveal_strlit(".");
        }
        let mut s = self.identifier(r.object.as_str());
        s.append(".");
        let field = self.identifier(r.field.as_str());
        s.append(field.as_str());
        proof {
            assert(s@ =~= sql_field_ref_text(*r));
        }
        s
    }

    fn binary_op(&self, left: &SqlExpr, op: SqlOp, right: &SqlExpr) -> (r: String) {
        let mut r = render_expr(left);
        proof {
            reveal_strlit(" ");
        }
        r.append(" ");
        let op_str = render_op(op);
        r.append(op_str.as_str());
        r.append(" ");
        let rhs = render_expr(right);
        r.append(rhs.as_str());
        r
    }

    fn object_ref(&self, object: &SqlObjectRef) -> (r: String) {
        proof {
            reveal_strlit(" AS ");
        }
        let mut r = self.identifier(object.object.as_str());
        r.append(" AS ");
        let alias = self.identifier(object.alias.as_str());
        r.append(alias.as_str());
        proof {
            assert(r@ =~= sql_object_ref_text(*object));
        }
        r
    }

    fn identifier(&self, ident: &str) -> (r: String) {
        String::from_str(ident)
    }
}

/// Renders an operator token.
fn render_op(op: SqlOp) -> (r: String)
    ensures
        r@ == sql_op_text(op),
{
    proof {
        reveal_strlit("=");
        reveal_strlit("<>");
        reveal_strlit(">");
        reveal_strlit(">=");
        reveal_strlit("<");
        reveal_strlit("<=");
        reveal_strlit("AND");
        reveal_strlit("OR");
        reveal_strlit("LIKE");
        reveal_strlit("IS NULL");
        reveal_strlit("IS NOT NULL");
    }
    String::from_str(
        match op {
            SqlOp::Eq => "=",
            SqlOp::Neq => "<>",
            SqlOp::Gt => ">",
            SqlOp::Gte => ">=",
            SqlOp::Lt => "<",
            SqlOp::Lte => "<=",
            SqlOp::And => "AND",
            SqlOp::Or => "OR",
            SqlOp::Like => "LIKE",
            SqlOp::IsNull => "IS NULL",
            SqlOp::IsNotNull => "IS NOT NULL",
        },
    )
}

/// Renders an expression, recursing through binary operations.
fn render_expr(expr: &SqlExpr) -> (r: String)
    ensures
        r@ == sql_expr_text(*expr),
    decreases *expr,
{
    match expr {
        SqlExpr::Null => {
            proof {
                reveal_strlit("NULL");
            }
            String::from_str("NULL")
        },
        SqlExpr::StringLiteral(s) => {
            proof {
                reveal_strlit("'");
            }
            let mut r = String::from_str("'");
            r.append(s.as_str());
            r.append("'");
            proof {
                assert(r@ =~= sql_expr_text(*expr));
            }
            r
        },
        SqlExpr::IntLiteral(i) => crate::query::int_to_string(*i),
        SqlExpr::Ref(field_ref) => {
            proof {
                reveal_strlit(".");
            }
            let mut s = String::from_str(field_ref.object.as_str());
            s.append(".");
            s.append(field_ref.field.as_str());
            proof {
                assert(s@ =~= sql_expr_text(*expr));
            }
            s
        },
        SqlExpr::BinaryOp { left, op, right } => {
            let mut r = render_expr(left);
            proof {
                reveal_strlit(" ");
            }
            r.append(" ");
            let op_str = render_op(*op);
            r.append(op_str.as_str());
            r.append(" ");
            let rhs = render_expr(right);
            r.append(rhs.as_str());
            proof {
                assert(r@ =~= sql_expr_text(*expr));
            }
            r
        },
    }
}

} // verus!
