use sq::sql::{
    Sql, SqlDialect, SqlExpr, SqlFieldRef, SqlFromClause, SqlJoin, SqlJoinType, SqlObjectRef,
    SqlOp, SqlQuery,
};

fn field(object: &str, name: &str) -> SqlFieldRef {
    SqlFieldRef { object: object.to_string(), field: name.to_string() }
}

#[test]
fn test_query() {
    let query = SqlQuery {
        projection: vec![field("u", "id"), field("u", "name")],
        from: SqlFromClause {
            object: SqlObjectRef { object: "users".to_string(), alias: "u".to_string() },
            joins: vec![],
        },
        where_clause: Some(SqlExpr::BinaryOp {
            left: Box::new(SqlExpr::Ref(field("u", "active"))),
            op: SqlOp::Eq,
            right: Box::new(SqlExpr::IntLiteral(1)),
        }),
    };

    let sql = Sql.query(&query);
    assert_eq!(sql, "SELECT u.id, u.name FROM users AS u WHERE u.active = 1");
}

#[test]
fn test_query_with_join() {
    let query = SqlQuery {
        projection: vec![field("u", "id"), field("p", "title")],
        from: SqlFromClause {
            object: SqlObjectRef { object: "users".to_string(), alias: "u".to_string() },
            joins: vec![SqlJoin {
                join_type: SqlJoinType::Left,
                object: SqlObjectRef { object: "posts".to_string(), alias: "p".to_string() },
                on: SqlExpr::BinaryOp {
                    left: Box::new(SqlExpr::Ref(field("u", "id"))),
                    op: SqlOp::Eq,
                    right: Box::new(SqlExpr::Ref(field("p", "user_id"))),
                },
            }],
        },
        where_clause: None,
    };

    let sql = Sql.query(&query);
    assert_eq!(sql, "SELECT u.id, p.title FROM users AS u LEFT JOIN posts AS p ON u.id = p.user_id");
}

#[test]
fn expressions_render_each_operator() {
    let lhs = || Box::new(SqlExpr::Ref(field("t", "a")));
    let rhs = || Box::new(SqlExpr::IntLiteral(3));
    let cases = [
        (SqlOp::Eq, "t.a = 3"),
        (SqlOp::Neq, "t.a <> 3"),
        (SqlOp::Gt, "t.a > 3"),
        (SqlOp::Gte, "t.a >= 3"),
        (SqlOp::Lt, "t.a < 3"),
        (SqlOp::Lte, "t.a <= 3"),
        (SqlOp::And, "t.a AND 3"),
        (SqlOp::Or, "t.a OR 3"),
        (SqlOp::Like, "t.a LIKE 3"),
    ];
    for (op, expected) in cases {
        let e = SqlExpr::BinaryOp { left: lhs(), op, right: rhs() };
        assert_eq!(Sql.expr(&e), expected);
    }
}

#[test]
fn literals_and_null_render() {
    assert_eq!(Sql.expr(&SqlExpr::Null), "NULL");
    assert_eq!(Sql.expr(&SqlExpr::StringLiteral("abc".to_string())), "'abc'");
    assert_eq!(Sql.expr(&SqlExpr::IntLiteral(-7)), "-7");
}

#[test]
fn dialect_pieces_render() {
    assert_eq!(Sql.identifier("users"), "users");
    assert_eq!(Sql.field_ref(&field("u", "id")), "u.id");
    assert_eq!(
        Sql.object_ref(&SqlObjectRef { object: "users".to_string(), alias: "u".to_string() }),
        "users AS u"
    );
    assert_eq!(
        Sql.binary_op(&SqlExpr::IntLiteral(1), SqlOp::Lt, &SqlExpr::IntLiteral(2)),
        "1 < 2"
    );
    assert_eq!(Sql.projection(&vec![field("a", "b"), field("c", "d")]), "a.b, c.d");
}
