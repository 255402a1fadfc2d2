use sq::alg::{Score, SCORE_UNIT};
use sq::arena::{Arena, Id};
use sq::query::parse;
use sq::resolve::resolve;
use sq::schema::{Column, DataType, ForeignKey, Object, Schema};

fn table(name: &str) -> Object {
    Object::Table { name: name.to_string(), columns: vec![], foreign_keys: vec![] }
}

#[test]
fn exact_match_beats_prefix_match() {
    // Entities named `bar` (score 10) and `barstool` (score 100): the token
    // `bar` must return `bar`.
    let mut schema = Schema::new();
    let bar = schema.objects.allocate(table("bar"));
    let barstool = schema.objects.allocate(table("barstool"));
    schema.object_scores.set(bar, Score::new(10 * SCORE_UNIT, 0));
    schema.object_scores.set(barstool, Score::new(100 * SCORE_UNIT, 0));

    let out = resolve(&mut schema, parse("bar").unwrap(), 1000).unwrap();
    assert_eq!(out.object.root, bar);
}

#[test]
fn highest_score_breaks_prefix_ties() {
    // `bar` (score 10) and `baz` (score 5) both prefix-match `ba`; the
    // resolver must return `bar`.
    let mut schema = Schema::new();
    let bar = schema.objects.allocate(table("bar"));
    let baz = schema.objects.allocate(table("baz"));
    schema.object_scores.set(bar, Score::new(10 * SCORE_UNIT, 0));
    schema.object_scores.set(baz, Score::new(5 * SCORE_UNIT, 0));

    let out = resolve(&mut schema, parse("ba").unwrap(), 1000).unwrap();
    assert_eq!(out.object.root, bar);
}

#[test]
fn no_match_names_the_offending_token() {
    let mut schema = Schema::new();
    schema.objects.allocate(table("foo"));
    schema.objects.allocate(table("bar"));
    schema.objects.allocate(table("baz"));

    let err = resolve(&mut schema, parse("fizz").unwrap(), 1000).unwrap_err();
    assert_eq!(err.identifier, "fizz");
}

fn ancestor_schema() -> (Schema, Id<Object>, Id<Object>, Id<Object>) {
    let mut schema = Schema::new();
    let users_id_col = schema.columns.allocate(Column {
        name: "id".to_string(),
        data_type: DataType::Integer,
        nullable: false,
    });
    let users = schema.objects.allocate(Object::Table {
        name: "users".to_string(),
        columns: vec![users_id_col],
        foreign_keys: vec![],
    });
    let priv_user_col = schema.columns.allocate(Column {
        name: "user_id".to_string(),
        data_type: DataType::Integer,
        nullable: false,
    });
    let privileges = schema.objects.allocate(Object::Table {
        name: "privileges".to_string(),
        columns: vec![priv_user_col],
        foreign_keys: vec![ForeignKey {
            column: priv_user_col,
            referenced_object: users,
            referenced_column: users_id_col,
        }],
    });
    let logs = schema.objects.allocate(table("logs"));
    (schema, users, privileges, logs)
}

#[test]
fn ancestor_constraint_limits_the_child_universe() {
    // `privileges` references `users` via a foreign key; `logs` does not.
    let (mut schema, users, privileges, _logs) = ancestor_schema();
    let out = resolve(&mut schema, parse("user>priv").unwrap(), 1000).unwrap();
    assert_eq!(out.object.root, users);
    assert_eq!(out.object.children.len(), 1);
    assert_eq!(out.object.children[0].root, privileges);

    // `user>log` must fail even though `logs` would textually match.
    let (mut schema, _, _, _) = ancestor_schema();
    let err = resolve(&mut schema, parse("user>log").unwrap(), 1000).unwrap_err();
    assert_eq!(err.identifier, "log");
}

#[test]
fn resolution_is_case_insensitive() {
    for token in ["USERS", "users", "UsErS", "Users"] {
        let mut schema = Schema::new();
        let users = schema.objects.allocate(table("Users"));
        let out = resolve(&mut schema, parse(token).unwrap(), 1000).unwrap();
        assert_eq!(out.object.root, users, "token {} must resolve to Users", token);
    }
}

#[test]
fn the_winner_takes_a_score_hit() {
    let mut schema = Schema::new();
    let bar = schema.objects.allocate(table("bar"));

    // First use seeds the score.
    resolve(&mut schema, parse("bar").unwrap(), 1000).unwrap();
    let first = schema.object_scores.get(bar).unwrap();
    assert_eq!(first.value, 4 * SCORE_UNIT);
    assert_eq!(first.timestamp, 1000);

    // A second use within the hour quadruples it.
    resolve(&mut schema, parse("bar").unwrap(), 2000).unwrap();
    let second = schema.object_scores.get(bar).unwrap();
    assert_eq!(second.value, 16 * SCORE_UNIT);
    assert_eq!(second.timestamp, 2000);
}

#[test]
fn predicates_are_carried_over_unresolved() {
    let mut schema = Schema::new();
    schema.objects.allocate(table("users"));
    let parsed = parse("users active=1").unwrap();
    let out = resolve(&mut schema, parsed, 1000).unwrap();
    assert_eq!(out.predicates.len(), 1);
    assert_eq!(out.predicates[0].identifier, "active");
}

#[test]
fn views_never_constrain_children() {
    // A view referencing nothing cannot appear under a parent.
    let mut schema = Schema::new();
    let users = schema.objects.allocate(table("users"));
    schema.objects.allocate(Object::View {
        name: "user_audit".to_string(),
        columns: vec![],
    });
    let out = resolve(&mut schema, parse("users").unwrap(), 1000).unwrap();
    assert_eq!(out.object.root, users);
    let err = resolve(&mut schema, parse("users>audit").unwrap(), 1000).unwrap_err();
    assert_eq!(err.identifier, "audit");
}
