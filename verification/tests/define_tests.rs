use sq::arena::Arena;
use sq::define::{object_definition, object_names, sort_names, DefineError};
use sq::schema::{Column, DataType, Object, Schema};

fn column(name: &str) -> Column {
    Column { name: name.to_string(), data_type: DataType::Unknown, nullable: true }
}

#[test]
fn definition_lists_columns_sorted_by_name() {
    let mut schema = Schema::new();
    let name_col = schema.columns.allocate(column("name"));
    let id_col = schema.columns.allocate(column("id"));
    let active_col = schema.columns.allocate(column("active"));
    schema.objects.allocate(Object::Table {
        name: "users".to_string(),
        columns: vec![name_col, id_col, active_col],
        foreign_keys: vec![],
    });

    let cols = object_definition(&schema, "user").unwrap();
    assert_eq!(cols, vec!["active".to_string(), "id".to_string(), "name".to_string()]);
}

#[test]
fn definition_fails_for_unknown_objects() {
    let mut schema = Schema::new();
    schema.objects.allocate(Object::Table {
        name: "users".to_string(),
        columns: vec![],
        foreign_keys: vec![],
    });
    assert_eq!(object_definition(&schema, "fizz"), Err(DefineError::UnknownObject));
}

#[test]
fn object_names_come_in_allocation_order() {
    let mut schema = Schema::new();
    schema.objects.allocate(Object::Table {
        name: "b".to_string(),
        columns: vec![],
        foreign_keys: vec![],
    });
    schema.objects.allocate(Object::View { name: "a".to_string(), columns: vec![] });
    assert_eq!(object_names(&schema), vec!["b".to_string(), "a".to_string()]);
}

#[test]
fn sorting_is_stable_under_duplicates() {
    let names = vec!["pear".to_string(), "apple".to_string(), "pear".to_string()];
    let sorted = sort_names(names);
    assert_eq!(sorted, vec!["apple".to_string(), "pear".to_string(), "pear".to_string()]);
}
