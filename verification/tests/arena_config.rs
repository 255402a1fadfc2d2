use sq::arena::{Arena, PersistedArena};
use sq::config::{Config, Profile};
use sq::db::DriverConfig;
use sq::schema::{ForeignKey, Object, Schema};

#[test]
fn arena_allocates_stable_ids() {
    let mut arena: PersistedArena<u32> = PersistedArena::new();
    assert_eq!(arena.len(), 0);
    let a = arena.allocate(10);
    let b = arena.allocate(20);
    assert_ne!(a, b);
    assert_eq!(a.index(), 0);
    assert_eq!(b.index(), 1);
    assert_eq!(arena.get(a), Some(&10));
    assert_eq!(arena.get(b), Some(&20));
    assert_eq!(arena.len(), 2);
}

#[test]
fn arena_get_fails_softly_for_foreign_ids() {
    let mut one: PersistedArena<u32> = PersistedArena::new();
    let other: PersistedArena<u32> = PersistedArena::default();
    let a = one.allocate(10);
    assert_eq!(other.get(a), None);
}

#[test]
fn foreign_objects_lists_referencing_tables_in_order() {
    let mut schema = Schema::new();
    let target = schema.objects.allocate(Object::Table {
        name: "users".to_string(),
        columns: vec![],
        foreign_keys: vec![],
    });
    let col = schema.columns.allocate(sq::schema::Column {
        name: "user_id".to_string(),
        data_type: sq::schema::DataType::Unknown,
        nullable: true,
    });
    let fk = ForeignKey { column: col, referenced_object: target, referenced_column: col };
    let a = schema.objects.allocate(Object::Table {
        name: "a".to_string(),
        columns: vec![],
        foreign_keys: vec![fk],
    });
    schema.objects.allocate(Object::Table {
        name: "b".to_string(),
        columns: vec![],
        foreign_keys: vec![],
    });
    let c = schema.objects.allocate(Object::Table {
        name: "c".to_string(),
        columns: vec![],
        foreign_keys: vec![fk],
    });
    let refs = schema.foreign_objects(target);
    assert_eq!(refs, vec![a, c]);
}

#[test]
fn schema_path_is_derived_from_the_profile_name() {
    let profile = Profile::new(
        DriverConfig::Odbc { connection_string: "dsn=x".to_string() },
        "default".to_string(),
    );
    assert_eq!(profile.schema_path("/home/me/.config/sq"), "/home/me/.config/sq/default.schema.json");
}

#[test]
fn profiles_are_found_by_name() {
    let mut config = Config::new();
    config.profiles.push(Profile::new(
        DriverConfig::Odbc { connection_string: "dsn=a".to_string() },
        "alpha".to_string(),
    ));
    config.profiles.push(Profile::new(
        DriverConfig::Odbc { connection_string: "dsn=b".to_string() },
        "beta".to_string(),
    ));
    assert_eq!(config.get_profile("beta").unwrap().name(), "beta");
    assert!(config.get_profile("gamma").is_none());
    assert!(Config::default().get_profile("default").is_none());
}
