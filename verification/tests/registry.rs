use nanolog::registry::{RegistryError, SiteRegistry};

#[test]
fn dense_ids_in_discovery_order() {
    let mut reg = SiteRegistry::new();
    let a = reg.register("src/a.rs".to_string(), 10, "[T1] hi".to_string(), 0).unwrap();
    let b = reg.register("src/a.rs".to_string(), 11, "a=%d b=%f".to_string(), 2).unwrap();
    let c = reg.register("src/b.rs".to_string(), 10, "x=%d".to_string(), 1).unwrap();
    assert_eq!(a, 0);
    assert_eq!(b, 1);
    assert_eq!(c, 2);
    assert_eq!(reg.site_count(), 3);
}

#[test]
fn duplicate_site_is_rejected() {
    let mut reg = SiteRegistry::new();
    reg.register("src/a.rs".to_string(), 10, "one".to_string(), 0).unwrap();
    // Same (file, line): rejected even though the literal differs.
    let r = reg.register("src/a.rs".to_string(), 10, "two".to_string(), 0);
    assert_eq!(r, Err(RegistryError::DuplicateSite));
    assert_eq!(reg.site_count(), 1);
    // Same line in another file is fine.
    assert!(reg.register("src/b.rs".to_string(), 10, "two".to_string(), 0).is_ok());
}

#[test]
fn arity_mismatch_is_rejected() {
    let mut reg = SiteRegistry::new();
    let r = reg.register("src/a.rs".to_string(), 5, "a=%d".to_string(), 2);
    assert_eq!(r, Err(RegistryError::ArityMismatch { expected: 1, supplied: 2 }));
    assert_eq!(reg.site_count(), 0);
}

#[test]
fn unknown_specifier_is_rejected() {
    let mut reg = SiteRegistry::new();
    let r = reg.register("src/a.rs".to_string(), 5, "a=%s".to_string(), 1);
    assert_eq!(r, Err(RegistryError::UnknownSpecifier));
    assert_eq!(reg.site_count(), 0);
}

#[test]
fn record_sizes_follow_the_shape() {
    let mut reg = SiteRegistry::new();
    reg.register("src/a.rs".to_string(), 10, "[T1] hi".to_string(), 0).unwrap();
    reg.register("src/a.rs".to_string(), 11, "a=%d b=%f".to_string(), 2).unwrap();
    assert_eq!(reg.record_size(0), Some(0));
    assert_eq!(reg.record_size(1), Some(16));
    assert_eq!(reg.record_size(2), None);
    assert_eq!(reg.placeholder_count(1), Some(2));
}

#[test]
fn literal_table_is_indexed_by_id() {
    let mut reg = SiteRegistry::new();
    reg.register("src/a.rs".to_string(), 10, "[T1] hi".to_string(), 0).unwrap();
    reg.register("src/a.rs".to_string(), 11, "a=%d b=%f".to_string(), 2).unwrap();
    let lits = reg.literals();
    assert_eq!(lits, vec!["[T1] hi".to_string(), "a=%d b=%f".to_string()]);
    assert_eq!(reg.format_literal(1).unwrap(), "a=%d b=%f");
    assert!(reg.format_literal(2).is_none());
}

#[test]
fn distinct_shapes_first_appearance_order() {
    let mut reg = SiteRegistry::new();
    reg.register("a.rs".to_string(), 1, "plain".to_string(), 0).unwrap();
    reg.register("a.rs".to_string(), 2, "a=%d b=%f".to_string(), 2).unwrap();
    reg.register("a.rs".to_string(), 3, "also plain".to_string(), 0).unwrap();
    reg.register("a.rs".to_string(), 4, "x=%d y=%f".to_string(), 2).unwrap();
    reg.register("a.rs".to_string(), 5, "%f only".to_string(), 1).unwrap();
    let shapes = reg.distinct_shapes();
    assert_eq!(shapes, vec!["".to_string(), "DF".to_string(), "F".to_string()]);
}
