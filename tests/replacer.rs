use std::collections::HashMap;

use chaudloader::replacer::{escape_name, Replacer, ReplacerError, Resolution};

/// Runs the producer named by `token` into `dest` in `files`, counting calls.
fn run_producer(token: u64, dest: &str, files: &mut HashMap<String, Vec<u8>>, calls: &mut u32) -> bool {
    *calls += 1;
    let bytes = vec![token as u8; 42];
    files.insert(dest.to_string(), bytes);
    true
}

fn resolve(r: &mut Replacer, path: &str, files: &mut HashMap<String, Vec<u8>>, calls: &mut u32) -> Result<Option<String>, ReplacerError> {
    match r.get(path)? {
        Resolution::Unregistered => Ok(None),
        Resolution::Cached(p) => Ok(Some(p)),
        Resolution::Materialize { producer, dest } => {
            let ok = run_producer(producer, &dest, files, calls);
            r.complete(path, ok).map(Some)
        }
    }
}

#[test]
fn resolve_materializes_once() {
    let mut r = Replacer::new("tmp".to_string());
    r.add("f.dat", 7);
    let mut files = HashMap::new();
    let mut calls = 0;
    let p = resolve(&mut r, "f.dat", &mut files, &mut calls).unwrap().unwrap();
    assert_eq!(p, "tmp/asset-f.dat");
    assert_eq!(files[&p].len(), 42);
    let q = resolve(&mut r, "f.dat", &mut files, &mut calls).unwrap().unwrap();
    assert_eq!(p, q);
    assert_eq!(calls, 1);
}

#[test]
fn resolve_unregistered_is_a_no_op() {
    let mut r = Replacer::new("tmp".to_string());
    let mut files = HashMap::new();
    let mut calls = 0;
    assert_eq!(resolve(&mut r, "other.dat", &mut files, &mut calls), Ok(None));
    assert_eq!(calls, 0);
    assert!(files.is_empty());
}

#[test]
fn failed_producer_is_reported_and_sticks() {
    let mut r = Replacer::new("tmp".to_string());
    r.add("g.dat", 1);
    match r.get("g.dat").unwrap() {
        Resolution::Materialize { producer, dest } => {
            assert_eq!(producer, 1);
            assert_eq!(dest, "tmp/asset-g.dat");
        }
        _ => panic!("expected a materialization"),
    }
    assert_eq!(r.complete("g.dat", false), Err(ReplacerError::MaterializationFailed));
    assert!(matches!(r.get("g.dat"), Err(ReplacerError::MaterializationFailed)));
}

#[test]
fn resolve_during_materialization_is_a_violation() {
    let mut r = Replacer::new("tmp".to_string());
    r.add("h.dat", 1);
    assert!(matches!(r.get("h.dat"), Ok(Resolution::Materialize { .. })));
    assert!(matches!(r.get("h.dat"), Err(ReplacerError::ConsistencyViolation)));
    assert_eq!(r.complete("other", true), Err(ReplacerError::ConsistencyViolation));
}

#[test]
fn purge_after_materialization() {
    let mut r = Replacer::new("tmp".to_string());
    r.add("f.dat", 3);
    let mut files = HashMap::new();
    let mut calls = 0;
    let p = resolve(&mut r, "f.dat", &mut files, &mut calls).unwrap().unwrap();
    assert_eq!(r.purge("f.dat"), Ok(Some(p)));
    assert_eq!(resolve(&mut r, "f.dat", &mut files, &mut calls), Ok(None));
    assert_eq!(r.purge("f.dat"), Ok(None));
}

#[test]
fn purge_pending_is_refused() {
    let mut r = Replacer::new("tmp".to_string());
    r.add("f.dat", 3);
    assert_eq!(r.purge("f.dat"), Err(ReplacerError::NotPurgeable));
    assert!(matches!(r.get("f.dat"), Ok(Resolution::Materialize { .. })));
}

#[test]
fn escaped_names() {
    assert_eq!(escape_name("data/exe1.dat"), "data_Sexe1.dat");
    assert_eq!(escape_name("../a_b"), ".._Sa__b");
    assert_eq!(escape_name(".\\x\\y"), "._Bx_By");
    assert_eq!(escape_name("C:x"), "C_Cx");
    assert_eq!(escape_name("plain"), "plain");
    assert_ne!(escape_name("a/b"), escape_name("a\\b"));
    assert_ne!(escape_name("a_Sb"), escape_name("a/b"));
    let r = Replacer::new("/tmp/chaudloader".to_string());
    assert_eq!(r.dest_for("data/exe1.dat"), "/tmp/chaudloader/asset-data_Sexe1.dat");
}

#[test]
fn clear_drops_every_registration() {
    let mut r = Replacer::new("tmp".to_string());
    r.add("a", 1);
    r.add("b", 2);
    r.clear();
    assert!(matches!(r.get("a"), Ok(Resolution::Unregistered)));
    assert!(matches!(r.get("b"), Ok(Resolution::Unregistered)));
}
