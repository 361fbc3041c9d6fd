use chaudloader::hooks::{finish_open, handle_key, plan_open, HookGuard, OpenAction, FILE_SHARE_DELETE};
use chaudloader::path::{canonicalize, ensure_safe};
use chaudloader::replacer::{Replacer, ReplacerError};

#[test]
fn guards_nest() {
    let mut hook = true;
    let outer = HookGuard::acquire(&mut hook);
    assert!(!hook);
    assert!(outer.must_disable());
    let inner = HookGuard::acquire(&mut hook);
    assert!(!inner.must_reenable());
    inner.release(&mut hook);
    assert!(!hook);
    outer.release(&mut hook);
    assert!(hook);
}

#[test]
fn guard_on_disabled_hook_leaves_it_disabled() {
    let mut hook = false;
    let g = HookGuard::acquire(&mut hook);
    g.release(&mut hook);
    assert!(!hook);
    assert!(HookGuard::new(true).must_disable());
}

#[test]
fn canonical_forms() {
    assert_eq!(canonicalize("./data/../data/exe1.dat"), "data/exe1.dat");
    assert_eq!(canonicalize("a//b/./c"), "a/b/c");
    assert_eq!(canonicalize(""), ".");
}

#[test]
fn safe_paths() {
    assert_eq!(ensure_safe("a/b/../c"), Some("a/c".to_string()));
    assert_eq!(ensure_safe("../x"), None);
    assert_eq!(ensure_safe("a/../../x"), None);
    assert_eq!(ensure_safe("/etc/passwd"), None);
    assert_eq!(ensure_safe("..foo"), Some("..foo".to_string()));
}

#[test]
fn open_passes_through_unregistered_paths() {
    let mut r = Replacer::new("tmp".to_string());
    let a = plan_open(&mut r, "./data/../data/x.dat", 1).unwrap();
    assert_eq!(handle_key(&a), None);
    match a {
        OpenAction::PassThrough { path, share_mode } => {
            assert_eq!(path, "data/x.dat");
            assert_eq!(share_mode, 1);
        }
        _ => panic!("expected pass-through"),
    }
}

#[test]
fn open_materializes_then_substitutes() {
    let mut r = Replacer::new("tmp".to_string());
    r.add("data/x.dat", 11);
    let (key, dest) = match plan_open(&mut r, "data/./x.dat", 1).unwrap() {
        OpenAction::Materialize { key, producer, dest, share_mode } => {
            assert_eq!(producer, 11);
            assert_eq!(share_mode, 1);
            (key, dest)
        }
        _ => panic!("expected materialization"),
    };
    assert_eq!(key, "data/x.dat");
    assert_eq!(dest, "tmp/asset-data_Sx.dat");
    let done = finish_open(&mut r, &key, true, 1).unwrap();
    assert_eq!(handle_key(&done), Some("data/x.dat".to_string()));
    match done {
        OpenAction::Substitute { key: k, path, share_mode } => {
            assert_eq!(k, "data/x.dat");
            assert_eq!(path, dest);
            assert_eq!(share_mode, 1 | FILE_SHARE_DELETE);
        }
        _ => panic!("expected substitution"),
    }
    match plan_open(&mut r, "data/x.dat", 3).unwrap() {
        OpenAction::Substitute { path, share_mode, .. } => {
            assert_eq!(path, dest);
            assert_eq!(share_mode, 7);
        }
        _ => panic!("expected substitution"),
    }
}

#[test]
fn open_fails_when_producer_failed() {
    let mut r = Replacer::new("tmp".to_string());
    r.add("y.dat", 2);
    assert!(matches!(plan_open(&mut r, "y.dat", 0), Ok(OpenAction::Materialize { .. })));
    assert!(matches!(finish_open(&mut r, "y.dat", false, 0), Err(ReplacerError::MaterializationFailed)));
    assert!(matches!(plan_open(&mut r, "y.dat", 0), Err(ReplacerError::MaterializationFailed)));
}
