use steampipe::batch::resolver::{
    choose_candidate, fidelity_from_lowercase, join_path_text, layer_candidates, trim_slashes, Fidelity,
    FidelityError, ResolvePlan, Resolver, strip_root,
};
use steampipe::batch::{Batch, BatchManifest};

#[test]
fn test_fidelity_from_str() {
    assert!(matches!(Fidelity::from_str("l0").unwrap(), Fidelity::Partial));
    assert!(matches!(Fidelity::from_str("partial").unwrap(), Fidelity::Partial));
    assert!(matches!(Fidelity::from_str("l0_partial").unwrap(), Fidelity::Partial));
    assert!(matches!(Fidelity::from_str("l1").unwrap(), Fidelity::Skeletal));
    assert!(matches!(Fidelity::from_str("skeletal").unwrap(), Fidelity::Skeletal));
    assert!(matches!(Fidelity::from_str("l1_skeletal").unwrap(), Fidelity::Skeletal));
    assert!(matches!(Fidelity::from_str("l2").unwrap(), Fidelity::Architectural));
    assert!(matches!(Fidelity::from_str("architectural").unwrap(), Fidelity::Architectural));
    assert!(matches!(Fidelity::from_str("l2_architectural").unwrap(), Fidelity::Architectural));
    assert!(matches!(Fidelity::from_str("src").unwrap(), Fidelity::Source));
    assert!(matches!(Fidelity::from_str("source").unwrap(), Fidelity::Source));
    assert!(Fidelity::from_str("invalid").is_err());
}

#[test]
fn fidelity_names_ignore_case() {
    assert!(matches!(Fidelity::from_str("L2").unwrap(), Fidelity::Architectural));
    assert!(matches!(Fidelity::from_str("Source").unwrap(), Fidelity::Source));
    match Fidelity::from_str("L3") {
        Err(FidelityError::UnknownFidelity(name)) => assert_eq!(name, "L3"),
        Ok(_) => panic!("L3 is not a level"),
    }
    assert_eq!(fidelity_from_lowercase("L0"), None);
    assert_eq!(fidelity_from_lowercase("l0"), Some(Fidelity::Partial));
}

#[test]
fn layer_names() {
    assert_eq!(Fidelity::Partial.to_layer_name(), "L0_partial");
    assert_eq!(Fidelity::Skeletal.to_layer_name(), "L1_skeletal");
    assert_eq!(Fidelity::Architectural.to_layer_name(), "L2_architectural");
    assert_eq!(Fidelity::Source.to_layer_name(), "source");
}

fn sample_batch() -> Batch {
    Batch {
        root: "/tmp/batch".to_string(),
        source_root: "/tmp/batch/src".to_string(),
        manifest: BatchManifest {
            source: "/tmp/batch/src".to_string(),
            canon: "/tmp/batch/canon.bin".to_string(),
            created: "test".to_string(),
            embedding_provider: "none".to_string(),
        },
        embedding_provider: "none".to_string(),
    }
}

#[test]
fn resolve_plans() {
    let batch = sample_batch();
    let resolver = Resolver::new(&batch);
    match resolver.resolve_path("src/main.rs", Fidelity::Source) {
        ResolvePlan::Resolved(p) => assert_eq!(p, "/tmp/batch/src/src/main.rs"),
        _ => panic!("source paths resolve at once"),
    }
    match resolver.resolve_path("/tmp/batch/src/src/a.rs", Fidelity::Source) {
        ResolvePlan::Resolved(p) => assert_eq!(p, "/tmp/batch/src/src/a.rs"),
        _ => panic!("source paths resolve at once"),
    }
    match resolver.resolve_path("/tmp/batch/src/./lib.rs", Fidelity::Skeletal) {
        ResolvePlan::InLayer(l, n) => {
            assert_eq!(l, "L1_skeletal");
            assert_eq!(n, "lib.rs");
        }
        _ => panic!("layer paths need the layer's project root"),
    }
    match resolver.resolve_path("/tmp/batchx/a.rs", Fidelity::Source) {
        ResolvePlan::Resolved(p) => assert_eq!(p, "/tmp/batch/src/tmp/batchx/a.rs"),
        _ => panic!("source paths resolve at once"),
    }
    match resolver.resolve_path("//x.rs", Fidelity::Source) {
        ResolvePlan::Resolved(p) => assert_eq!(p, "/tmp/batch/src/x.rs"),
        _ => panic!("source paths resolve at once"),
    }
    match resolver.resolve_path("lib.rs", Fidelity::Architectural) {
        ResolvePlan::InLayer(l, n) => {
            assert_eq!(l, "L2_architectural");
            assert_eq!(n, "lib.rs");
        }
        _ => panic!("layer paths need the layer's project root"),
    }
    match resolver.resolve_path("/etc/passwd", Fidelity::Partial) {
        ResolvePlan::InLayer(l, n) => {
            assert_eq!(l, "L0_partial");
            assert_eq!(n, "etc/passwd");
        }
        _ => panic!("a leading slash makes no path absolute here"),
    }
}

#[test]
fn path_joining() {
    assert_eq!(join_path_text("/a", "b"), "/a/b");
    assert_eq!(join_path_text("/a/", "b"), "/a/b");
    assert_eq!(join_path_text("", "b"), "b");
    assert_eq!(join_path_text("/a", "/b"), "/b");
    assert_eq!(join_path_text("/a", ""), "/a/");
    assert_eq!(trim_slashes("///x/y"), "x/y");
    assert_eq!(trim_slashes("x/"), "x/");
    let (plain, dstl) = layer_candidates("/l/proj", "main.rs");
    assert_eq!(plain, "/l/proj/main.rs");
    assert_eq!(dstl, "/l/proj/main.rs.dstl");
    assert_eq!(choose_candidate(plain.clone(), dstl.clone(), false, true), dstl);
    assert_eq!(choose_candidate(plain.clone(), dstl.clone(), true, true), plain);
    assert_eq!(choose_candidate(plain.clone(), dstl.clone(), false, false), plain);
}

#[test]
fn the_source_root_prefix_is_taken_off() {
    assert_eq!(strip_root("/repo/src/a.rs", "/repo"), "src/a.rs");
    assert_eq!(strip_root("/repo//src/./a.rs/", "/repo/"), "src/a.rs");
    assert_eq!(strip_root("/repository/a.rs", "/repo"), "/repository/a.rs");
    assert_eq!(strip_root("src/a.rs", "/repo"), "src/a.rs");
    assert_eq!(strip_root("/a/b", "/"), "a/b");
    assert_eq!(strip_root("/repo", "/repo"), "");
}

#[test]
fn level_folder_names_parse_back() {
    assert!(matches!(Fidelity::from_str("L2_Architectural"), Ok(Fidelity::Architectural)));
    for f in [Fidelity::Partial, Fidelity::Skeletal, Fidelity::Architectural, Fidelity::Source] {
        assert_eq!(Fidelity::from_str(&f.to_layer_name()).ok(), Some(f));
    }
}
