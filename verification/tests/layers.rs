use pice_core::layers::{detect_refusal, dry_run_summary, written_summary, LayerDef, LayersTable};
use pice_core::strmap::StrMap;

fn table(order: &[&str]) -> LayersTable {
    let mut defs = StrMap::new();
    for (i, name) in order.iter().enumerate() {
        defs.insert(
            name.to_string(),
            LayerDef { paths: vec![format!("{}/**", name)], always_run: i == 0, depends_on: vec![] },
        );
    }
    LayersTable { order: order.iter().map(|s| s.to_string()).collect(), defs }
}

#[test]
fn detect_refuses_an_empty_order_with_a_hint() {
    let empty = table(&[]);
    let (code, msg) = detect_refusal(&empty, true, false, false, false).unwrap();
    assert_eq!(code, 1);
    assert_eq!(
        msg,
        "No layers detected. Monorepo stacks were detected but no top-level layers. Create .pice/layers.toml manually with the layers relevant to your root project."
    );
    let (_, msg) = detect_refusal(&empty, false, true, true, true).unwrap();
    assert_eq!(
        msg,
        "No layers detected. Try adding framework dependencies or organizing code into recognizable directories."
    );
}

#[test]
fn detect_refuses_to_overwrite_without_force() {
    let t = table(&["backend"]);
    let (code, msg) = detect_refusal(&t, false, true, true, false).unwrap();
    assert_eq!(code, 1);
    assert_eq!(msg, ".pice/layers.toml already exists. Use --force to overwrite.");
    assert!(detect_refusal(&t, false, true, true, true).is_none());
    assert!(detect_refusal(&t, false, true, false, false).is_none());
    assert!(detect_refusal(&t, false, false, true, false).is_none());
}

#[test]
fn detect_summaries() {
    let mut t = table(&["infrastructure", "backend"]);
    t.order.push("ghost".to_string());
    assert_eq!(
        written_summary(&t, 2),
        "Wrote .pice/layers.toml with 3 layers:\n  - infrastructure (always_run)\n  - backend\n\nCreated 2 contract templates in .pice/contracts/\n"
    );
    assert_eq!(
        written_summary(&t, 0),
        "Wrote .pice/layers.toml with 3 layers:\n  - infrastructure (always_run)\n  - backend\n"
    );
    assert_eq!(
        dry_run_summary(&t, "[layers]\n"),
        "Detected 3 layers (dry run — use --write to persist):\n\n[layers]\n"
    );
}
