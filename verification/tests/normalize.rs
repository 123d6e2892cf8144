use std::collections::HashMap;

use csearch_core::cast::{collect_unsupported, dump, TranslationUnit};
use csearch_core::lower::lower_source;
use csearch_core::normalize::{normalize, passes};

fn lower(src: &str) -> TranslationUnit {
    lower_source(src).expect("parse")
}

/// Input for the contract properties, with at least one case per planned pass.
///
/// Deliberately includes trees that already hold `Unsupported` nodes:
/// `normalize` runs before anything rejects them, so every pass has to
/// tolerate them rather than assume a fully-modelled tree.
pub const CORPUS: &[&str] = &[
    "",
    "int f(void) { return 1; }",
    "int f(int a, int b) { int c = a + b; c = g(c, 1); return c; }",
    // split_declarations
    "int f(void) { int a, b = 2; return b; }",
    // desugar_compound_assign — including the aliasing trap
    "int f(void) { int a = 0; a += 1; return a; }",
    "int f(int *arr) { int i = 0; arr[i++] += 1; return i; }",
    // desugar_incdec, in statement and in value position
    "int f(void) { int i = 0; i++; return i; }",
    "int f(void) { int i = 0; int j = i++; return j; }",
    // for_to_while — the second case is the `continue` trap
    "int f(void) { for (int i = 0; i < 10; i++) { g(i); } return 0; }",
    "int f(void) { for (int i = 0; i < 10; i++) { if (i) continue; g(i); } return 0; }",
    // flatten_blocks — the second case is the shadowing trap
    "int f(void) { { int a = 1; { return a; } } }",
    "int f(void) { { int a = 1; g(a); } { int a = 2; g(a); } return 0; }",
    // Top-level constructs lowering does not model.
    "typedef int myint; int g = 1; int f(void) { return 1; }",
];

fn unsupported_counts(unit: &TranslationUnit) -> HashMap<String, usize> {
    let mut counts = HashMap::new();
    for found in collect_unsupported(unit) {
        *counts.entry(found.kind).or_insert(0) += 1;
    }
    counts
}

/// Contract 2. Compared through `dump`, which ignores spans — a pass that
/// rebuilds a statement will not reproduce the original byte offsets.
#[test]
fn every_pass_is_idempotent() {
    for (name, pass) in passes() {
        for src in CORPUS {
            let once = pass.run(lower(src));
            let twice = pass.run(once.clone());
            assert_eq!(
                dump(&once),
                dump(&twice),
                "pass `{name}` is not idempotent on:\n{src}"
            );
        }
    }
}

/// Contract 3. A pass may narrow the set of unmodelled constructs — that
/// is the point of desugaring — but never widen it.
#[test]
fn no_pass_introduces_unsupported() {
    for (name, pass) in passes() {
        for src in CORPUS {
            let before = lower(src);
            let before_counts = unsupported_counts(&before);
            let after_counts = unsupported_counts(&pass.run(before));

            for (kind, after) in &after_counts {
                let before = before_counts.get(kind).copied().unwrap_or(0);
                assert!(
                    *after <= before,
                    "pass `{name}` introduced {} extra `{kind}` node(s) on:\n{src}",
                    after - before,
                );
            }
        }
    }
}

/// The pipeline as a whole, not just each pass — running `normalize` twice
/// must be the same as running it once, or callers have to care how many
/// times it has been applied.
#[test]
fn normalize_is_idempotent() {
    for src in CORPUS {
        let once = normalize(lower(src));
        let twice = normalize(once.clone());
        assert_eq!(
            dump(&once),
            dump(&twice),
            "normalize is not idempotent on:\n{src}"
        );
    }
}

/// Guards the vacuity admitted in the module docs: while every pass is the
/// identity, the contract tests prove nothing. This fails the moment a
/// pass does real work — at which point delete it, because the contract
/// tests above have become meaningful on their own.
#[test]
fn no_pass_is_implemented_yet() {
    for (name, pass) in passes() {
        for src in CORPUS {
            let unit = lower(src);
            assert_eq!(
                dump(&unit),
                dump(&pass.run(unit.clone())),
                "pass `{name}` now rewrites something — delete this test; \
                 the contract tests above are no longer vacuous"
            );
        }
    }
}
