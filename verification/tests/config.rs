use gabriel_laevis::config::{ConfigError, ModelConfig, RunConfig};

#[test]
fn defaults_are_sane() {
    let c = ModelConfig::new();
    assert_eq!(c.d_inner(), c.expand * c.d_model);
    c.validate()
        .expect("default config must satisfy the block invariants");
    assert_eq!(ModelConfig::new().with_vocab_size(64).vocab_size, 64);
}

#[test]
fn validate_rejects_bad_shapes() {
    // d_state not a multiple of 4.
    assert!(ModelConfig::new().with_d_state(30).validate().is_err());
    // d_inner not divisible by headdim (768 % 5 != 0).
    assert!(ModelConfig::new().with_headdim(5).validate().is_err());
    // nheads not divisible by ngroups (12 heads, 5 groups).
    assert!(ModelConfig::new().with_ngroups(5).validate().is_err());
}

#[test]
fn validate_names_the_first_violation() {
    let e = ModelConfig::new().with_headdim(5).with_d_state(30).validate().unwrap_err();
    assert!(matches!(e, ConfigError::HeadWidth { d_inner: 768, headdim: 5, .. }));
    let e = ModelConfig::new().with_headdim(0).validate().unwrap_err();
    assert!(matches!(e, ConfigError::HeadWidth { headdim: 0, .. }));
    let e = ModelConfig::new().with_ngroups(5).validate().unwrap_err();
    assert!(matches!(e, ConfigError::Groups { nheads: 12, ngroups: 5 }));
    let e = ModelConfig::new().with_d_state(30).validate().unwrap_err();
    assert!(matches!(e, ConfigError::StateSize { d_state: 30 }));
    assert_eq!(
        e.message(),
        "d_state (30) must be a multiple of 4 (rotation pairs x half-RoPE)"
    );
}

#[test]
fn builders_change_one_field() {
    let c = ModelConfig::new()
        .with_d_model(64)
        .with_n_layers(2)
        .with_d_state(32)
        .with_headdim(32)
        .with_d_ff(128)
        .with_expand(3)
        .with_ngroups(2)
        .with_max_seq_len(99);
    assert_eq!(
        (c.d_model, c.n_layers, c.d_state, c.headdim, c.d_ff, c.expand, c.ngroups, c.max_seq_len),
        (64, 2, 32, 32, 128, 3, 2, 99)
    );
    assert_eq!(c.nheads(), 6);
    assert_eq!(f64::from_bits(ModelConfig::new().init_std_bits), 0.02);
    assert_eq!(ModelConfig::new().with_init_std_bits(7).init_std_bits, 7);
}

#[test]
fn a_run_shapes_its_model() {
    let run = RunConfig::default();
    let c = run.model(100);
    assert_eq!(c.vocab_size, 100);
    assert_eq!((c.d_model, c.n_layers, c.max_seq_len), (run.d_model, run.n_layers, run.max_seq_len));
    assert_eq!(run.chunk_warning(), None);
    let wide = RunConfig { chunk: 49, ..RunConfig::default() };
    assert!(wide.chunk_warning().unwrap().contains("49"));
    let edge = RunConfig { chunk: 48, ..RunConfig::default() };
    assert_eq!(edge.chunk_warning(), None);
}
