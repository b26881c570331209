//! Model shape and run configuration.

use crate::constants::{
    FINEMATH_REPO, FINEMATH_SHARD, FINEWEB_SHARD, PARQUET_REVISION, STACK_EDU_REPO, STACK_EDU_SHARD,
};
use crate::text::{decimal, usize_to_string};
use vstd::prelude::*;

verus! {

broadcast use vstd::string::group_string_axioms;

/// Architecture dimensions of one model.
#[derive(Clone, Copy, Debug, PartialEq, Eq, Structural)]
pub struct ModelConfig {
    /// Vocabulary size, which is set at runtime from the tokenizer's vocabulary.
    pub vocab_size: usize,
    /// Residual-stream width.
    pub d_model: usize,
    /// Number of stacked layers.
    pub n_layers: usize,
    /// State size of the recurrence. Must be a multiple of 4 (rotation pairs, half rotated).
    pub d_state: usize,
    /// Per-head channel width. Must divide the inner width.
    pub headdim: usize,
    /// Number of groups that share their input and output projections; the number of heads must be
    /// a multiple of it.
    pub ngroups: usize,
    /// Hidden width of the feed-forward layer.
    pub d_ff: usize,
    /// Inner expansion factor.
    pub expand: usize,
    /// Nominal training sequence length: metadata, not a hard context limit.
    pub max_seq_len: usize,
    /// Standard deviation of the embedding initializer, as the bits of an IEEE 754 double.
    pub init_std_bits: u64,
}

/// The bits of the double 0.02.
pub const DEFAULT_INIT_STD_BITS: u64 = 0x3F94_7AE1_47AE_147B;

/// What a model shape violates.
#[derive(Clone, Copy, Debug, PartialEq, Eq, Structural)]
pub enum ConfigError {
    /// The inner width is not divisible by the head width.
    HeadWidth { d_inner: usize, expand: usize, d_model: usize, headdim: usize },
    /// The number of heads is not divisible by the number of groups.
    Groups { nheads: usize, ngroups: usize },
    /// The state size is not a multiple of 4.
    StateSize { d_state: usize },
}

impl ConfigError {
    /// The message that describes the violation.
    pub open spec fn text(self) -> Seq<char> {
        match self {
            ConfigError::HeadWidth { d_inner, expand, d_model, headdim } => "d_inner ("@ + decimal(
                d_inner as nat,
            ) + " = expand "@ + decimal(expand as nat) + " * d_model "@ + decimal(d_model as nat)
                + ") must be divisible by headdim "@ + decimal(headdim as nat),
            ConfigError::Groups { nheads, ngroups } => "nheads ("@ + decimal(nheads as nat)
                + ") must be divisible by ngroups "@ + decimal(ngroups as nat),
            ConfigError::StateSize { d_state } => "d_state ("@ + decimal(d_state as nat)
                + ") must be a multiple of 4 (rotation pairs x half-RoPE)"@,
        }
    }

    /// The message that describes the violation.
    pub fn message(&self) -> (r: String)
        ensures
            r@ == self.text(),
    {
        match self {
            ConfigError::HeadWidth { d_inner, expand, d_model, headdim } => {
                "d_inner (".to_owned().concat(usize_to_string(*d_inner).as_str()).concat(
                    " = expand ",
                ).concat(usize_to_string(*expand).as_str()).concat(" * d_model ").concat(
                    usize_to_string(*d_model).as_str(),
                ).concat(") must be divisible by headdim ").concat(
                    usize_to_string(*headdim).as_str(),
                )
            },
            ConfigError::Groups { nheads, ngroups } => {
                "nheads (".to_owned().concat(usize_to_string(*nheads).as_str()).concat(
                    ") must be divisible by ngroups ",
                ).concat(usize_to_string(*ngroups).as_str())
            },
            ConfigError::StateSize { d_state } => {
                "d_state (".to_owned().concat(usize_to_string(*d_state).as_str()).concat(
                    ") must be a multiple of 4 (rotation pairs x half-RoPE)",
                )
            },
        }
    }
}

impl ModelConfig {
    /// The inner width: the expansion factor times the residual width.
    pub open spec fn inner(self) -> nat {
        self.expand as nat * self.d_model as nat
    }

    /// The number of heads: how many head widths fit in the inner width.
    pub open spec fn heads(self) -> nat {
        self.inner() / self.headdim as nat
    }

    /// Whether the inner width is a whole number of head widths.
    pub open spec fn head_width_ok(self) -> bool {
        self.headdim != 0 && self.inner() % self.headdim as nat == 0
    }

    /// Whether the heads divide evenly into the groups.
    pub open spec fn groups_ok(self) -> bool {
        self.ngroups != 0 && self.heads() % self.ngroups as nat == 0
    }

    /// Whether the state size allows the half rotation.
    pub open spec fn state_size_ok(self) -> bool {
        self.d_state % 4 == 0
    }

    /// The shape invariants that the recurrent block relies on.
    pub open spec fn well_formed(self) -> bool {
        self.head_width_ok() && self.groups_ok() && self.state_size_ok()
    }

    /// The first invariant that a shape violates.
    pub open spec fn violation(self) -> Option<ConfigError> {
        if !self.head_width_ok() {
            Some(
                ConfigError::HeadWidth {
                    d_inner: self.inner() as usize,
                    expand: self.expand,
                    d_model: self.d_model,
                    headdim: self.headdim,
                },
            )
        } else if !self.groups_ok() {
            Some(ConfigError::Groups { nheads: self.heads() as usize, ngroups: self.ngroups })
        } else if !self.state_size_ok() {
            Some(ConfigError::StateSize { d_state: self.d_state })
        } else {
            None
        }
    }

    /// The built-in shape.
    pub open spec fn builtin() -> ModelConfig {
        ModelConfig {
            vocab_size: 16384,
            d_model: 384,
            n_layers: 12,
            d_state: 128,
            headdim: 64,
            ngroups: 1,
            d_ff: 1024,
            expand: 2,
            max_seq_len: 2048,
            init_std_bits: DEFAULT_INIT_STD_BITS,
        }
    }

    /// The built-in shape.
    pub fn new() -> (r: Self)
        ensures
            r == ModelConfig::builtin(),
    {
        ModelConfig {
            vocab_size: 16384,
            d_model: 384,
            n_layers: 12,
            d_state: 128,
            headdim: 64,
            ngroups: 1,
            d_ff: 1024,
            expand: 2,
            max_seq_len: 2048,
            init_std_bits: DEFAULT_INIT_STD_BITS,
        }
    }

    pub fn with_vocab_size(self, vocab_size: usize) -> (r: Self)
        ensures
            r == (ModelConfig { vocab_size, ..self }),
    {
        ModelConfig { vocab_size, ..self }
    }

    pub fn with_d_model(self, d_model: usize) -> (r: Self)
        ensures
            r == (ModelConfig { d_model, ..self }),
    {
        ModelConfig { d_model, ..self }
    }

    pub fn with_n_layers(self, n_layers: usize) -> (r: Self)
        ensures
            r == (ModelConfig { n_layers, ..self }),
    {
        ModelConfig { n_layers, ..self }
    }

    pub fn with_d_state(self, d_state: usize) -> (r: Self)
        ensures
            r == (ModelConfig { d_state, ..self }),
    {
        ModelConfig { d_state, ..self }
    }

    pub fn with_headdim(self, headdim: usize) -> (r: Self)
        ensures
            r == (ModelConfig { headdim, ..self }),
    {
        ModelConfig { headdim, ..self }
    }

    pub fn with_ngroups(self, ngroups: usize) -> (r: Self)
        ensures
            r == (ModelConfig { ngroups, ..self }),
    {
        ModelConfig { ngroups, ..self }
    }

    pub fn with_d_ff(self, d_ff: usize) -> (r: Self)
        ensures
            r == (ModelConfig { d_ff, ..self }),
    {
        ModelConfig { d_ff, ..self }
    }

    pub fn with_expand(self, expand: usize) -> (r: Self)
        ensures
            r == (ModelConfig { expand, ..self }),
    {
        ModelConfig { expand, ..self }
    }

    pub fn with_max_seq_len(self, max_seq_len: usize) -> (r: Self)
        ensures
            r == (ModelConfig { max_seq_len, ..self }),
    {
        ModelConfig { max_seq_len, ..self }
    }

    pub fn with_init_std_bits(self, init_std_bits: u64) -> (r: Self)
        ensures
            r == (ModelConfig { init_std_bits, ..self }),
    {
        ModelConfig { init_std_bits, ..self }
    }

    /// Inner width used inside the recurrent block.
    pub fn d_inner(&self) -> (r: usize)
        requires
            self.inner() <= usize::MAX,
        ensures
            r == self.inner(),
    {
        self.expand * self.d_model
    }

    /// Number of heads.
    pub fn nheads(&self) -> (r: usize)
        requires
            self.inner() <= usize::MAX,
            self.headdim != 0,
        ensures
            r == self.heads(),
    {
        self.d_inner() / self.headdim
    }

    /// Checks the shape invariants that the recurrent block relies on, and names the first that is
    /// violated.
    pub fn validate(&self) -> (r: Result<(), ConfigError>)
        requires
            self.inner() <= usize::MAX,
        ensures
            r is Ok <==> self.well_formed(),
            r matches Err(e) ==> self.violation() == Some(e),
    {
        let d_inner = self.d_inner();
        if self.headdim == 0 || d_inner % self.headdim != 0 {
            return Err(
                ConfigError::HeadWidth {
                    d_inner,
                    expand: self.expand,
                    d_model: self.d_model,
                    headdim: self.headdim,
                },
            );
        }
        let nheads = self.nheads();
        if self.ngroups == 0 || nheads % self.ngroups != 0 {
            return Err(ConfigError::Groups { nheads, ngroups: self.ngroups });
        }
        if self.d_state % 4 != 0 {
            return Err(ConfigError::StateSize { d_state: self.d_state });
        }
        Ok(())
    }
}

impl Default for ModelConfig {
    fn default() -> (r: Self)
        ensures
            r == ModelConfig::builtin(),
    {
        Self::new()
    }
}

/// The built-in shape satisfies every shape invariant.
pub proof fn law_builtin_shape_is_well_formed()
    ensures
        ModelConfig::builtin().well_formed(),
        ModelConfig::builtin().inner() == 768,
        ModelConfig::builtin().heads() == 12,
{
}

/// In a well-formed shape the heads tile the inner width exactly, and the groups tile the heads.
pub proof fn law_well_formed_shape_tiles(c: ModelConfig)
    requires
        c.well_formed(),
    ensures
        c.heads() * c.headdim as nat == c.inner(),
        (c.heads() / c.ngroups as nat) * c.ngroups as nat == c.heads(),
        (c.d_state as nat / 4) * 4 == c.d_state,
{
    vstd::arithmetic::div_mod::lemma_fundamental_div_mod(c.inner() as int, c.headdim as int);
    vstd::arithmetic::div_mod::lemma_fundamental_div_mod(c.heads() as int, c.ngroups as int);
    vstd::arithmetic::mul::lemma_mul_is_commutative(c.headdim as int, c.heads() as int);
    vstd::arithmetic::mul::lemma_mul_is_commutative(
        c.ngroups as int,
        (c.heads() / c.ngroups as nat) as int,
    );
}

/// One training run's configuration: model size, data shards, and the memory and performance knobs.
#[derive(Clone, Debug)]
pub struct RunConfig {
    pub d_model: usize,
    pub n_layers: usize,
    pub d_state: usize,
    pub headdim: usize,
    pub ngroups: usize,
    pub d_ff: usize,
    pub expand: usize,
    pub max_seq_len: usize,
    /// Standard deviation of the embedding initializer, as the bits of an IEEE 754 double.
    pub init_std_bits: u64,
    pub batch: usize,
    pub chunk: usize,
    pub cache_groups: u64,
    pub shards: Vec<String>,
    pub math_repo: String,
    pub math_revision: String,
    pub math_shards: Vec<String>,
    pub math_text_column: String,
    pub code_repo: String,
    pub code_revision: String,
    pub code_shards: Vec<String>,
    pub code_blob_column: String,
    pub code_max_files: usize,
}

/// A list that holds one string.
fn one(s: &str) -> (r: Vec<String>)
    ensures
        r.deep_view() == seq![s@],
{
    let mut v: Vec<String> = Vec::new();
    v.push(s.to_owned());
    assert(v.deep_view() =~= seq![s@]);
    v
}

impl Default for RunConfig {
    fn default() -> (r: Self)
        ensures
            r.shape(ModelConfig::builtin().vocab_size) == ModelConfig::builtin(),
            r.batch == 16,
            r.chunk == 32,
            r.cache_groups == 8,
            r.shards.deep_view() == seq![FINEWEB_SHARD@],
            r.math_repo@ == FINEMATH_REPO@,
            r.math_revision@ == PARQUET_REVISION@,
            r.math_shards.deep_view() == seq![FINEMATH_SHARD@],
            r.math_text_column@ == "text"@,
            r.code_repo@ == STACK_EDU_REPO@,
            r.code_revision@ == PARQUET_REVISION@,
            r.code_shards.deep_view() == seq![STACK_EDU_SHARD@],
            r.code_blob_column@ == "blob_id"@,
            r.code_max_files == 4096,
    {
        let m = ModelConfig::new();
        RunConfig {
            d_model: m.d_model,
            n_layers: m.n_layers,
            d_state: m.d_state,
            headdim: m.headdim,
            ngroups: m.ngroups,
            d_ff: m.d_ff,
            expand: m.expand,
            max_seq_len: m.max_seq_len,
            init_std_bits: m.init_std_bits,
            batch: 16,
            chunk: 32,
            cache_groups: 8,
            shards: one(FINEWEB_SHARD),
            math_repo: FINEMATH_REPO.to_owned(),
            math_revision: PARQUET_REVISION.to_owned(),
            math_shards: one(FINEMATH_SHARD),
            math_text_column: "text".to_owned(),
            code_repo: STACK_EDU_REPO.to_owned(),
            code_revision: PARQUET_REVISION.to_owned(),
            code_shards: one(STACK_EDU_SHARD),
            code_blob_column: "blob_id".to_owned(),
            code_max_files: 4096,
        }
    }
}

/// The longest chunk at which the chunked scan still agrees with the stepwise recurrence.
pub const MAX_EXACT_CHUNK: usize = 48;

impl RunConfig {
    /// The model shape of these dimensions with a given vocabulary size.
    pub open spec fn shape(self, vocab_size: usize) -> ModelConfig {
        ModelConfig {
            vocab_size,
            d_model: self.d_model,
            n_layers: self.n_layers,
            d_state: self.d_state,
            headdim: self.headdim,
            ngroups: self.ngroups,
            d_ff: self.d_ff,
            expand: self.expand,
            max_seq_len: self.max_seq_len,
            init_std_bits: self.init_std_bits,
        }
    }

    /// The model architecture of these dimensions, with the vocabulary size of the tokenizer.
    pub fn model(&self, vocab_size: usize) -> (r: ModelConfig)
        ensures
            r == self.shape(vocab_size),
    {
        ModelConfig::new().with_vocab_size(vocab_size).with_d_model(self.d_model).with_n_layers(
            self.n_layers,
        ).with_d_state(self.d_state).with_headdim(self.headdim).with_ngroups(
            self.ngroups,
        ).with_d_ff(self.d_ff).with_expand(self.expand).with_max_seq_len(
            self.max_seq_len,
        ).with_init_std_bits(self.init_std_bits)
    }

    /// The warning that a run with too long a chunk starts with.
    pub open spec fn warning_text(self) -> Option<Seq<char>> {
        if self.chunk > MAX_EXACT_CHUNK {
            Some(
                "warning: chunk="@ + decimal(self.chunk as nat)
                    + " > 48 degrades scan/step equivalence; use 48 or less."@,
            )
        } else {
            None
        }
    }

    /// The warning to print when a run is loaded, if its chunk length degrades the agreement of the
    /// chunked scan with the stepwise recurrence.
    pub fn chunk_warning(&self) -> (r: Option<String>)
        ensures
            crate::chat::option_text(r) == self.warning_text(),
    {
        if self.chunk > MAX_EXACT_CHUNK {
            Some(
                "warning: chunk=".to_owned().concat(usize_to_string(self.chunk).as_str()).concat(
                    " > 48 degrades scan/step equivalence; use 48 or less.",
                ),
            )
        } else {
            None
        }
    }
}

/// A shape passes exactly where the head width divides the inner width, the groups divide the
/// heads, and the state size is a multiple of four; and the first of these that fails is the one
/// that is named, with the numbers it is about.
pub proof fn law_violations_name_what_fails(c: ModelConfig)
    requires
        c.expand * c.d_model <= usize::MAX,
    ensures
        c.inner() == c.expand * c.d_model,
        ({
            let inner = (c.expand * c.d_model) as int;
            let heads = inner / (c.headdim as int);
            let widths_ok = c.headdim != 0 && inner % (c.headdim as int) == 0;
            let groups_ok = c.ngroups != 0 && heads % (c.ngroups as int) == 0;
            &&& c.well_formed() <==> widths_ok && groups_ok && c.d_state as int % 4 == 0
            &&& c.well_formed() <==> c.violation() is None
            &&& !widths_ok ==> c.violation() == Some(
                (ConfigError::HeadWidth {
                    d_inner: inner as usize,
                    expand: c.expand,
                    d_model: c.d_model,
                    headdim: c.headdim,
                }),
            )
            &&& widths_ok && !groups_ok ==> c.violation() == Some(
                (ConfigError::Groups { nheads: heads as usize, ngroups: c.ngroups }),
            )
            &&& widths_ok && groups_ok && c.d_state as int % 4 != 0 ==> c.violation() == Some(
                (ConfigError::StateSize { d_state: c.d_state }),
            )
        }),
{
}

/// A run's model has the run's own dimensions and the vocabulary size it is given.
pub proof fn law_runs_shape_their_model(run: RunConfig, vocab_size: usize)
    ensures
        ({
            let m = run.shape(vocab_size);
            &&& m.vocab_size == vocab_size
            &&& m.d_model == run.d_model && m.n_layers == run.n_layers
            &&& m.d_state == run.d_state && m.headdim == run.headdim
            &&& m.ngroups == run.ngroups && m.d_ff == run.d_ff
            &&& m.expand == run.expand && m.max_seq_len == run.max_seq_len
            &&& m.init_std_bits == run.init_std_bits
        }),
        run.warning_text() is Some <==> run.chunk > 48,
{
}

/// What is wrong with a shape is said with the numbers that are wrong.
pub proof fn law_messages_name_the_numbers(a: usize, b: usize, c: usize, d: usize)
    ensures
        (ConfigError::HeadWidth { d_inner: a, expand: b, d_model: c, headdim: d }).text()
            == "d_inner ("@ + decimal(a as nat) + " = expand "@ + decimal(b as nat) + " * d_model "@
            + decimal(c as nat) + ") must be divisible by headdim "@ + decimal(d as nat),
        (ConfigError::Groups { nheads: a, ngroups: b }).text() == "nheads ("@ + decimal(a as nat)
            + ") must be divisible by ngroups "@ + decimal(b as nat),
        (ConfigError::StateSize { d_state: a }).text() == "d_state ("@ + decimal(a as nat)
            + ") must be a multiple of 4 (rotation pairs x half-RoPE)"@,
{
}

/// The shape that is built in has these sizes.
pub proof fn law_builtin_sizes()
    ensures
        ({
            let c = ModelConfig::builtin();
            &&& c.vocab_size == 16384 && c.max_seq_len == 2048
            &&& c.d_model == 384 && c.n_layers == 12 && c.d_ff == 1024
            &&& c.d_state == 128 && c.headdim == 64 && c.ngroups == 1 && c.expand == 2
            &&& c.init_std_bits == 0x3F94_7AE1_47AE_147B
        }),
{
}

/// A run is warned of a chunk that is longer than 48, whose length the warning gives, and of no
/// other.
pub proof fn law_long_chunks_are_warned_of(run: RunConfig)
    ensures
        run.chunk <= 48 ==> run.warning_text() is None,
        run.chunk > 48 ==> run.warning_text() == Some(
            "warning: chunk="@ + decimal(run.chunk as nat)
                + " > 48 degrades scan/step equivalence; use 48 or less."@,
        ),
{
}

} // verus!
