//! External data sources and run-wide defaults.

use vstd::prelude::*;

verus! {

/// Web pretraining corpus.
pub const FINEWEB_REPO: &'static str = "HuggingFaceFW/fineweb-edu";

pub const FINEWEB_SHARD: &'static str = "sample/10BT/000_00000.parquet";

/// Math pretraining corpus.
pub const FINEMATH_REPO: &'static str = "HuggingFaceTB/finemath";

pub const FINEMATH_SHARD: &'static str = "finemath-3plus/train/0000.parquet";

/// Code pretraining corpus.
pub const STACK_EDU_REPO: &'static str = "HuggingFaceTB/stack-edu";

pub const STACK_EDU_SHARD: &'static str = "Python/train/0000.parquet";

/// The revision that holds a dataset's auto-converted parquet files.
pub const PARQUET_REVISION: &'static str = "refs/convert/parquet";

/// SFT corpus.
pub const SFT_REPO: &'static str = "OpenAssistant/oasst_top1_2023-08-25";

pub const SFT_FILE: &'static str = "default/train/0000.parquet";

/// Reasoning SFT corpus.
pub const REASON_REPO: &'static str = "nvidia/Llama-Nemotron-Post-Training-Dataset";

pub const REASON_MATH_FILE: &'static str = "SFT/partial-math/0000.parquet";

pub const REASON_CHAT_FILE: &'static str = "SFT/partial-chat/0000.parquet";

/// Dataloader defaults shared across every training stage.
pub const SHUFFLE_SEED: u64 = 42;

pub const NUM_WORKERS: usize = 2;

/// DPO preference corpus.
pub const DPO_REPO: &'static str = "mlabonne/orpo-dpo-mix-40k-flat";

pub const DPO_FILE: &'static str = "default/train/0000.parquet";

/// GRPO task.
pub const GSM8K_REPO: &'static str = "openai/gsm8k";

pub const GSM8K_FILE: &'static str = "main/train/0000.parquet";

/// GRPO group size.
pub const GRPO_GROUP_SIZE: usize = 4;

/// Post-training sequence lengths.
pub const SFT_SEQ_LEN: usize = 512;

pub const DPO_SEQ_LEN: usize = 512;

/// Reasoning SFT sequence length. Rows that exceed it are dropped, not truncated.
pub const REASON_SEQ_LEN: usize = 2048;

/// GRPO prompt and sampled-completion length caps. The completion cap leaves room for a
/// chain-of-thought before the answer.
pub const GRPO_PROMPT_LEN: usize = 256;

pub const GRPO_COMPLETION_LEN: usize = 1024;

/// Where checkpoints, the model config and the tokenizer live unless `MODEL_DIR` names another
/// directory.
pub const DEFAULT_MODEL_DIR: &'static str = "/tmp/gabriel-laevis";

} // verus!
