//! Checkpointable data ordering, benchmark scheduling, report rendering and error
//! reporting for Vulkan training experiments.
use vstd::prelude::*;

pub mod data;
pub mod report;
pub mod text;

use data::SamplerError;
use text::{debug_list, decimal, push_debug_list, push_decimal, push_str};

verus! {

/// Number of optimizer updates in every training probe.
pub const OPTIMIZER_PROBE_STEPS: usize = 20;

/// Update after which the checkpoint probes save and restore their state.
pub const OPTIMIZER_CHECKPOINT_STEP: usize = OPTIMIZER_PROBE_STEPS / 2;

/// Update after which the mini-batch probe saves its sampler state.
///
/// The odd step places the checkpoint inside a five-batch epoch, so restoring only
/// the generator, the permutation or the epoch position cannot reproduce the run.
pub const MINI_BATCH_CHECKPOINT_STEP: usize = OPTIMIZER_CHECKPOINT_STEP + 1;

/// Fixed seed from which every epoch permutation of the mini-batch probe is drawn.
pub const MINI_BATCH_EPOCH_SEED: u64 = 0x5EED_CAFE_D15C_A11E;

/// Forward implementation used by the quadratic autodiff benchmark.
#[derive(Clone, Copy, Debug, PartialEq, Eq)]
pub enum QuadraticTrainingPath {
    /// Use the backend-specific custom operation and its explicit backward rule.
    Custom,
    /// Compose portable Burn primitives and let Burn derive their backward graph.
    Reference,
}

/// Error returned when a backend cannot complete the probe.
#[derive(Debug, PartialEq, Eq)]
pub enum ProbeError {
    /// The autodiff backend did not return the requested weight gradient.
    MissingGradient,
    /// The autodiff backend did not return the requested bias gradient.
    MissingBiasGradient,
    /// The deterministic linear model did not contain its expected bias parameter.
    MissingBiasParameter,
    /// A layer in the deterministic nonlinear model did not contain its expected bias.
    MissingNonlinearBiasParameter(&'static str),
    /// The autodiff backend did not return the custom operation's input gradient.
    MissingInputGradient,
    /// Tensor data could not be converted to the expected `f32` values.
    DataConversion(String),
    /// Model or optimizer state could not be serialized or restored.
    CheckpointSerialization(String),
    /// The mini-batch sampler was configured without any batches.
    InvalidMiniBatchCount(usize),
    /// Restored mini-batch state does not describe the paired dataset.
    MiniBatchDatasetMismatch {
        /// Number of batches exposed by the dataset.
        dataset: usize,
        /// Number of batches encoded by the sampler permutation.
        sampler: usize,
    },
    /// Restored mini-batch state did not identify a valid epoch position.
    InvalidMiniBatchPosition(usize),
    /// Restored mini-batch state did not contain each batch identifier exactly once.
    InvalidMiniBatchPermutation(Vec<usize>),
    /// The backend could not synchronize a measured workload.
    Synchronization(String),
    /// `CubeCL` could not profile a measured workload consistently.
    Profiling(String),
}

/// The text with which a `ProbeError` describes itself.
pub open spec fn probe_error_text(error: ProbeError) -> Seq<char> {
    match error {
        ProbeError::MissingGradient => "the required weight gradient is missing"@,
        ProbeError::MissingBiasGradient => "the required bias gradient is missing"@,
        ProbeError::MissingBiasParameter => "the deterministic linear model bias is missing"@,
        ProbeError::MissingNonlinearBiasParameter(layer) => "the deterministic nonlinear model "@
            + layer@ + " bias is missing"@,
        ProbeError::MissingInputGradient => "the custom operation input gradient is missing"@,
        ProbeError::DataConversion(message) => "could not read probe tensor data: "@ + message@,
        ProbeError::CheckpointSerialization(message) => "could not round-trip checkpoint state: "@
            + message@,
        ProbeError::InvalidMiniBatchCount(count) => "mini-batch count "@ + decimal(count as nat)
            + " must be positive"@,
        ProbeError::MiniBatchDatasetMismatch { dataset, sampler } => "mini-batch sampler count "@
            + decimal(sampler as nat) + " does not match dataset count "@ + decimal(dataset as nat),
        ProbeError::InvalidMiniBatchPosition(position) => "mini-batch data position "@ + decimal(
            position as nat,
        ) + " is outside the current epoch permutation"@,
        ProbeError::InvalidMiniBatchPermutation(permutation) => "mini-batch epoch permutation "@
            + debug_list(permutation@) + " does not contain every batch exactly once"@,
        ProbeError::Synchronization(message) => "could not synchronize the backend workload: "@
            + message@,
        ProbeError::Profiling(message) => "could not profile the backend workload: "@ + message@,
    }
}

impl ProbeError {
    /// Describe the error in one line of text.
    pub fn message(&self) -> (text: String)
        ensures
            text@ == probe_error_text(*self),
    {
        let mut out = String::new();
        match self {
            ProbeError::MissingGradient => push_str(&mut out, "the required weight gradient is missing"),
            ProbeError::MissingBiasGradient => push_str(&mut out, "the required bias gradient is missing"),
            ProbeError::MissingBiasParameter => push_str(
                &mut out,
                "the deterministic linear model bias is missing",
            ),
            ProbeError::MissingNonlinearBiasParameter(layer) => {
                push_str(&mut out, "the deterministic nonlinear model ");
                push_str(&mut out, layer);
                push_str(&mut out, " bias is missing");
            },
            ProbeError::MissingInputGradient => push_str(
                &mut out,
                "the custom operation input gradient is missing",
            ),
            ProbeError::DataConversion(message) => {
                push_str(&mut out, "could not read probe tensor data: ");
                push_str(&mut out, message.as_str());
            },
            ProbeError::CheckpointSerialization(message) => {
                push_str(&mut out, "could not round-trip checkpoint state: ");
                push_str(&mut out, message.as_str());
            },
            ProbeError::InvalidMiniBatchCount(count) => {
                push_str(&mut out, "mini-batch count ");
                push_decimal(&mut out, *count as u64);
                push_str(&mut out, " must be positive");
            },
            ProbeError::MiniBatchDatasetMismatch { dataset, sampler } => {
                push_str(&mut out, "mini-batch sampler count ");
                push_decimal(&mut out, *sampler as u64);
                push_str(&mut out, " does not match dataset count ");
                push_decimal(&mut out, *dataset as u64);
            },
            ProbeError::InvalidMiniBatchPosition(position) => {
                push_str(&mut out, "mini-batch data position ");
                push_decimal(&mut out, *position as u64);
                push_str(&mut out, " is outside the current epoch permutation");
            },
            ProbeError::InvalidMiniBatchPermutation(permutation) => {
                push_str(&mut out, "mini-batch epoch permutation ");
                push_debug_list(&mut out, permutation.as_slice());
                push_str(&mut out, " does not contain every batch exactly once");
            },
            ProbeError::Synchronization(message) => {
                push_str(&mut out, "could not synchronize the backend workload: ");
                push_str(&mut out, message.as_str());
            },
            ProbeError::Profiling(message) => {
                push_str(&mut out, "could not profile the backend workload: ");
                push_str(&mut out, message.as_str());
            },
        }
        out
    }
}

/// The probe error that reports a sampler error.
pub open spec fn probe_error_from_sampler(error: SamplerError) -> ProbeError {
    match error {
        SamplerError::BatchCount(count) => ProbeError::InvalidMiniBatchCount(count),
        SamplerError::DatasetBatchCount { dataset, sampler } => ProbeError::MiniBatchDatasetMismatch {
            dataset,
            sampler,
        },
        SamplerError::Position(position) => ProbeError::InvalidMiniBatchPosition(position),
        SamplerError::Permutation(permutation) => ProbeError::InvalidMiniBatchPermutation(
            permutation,
        ),
    }
}

impl From<SamplerError> for ProbeError {
    fn from(error: SamplerError) -> (converted: Self) {
        match error {
            SamplerError::BatchCount(count) => ProbeError::InvalidMiniBatchCount(count),
            SamplerError::DatasetBatchCount { dataset, sampler } => {
                ProbeError::MiniBatchDatasetMismatch { dataset, sampler }
            },
            SamplerError::Position(position) => ProbeError::InvalidMiniBatchPosition(position),
            SamplerError::Permutation(permutation) => ProbeError::InvalidMiniBatchPermutation(
                permutation,
            ),
        }
    }
}

impl vstd::std_specs::convert::FromSpecImpl<SamplerError> for ProbeError {
    open spec fn obeys_from_spec() -> bool {
        true
    }

    open spec fn from_spec(error: SamplerError) -> ProbeError {
        probe_error_from_sampler(error)
    }
}

/// The order in which the two quadratic training paths run in iteration `iteration`.
pub open spec fn training_order(iteration: nat) -> Seq<QuadraticTrainingPath> {
    if iteration % 2 == 0 {
        seq![QuadraticTrainingPath::Custom, QuadraticTrainingPath::Reference]
    } else {
        seq![QuadraticTrainingPath::Reference, QuadraticTrainingPath::Custom]
    }
}

/// Alternate which quadratic training path runs first, one iteration after the other.
pub fn quadratic_training_order(iteration: usize) -> (order: [QuadraticTrainingPath; 2])
    ensures
        order@ == training_order(iteration as nat),
{
    if iteration % 2 == 0 {
        [QuadraticTrainingPath::Custom, QuadraticTrainingPath::Reference]
    } else {
        [QuadraticTrainingPath::Reference, QuadraticTrainingPath::Custom]
    }
}

/// The training order repeats every two iterations, each order runs both paths once,
/// and consecutive iterations run them in opposite orders.
pub proof fn lemma_training_order_balanced(iteration: nat)
    ensures
        training_order(iteration) == training_order(iteration + 2),
        training_order(iteration)[0] != training_order(iteration)[1],
        training_order(iteration)[0] == training_order(iteration + 1)[1],
        training_order(iteration)[1] == training_order(iteration + 1)[0],
{
}

} // verus!
