//! Configuration data: obfuscation passes, per-profile compiler settings that
//! the pipeline passes through untouched, and module-wide options.

use vstd::prelude::*;

use crate::text::str_eq;

verus! {

/// The configuration file format version this library understands.
pub const YAML_CONFIG_VERSION: &'static str = "1.0.6";

/// Decides whether a configuration file's version tag is the supported one.
pub fn config_version_supported(version: &str) -> (r: bool)
    ensures
        r == (version@ == YAML_CONFIG_VERSION@),
{
    str_eq(version, YAML_CONFIG_VERSION)
}

/// Available SIMD extension types used by mutation engines.
#[derive(Debug, Clone)]
pub enum MutationEngineExtension {
    /// All base instructions.
    Generic,
    /// All base instructions plus legacy SSE instructions up until SSE3.
    SSE3,
    /// All base instructions plus legacy SSE instructions up until SSE4.2.
    SSE42,
}

/// Supported PE environments.
#[derive(Debug, Clone, Copy, PartialEq, Eq, Structural)]
pub enum PeEnvironment {
    /// User-mode PE (exe, dll).
    UserMode,
    /// Kernel-mode PE (sys).
    KernelMode,
    /// UEFI firmware image.
    UEFI,
}

/// Log verbosity selected on the command line.
#[derive(Debug, Clone, Copy, PartialEq, Eq, Structural)]
pub enum LogLevel {
    /// Nothing is logged.
    Off,
    /// Errors only.
    Error,
    /// Warnings and errors.
    Warn,
    /// Informational messages and above.
    Info,
    /// Debug messages and above.
    Debug,
    /// Everything.
    Trace,
}

/// The parsed command line: file locations, credentials and polling control.
#[derive(Debug, Clone)]
pub struct Cli {
    /// Path to the YAML configuration file.
    pub config: String,
    /// Log level.
    pub log_level: LogLevel,
    /// API key for the remote service.
    pub api_key: String,
    /// Poll interval in milliseconds; the remote service refuses callers that
    /// go below 500.
    pub timeout: u64,
    /// Input binary to process.
    pub input_file: String,
    /// Optional debug symbol container file.
    pub pdb_file: Option<String>,
    /// Output path for the archive holding the obfuscated binary.
    pub output: String,
}

/// Configuration settings for lifting x86 instructions into IR.
#[derive(Debug, Clone)]
pub struct LifterSettings {
    /// Whether to lift calls into IR.
    pub lift_calls: bool,
    /// Calling convention used for lifting.
    pub calling_convention: String,
    /// Max stack copy size in bytes when lifting.
    pub max_stack_copy_size: u32,
    /// Fallback: split on calls if lifting fails.
    pub split_on_calls_fallback: bool,
}

/// IR optimization settings.
#[derive(Debug, Clone)]
pub struct OptimizationSettings {
    /// Enable constant propagation.
    pub constant_propagation: bool,
    /// Enable instruction combining.
    pub instruction_combine: bool,
    /// Enable dead code elimination.
    pub dead_code_elim: bool,
    /// Enable pruning of unused block parameters.
    pub prune_useless_block_params: bool,
    /// Number of optimization iterations to run.
    pub iterations: u32,
}

/// Fake debug-info path string settings to confuse debuggers.
#[derive(Debug)]
pub struct FakePdbString {
    /// Whether the fake path string is enabled.
    pub enabled: bool,
    /// Value to emit as the fake path string.
    pub value: String,
}

impl Default for FakePdbString {
    /// Disabled, with an empty value.
    fn default() -> (d: Self)
        ensures
            !d.enabled,
            d.value@ == Seq::<char>::empty(),
    {
        FakePdbString { enabled: false, value: String::new() }
    }
}

/// Custom code section name override.
#[derive(Debug)]
pub struct CustomSectionName {
    /// Whether this feature is enabled.
    pub enabled: bool,
    /// Custom section name value.
    pub value: String,
}

impl Default for CustomSectionName {
    /// Disabled, with an empty value.
    fn default() -> (d: Self)
        ensures
            !d.enabled,
            d.value@ == Seq::<char>::empty(),
    {
        CustomSectionName { enabled: false, value: String::new() }
    }
}

/// Global obfuscation settings for the module.
#[derive(Debug)]
pub struct ModuleSettings {
    /// Whether to crash the IDA decompiler intentionally.
    pub ida_crasher: bool,
    /// Whether to enable import protection.
    pub import_protection: bool,
    /// Whether the output file should be packed/compressed.
    pub pack_output_file: bool,
    /// Obscure the entry point of the module.
    pub obscure_entry_point: bool,
    /// Clear unwind information.
    pub clear_unwind_info: bool,
    /// Fake debug-info string settings.
    pub fake_pdb_string: FakePdbString,
    /// Custom PE section name settings.
    pub custom_section_name: CustomSectionName,
}

/// Instruction-level semantics used in transformations.
#[derive(Debug, Clone)]
pub struct Semantics {
    pub add: bool,
    pub sub: bool,
    pub and: bool,
    pub xor: bool,
    pub or: bool,
    pub not: bool,
    pub neg: bool,
}

/// Bit widths to apply transformations to.
#[derive(Debug, Clone)]
pub struct BitWidths {
    pub bit8: bool,
    pub bit16: bool,
    pub bit32: bool,
    pub bit64: bool,
}

/// The origin of an SSA value from within the instruction.
#[derive(Debug, Clone)]
pub struct SsaOrigins {
    pub normal: bool,
    pub memop: bool,
    pub fp_based_memop: bool,
    pub sp_based_memop: bool,
}

/// Configuration for the loop-encode-semantics pass.
#[derive(Debug, Clone)]
pub struct LoopEncodeSemantics {
    /// Number of times to attempt transformation.
    pub iterations: u32,
    /// Percent chance to apply transformation (0 to 100).
    pub probability: u32,
    /// Instruction semantics to consider.
    pub semantics: Semantics,
    /// Bit widths to target.
    pub bitwidths: BitWidths,
    pub ethnicities: SsaOrigins,
}

/// Configuration for the mixed-boolean-arithmetic pass.
#[derive(Debug, Clone)]
pub struct MixedBooleanArithmetic {
    pub iterations: u32,
    pub probability: u32,
    pub semantics: Semantics,
    pub bitwidths: BitWidths,
    pub ethnicities: SsaOrigins,
}

/// Configuration for the mutation-engine pass.
#[derive(Debug, Clone)]
pub struct MutationEngine {
    pub iterations: u32,
    pub probability: u32,
    pub extension: MutationEngineExtension,
    pub semantics: Semantics,
    pub bitwidths: BitWidths,
    pub ethnicities: SsaOrigins,
}

/// Pass that crashes IDA's decompiler.
#[derive(Debug, Clone)]
pub struct IDADecompilerCrasher;

/// Suppress constants and prevent them from rematerializing at runtime.
#[derive(Debug, Clone)]
pub struct SuppressConstants {
    pub mba_enhance: bool,
    pub ethnicities: SsaOrigins,
}

/// Statically obscure constants; use together with `SuppressConstants`.
#[derive(Debug, Clone)]
pub struct ObscureConstants {
    pub mba_enhance: bool,
    pub probability: u32,
    pub iterations: u32,
    pub bitwidths: BitWidths,
    pub ethnicities: SsaOrigins,
}

/// Memory reference obfuscation pass.
#[derive(Debug, Clone)]
pub struct ObscureReferences {
    pub mba_enhance: bool,
}

/// Control-flow obfuscation pass.
#[derive(Debug, Clone)]
pub struct ObscureControlFlow {
    pub mba_enhance: bool,
    pub probability: u32,
}

/// Tether extraction pass.
#[derive(Debug, Clone)]
pub struct TetherExtraction {
    /// Minimum length of an instruction sequence worth extracting.
    pub min_extract_len: usize,
    /// Tether server endpoint.
    pub endpoint: String,
    /// Tether server port.
    pub port: u16,
    /// Hex string of the server's public key, used for key pinning.
    pub server_public_key: String,
}

/// Opaque block duplication pass.
#[derive(Debug, Clone)]
pub struct OpaqueBlockDuplication {
    /// Number of iterations to attempt transformation.
    pub iterations: u32,
    /// Percent chance to apply transformation (0 to 100).
    pub probability: u32,
}

/// Split-block pass, used to create more control-flow points for other
/// passes to transform.
#[derive(Debug, Clone)]
pub struct SplitBlockPass {
    /// The number of SSA values required within a block for it to be split.
    pub threshold: u32,
}

/// Encode immediate SSA values into address computations.
#[derive(Debug, Clone)]
pub struct LeaEncodeImm {
    pub mba_enhance: bool,
    /// Number of iterations to attempt transformation.
    pub iterations: u32,
    /// Percent chance to apply transformation (0 to 100).
    pub probability: u32,
    pub ethnicities: SsaOrigins,
}

/// Signature-breaking pass.
#[derive(Debug, Clone)]
pub struct SigBreaker {
    pub shuffle_insts: bool,
    pub random_segment_selector: bool,
    /// Calling convention used for lifting.
    pub calling_convention: String,
    pub shuffle_opcodes: bool,
    pub instruction_substitution: bool,
}

/// All possible obfuscation passes.
#[derive(Debug, Clone)]
pub enum ObfuscationPass {
    LoopEncodeSemantics(LoopEncodeSemantics),
    MixedBooleanArithmetic(MixedBooleanArithmetic),
    MutationEngine(MutationEngine),
    TetherExtraction(TetherExtraction),
    SplitBlockPass(SplitBlockPass),
    OpaqueBlockDuplication(OpaqueBlockDuplication),
    ObscureControlFlow(ObscureControlFlow),
    LeaEncodeImm(LeaEncodeImm),
    ObscureConstants(ObscureConstants),
    SuppressConstants(SuppressConstants),
    ObscureReferences(ObscureReferences),
    SigBreaker(SigBreaker),
    IDADecompilerCrasher,
    AntiEmulator,
}

/// Global disassembly settings sent to the analyzer.
#[derive(Debug, Clone)]
pub struct DisassemblySettings {
    pub allow_code_reads_and_writes: bool,
    pub allow_unknown_indirect_jumps: bool,
    pub allow_mismatched_branch_counts: bool,
    pub thunk_mismatched_branch_counts: bool,
    pub thunk_branch_target_identifiers: bool,
    pub thunk_no_prev_block: bool,
    pub thunk_data_references: bool,
    pub always_thunk_entry: bool,
    pub follow_faulting_instructions: bool,
    pub pass_interrupts: bool,
    pub pass_exceptions: bool,
    pub aggressive_pointer_analysis: bool,
    pub perform_relocation_analysis: bool,
    pub explore_catch_funclet_continuations: bool,
}

} // verus!
