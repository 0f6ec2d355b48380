//! Compiling guests ahead of time, and the settings that the two engines run with.

use vstd::prelude::*;
use vstd::string::StringExecFns;
use wasmtime::{Config, Engine};

use crate::bytes::matches_at;

verus! {

/// What guests are compiled for: the interpreter for 32-bit machines.
pub const TARGET: &'static str = "pulley32";

/// The settings on which the engine that compiles a guest and the engine that runs it must
/// agree.
#[derive(Clone, Copy, Debug, PartialEq, Eq, Structural)]
pub struct EngineSettings {
    pub component_model: bool,
    pub gc_support: bool,
    pub signals_based_traps: bool,
    pub memory_init_cow: bool,
    pub memory_guard_size: u64,
    pub memory_reservation: u64,
}

/// The settings of the engine that compiles guests.
#[derive(Clone, Copy, Debug, PartialEq, Eq, Structural)]
pub struct CompilerSettings {
    pub common: EngineSettings,
    pub wasm_gc: bool,
    pub wasm_function_references: bool,
    pub max_wasm_stack: usize,
}

/// The settings of the engine that runs guests.
#[derive(Clone, Copy, Debug, PartialEq, Eq, Structural)]
pub struct RuntimeSettings {
    pub common: EngineSettings,
    pub max_wasm_stack: usize,
    pub memory_reservation_for_growth: u64,
}

/// Components, and none of what the small machine has no means for: no garbage collector,
/// no signals, no virtual memory.
pub open spec fn common_settings_spec() -> EngineSettings {
    EngineSettings {
        component_model: true,
        gc_support: false,
        signals_based_traps: false,
        memory_init_cow: false,
        memory_guard_size: 0,
        memory_reservation: 0,
    }
}

/// The settings of the engine that compiles guests.
pub open spec fn compiler_settings_spec() -> CompilerSettings {
    CompilerSettings {
        common: common_settings_spec(),
        wasm_gc: false,
        wasm_function_references: false,
        max_wasm_stack: 32768,
    }
}

/// The settings of the engine that runs guests.
pub open spec fn runtime_settings_spec() -> RuntimeSettings {
    RuntimeSettings {
        common: common_settings_spec(),
        max_wasm_stack: 16384,
        memory_reservation_for_growth: 0,
    }
}

fn common_settings() -> (s: EngineSettings)
    ensures
        s == common_settings_spec(),
{
    EngineSettings {
        component_model: true,
        gc_support: false,
        signals_based_traps: false,
        memory_init_cow: false,
        memory_guard_size: 0,
        memory_reservation: 0,
    }
}

/// The settings of the engine that compiles guests.
pub fn compiler_settings() -> (s: CompilerSettings)
    ensures
        s == compiler_settings_spec(),
{
    CompilerSettings {
        common: common_settings(),
        wasm_gc: false,
        wasm_function_references: false,
        max_wasm_stack: 32 * 1024,
    }
}

/// The settings of the engine that runs guests.
pub fn runtime_settings() -> (s: RuntimeSettings)
    ensures
        s == runtime_settings_spec(),
        s.common == compiler_settings_spec().common,
        s.max_wasm_stack <= compiler_settings_spec().max_wasm_stack,
{
    RuntimeSettings {
        common: common_settings(),
        max_wasm_stack: 16 * 1024,
        memory_reservation_for_growth: 0,
    }
}

/// Why the runtime's library refused something.
#[verifier::external_type_specification]
#[verifier::external_body]
pub struct ExWasmtimeError(wasmtime::Error);

/// The bytes with which every binary component begins.
pub open spec fn component_preamble() -> Seq<u8> {
    seq![0x00u8, 0x61u8, 0x73u8, 0x6du8, 0x0du8, 0x00u8, 0x01u8, 0x00u8]
}

/// The bytes with which every object file in the ELF format begins.
pub open spec fn elf_magic() -> Seq<u8> {
    seq![0x7fu8, 0x45u8, 0x4cu8, 0x46u8]
}

/// `outcome` is one that `wasmtime::Engine::precompile_component` may have for `wasm`, for
/// this target and with these settings: the object file that it makes, or nothing where it
/// refuses. It need not be the only one: an environment variable decides whether debug
/// information is kept.
pub uninterp spec fn may_compile_to(
    target: Seq<char>,
    settings: CompilerSettings,
    wasm: Seq<u8>,
    outcome: Option<Seq<u8>>,
) -> bool;

/// Trusts `wasmtime::Config`, `Engine::new` and `Engine::precompile_component`, for the
/// target and with the settings of guests: they succeed only on a binary component, and what
/// they make is an object file in the ELF format. The outcome is one that they may have for
/// just these bytes. It is left unsaid which bytes the file holds, as the environment has a
/// say in it, and on which components they succeed. Nothing is claimed for other settings,
/// among which are some that the compiler cannot bear, such as memory sizes whose sum is too
/// large to be counted.
#[verifier::external_body]
fn precompile(target: &str, settings: &CompilerSettings, wasm: &[u8]) -> (r: Result<
    Vec<u8>,
    wasmtime::Error,
>)
    requires
        target@ == TARGET@,
        *settings == compiler_settings_spec(),
    ensures
        match r {
            Ok(artifact) => {
                &&& may_compile_to(target@, *settings, wasm@, Some(artifact@))
                &&& matches_at(wasm@, component_preamble(), 0)
                &&& matches_at(artifact@, elf_magic(), 0)
            },
            Err(_) => may_compile_to(target@, *settings, wasm@, None),
        },
{
    let mut config = Config::new();
    config.target(target)?;
    config.wasm_component_model(settings.common.component_model);
    config.wasm_gc(settings.wasm_gc);
    config.wasm_function_references(settings.wasm_function_references);
    config.gc_support(settings.common.gc_support);
    config.signals_based_traps(settings.common.signals_based_traps);
    config.memory_init_cow(settings.common.memory_init_cow);
    config.memory_guard_size(settings.common.memory_guard_size);
    config.memory_reservation(settings.common.memory_reservation);
    config.max_wasm_stack(settings.max_wasm_stack);
    Engine::new(&config)?.precompile_component(wasm)
}

/// Why a guest could not be compiled.
#[derive(Debug)]
pub enum CompileError {
    /// The compiler refused it.
    Refused(wasmtime::Error),
}

/// What becomes of the compiler's answer.
pub fn artifact(answer: Result<Vec<u8>, wasmtime::Error>) -> (r: Result<Vec<u8>, CompileError>)
    ensures
        r == (match answer {
            Ok(artifact) => Ok::<Vec<u8>, CompileError>(artifact),
            Err(e) => Err(CompileError::Refused(e)),
        }),
{
    match answer {
        Ok(artifact) => Ok(artifact),
        Err(e) => Err(CompileError::Refused(e)),
    }
}

/// Compiles a guest. It fails only where the compiler, for the target and with the settings
/// of guests, refuses.
pub fn compile(wasm: &[u8]) -> (r: Result<Vec<u8>, CompileError>)
    ensures
        match r {
            Ok(artifact) => {
                &&& may_compile_to(
                    TARGET@,
                    compiler_settings_spec(),
                    wasm@,
                    Some(artifact@),
                )
                &&& matches_at(wasm@, component_preamble(), 0)
                &&& matches_at(artifact@, elf_magic(), 0)
            },
            Err(_) => may_compile_to(TARGET@, compiler_settings_spec(), wasm@, None),
        },
{
    let settings: CompilerSettings = compiler_settings();
    artifact(precompile(TARGET, &settings, wasm))
}

/// What the compiler is asked to do: the files to read and to write.
#[derive(Debug)]
pub struct Job {
    pub input: String,
    pub output: String,
}

/// Reads the command line, the name of the program first. There must be two more arguments;
/// what follows them is ignored.
pub fn parse_args(args: &[String]) -> (r: Option<Job>)
    ensures
        match r {
            Some(job) => {
                &&& args@.len() >= 3
                &&& job.input@ == args@[1]@
                &&& job.output@ == args@[2]@
            },
            None => args@.len() < 3,
        },
{
    if args.len() < 3 {
        None
    } else {
        Some(Job { input: args[1].clone(), output: args[2].clone() })
    }
}

/// Says how the program is called.
pub fn usage(program: &str) -> (line: String)
    ensures
        line@ == "Usage: "@ + program@ + " <input_wasm> <output_pulley>"@,
{
    let mut line: String = "Usage: ".to_owned();
    line.append(program);
    line.append(" <input_wasm> <output_pulley>");
    line
}

} // verus!
