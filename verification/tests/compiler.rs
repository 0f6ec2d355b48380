use pulley_leds::compiler::{
    artifact, compile, compiler_settings, parse_args, runtime_settings, usage, CompileError, TARGET,
};

const EMPTY_COMPONENT: &[u8] = &[0x00, 0x61, 0x73, 0x6d, 0x0d, 0x00, 0x01, 0x00];
const EMPTY_MODULE: &[u8] = &[0x00, 0x61, 0x73, 0x6d, 0x01, 0x00, 0x00, 0x00];

#[test]
fn component_compiles_to_an_object_file() {
    let artifact = compile(EMPTY_COMPONENT).unwrap();
    assert_eq!(&artifact[..4], b"\x7fELF");
    assert_ne!(artifact, EMPTY_COMPONENT.to_vec());
    assert!(wasmtime::Engine::detect_precompiled(&artifact) == Some(wasmtime::Precompiled::Component));
}

#[test]
fn what_is_no_component_does_not_compile() {
    assert!(matches!(compile(EMPTY_MODULE), Err(CompileError::Refused(_))));
    assert!(matches!(compile(b""), Err(CompileError::Refused(_))));
    assert!(matches!(compile(b"(component)"), Err(CompileError::Refused(_))));
    assert!(matches!(compile(&EMPTY_COMPONENT[..7]), Err(CompileError::Refused(_))));
}

#[test]
fn answers_of_the_compiler() {
    assert_eq!(artifact(Ok(vec![1, 2])).unwrap(), vec![1, 2]);
    assert!(artifact(Err(wasmtime::Error::msg("no"))).is_err());
}

#[test]
fn engines_agree() {
    let c = compiler_settings();
    let r = runtime_settings();
    assert_eq!(TARGET, "pulley32");
    assert_eq!(c.common, r.common);
    assert!(c.common.component_model);
    assert!(!c.common.gc_support && !c.common.signals_based_traps && !c.common.memory_init_cow);
    assert_eq!((c.common.memory_guard_size, c.common.memory_reservation), (0, 0));
    assert!(!c.wasm_gc && !c.wasm_function_references);
    assert_eq!(c.max_wasm_stack, 32 * 1024);
    assert_eq!(r.max_wasm_stack, 16 * 1024);
    assert_eq!(r.memory_reservation_for_growth, 0);
}

#[test]
fn command_line() {
    let args: Vec<String> = ["c", "in.wasm", "out.pulley", "more"].map(String::from).to_vec();
    let job = parse_args(&args).unwrap();
    assert_eq!(job.input, "in.wasm");
    assert_eq!(job.output, "out.pulley");
    assert!(parse_args(&args[..2]).is_none());
    assert!(parse_args(&[]).is_none());
    assert_eq!(usage("c"), "Usage: c <input_wasm> <output_pulley>");
}
