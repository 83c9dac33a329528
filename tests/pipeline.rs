use nova_cli::codec::CodecError;
use nova_cli::inputs::InputError;
use nova_cli::paths::PathError;
use nova_cli::pipeline::{
    check_iteration_count, compile_command, compile_result, decode_start_vector, prove_paths,
    read_start_vector, setup_paths, PipelineError, ProcessOutcome,
};

#[test]
fn setup_paths_from_circuit() {
    let sp = setup_paths("work/fib.circom").unwrap();
    assert_eq!(sp.r1cs, "work/fib.r1cs");
    assert_eq!(sp.params, "work/fib.pp");
    assert_eq!(sp.prover_key, "work/fib.pk");
    assert_eq!(sp.verifier_key, "work/fib.vk");
}

#[test]
fn setup_paths_twice_are_the_same() {
    let a = setup_paths("fib.circom").unwrap();
    let b = setup_paths("fib.circom").unwrap();
    assert_eq!((a.r1cs, a.params, a.prover_key, a.verifier_key), (b.r1cs, b.params, b.prover_key, b.verifier_key));
}

#[test]
fn prove_paths_from_params() {
    let pp = prove_paths("work/fib.pp").unwrap();
    assert_eq!(pp.r1cs, "work/fib.r1cs");
    assert_eq!(pp.witness_generator, "work/fib_js/fib.wasm");
    assert_eq!(pp.proof, "work/fib.proof");
}

#[test]
fn setup_and_prove_agree_on_constraint_system() {
    let sp = setup_paths("c/x.circom").unwrap();
    let pp = prove_paths(&sp.params).unwrap();
    assert_eq!(sp.r1cs, pp.r1cs);
}

#[test]
fn paths_without_file_name() {
    assert_eq!(setup_paths("dir/").err(), Some(PipelineError::BadPath(PathError::NoFileName)));
    assert_eq!(prove_paths("").err(), Some(PipelineError::BadPath(PathError::NoFileName)));
}

#[test]
fn compile_command_for_existing_source() {
    let c = compile_command("circuits/fib.circom", true).unwrap();
    assert_eq!(c.program, "circom");
    assert_eq!(c.args, vec!["circuits/fib.circom", "--wasm", "--r1cs", "-o", "circuits"]);
    let bare = compile_command("fib.circom", true).unwrap();
    assert_eq!(bare.args[4], ".");
    let root = compile_command("/fib.circom", true).unwrap();
    assert_eq!(root.args[4], "/");
}

#[test]
fn compile_missing_source() {
    assert_eq!(compile_command("nowhere/none.circom", false).err(), Some(PipelineError::CircuitNotFound));
}

#[test]
fn compile_outcomes() {
    assert_eq!(compile_result(ProcessOutcome::Exited(0)), Ok(()));
    assert_eq!(
        compile_result(ProcessOutcome::Exited(1)),
        Err(PipelineError::CompilationFailed(ProcessOutcome::Exited(1)))
    );
    assert_eq!(
        compile_result(ProcessOutcome::Exited(2)),
        Err(PipelineError::CompilationFailed(ProcessOutcome::Exited(2)))
    );
    assert_eq!(
        compile_result(ProcessOutcome::Signalled),
        Err(PipelineError::CompilationFailed(ProcessOutcome::Signalled))
    );
    assert_eq!(
        compile_result(ProcessOutcome::LaunchFailed),
        Err(PipelineError::CompilationFailed(ProcessOutcome::LaunchFailed))
    );
}

#[test]
fn decode_start_in_order() {
    let v = vec!["0x1".to_string(), "0x2".to_string()];
    assert_eq!(decode_start_vector(&v), Ok(vec![[1, 0, 0, 0], [2, 0, 0, 0]]));
    assert_eq!(decode_start_vector(&vec![]), Ok(vec![]));
}

#[test]
fn decode_start_reports_first_bad() {
    let v = vec!["0x1".to_string(), "12".to_string(), "0xzz".to_string()];
    assert_eq!(
        decode_start_vector(&v),
        Err(PipelineError::InvalidEncoding { index: 1, error: CodecError::MissingPrefix })
    );
}

#[test]
fn read_start_vector_end_to_end() {
    assert_eq!(read_start_vector(r#"{"step_in": ["0x0", "0x10"]}"#), Ok(vec![[0, 0, 0, 0], [16, 0, 0, 0]]));
    assert_eq!(
        read_start_vector(r#"{"step_in": 1}"#),
        Err(PipelineError::MalformedInput(InputError::FieldNotAnArray))
    );
    assert_eq!(
        read_start_vector(r#"{"step_in": ["0x1g"]}"#),
        Err(PipelineError::InvalidEncoding { index: 0, error: CodecError::InvalidDigit })
    );
}

#[test]
fn iteration_count_must_match() {
    assert_eq!(check_iteration_count(3, 3), Ok(()));
    assert_eq!(
        check_iteration_count(3, 4),
        Err(PipelineError::IterationMismatch { recorded: 3, requested: 4 })
    );
    assert_eq!(
        check_iteration_count(0, 1),
        Err(PipelineError::IterationMismatch { recorded: 0, requested: 1 })
    );
}
