//! The decisions of the setup, prove and verify phases: which paths each
//! phase reads and writes, how the circuit compiler is invoked and how its
//! outcome is judged, how the start vector is decoded, and whether a proof
//! is checked against the number of steps it was made for.

use vstd::prelude::*;
use crate::codec::{decode_hex_scalar, decode_spec, CodecError};
use crate::inputs::{read_start_input, start_input_spec, strings_view, InputError};
use crate::paths::{
    derive_artifact_path, find_last, has_file_name, last_index_from, lemma_last_index_bounds,
    lemma_with_extension_shape, role_extension, witness_generator_path,
    witness_generator_spec, with_extension_spec, ArtifactRole, PathError,
};

verus! {

/// How the circuit compiler ended.
#[derive(Debug, Clone, Copy, PartialEq, Eq, Structural)]
pub enum ProcessOutcome {
    /// It exited with this code.
    Exited(i32),
    /// It was ended by a signal, with no exit code.
    Signalled,
    /// It could not be started.
    LaunchFailed,
}

/// Why a phase stopped.
#[derive(Debug, Clone, Copy, PartialEq, Eq, Structural)]
pub enum PipelineError {
    /// A path argument names no file.
    BadPath(PathError),
    /// The circuit source is not an existing regular file.
    CircuitNotFound,
    /// The circuit compiler failed, or could not be started.
    CompilationFailed(ProcessOutcome),
    /// An input document does not have the expected shape.
    MalformedInput(InputError),
    /// The start-vector element at `index` is not a valid hex scalar.
    InvalidEncoding { index: usize, error: CodecError },
    /// The proof was made for `recorded` steps, and `requested` were asked for.
    IterationMismatch { recorded: usize, requested: usize },
}

/// The paths that setup writes, all named after the circuit source.
pub struct SetupPaths {
    pub r1cs: String,
    pub params: String,
    pub prover_key: String,
    pub verifier_key: String,
}

/// The paths that prove reads and writes, all named after the parameters file.
pub struct ProvePaths {
    pub r1cs: String,
    pub witness_generator: String,
    pub proof: String,
}

/// The command that compiles a circuit.
pub struct CompileCommand {
    pub program: String,
    pub args: Vec<String>,
}

pub open spec fn compiler_name() -> Seq<char> {
    seq!['c', 'i', 'r', 'c', 'o', 'm']
}

/// The directory that holds `p`: `.` for a bare name, `/` for a name at the root.
pub open spec fn parent_dir(p: Seq<char>) -> Seq<char> {
    let k = last_index_from(p, '/', 0);
    if k < 0 {
        seq!['.']
    } else if k == 0 {
        seq!['/']
    } else {
        p.subrange(0, k)
    }
}

/// The compiler's arguments: the source, both outputs, and the source's directory.
pub open spec fn compile_args_spec(source: Seq<char>) -> Seq<Seq<char>> {
    seq![
        source,
        seq!['-', '-', 'w', 'a', 's', 'm'],
        seq!['-', '-', 'r', '1', 'c', 's'],
        seq!['-', 'o'],
        parent_dir(source),
    ]
}

/// The decoded start vector: each string's limbs, or the first that fails.
pub open spec fn start_limbs_of(ss: Seq<Seq<char>>) -> Result<Seq<Seq<u64>>, PipelineError>
    decreases ss.len(),
{
    if ss.len() == 0 {
        Ok(Seq::empty())
    } else {
        match start_limbs_of(ss.drop_last()) {
            Err(e) => Err(e),
            Ok(ls) => match decode_spec(ss.last(), true) {
                Err(e) => Err(PipelineError::InvalidEncoding { index: (ss.len() - 1) as usize, error: e }),
                Ok(l) => Ok(ls.push(l)),
            },
        }
    }
}

pub open spec fn limbs_view(v: Seq<[u64; 4]>) -> Seq<Seq<u64>> {
    v.map_values(|a: [u64; 4]| a@)
}

/// The start vector that the start document `text` holds, decoded.
pub open spec fn start_vector_spec(text: Seq<char>) -> Result<Seq<Seq<u64>>, PipelineError> {
    match start_input_spec(text) {
        Err(e) => Err(PipelineError::MalformedInput(e)),
        Ok(ss) => start_limbs_of(ss),
    }
}

/// The constraint system that prove reads beside a parameters file is the
/// one that setup wrote beside the circuit, and the proof sits beside both.
pub proof fn lemma_phases_share_artifacts(circuit: Seq<char>)
    requires
        has_file_name(circuit),
    ensures
        has_file_name(with_extension_spec(circuit, role_extension(ArtifactRole::PublicParameters))),
        with_extension_spec(
            with_extension_spec(circuit, role_extension(ArtifactRole::PublicParameters)),
            role_extension(ArtifactRole::ConstraintSystem),
        ) == with_extension_spec(circuit, role_extension(ArtifactRole::ConstraintSystem)),
        with_extension_spec(
            with_extension_spec(circuit, role_extension(ArtifactRole::PublicParameters)),
            role_extension(ArtifactRole::Proof),
        ) == with_extension_spec(circuit, role_extension(ArtifactRole::Proof)),
{
    let ext = role_extension(ArtifactRole::PublicParameters);
    lemma_with_extension_shape(circuit, ext);
}

/// The paths of the artifacts that setup writes for the circuit at `circuit`.
pub fn setup_paths(circuit: &str) -> (r: Result<SetupPaths, PipelineError>)
    ensures
        match r {
            Ok(sp) => {
                &&& has_file_name(circuit@)
                &&& sp.r1cs@ == with_extension_spec(circuit@, role_extension(ArtifactRole::ConstraintSystem))
                &&& sp.params@ == with_extension_spec(circuit@, role_extension(ArtifactRole::PublicParameters))
                &&& sp.prover_key@ == with_extension_spec(circuit@, role_extension(ArtifactRole::ProverKey))
                &&& sp.verifier_key@ == with_extension_spec(circuit@, role_extension(ArtifactRole::VerifierKey))
            },
            Err(e) => !has_file_name(circuit@) && e == PipelineError::BadPath(PathError::NoFileName),
        },
{
    let r1cs = match derive_artifact_path(circuit, ArtifactRole::ConstraintSystem) {
        Ok(p) => p,
        Err(e) => return Err(PipelineError::BadPath(e)),
    };
    let params = match derive_artifact_path(circuit, ArtifactRole::PublicParameters) {
        Ok(p) => p,
        Err(e) => return Err(PipelineError::BadPath(e)),
    };
    let prover_key = match derive_artifact_path(circuit, ArtifactRole::ProverKey) {
        Ok(p) => p,
        Err(e) => return Err(PipelineError::BadPath(e)),
    };
    let verifier_key = match derive_artifact_path(circuit, ArtifactRole::VerifierKey) {
        Ok(p) => p,
        Err(e) => return Err(PipelineError::BadPath(e)),
    };
    Ok(SetupPaths { r1cs, params, prover_key, verifier_key })
}

/// The paths that prove uses for the parameters file at `params`: the
/// constraint system beside it, that system's witness generator, and the
/// proof to write.
pub fn prove_paths(params: &str) -> (r: Result<ProvePaths, PipelineError>)
    ensures
        match r {
            Ok(pp) => {
                &&& has_file_name(params@)
                &&& pp.r1cs@ == with_extension_spec(params@, role_extension(ArtifactRole::ConstraintSystem))
                &&& pp.witness_generator@ == witness_generator_spec(pp.r1cs@)
                &&& pp.proof@ == with_extension_spec(params@, role_extension(ArtifactRole::Proof))
            },
            Err(e) => !has_file_name(params@) && e == PipelineError::BadPath(PathError::NoFileName),
        },
{
    let r1cs = match derive_artifact_path(params, ArtifactRole::ConstraintSystem) {
        Ok(p) => p,
        Err(e) => return Err(PipelineError::BadPath(e)),
    };
    proof {
        lemma_with_extension_shape(params@, role_extension(ArtifactRole::ConstraintSystem));
    }
    let witness_generator = match witness_generator_path(r1cs.as_str()) {
        Ok(p) => p,
        Err(e) => return Err(PipelineError::BadPath(e)),
    };
    let proof = match derive_artifact_path(params, ArtifactRole::Proof) {
        Ok(p) => p,
        Err(e) => return Err(PipelineError::BadPath(e)),
    };
    Ok(ProvePaths { r1cs, witness_generator, proof })
}

/// The command that compiles the circuit at `source` into a constraint
/// system and a witness generator beside it; `source_is_file` says whether
/// `source` is an existing regular file.
pub fn compile_command(source: &str, source_is_file: bool) -> (r: Result<CompileCommand, PipelineError>)
    ensures
        match r {
            Ok(c) => {
                &&& source_is_file
                &&& c.program@ == compiler_name()
                &&& strings_view(c.args@) == compile_args_spec(source@)
            },
            Err(e) => !source_is_file && e == PipelineError::CircuitNotFound,
        },
{
    if !source_is_file {
        return Err(PipelineError::CircuitNotFound);
    }
    proof {
        reveal_strlit("circom");
        reveal_strlit("--wasm");
        reveal_strlit("--r1cs");
        reveal_strlit("-o");
        reveal_strlit(".");
        reveal_strlit("/");
        lemma_last_index_bounds(source@, '/', 0);
    }
    let parent = match find_last(source, '/', 0) {
        None => ".".to_owned(),
        Some(0) => "/".to_owned(),
        Some(k) => source.substring_char(0, k).to_owned(),
    };
    assert(parent@ =~= parent_dir(source@));
    assert("--wasm"@ =~= seq!['-', '-', 'w', 'a', 's', 'm']);
    assert("--r1cs"@ =~= seq!['-', '-', 'r', '1', 'c', 's']);
    assert("-o"@ =~= seq!['-', 'o']);
    assert("circom"@ =~= compiler_name());
    let mut args: Vec<String> = Vec::new();
    args.push(source.to_owned());
    args.push("--wasm".to_owned());
    args.push("--r1cs".to_owned());
    args.push("-o".to_owned());
    args.push(parent);
    assert(strings_view(args@) =~= compile_args_spec(source@));
    Ok(CompileCommand { program: "circom".to_owned(), args })
}

/// Judges how the compiler ended: only an exit with code 0 is success.
pub fn compile_result(outcome: ProcessOutcome) -> (r: Result<(), PipelineError>)
    ensures
        r is Ok <==> outcome == ProcessOutcome::Exited(0),
        r is Err ==> r == Err::<(), PipelineError>(PipelineError::CompilationFailed(outcome)),
{
    match outcome {
        ProcessOutcome::Exited(0) => Ok(()),
        _ => Err(PipelineError::CompilationFailed(outcome)),
    }
}

proof fn lemma_start_limbs_error_stays(s: Seq<Seq<char>>, k: int)
    requires
        0 <= k <= s.len(),
        start_limbs_of(s.subrange(0, k)) is Err,
    ensures
        start_limbs_of(s) == start_limbs_of(s.subrange(0, k)),
    decreases s.len() - k,
{
    if k < s.len() {
        assert(s.subrange(0, k + 1).drop_last() =~= s.subrange(0, k));
        lemma_start_limbs_error_stays(s, k + 1);
    } else {
        assert(s.subrange(0, k) =~= s);
    }
}

/// Decodes each hex scalar of the start vector, in order; fails on the first
/// that is not a `0x`-prefixed hex scalar of at most 64 digits.
pub fn decode_start_vector(ss: &Vec<String>) -> (r: Result<Vec<[u64; 4]>, PipelineError>)
    ensures
        match r {
            Ok(v) => start_limbs_of(strings_view(ss@)) == Ok::<_, PipelineError>(limbs_view(v@)),
            Err(e) => start_limbs_of(strings_view(ss@)) == Err::<Seq<Seq<u64>>, _>(e),
        },
{
    let ghost sv = strings_view(ss@);
    let mut out: Vec<[u64; 4]> = Vec::new();
    let mut i: usize = 0;
    assert(sv.subrange(0, 0) =~= Seq::<Seq<char>>::empty());
    assert(limbs_view(out@) =~= Seq::empty());
    while i < ss.len()
        invariant
            i <= ss.len(),
            sv == strings_view(ss@),
            start_limbs_of(sv.subrange(0, i as int)) == Ok::<_, PipelineError>(limbs_view(out@)),
        decreases ss.len() - i,
    {
        assert(sv.subrange(0, i + 1).drop_last() =~= sv.subrange(0, i as int));
        assert(sv.subrange(0, i + 1).last() == ss@[i as int]@);
        match decode_hex_scalar(ss[i].as_str(), true) {
            Err(e) => {
                proof {
                    lemma_start_limbs_error_stays(sv, i + 1);
                }
                return Err(PipelineError::InvalidEncoding { index: i, error: e });
            },
            Ok(l) => {
                let ghost before = out@;
                out.push(l);
                assert(limbs_view(out@) =~= limbs_view(before).push(l@));
            },
        }
        i = i + 1;
    }
    assert(sv.subrange(0, sv.len() as int) =~= sv);
    Ok(out)
}

/// Reads and decodes the start vector from the JSON text of its document.
pub fn read_start_vector(text: &str) -> (r: Result<Vec<[u64; 4]>, PipelineError>)
    ensures
        match r {
            Ok(v) => start_vector_spec(text@) == Ok::<_, PipelineError>(limbs_view(v@)),
            Err(e) => start_vector_spec(text@) == Err::<Seq<Seq<u64>>, _>(e),
        },
{
    match read_start_input(text) {
        Err(e) => Err(PipelineError::MalformedInput(e)),
        Ok(ss) => decode_start_vector(&ss),
    }
}

/// Checks that a proof made for `recorded` steps is verified for as many.
pub fn check_iteration_count(recorded: usize, requested: usize) -> (r: Result<(), PipelineError>)
    ensures
        r is Ok <==> recorded == requested,
        r is Err ==> r == Err::<(), PipelineError>(
            PipelineError::IterationMismatch { recorded, requested },
        ),
{
    if recorded == requested {
        Ok(())
    } else {
        Err(PipelineError::IterationMismatch { recorded, requested })
    }
}

} // verus!
