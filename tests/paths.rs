use nova_cli::paths::{derive_artifact_path, with_extension, witness_generator_path, ArtifactRole, PathError};

#[test]
fn derive_each_role() {
    let base = "circuits/main.circom";
    assert_eq!(derive_artifact_path(base, ArtifactRole::ConstraintSystem).unwrap(), "circuits/main.r1cs");
    assert_eq!(derive_artifact_path(base, ArtifactRole::PublicParameters).unwrap(), "circuits/main.pp");
    assert_eq!(derive_artifact_path(base, ArtifactRole::ProverKey).unwrap(), "circuits/main.pk");
    assert_eq!(derive_artifact_path(base, ArtifactRole::VerifierKey).unwrap(), "circuits/main.vk");
    assert_eq!(derive_artifact_path(base, ArtifactRole::Proof).unwrap(), "circuits/main.proof");
}

#[test]
fn extension_replaces_only_the_last() {
    assert_eq!(with_extension("a/b.tar.gz", "pp").unwrap(), "a/b.tar.pp");
    assert_eq!(with_extension("a.d/b", "pp").unwrap(), "a.d/b.pp");
    assert_eq!(with_extension("main", "r1cs").unwrap(), "main.r1cs");
}

#[test]
fn leading_dot_is_no_extension() {
    assert_eq!(with_extension(".hidden", "pk").unwrap(), ".hidden.pk");
    assert_eq!(with_extension("dir/.hidden.x", "pk").unwrap(), "dir/.hidden.pk");
}

#[test]
fn no_file_name() {
    assert_eq!(with_extension("", "pp"), Err(PathError::NoFileName));
    assert_eq!(with_extension("dir/", "pp"), Err(PathError::NoFileName));
    assert_eq!(with_extension("dir/..", "pp"), Err(PathError::NoFileName));
    assert_eq!(with_extension(".", "pp"), Err(PathError::NoFileName));
}

#[test]
fn witness_generator_beside_constraint_system() {
    assert_eq!(witness_generator_path("out/main.r1cs").unwrap(), "out/main_js/main.wasm");
    assert_eq!(witness_generator_path("main.r1cs").unwrap(), "main_js/main.wasm");
    assert_eq!(witness_generator_path("out/"), Err(PathError::NoFileName));
}

#[test]
fn role_extensions() {
    assert_eq!(ArtifactRole::ConstraintSystem.extension(), "r1cs");
    assert_eq!(ArtifactRole::Proof.extension(), "proof");
}
