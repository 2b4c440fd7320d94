//! Options of a compile, and assembling an analysed program.
use vstd::prelude::*;
use crate::assemble::{
    CompiledArtifact, assemble_artifact, assemble_artifact_with_options, spec_assemble_error, spec_is_artifact,
    spec_scripts_fit,
};
use crate::errors::ScriptLangError;
use crate::semantic::SemanticProgram;
use crate::text::{chars_of, string_from_chars};

verus! {

/// Options of a compile: the script a run starts with.
#[derive(Clone, Debug, PartialEq, Eq)]
pub struct CompileOptions {
    pub default_entry_script_ref: String,
}

impl Default for CompileOptions {
    /// The default entry script is `main.main`.
    fn default() -> (r: Self)
        ensures
            r.default_entry_script_ref@ == "main.main"@,
    {
        CompileOptions { default_entry_script_ref: string_from_chars(&chars_of("main.main")) }
    }
}

/// What a compile produced: the analysed program and its artifact.
#[derive(Debug)]
pub struct CompilePipeline {
    pub semantic_program: SemanticProgram,
    pub artifact: CompiledArtifact,
}

/// Assembles an analysed program with `main.main` as the default entry.
pub fn assemble_semantic_program(semantic_program: &SemanticProgram) -> (r: Result<CompiledArtifact, ScriptLangError>)
    requires
        spec_scripts_fit(semantic_program.modules@),
    ensures
        r is Ok <==> spec_assemble_error(semantic_program.modules@, "main.main"@) is None,
        r matches Ok(a) ==> spec_is_artifact(a, semantic_program.modules@, "main.main"@),
        r matches Err(e) ==> spec_assemble_error(semantic_program.modules@, "main.main"@) == Some(e@),
{
    assemble_artifact(semantic_program)
}

/// Assembles an analysed program with the entry the options name.
pub fn assemble_semantic_program_with_options(semantic_program: &SemanticProgram, options: &CompileOptions) -> (r: Result<
    CompiledArtifact,
    ScriptLangError,
>)
    requires
        spec_scripts_fit(semantic_program.modules@),
    ensures
        r is Ok <==> spec_assemble_error(semantic_program.modules@, options.default_entry_script_ref@) is None,
        r matches Ok(a) ==> spec_is_artifact(a, semantic_program.modules@, options.default_entry_script_ref@),
        r matches Err(e) ==> spec_assemble_error(semantic_program.modules@, options.default_entry_script_ref@) == Some(e@),
{
    assemble_artifact_with_options(semantic_program, options)
}

} // verus!
