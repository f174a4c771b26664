use glprogram::context::{GlContext, GlExecutor};
use glprogram::error::ProgramCreationError;
use glprogram::program::{get_uniforms_locations, Program};
use glprogram::stage::ShaderStage;
use glprogram::uniforms::UniformInfo;

const VS: &str = "#version 150\nvoid main(){gl_Position=vec4(0);}";
const FS: &str = "#version 150\nuniform float x; out vec4 c; void main(){c=vec4(x);}";
const GS: &str = "#version 150\nvoid main(){}";

fn executor(reduced: bool) -> GlExecutor {
    GlExecutor::new(GlContext::new(reduced))
}

#[test]
fn successful_build_returns_handle_and_uniform_x() {
    let mut ctxt = GlContext::new(false);
    assert!(ctxt.add_active_uniform(
        "x",
        UniformInfo { location: 0, data_type: 5126, size: 1 },
    ));
    let mut ex = GlExecutor::new(ctxt);
    let program = Program::new(&mut ex, VS, FS, None).unwrap();
    assert_ne!(program.get_id(), 0);
    let uniforms = get_uniforms_locations(&program);
    assert_eq!(uniforms.len(), 1);
    assert_eq!(uniforms[0].0.as_str(), "x");
    assert_eq!(uniforms[0].1.size, 1);
    assert_eq!(uniforms[0].1.location, 0);
    assert_eq!(uniforms[0].1.data_type, 5126);
    let info = program.get_uniform("x").unwrap();
    assert_eq!(info.size, 1);
    assert!(program.get_uniform("y").is_none());
    assert_eq!(ex.ctxt.live_program_count(), 1);
    assert_eq!(ex.ctxt.live_shader_count(), 2);
    assert_eq!(ex.ctxt.upload_count(), 2);
}

#[test]
fn successful_build_may_reflect_an_empty_uniform_mapping() {
    let mut ex = executor(false);
    let program = Program::new(&mut ex, VS, FS, None).unwrap();
    assert_ne!(program.get_id(), 0);
    assert!(get_uniforms_locations(&program).is_empty());
    assert!(program.get_uniform("x").is_none());
}

#[test]
fn uniform_names_are_unique_and_order_is_kept() {
    let mut ctxt = GlContext::new(false);
    assert!(ctxt.add_active_uniform(
        "model",
        UniformInfo { location: 0, data_type: 35676, size: 1 },
    ));
    assert!(ctxt.add_active_uniform(
        "lights",
        UniformInfo { location: 4, data_type: 35665, size: 8 },
    ));
    // a second entry under an existing name is refused
    assert!(!ctxt.add_active_uniform(
        "model",
        UniformInfo { location: 9, data_type: 5126, size: 1 },
    ));
    // an element count of zero is refused
    assert!(!ctxt.add_active_uniform(
        "broken",
        UniformInfo { location: 10, data_type: 5126, size: 0 },
    ));
    let mut ex = GlExecutor::new(ctxt);
    let program = Program::new(&mut ex, VS, FS, None).unwrap();
    let uniforms = get_uniforms_locations(&program);
    assert_eq!(uniforms.len(), 2);
    assert_eq!(uniforms[0].0.as_str(), "model");
    assert_eq!(uniforms[1].0.as_str(), "lights");
    assert_eq!(program.get_uniform("lights").unwrap().size, 8);
    assert_eq!(program.get_uniform("lights").unwrap().location, 4);
}

#[test]
fn fragment_syntax_error_reports_fragment_stage_and_leaks_nothing() {
    let mut ctxt = GlContext::new(false);
    ctxt.add_compile_failure(FS, "0:2: syntax error");
    let mut ex = GlExecutor::new(ctxt);
    let err = Program::new(&mut ex, VS, FS, None).unwrap_err();
    match &err {
        ProgramCreationError::CompilationError(stage, log) => {
            assert_eq!(*stage, ShaderStage::Fragment);
            assert_eq!(log.as_str(), "0:2: syntax error");
        },
        other => panic!("unexpected error: {:?}", other.compilation_stage()),
    }
    assert_eq!(err.compilation_stage(), Some(ShaderStage::Fragment));
    // both stage handles were uploaded before the failure surfaced
    assert_eq!(ex.ctxt.upload_count(), 2);
    ex.run_pending();
    assert_eq!(ex.ctxt.live_shader_count(), 0);
    assert_eq!(ex.ctxt.live_program_count(), 0);
}

#[test]
fn vertex_error_is_reported_first_and_fragment_never_compiles() {
    let mut ctxt = GlContext::new(false);
    ctxt.add_compile_failure(VS, "bad vertex");
    ctxt.add_compile_failure(FS, "bad fragment");
    let mut ex = GlExecutor::new(ctxt);
    let err = Program::new(&mut ex, VS, FS, None).unwrap_err();
    assert_eq!(err.compilation_stage(), Some(ShaderStage::Vertex));
    assert_eq!(err.diagnostic().unwrap().as_str(), "bad vertex");
    // only the vertex source was uploaded: later stages are never attempted
    assert_eq!(ex.ctxt.upload_count(), 1);
    ex.run_pending();
    assert_eq!(ex.ctxt.live_shader_count(), 0);
}

#[test]
fn geometry_error_cleans_up_the_vertex_stage() {
    let mut ctxt = GlContext::new(false);
    ctxt.add_compile_failure(GS, "bad geometry");
    let mut ex = GlExecutor::new(ctxt);
    let err = Program::new(&mut ex, VS, FS, Some(GS)).unwrap_err();
    assert_eq!(err.compilation_stage(), Some(ShaderStage::Geometry));
    assert_eq!(ex.ctxt.upload_count(), 2);
    ex.run_pending();
    assert_eq!(ex.ctxt.live_shader_count(), 0);
}

#[test]
fn link_failure_reports_log_and_releases_every_handle() {
    let mut ctxt = GlContext::new(false);
    ctxt.set_link_failure(glprogram::program::GL_NO_ERROR, "mismatched interface");
    let mut ex = GlExecutor::new(ctxt);
    let err = Program::new(&mut ex, VS, FS, None).unwrap_err();
    match &err {
        ProgramCreationError::LinkingError(log) => {
            assert_eq!(log.as_str(), "mismatched interface");
        },
        _ => panic!("expected a linking error"),
    }
    ex.run_pending();
    assert_eq!(ex.ctxt.live_shader_count(), 0);
    assert_eq!(ex.ctxt.live_program_count(), 0);
}

#[test]
fn link_failure_classifies_backend_error_codes() {
    for (code, expected) in [
        (glprogram::program::GL_INVALID_VALUE, "glLinkProgram triggered GL_INVALID_VALUE"),
        (
            glprogram::program::GL_INVALID_OPERATION,
            "glLinkProgram triggered GL_INVALID_OPERATION",
        ),
        (1280u32, "glLinkProgram triggered an unknown error"),
    ] {
        let mut ctxt = GlContext::new(false);
        ctxt.set_link_failure(code, "ignored backend log");
        let mut ex = GlExecutor::new(ctxt);
        let err = Program::new(&mut ex, VS, FS, None).unwrap_err();
        match &err {
            ProgramCreationError::LinkingError(log) => assert_eq!(log.as_str(), expected),
            _ => panic!("expected a linking error"),
        }
    }
}

#[test]
fn geometry_on_reduced_backend_fails_before_any_upload() {
    let mut ex = executor(true);
    let err = Program::new(&mut ex, VS, FS, Some(GS)).unwrap_err();
    assert!(matches!(err, ProgramCreationError::ShaderStageNotSupported));
    assert_eq!(ex.ctxt.upload_count(), 0);
    ex.run_pending();
    assert_eq!(ex.ctxt.live_shader_count(), 0);
    assert_eq!(ex.ctxt.live_program_count(), 0);
}

#[test]
fn geometry_stage_builds_on_a_full_backend() {
    let mut ex = executor(false);
    let program = Program::new(&mut ex, VS, FS, Some(GS)).unwrap();
    assert_ne!(program.get_id(), 0);
    assert_eq!(ex.ctxt.live_shader_count(), 3);
    assert_eq!(ex.ctxt.upload_count(), 3);
}

#[test]
fn program_allocation_failure_releases_compiled_stages() {
    let mut ctxt = GlContext::new(false);
    ctxt.limit_allocations(2);
    let mut ex = GlExecutor::new(ctxt);
    let err = Program::new(&mut ex, VS, FS, None).unwrap_err();
    assert!(matches!(err, ProgramCreationError::ProgramCreationFailure));
    assert_eq!(ex.ctxt.upload_count(), 2);
    ex.run_pending();
    assert_eq!(ex.ctxt.live_shader_count(), 0);
    assert_eq!(ex.ctxt.live_program_count(), 0);
}

#[test]
fn shader_allocation_failure_is_folded_into_stage_not_supported() {
    let mut ctxt = GlContext::new(false);
    ctxt.limit_allocations(0);
    let mut ex = GlExecutor::new(ctxt);
    let err = Program::new(&mut ex, VS, FS, None).unwrap_err();
    assert!(matches!(err, ProgramCreationError::ShaderStageNotSupported));
    assert_eq!(ex.ctxt.upload_count(), 0);
}

#[test]
fn second_stage_allocation_failure_cleans_up_the_first_stage() {
    let mut ctxt = GlContext::new(false);
    ctxt.limit_allocations(1);
    let mut ex = GlExecutor::new(ctxt);
    let err = Program::new(&mut ex, VS, FS, None).unwrap_err();
    assert!(matches!(err, ProgramCreationError::ShaderStageNotSupported));
    assert_eq!(ex.ctxt.upload_count(), 1);
    ex.run_pending();
    assert_eq!(ex.ctxt.live_shader_count(), 0);
}
