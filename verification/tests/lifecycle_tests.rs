use glprogram::context::{GlContext, GlExecutor, GlTask};
use glprogram::program::{build_shader, Program};
use glprogram::stage::ShaderStage;

const VS: &str = "#version 150\nvoid main(){gl_Position=vec4(0);}";
const FS: &str = "#version 150\nout vec4 c; void main(){c=vec4(1);}";

#[test]
fn destroying_a_program_once_zeroes_all_tracked_handles() {
    let mut ex = GlExecutor::new(GlContext::new(false));
    let program = Program::new(&mut ex, VS, FS, None).unwrap();
    let pid = program.get_id();
    ex.ctxt.bind_program(pid);
    ex.ctxt.cache_binding(42, pid);
    ex.ctxt.cache_binding(43, 9999);
    assert_eq!(ex.ctxt.live_program_count(), 1);
    assert_eq!(ex.ctxt.live_shader_count(), 2);
    assert!(ex.ctxt.has_cached_binding_for(pid));

    program.destroy(&mut ex);
    // destruction is fire-and-forget: nothing has run yet
    assert_eq!(ex.ctxt.live_program_count(), 1);
    assert_eq!(ex.ctxt.live_shader_count(), 2);
    assert_eq!(ex.ctxt.current_program(), pid);

    ex.run_pending();
    assert_eq!(ex.ctxt.live_program_count(), 0);
    assert_eq!(ex.ctxt.live_shader_count(), 0);
    assert!(!ex.ctxt.has_cached_binding_for(pid));
    // the unrelated cache entry survives the purge
    assert_eq!(ex.ctxt.binding_cache_len(), 1);
    // the bound-program state was reset before deletion
    assert_eq!(ex.ctxt.current_program(), 0);
}

#[test]
fn destroying_an_unbound_program_keeps_the_binding_of_another() {
    let mut ex = GlExecutor::new(GlContext::new(false));
    let first = Program::new(&mut ex, VS, FS, None).unwrap();
    let second = Program::new(&mut ex, VS, FS, None).unwrap();
    let kept = second.get_id();
    ex.ctxt.bind_program(kept);
    first.destroy(&mut ex);
    ex.run_pending();
    assert_eq!(ex.ctxt.current_program(), kept);
    assert_eq!(ex.ctxt.live_program_count(), 1);
    assert_eq!(ex.ctxt.live_shader_count(), 2);
    second.destroy(&mut ex);
    ex.run_pending();
    assert_eq!(ex.ctxt.current_program(), 0);
    assert_eq!(ex.ctxt.live_program_count(), 0);
    assert_eq!(ex.ctxt.live_shader_count(), 0);
}

#[test]
fn deferred_tasks_observe_submission_order() {
    let mut ex = GlExecutor::new(GlContext::new(false));
    let shader = build_shader(&mut ex, ShaderStage::Vertex, VS).unwrap();
    let id = shader.id();
    assert_eq!(shader.stage(), ShaderStage::Vertex);
    assert!(ex.ctxt.is_live_shader(id));

    // a deferred deletion leaves the handle live until the queue drains
    shader.destroy(&mut ex);
    assert!(ex.ctxt.is_live_shader(id));
    ex.run_pending();
    assert!(!ex.ctxt.is_live_shader(id));

    // a creation task's effect is visible to a deletion submitted after it:
    // the build drains the pending deletion of the old handle first, and the
    // fresh handle is distinct from every handle deleted before
    let next = build_shader(&mut ex, ShaderStage::Fragment, FS).unwrap();
    let next_id = next.id();
    assert_ne!(next_id, id);
    ex.submit(GlTask::DeleteShader(next_id));
    assert!(ex.ctxt.is_live_shader(next_id));
    ex.run_pending();
    assert!(!ex.ctxt.is_live_shader(next_id));
    assert_eq!(ex.ctxt.live_shader_count(), 0);
}

#[test]
fn deleting_a_stale_handle_is_ignored() {
    let mut ex = GlExecutor::new(GlContext::new(false));
    let shader = build_shader(&mut ex, ShaderStage::Vertex, VS).unwrap();
    let id = shader.id();
    shader.destroy(&mut ex);
    // the same deletion queued twice: the second run finds nothing to do
    ex.submit(GlTask::DeleteShader(id));
    ex.run_pending();
    assert_eq!(ex.ctxt.live_shader_count(), 0);
}

#[test]
fn standalone_shader_build_reports_its_compile_error() {
    let mut ctxt = GlContext::new(false);
    ctxt.add_compile_failure(VS, "unterminated comment");
    let mut ex = GlExecutor::new(ctxt);
    let err = build_shader(&mut ex, ShaderStage::Vertex, VS).unwrap_err();
    assert_eq!(err.diagnostic().unwrap().as_str(), "unterminated comment");
    ex.run_pending();
    assert_eq!(ex.ctxt.live_shader_count(), 0);
}
