//! The shader/program pipeline: compile each stage, attach and link,
//! reflect the uniform interface, and tear the program down in order.

use vstd::prelude::*;

use crate::context::{
    after_program_alloc, after_shader_alloc, alloc_result, apply_task, drain, keep_other_handles,
    lemma_apply_task_wf, lemma_delete_absent, lemma_delete_present, lemma_delete_pushed,
    lemma_drain_concat, lemma_drain_two, lemma_drain_three, lemma_drain_wf,
    spec_compile_log, spec_compiles, GlExecutor, GlTask, GlView,
};
use crate::error::{ErrorV, ProgramCreationError};
use crate::stage::ShaderStage;
use crate::uniforms::{
    distinct_names, spec_find_uniform, table_view, UniformInfo, UniformTable,
};
use crate::uniforms::{find_uniform, lemma_find_uniform_distinct};

verus! {

/// One compiled shader stage: an opaque backend handle plus the stage kind.
/// Exclusively owned, first by the build, then by the linked program.
#[derive(Debug)]
pub struct CompiledShader {
    id: u32,
    stage: ShaderStage,
}

impl View for CompiledShader {
    type V = (u32, ShaderStage);

    closed spec fn view(&self) -> (u32, ShaderStage) {
        (self.id, self.stage)
    }
}

impl CompiledShader {
    /// The backend handle of this shader object.
    pub fn id(&self) -> (r: u32)
        ensures
            r == self@.0,
    {
        self.id
    }

    /// The stage this shader was compiled for.
    pub fn stage(&self) -> (r: ShaderStage)
        ensures
            r == self@.1,
    {
        self.stage
    }

    /// Relinquishes the shader: its deletion is submitted fire-and-forget,
    /// so it runs after every task submitted before it.
    pub fn destroy(self, ex: &mut GlExecutor)
        ensures
            final(ex).ctxt == old(ex).ctxt,
            final(ex).queue@ == old(ex).queue@.push(GlTask::DeleteShader(self@.0)),
    {
        ex.submit(GlTask::DeleteShader(self.id));
    }
}

/// Result of building one stage on a drained context `c`: the stage is
/// refused before any allocation when it is a geometry stage on a
/// reduced-capability backend; a zero handle is folded into the same error;
/// a compile failure carries the stage and the backend log.
pub open spec fn shader_outcome(c: GlView, stage: ShaderStage, src: Seq<char>) -> Result<
    u32,
    ErrorV,
> {
    if stage == ShaderStage::Geometry && c.opengl_es {
        Err(ErrorV::StageNotSupported)
    } else if alloc_result(c) == 0 {
        Err(ErrorV::StageNotSupported)
    } else if !spec_compiles(c, src) {
        Err(ErrorV::Compilation(stage, spec_compile_log(c, src)))
    } else {
        Ok(alloc_result(c))
    }
}

/// Context state after building one stage: untouched if the stage was
/// refused before allocation, otherwise one allocated handle and one source
/// upload.
pub open spec fn shader_ctxt(c: GlView, stage: ShaderStage, src: Seq<char>) -> GlView {
    if stage == ShaderStage::Geometry && c.opengl_es {
        c
    } else if alloc_result(c) == 0 {
        c
    } else {
        GlView { uploads: c.uploads + 1, ..after_shader_alloc(c) }
    }
}

/// Cleanup submitted while building one stage: the abandoned handle of a
/// stage that failed to compile, nothing otherwise.
pub open spec fn shader_cleanup(c: GlView, stage: ShaderStage, src: Seq<char>) -> Seq<GlTask> {
    if stage == ShaderStage::Geometry && c.opengl_es {
        Seq::<GlTask>::empty()
    } else if alloc_result(c) == 0 {
        Seq::<GlTask>::empty()
    } else if !spec_compiles(c, src) {
        seq![GlTask::DeleteShader(alloc_result(c))]
    } else {
        Seq::<GlTask>::empty()
    }
}

/// Builds an individual shader as synchronous work on the context thread:
/// pending tasks run first, then capability check, handle allocation,
/// source upload and compilation; on a compile failure the fresh handle's
/// deletion is submitted before the error surfaces.
pub fn build_shader(ex: &mut GlExecutor, stage: ShaderStage, source: &str) -> (r: Result<
    CompiledShader,
    ProgramCreationError,
>)
    requires
        old(ex).wf(),
        old(ex).ctxt@.uploads < u64::MAX,
    ensures
        final(ex).wf(),
        ({
            let d0 = drain(old(ex).ctxt@, old(ex).queue@);
            &&& final(ex).ctxt@ == shader_ctxt(d0, stage, source@)
            &&& final(ex).queue@ == shader_cleanup(d0, stage, source@)
            &&& (match (r, shader_outcome(d0, stage, source@)) {
                (Ok(s), Ok(h)) => s@ == (h, stage),
                (Err(e), Err(ev)) => e@ == ev,
                _ => false,
            })
        }),
{
    proof {
        lemma_drain_wf(old(ex).ctxt@, old(ex).queue@);
    }
    ex.run_pending();
    let ghost d0 = ex.ctxt@;
    if stage == ShaderStage::Geometry && ex.ctxt.is_reduced_capability() {
        return Err(ProgramCreationError::ShaderStageNotSupported);
    }
    let id = ex.ctxt.create_shader();
    if id == 0 {
        return Err(ProgramCreationError::ShaderStageNotSupported);
    }
    proof {
        assert(ex.ctxt@.live_shaders.last() == id);
        assert(ex.ctxt@.live_shaders.contains(id));
    }
    let compiled = ex.ctxt.compile_shader(id, source);
    if !compiled.0 {
        ex.submit(GlTask::DeleteShader(id));
        proof {
            assert(ex.queue@ =~= shader_cleanup(d0, stage, source@));
        }
        return Err(ProgramCreationError::CompilationError(stage, compiled.1));
    }
    Ok(CompiledShader { id, stage })
}

/// Backend error code for "no error recorded".
pub const GL_NO_ERROR: u32 = 0;

/// Backend error code for an out-of-range argument.
pub const GL_INVALID_VALUE: u32 = 1281;

/// Backend error code for an operation illegal in the current state.
pub const GL_INVALID_OPERATION: u32 = 1282;

/// The diagnostic text of a failed link: a coarse classification of the
/// backend error code where one was recorded, the backend's own info log
/// otherwise.
pub open spec fn link_message(c: GlView) -> Seq<char> {
    if c.link_error_code == GL_INVALID_VALUE {
        "glLinkProgram triggered GL_INVALID_VALUE"@
    } else if c.link_error_code == GL_INVALID_OPERATION {
        "glLinkProgram triggered GL_INVALID_OPERATION"@
    } else if c.link_error_code != GL_NO_ERROR {
        "glLinkProgram triggered an unknown error"@
    } else {
        c.link_log
    }
}

/// The stage handles and kinds a sequence of compiled shaders carries.
pub open spec fn shaders_view(shaders: Seq<CompiledShader>) -> Seq<(u32, ShaderStage)> {
    shaders.map_values(|s: CompiledShader| s@)
}

/// One deletion task per owned shader, in order.
pub open spec fn delete_shader_tasks(shaders: Seq<(u32, ShaderStage)>) -> Seq<GlTask> {
    shaders.map_values(|p: (u32, ShaderStage)| GlTask::DeleteShader(p.0))
}

/// Mathematical value of a linked program: its handle, its owned stage
/// handles in attachment order, and its reflected uniform table.
#[verifier::ext_equal]
pub struct ProgramV {
    pub id: u32,
    pub shaders: Seq<(u32, ShaderStage)>,
    pub uniforms: Seq<(Seq<char>, UniformInfo)>,
}

/// What a whole build does: either a program or an error.
#[verifier::ext_equal]
pub enum BuildOutcome {
    Success(ProgramV),
    Failure(ErrorV),
}

/// The full effect of a build on a drained context: the context afterwards,
/// the cleanup tasks left in the queue, and the result handed back.
#[verifier::ext_equal]
pub struct BuildFx {
    pub ctxt: GlView,
    pub cleanup: Seq<GlTask>,
    pub outcome: BuildOutcome,
}

/// Effect of the link step once every stage has compiled: allocate the
/// program handle (every compiled stage is released on failure), attach and
/// link (the program handle is released as well on failure), and on success
/// hand the stages over to the program.
pub open spec fn link_fx(c: GlView, shaders: Seq<(u32, ShaderStage)>) -> BuildFx {
    let pid = alloc_result(c);
    if pid == 0 {
        BuildFx {
            ctxt: c,
            cleanup: delete_shader_tasks(shaders),
            outcome: BuildOutcome::Failure(ErrorV::CreationFailure),
        }
    } else if c.link_fails {
        BuildFx {
            ctxt: after_program_alloc(c),
            cleanup: delete_shader_tasks(shaders).push(GlTask::DeleteProgram(pid)),
            outcome: BuildOutcome::Failure(ErrorV::Linking(link_message(c))),
        }
    } else {
        BuildFx {
            ctxt: after_program_alloc(c),
            cleanup: Seq::<GlTask>::empty(),
            outcome: BuildOutcome::Success(
                ProgramV { id: pid, shaders, uniforms: c.uniforms },
            ),
        }
    }
}

/// The full effect of building a program on a drained context `c0`: a
/// geometry request on a reduced-capability backend is refused before any
/// stage is built; otherwise the vertex stage, the geometry stage if
/// present and the fragment stage are built in that order, the first
/// failure aborting the build and releasing every stage built so far; then
/// the link step runs.
pub open spec fn build_fx(c0: GlView, v: Seq<char>, f: Seq<char>, g: Option<Seq<char>>) -> BuildFx {
    if g is Some && c0.opengl_es {
        BuildFx {
            ctxt: c0,
            cleanup: Seq::<GlTask>::empty(),
            outcome: BuildOutcome::Failure(ErrorV::StageNotSupported),
        }
    } else {
        let c1 = shader_ctxt(c0, ShaderStage::Vertex, v);
        match shader_outcome(c0, ShaderStage::Vertex, v) {
            Err(e) => BuildFx {
                ctxt: c1,
                cleanup: shader_cleanup(c0, ShaderStage::Vertex, v),
                outcome: BuildOutcome::Failure(e),
            },
            Ok(vh) => match g {
                Some(gs) => {
                    let c2 = shader_ctxt(c1, ShaderStage::Geometry, gs);
                    match shader_outcome(c1, ShaderStage::Geometry, gs) {
                        Err(e) => BuildFx {
                            ctxt: c2,
                            cleanup: shader_cleanup(c1, ShaderStage::Geometry, gs).push(
                                GlTask::DeleteShader(vh),
                            ),
                            outcome: BuildOutcome::Failure(e),
                        },
                        Ok(gh) => {
                            let c3 = shader_ctxt(c2, ShaderStage::Fragment, f);
                            match shader_outcome(c2, ShaderStage::Fragment, f) {
                                Err(e) => BuildFx {
                                    ctxt: c3,
                                    cleanup: shader_cleanup(c2, ShaderStage::Fragment, f).push(
                                        GlTask::DeleteShader(vh),
                                    ).push(GlTask::DeleteShader(gh)),
                                    outcome: BuildOutcome::Failure(e),
                                },
                                Ok(fh) => link_fx(
                                    c3,
                                    seq![
                                        (vh, ShaderStage::Vertex),
                                        (gh, ShaderStage::Geometry),
                                        (fh, ShaderStage::Fragment),
                                    ],
                                ),
                            }
                        },
                    }
                },
                None => {
                    let c3 = shader_ctxt(c1, ShaderStage::Fragment, f);
                    match shader_outcome(c1, ShaderStage::Fragment, f) {
                        Err(e) => BuildFx {
                            ctxt: c3,
                            cleanup: shader_cleanup(c1, ShaderStage::Fragment, f).push(
                                GlTask::DeleteShader(vh),
                            ),
                            outcome: BuildOutcome::Failure(e),
                        },
                        Ok(fh) => link_fx(
                            c3,
                            seq![(vh, ShaderStage::Vertex), (fh, ShaderStage::Fragment)],
                        ),
                    }
                },
            },
        }
    }
}

/// The sources of a build, as the contract sees an optional stage.
pub open spec fn opt_src_view(g: Option<&str>) -> Option<Seq<char>> {
    match g {
        Some(s) => Some(s@),
        None => None,
    }
}

/// Submits one deletion task per shader, in order.
fn submit_shader_deletes(ex: &mut GlExecutor, shaders: &Vec<CompiledShader>)
    ensures
        final(ex).ctxt == old(ex).ctxt,
        final(ex).queue@ == old(ex).queue@ + delete_shader_tasks(shaders_view(shaders@)),
{
    let ghost full = shaders_view(shaders@);
    let mut i: usize = 0;
    while i < shaders.len()
        invariant
            0 <= i <= shaders@.len(),
            full == shaders_view(shaders@),
            full.len() == shaders@.len(),
            ex.ctxt == old(ex).ctxt,
            ex.queue@ == old(ex).queue@ + delete_shader_tasks(full.take(i as int)),
        decreases shaders@.len() - i,
    {
        let id = shaders[i].id();
        ex.submit(GlTask::DeleteShader(id));
        proof {
            assert(full[i as int] == shaders@[i as int]@);
            assert(full.take(i as int + 1) =~= full.take(i as int).push(full[i as int]));
            assert(delete_shader_tasks(full.take(i as int + 1)) =~= delete_shader_tasks(
                full.take(i as int),
            ).push(GlTask::DeleteShader(full[i as int].0)));
            assert(old(ex).queue@ + delete_shader_tasks(full.take(i as int + 1)) =~= (old(
                ex,
            ).queue@ + delete_shader_tasks(full.take(i as int))).push(
                GlTask::DeleteShader(full[i as int].0),
            ));
        }
        i = i + 1;
    }
    proof {
        assert(full.take(i as int) =~= full);
    }
}

/// A combination of shaders linked together: the program handle, the owned
/// compiled stages, and the immutable uniform table reflected after the
/// link.
#[derive(Debug)]
pub struct Program {
    id: u32,
    shaders: Vec<CompiledShader>,
    uniforms: UniformTable,
}

impl View for Program {
    type V = ProgramV;

    closed spec fn view(&self) -> ProgramV {
        ProgramV {
            id: self.id,
            shaders: shaders_view(self.shaders@),
            uniforms: table_view(self.uniforms@),
        }
    }
}

/// The tasks that tear a program down: purge its cached bindings, unbind
/// and delete its handle, then delete each owned stage handle.
pub open spec fn destroy_tasks(p: ProgramV) -> Seq<GlTask> {
    seq![GlTask::PurgeProgramBindings(p.id), GlTask::DeleteProgram(p.id)]
        + delete_shader_tasks(p.shaders)
}

impl Program {
    /// The backend handle of the linked program.
    pub fn get_id(&self) -> (r: u32)
        ensures
            r == self@.id,
    {
        self.id
    }

    /// Binding information of the uniform named `name`, if the program has
    /// one.
    pub fn get_uniform(&self, name: &str) -> (r: Option<&UniformInfo>)
        ensures
            (match spec_find_uniform(self@.uniforms, name@) {
                Some(info) => r is Some && *r->0 == info,
                None => r is None,
            }),
    {
        find_uniform(&self.uniforms, name)
    }

    /// Relinquishes the program: its cached-binding purge, its own deletion
    /// (unbinding first if it is bound) and the deletion of each owned
    /// stage are submitted in that order, fire-and-forget.
    pub fn destroy(self, ex: &mut GlExecutor)
        ensures
            final(ex).ctxt == old(ex).ctxt,
            final(ex).queue@ == old(ex).queue@ + destroy_tasks(self@),
    {
        let ghost pv = self@;
        let Program { id, shaders, uniforms: _ } = self;
        ex.submit(GlTask::PurgeProgramBindings(id));
        ex.submit(GlTask::DeleteProgram(id));
        submit_shader_deletes(ex, &shaders);
        proof {
            assert(ex.queue@ =~= old(ex).queue@ + destroy_tasks(pv));
        }
    }

    /// Builds a new program: compiles the vertex stage, the geometry stage
    /// if requested, and the fragment stage, in that order; attaches and
    /// links them; reflects the uniform interface. The first failure aborts
    /// the build, releases every handle built so far, and is returned. A
    /// geometry request on a reduced-capability backend is refused before
    /// any source is uploaded.
    pub fn new(
        ex: &mut GlExecutor,
        vertex_shader: &str,
        fragment_shader: &str,
        geometry_shader: Option<&str>,
    ) -> (r: Result<Program, ProgramCreationError>)
        requires
            old(ex).wf(),
            old(ex).ctxt@.uploads + 3 <= u64::MAX,
        ensures
            final(ex).wf(),
            ({
                let fx = build_fx(
                    drain(old(ex).ctxt@, old(ex).queue@),
                    vertex_shader@,
                    fragment_shader@,
                    opt_src_view(geometry_shader),
                );
                &&& final(ex).ctxt@ == fx.ctxt
                &&& final(ex).queue@ == fx.cleanup
                &&& (match (r, fx.outcome) {
                    (Ok(p), BuildOutcome::Success(pv)) => p@ == pv,
                    (Err(e), BuildOutcome::Failure(ev)) => e@ == ev,
                    _ => false,
                })
            }),
    {
        broadcast use vstd::string::group_string_axioms;

        proof {
            lemma_drain_wf(old(ex).ctxt@, old(ex).queue@);
        }
        ex.run_pending();
        let ghost d0 = ex.ctxt@;
        let ghost gsrc = opt_src_view(geometry_shader);
        if geometry_shader.is_some() && ex.ctxt.is_reduced_capability() {
            return Err(ProgramCreationError::ShaderStageNotSupported);
        }
        proof {
            assert(drain(ex.ctxt@, ex.queue@) == ex.ctxt@);
        }
        let vertex = match build_shader(ex, ShaderStage::Vertex, vertex_shader) {
            Ok(s) => s,
            Err(e) => {
                return Err(e);
            },
        };
        let ghost c1 = shader_ctxt(d0, ShaderStage::Vertex, vertex_shader@);
        let ghost vh = vertex@.0;
        let vid = vertex.id();
        proof {
            assert(ex.ctxt@ == c1);
            assert(c1.uploads == d0.uploads + 1);
            assert(drain(ex.ctxt@, ex.queue@) == ex.ctxt@);
        }
        let geometry = match geometry_shader {
            Some(gs) => match build_shader(ex, ShaderStage::Geometry, gs) {
                Ok(s) => Some(s),
                Err(e) => {
                    vertex.destroy(ex);
                    proof {
                        assert(ex.queue@ =~= shader_cleanup(c1, ShaderStage::Geometry, gs@).push(
                            GlTask::DeleteShader(vh),
                        ));
                    }
                    return Err(e);
                },
            },
            None => None,
        };
        let ghost c2 = (match gsrc {
            Some(gs) => shader_ctxt(c1, ShaderStage::Geometry, gs),
            None => c1,
        });
        let ghost gh = (match &geometry {
            Some(g) => g@.0,
            None => 0u32,
        });
        proof {
            assert(ex.ctxt@ == c2);
            assert(drain(ex.ctxt@, ex.queue@) == ex.ctxt@);
        }
        let fragment = match build_shader(ex, ShaderStage::Fragment, fragment_shader) {
            Ok(s) => s,
            Err(e) => {
                vertex.destroy(ex);
                match geometry {
                    Some(g) => {
                        g.destroy(ex);
                        proof {
                            assert(ex.queue@ =~= shader_cleanup(
                                c2,
                                ShaderStage::Fragment,
                                fragment_shader@,
                            ).push(GlTask::DeleteShader(vh)).push(GlTask::DeleteShader(gh)));
                        }
                    },
                    None => {
                        proof {
                            assert(ex.queue@ =~= shader_cleanup(
                                c2,
                                ShaderStage::Fragment,
                                fragment_shader@,
                            ).push(GlTask::DeleteShader(vh)));
                        }
                    },
                }
                return Err(e);
            },
        };
        let ghost c3 = shader_ctxt(c2, ShaderStage::Fragment, fragment_shader@);
        let ghost fh = fragment@.0;
        let fid = fragment.id();

        let mut shaders: Vec<CompiledShader> = Vec::new();
        let mut ids: Vec<u32> = Vec::new();
        shaders.push(vertex);
        ids.push(vid);
        match geometry {
            Some(g) => {
                let gid = g.id();
                shaders.push(g);
                ids.push(gid);
            },
            None => {},
        }
        shaders.push(fragment);
        ids.push(fid);
        let ghost stages = shaders_view(shaders@);
        proof {
            assert(ex.ctxt@ == c3);
            if gsrc is Some {
                assert(stages =~= seq![
                    (vh, ShaderStage::Vertex),
                    (gh, ShaderStage::Geometry),
                    (fh, ShaderStage::Fragment),
                ]);
                assert(c3.live_shaders =~= d0.live_shaders.push(vh).push(gh).push(fh));
            } else {
                assert(stages =~= seq![(vh, ShaderStage::Vertex), (fh, ShaderStage::Fragment)]);
                assert(c3.live_shaders =~= d0.live_shaders.push(vh).push(fh));
            }
        }

        let pid = ex.ctxt.create_program();
        if pid == 0 {
            submit_shader_deletes(ex, &shaders);
            proof {
                assert(ex.queue@ =~= delete_shader_tasks(stages));
            }
            return Err(ProgramCreationError::ProgramCreationFailure);
        }
        let ghost c4 = after_program_alloc(c3);
        proof {
            assert(ex.ctxt@ == c4);
            assert(c4.live_programs.last() == pid);
            assert(c4.live_programs.contains(pid));
            assert forall|k: int|
                0 <= k < ids@.len() implies c4.live_shaders.contains(#[trigger] ids@[k]) by {
                if gsrc is Some {
                    assert(ids@ =~= seq![vh, gh, fh]);
                    let n = d0.live_shaders.len() as int;
                    assert(c4.live_shaders[n] == vh);
                    assert(c4.live_shaders[n + 1] == gh);
                    assert(c4.live_shaders[n + 2] == fh);
                } else {
                    assert(ids@ =~= seq![vh, fh]);
                    let n = d0.live_shaders.len() as int;
                    assert(c4.live_shaders[n] == vh);
                    assert(c4.live_shaders[n + 1] == fh);
                }
            }
        }
        let linked = ex.ctxt.attach_and_link(pid, &ids);
        if !linked.0 {
            let msg = (if linked.1 == GL_INVALID_VALUE {
                "glLinkProgram triggered GL_INVALID_VALUE".to_string()
            } else if linked.1 == GL_INVALID_OPERATION {
                "glLinkProgram triggered GL_INVALID_OPERATION".to_string()
            } else if linked.1 != GL_NO_ERROR {
                "glLinkProgram triggered an unknown error".to_string()
            } else {
                linked.2
            });
            proof {
                assert(msg@ == link_message(c3));
            }
            submit_shader_deletes(ex, &shaders);
            ex.submit(GlTask::DeleteProgram(pid));
            proof {
                assert(ex.queue@ =~= delete_shader_tasks(stages).push(GlTask::DeleteProgram(pid)));
            }
            return Err(ProgramCreationError::LinkingError(msg));
        }

        let count = ex.ctxt.active_uniform_count(pid);
        let mut uniforms: UniformTable = Vec::new();
        let ghost ex_snap = *ex;
        proof {
            assert(table_view(uniforms@) =~= c4.uniforms.take(0));
        }
        let mut i: usize = 0;
        while i < count
            invariant
                0 <= i <= count,
                *ex == ex_snap,
                ex.ctxt@ == c4,
                ex.ctxt@.wf(),
                ex.ctxt@.live_programs.contains(pid),
                count == c4.uniforms.len(),
                table_view(uniforms@) == c4.uniforms.take(i as int),
            decreases count - i,
        {
            let entry = ex.ctxt.active_uniform(pid, i);
            let loc = ex.ctxt.uniform_location(pid, entry.0.as_str());
            proof {
                lemma_find_uniform_distinct(c4.uniforms, i as int);
            }
            uniforms.push(
                (entry.0, UniformInfo { location: loc, data_type: entry.1, size: entry.2 }),
            );
            proof {
                assert(c4.uniforms[i as int].1 == (UniformInfo {
                    location: loc,
                    data_type: entry.1,
                    size: entry.2,
                }));
                assert(c4.uniforms.take(i as int + 1) =~= c4.uniforms.take(i as int).push(
                    c4.uniforms[i as int],
                ));
                assert(table_view(uniforms@) =~= c4.uniforms.take(i as int + 1));
            }
            i = i + 1;
        }
        proof {
            assert(c4.uniforms.take(count as int) =~= c4.uniforms);
        }
        let program = Program { id: pid, shaders, uniforms };
        proof {
            assert(program@ =~= (ProgramV { id: pid, shaders: stages, uniforms: c3.uniforms }));
        }
        Ok(program)
    }
}

/// The read-only, shareable uniform table of a linked program: each entry
/// maps a uniform name to its binding information.
pub fn get_uniforms_locations<'a>(program: &'a Program) -> (r: &'a UniformTable)
    ensures
        table_view(r@) == program@.uniforms,
{
    &program.uniforms
}

/// Law: a geometry request on a reduced-capability backend is refused
/// before any shader source is uploaded — the context, in particular its
/// upload count and its live handles, is untouched, and nothing is queued.
pub proof fn lemma_geometry_refused_before_upload(
    c: GlView,
    v: Seq<char>,
    f: Seq<char>,
    g: Seq<char>,
)
    requires
        c.opengl_es,
    ensures
        ({
            let fx = build_fx(c, v, f, Some(g));
            &&& fx.outcome == BuildOutcome::Failure(ErrorV::StageNotSupported)
            &&& fx.ctxt == c
            &&& fx.ctxt.uploads == c.uploads
            &&& fx.cleanup == Seq::<GlTask>::empty()
        }),
{
}

/// Law: a build whose two stages compile, whose allocations succeed and
/// whose link succeeds returns a program: its handle is fresh and nonzero,
/// its uniform table is exactly the backend's reflected table with no two
/// entries sharing a name, and no cleanup is queued.
pub proof fn lemma_successful_build(c: GlView, v: Seq<char>, f: Seq<char>)
    requires
        c.wf(),
        c.alloc_budget is None,
        c.next_handle + 3 <= u32::MAX,
        spec_compiles(c, v),
        spec_compiles(c, f),
        !c.link_fails,
    ensures
        ({
            let fx = build_fx(c, v, f, None);
            &&& (match fx.outcome {
                BuildOutcome::Success(p) => {
                    &&& p.id != 0
                    &&& !c.live_programs.contains(p.id)
                    &&& p.uniforms == c.uniforms
                    &&& distinct_names(p.uniforms)
                    &&& p.shaders.len() == 2
                    &&& fx.ctxt.live_programs == c.live_programs.push(p.id)
                    &&& fx.ctxt.live_shaders == c.live_shaders.push(p.shaders[0].0).push(
                        p.shaders[1].0,
                    )
                },
                BuildOutcome::Failure(_) => false,
            })
            &&& fx.cleanup == Seq::<GlTask>::empty()
        }),
{
    let c1 = shader_ctxt(c, ShaderStage::Vertex, v);
    let c3 = shader_ctxt(c1, ShaderStage::Fragment, f);
    let pid = alloc_result(c3);
    assert(spec_compiles(c1, f));
    assert(pid == c.next_handle + 2);
    if c.live_programs.contains(pid) {
        let k = choose|k: int| 0 <= k < c.live_programs.len() && c.live_programs[k] == pid;
        assert(c.live_programs[k] < c.next_handle);
    }
}

/// Law: a build whose fragment stage alone fails to compile returns a
/// compilation error naming the fragment stage and carrying the backend's
/// log, and once the queued cleanup has run, exactly the shader and
/// program handles that were live before the build are live again.
pub proof fn lemma_fragment_failure_releases_stages(c: GlView, v: Seq<char>, f: Seq<char>)
    requires
        c.wf(),
        c.alloc_budget is None,
        c.next_handle + 3 <= u32::MAX,
        spec_compiles(c, v),
        !spec_compiles(c, f),
    ensures
        ({
            let fx = build_fx(c, v, f, None);
            &&& fx.outcome == BuildOutcome::Failure(
                ErrorV::Compilation(ShaderStage::Fragment, spec_compile_log(c, f)),
            )
            &&& drain(fx.ctxt, fx.cleanup).live_shaders == c.live_shaders
            &&& drain(fx.ctxt, fx.cleanup).live_programs == c.live_programs
        }),
{
    let fx = build_fx(c, v, f, None);
    let vh = c.next_handle;
    let c1 = shader_ctxt(c, ShaderStage::Vertex, v);
    let fh = c1.next_handle;
    assert(spec_compile_log(c1, f) == spec_compile_log(c, f));
    assert(fx.cleanup =~= seq![GlTask::DeleteShader(fh), GlTask::DeleteShader(vh)]);
    lemma_drain_two(fx.ctxt, GlTask::DeleteShader(fh), GlTask::DeleteShader(vh));
    assert(fx.ctxt.live_shaders == c.live_shaders.push(vh).push(fh));
    assert(!c.live_shaders.push(vh).contains(fh)) by {
        if c.live_shaders.push(vh).contains(fh) {
            let k = choose|k: int|
                0 <= k < c.live_shaders.push(vh).len() && c.live_shaders.push(vh)[k] == fh;
            if k < c.live_shaders.len() {
                assert(c.live_shaders[k] < c.next_handle);
            }
        }
    }
    lemma_delete_pushed(c.live_shaders.push(vh), fh);
    assert(!c.live_shaders.contains(vh)) by {
        if c.live_shaders.contains(vh) {
            let k = choose|k: int| 0 <= k < c.live_shaders.len() && c.live_shaders[k] == vh;
            assert(c.live_shaders[k] < c.next_handle);
        }
    }
    lemma_delete_pushed(c.live_shaders, vh);
}

/// Law: a build whose stages compile individually but whose link fails
/// returns a linking error carrying the classified diagnostic, and once
/// the queued cleanup has run, exactly the shader and program handles that
/// were live before the build are live again — the stage handles are
/// deleted, not leaked.
pub proof fn lemma_link_failure_releases_stages(c: GlView, v: Seq<char>, f: Seq<char>)
    requires
        c.wf(),
        c.alloc_budget is None,
        c.next_handle + 3 <= u32::MAX,
        spec_compiles(c, v),
        spec_compiles(c, f),
        c.link_fails,
    ensures
        ({
            let fx = build_fx(c, v, f, None);
            &&& fx.outcome == BuildOutcome::Failure(ErrorV::Linking(link_message(c)))
            &&& drain(fx.ctxt, fx.cleanup).live_shaders == c.live_shaders
            &&& drain(fx.ctxt, fx.cleanup).live_programs == c.live_programs
            &&& drain(fx.ctxt, fx.cleanup).bound_program == c.bound_program
        }),
{
    let fx = build_fx(c, v, f, None);
    let vh = c.next_handle;
    let c1 = shader_ctxt(c, ShaderStage::Vertex, v);
    let fh = c1.next_handle;
    let c3 = shader_ctxt(c1, ShaderStage::Fragment, f);
    let pid = alloc_result(c3);
    assert(spec_compiles(c1, f));
    assert(link_message(c3) == link_message(c));
    assert(fx.cleanup =~= seq![
        GlTask::DeleteShader(vh),
        GlTask::DeleteShader(fh),
        GlTask::DeleteProgram(pid),
    ]);
    lemma_drain_three(
        fx.ctxt,
        GlTask::DeleteShader(vh),
        GlTask::DeleteShader(fh),
        GlTask::DeleteProgram(pid),
    );
    assert(fx.ctxt.live_shaders == c.live_shaders.push(vh).push(fh));
    // first deletion: the vertex handle, below the fragment handle on the
    // stack of pushes
    c.live_shaders.push(vh).lemma_filter_push(fh, keep_other_handles(vh));
    c.live_shaders.lemma_filter_push(vh, keep_other_handles(vh));
    assert(!c.live_shaders.contains(vh)) by {
        if c.live_shaders.contains(vh) {
            let k = choose|k: int| 0 <= k < c.live_shaders.len() && c.live_shaders[k] == vh;
            assert(c.live_shaders[k] < c.next_handle);
        }
    }
    lemma_delete_absent(c.live_shaders, vh);
    assert(c.live_shaders.push(vh).push(fh).filter(keep_other_handles(vh))
        == c.live_shaders.push(fh));
    // second deletion: the fragment handle, now last
    assert(!c.live_shaders.contains(fh)) by {
        if c.live_shaders.contains(fh) {
            let k = choose|k: int| 0 <= k < c.live_shaders.len() && c.live_shaders[k] == fh;
            assert(c.live_shaders[k] < c.next_handle);
        }
    }
    lemma_delete_pushed(c.live_shaders, fh);
    // third deletion: the program handle
    assert(fx.ctxt.live_programs == c.live_programs.push(pid));
    assert(!c.live_programs.contains(pid)) by {
        if c.live_programs.contains(pid) {
            let k = choose|k: int| 0 <= k < c.live_programs.len() && c.live_programs[k] == pid;
            assert(c.live_programs[k] < c.next_handle);
        }
    }
    lemma_delete_pushed(c.live_programs, pid);
    if c.bound_program == pid {
        assert(c.live_programs.contains(pid));
    }
}

/// Running the deletion tasks of a batch of distinct live shader handles
/// removes exactly those handles and touches nothing else.
pub proof fn lemma_drain_shader_deletes(c: GlView, shaders: Seq<(u32, ShaderStage)>)
    requires
        c.wf(),
        forall|k: int|
            0 <= k < shaders.len() ==> c.live_shaders.contains(#[trigger] shaders[k].0),
        forall|k: int, l: int|
            0 <= k < shaders.len() && 0 <= l < shaders.len() && k != l
                ==> shaders[k].0 != shaders[l].0,
    ensures
        ({
            let c2 = drain(c, delete_shader_tasks(shaders));
            &&& c2.live_shaders.len() == c.live_shaders.len() - shaders.len()
            &&& forall|k: int|
                0 <= k < shaders.len() ==> !c2.live_shaders.contains(#[trigger] shaders[k].0)
            &&& forall|x: u32| c2.live_shaders.contains(x) ==> c.live_shaders.contains(x)
            &&& c2.live_programs == c.live_programs
            &&& c2.bound_program == c.bound_program
            &&& c2.binding_cache == c.binding_cache
            &&& c2.wf()
        }),
    decreases shaders.len(),
{
    if shaders.len() == 0 {
        assert(delete_shader_tasks(shaders) =~= Seq::<GlTask>::empty());
        assert(drain(c, Seq::<GlTask>::empty()) == c);
        assert(forall|x: u32| c.live_shaders.contains(x) ==> c.live_shaders.contains(x));
    } else {
        let id0 = shaders[0].0;
        let t = delete_shader_tasks(shaders);
        assert(t[0] == GlTask::DeleteShader(id0));
        assert(t.drop_first() =~= delete_shader_tasks(shaders.drop_first()));
        let ca = apply_task(c, GlTask::DeleteShader(id0));
        assert(drain(c, t) == drain(ca, t.drop_first()));
        lemma_apply_task_wf(c, GlTask::DeleteShader(id0));
        lemma_delete_present(c.live_shaders, id0);
        assert(forall|k: int|
            0 <= k < shaders.drop_first().len()
                ==> #[trigger] shaders.drop_first()[k] == shaders[k + 1]);
        assert forall|k: int|
            0 <= k < shaders.drop_first().len() implies ca.live_shaders.contains(
            #[trigger] shaders.drop_first()[k].0,
        ) by {
            assert(shaders.drop_first()[k].0 == shaders[k + 1].0);
            assert(shaders[k + 1].0 != id0);
        }
        lemma_drain_shader_deletes(ca, shaders.drop_first());
        let c2 = drain(ca, shaders.drop_first().map_values(
            |p: (u32, ShaderStage)| GlTask::DeleteShader(p.0),
        ));
        assert forall|k: int|
            0 <= k < shaders.len() implies !drain(c, t).live_shaders.contains(
            #[trigger] shaders[k].0,
        ) by {
            if k == 0 {
                assert(!ca.live_shaders.contains(id0));
                if drain(c, t).live_shaders.contains(id0) {
                    assert(ca.live_shaders.contains(id0));
                }
            } else {
                assert(shaders.drop_first()[k - 1] == shaders[k]);
            }
        }
    }
}

/// Law: destroying a linked program exactly once releases exactly one
/// program handle and exactly the stage handles it owned, removes every
/// cached association record keyed by its handle, and leaves it unbound.
pub proof fn lemma_destroy_releases_handles(c: GlView, p: ProgramV)
    requires
        c.wf(),
        c.live_programs.contains(p.id),
        forall|k: int|
            0 <= k < p.shaders.len() ==> c.live_shaders.contains(#[trigger] p.shaders[k].0),
        forall|k: int, l: int|
            0 <= k < p.shaders.len() && 0 <= l < p.shaders.len() && k != l
                ==> p.shaders[k].0 != p.shaders[l].0,
    ensures
        ({
            let c2 = drain(c, destroy_tasks(p));
            &&& c2.live_programs.len() == c.live_programs.len() - 1
            &&& !c2.live_programs.contains(p.id)
            &&& c2.live_shaders.len() == c.live_shaders.len() - p.shaders.len()
            &&& forall|k: int|
                0 <= k < p.shaders.len() ==> !c2.live_shaders.contains(#[trigger] p.shaders[k].0)
            &&& forall|k: int|
                0 <= k < c2.binding_cache.len() ==> #[trigger] c2.binding_cache[k].1 != p.id
            &&& c2.bound_program != p.id
            &&& c2.wf()
        }),
{
    let head = seq![GlTask::PurgeProgramBindings(p.id), GlTask::DeleteProgram(p.id)];
    let dels = delete_shader_tasks(p.shaders);
    assert(destroy_tasks(p) == head + dels);
    lemma_drain_concat(c, head, dels);
    lemma_drain_two(c, GlTask::PurgeProgramBindings(p.id), GlTask::DeleteProgram(p.id));
    let cp = apply_task(c, GlTask::PurgeProgramBindings(p.id));
    let ca = apply_task(cp, GlTask::DeleteProgram(p.id));
    lemma_apply_task_wf(c, GlTask::PurgeProgramBindings(p.id));
    lemma_apply_task_wf(cp, GlTask::DeleteProgram(p.id));
    lemma_delete_present(cp.live_programs, p.id);
    // every surviving cache entry satisfied the purge predicate
    assert(forall|k: int|
        0 <= k < ca.binding_cache.len() ==> #[trigger] ca.binding_cache[k].1 != p.id);
    assert(ca.bound_program != p.id) by {
        let k = choose|k: int| 0 <= k < c.live_programs.len() && c.live_programs[k] == p.id;
        assert(0 < c.live_programs[k]);
    }
    lemma_drain_shader_deletes(ca, p.shaders);
}

} // verus!
