//! Model of the graphics backend and of the context-owning executor.
//!
//! `GlContext` is the state that lives on the context thread: the backend's
//! handle accounting (which shader and program handles are live, which
//! program is bound, how many source uploads happened) together with the
//! backend's behaviour (which sources fail to compile, whether linking
//! fails, which uniforms a linked program reports). `GlExecutor` owns a
//! `GlContext` and a FIFO queue of fire-and-forget tasks; synchronous work
//! first drains the queue, so a task submitted earlier always runs earlier.

use vstd::prelude::*;

use crate::uniforms::{
    distinct_names, spec_find_uniform, table_view, UniformInfo, UniformTable,
};
use crate::uniforms::{find_uniform, lemma_find_uniform_none};

verus! {

broadcast use vstd::seq_lib::group_filter_ensures;

/// Mathematical state of a `GlContext`.
#[verifier::ext_equal]
pub struct GlView {
    /// The backend is a reduced-capability profile without geometry stages.
    pub opengl_es: bool,
    /// How many more handle allocations succeed; `None` is unlimited.
    pub alloc_budget: Option<u32>,
    /// The next handle the backend hands out; handles are never reused.
    pub next_handle: u32,
    /// Live shader-object handles, in allocation order.
    pub live_shaders: Seq<u32>,
    /// Live program-object handles, in allocation order.
    pub live_programs: Seq<u32>,
    /// The currently bound program handle; `0` means none.
    pub bound_program: u32,
    /// How many shader-source uploads the backend has received.
    pub uploads: nat,
    /// Externally cached association records, keyed in part by a program
    /// handle (second component).
    pub binding_cache: Seq<(u64, u32)>,
    /// Sources that fail to compile, each with its diagnostic log.
    pub compile_failures: Seq<(Seq<char>, Seq<char>)>,
    /// Whether the next link attempt fails.
    pub link_fails: bool,
    /// Error code the backend reports after a failed link.
    pub link_error_code: u32,
    /// Info log the backend reports after a failed link.
    pub link_log: Seq<char>,
    /// Active uniforms a successfully linked program reports.
    pub uniforms: Seq<(Seq<char>, UniformInfo)>,
}

impl GlView {
    /// Well-formedness: handles are nonzero, below the allocation cursor and
    /// unique; the bound program is live or none; uniform names are unique
    /// and element counts at least one.
    pub open spec fn wf(self) -> bool {
        &&& self.next_handle >= 1
        &&& forall|i: int|
            0 <= i < self.live_shaders.len() ==> 0 < #[trigger] self.live_shaders[i]
                < self.next_handle
        &&& self.live_shaders.no_duplicates()
        &&& forall|i: int|
            0 <= i < self.live_programs.len() ==> 0 < #[trigger] self.live_programs[i]
                < self.next_handle
        &&& self.live_programs.no_duplicates()
        &&& (self.bound_program == 0 || self.live_programs.contains(self.bound_program))
        &&& distinct_names(self.uniforms)
        &&& forall|i: int|
            0 <= i < self.uniforms.len() ==> #[trigger] self.uniforms[i].1.size >= 1
    }

    /// The fields that deferred tasks never touch: capabilities, allocation
    /// state, upload count and the configured behaviour.
    pub open spec fn same_config(self, c: GlView) -> bool {
        &&& self.opengl_es == c.opengl_es
        &&& self.alloc_budget == c.alloc_budget
        &&& self.next_handle == c.next_handle
        &&& self.uploads == c.uploads
        &&& self.compile_failures == c.compile_failures
        &&& self.link_fails == c.link_fails
        &&& self.link_error_code == c.link_error_code
        &&& self.link_log == c.link_log
        &&& self.uniforms == c.uniforms
    }
}

/// A fire-and-forget task for the context thread.
#[derive(Clone, Copy, PartialEq, Eq, Structural, Debug)]
pub enum GlTask {
    /// Delete a shader-object handle.
    DeleteShader(u32),
    /// Unbind the program if it is currently bound, then delete its handle.
    DeleteProgram(u32),
    /// Remove every cached association record that references the program.
    PurgeProgramBindings(u32),
}

/// Keeps every handle other than `id`.
pub open spec fn keep_other_handles(id: u32) -> spec_fn(u32) -> bool {
    |h: u32| h != id
}

/// Keeps every cache entry that does not reference program `id`.
pub open spec fn keep_other_entries(id: u32) -> spec_fn((u64, u32)) -> bool {
    |e: (u64, u32)| e.1 != id
}

/// What one task does to the context state.
pub open spec fn apply_task(c: GlView, t: GlTask) -> GlView {
    match t {
        GlTask::DeleteShader(id) => GlView {
            live_shaders: c.live_shaders.filter(keep_other_handles(id)),
            ..c
        },
        GlTask::DeleteProgram(id) => GlView {
            live_programs: c.live_programs.filter(keep_other_handles(id)),
            bound_program: if c.bound_program == id {
                0u32
            } else {
                c.bound_program
            },
            ..c
        },
        GlTask::PurgeProgramBindings(id) => GlView {
            binding_cache: c.binding_cache.filter(keep_other_entries(id)),
            ..c
        },
    }
}

/// What running a whole queue, front to back, does to the context state.
pub open spec fn drain(c: GlView, q: Seq<GlTask>) -> GlView
    decreases q.len(),
{
    if q.len() <= 0 {
        c
    } else {
        drain(apply_task(c, q[0]), q.drop_first())
    }
}

/// Every element of a filtered sequence comes from the original sequence.
pub proof fn lemma_filter_elems<A>(s: Seq<A>, pred: spec_fn(A) -> bool)
    ensures
        forall|i: int| 0 <= i < s.filter(pred).len() ==> s.contains(#[trigger] s.filter(pred)[i]),
    decreases s.len(),
{
    reveal(Seq::filter);
    if s.len() == 0 {
    } else {
        let dl = s.drop_last();
        lemma_filter_elems(dl, pred);
        assert(forall|j: int| 0 <= j < dl.len() ==> #[trigger] dl[j] == s[j]);
        assert forall|i: int|
            0 <= i < s.filter(pred).len() implies s.contains(#[trigger] s.filter(pred)[i]) by {
            if i < dl.filter(pred).len() {
                assert(s.filter(pred)[i] == dl.filter(pred)[i]);
                let j = choose|j: int| 0 <= j < dl.len() && dl[j] == dl.filter(pred)[i];
                assert(s[j] == s.filter(pred)[i]);
            } else {
                assert(s.filter(pred)[i] == s.last());
                assert(s[s.len() - 1] == s.last());
            }
        }
    }
}

/// Filtering keeps a duplicate-free sequence duplicate-free.
proof fn lemma_filter_no_duplicates<A>(s: Seq<A>, pred: spec_fn(A) -> bool)
    requires
        s.no_duplicates(),
    ensures
        s.filter(pred).no_duplicates(),
    decreases s.len(),
{
    reveal(Seq::filter);
    if s.len() == 0 {
    } else {
        let dl = s.drop_last();
        assert(forall|j: int| 0 <= j < dl.len() ==> #[trigger] dl[j] == s[j]);
        lemma_filter_no_duplicates(dl, pred);
        lemma_filter_elems(dl, pred);
        if pred(s.last()) {
            assert forall|i: int, j: int|
                0 <= i < s.filter(pred).len() && 0 <= j < s.filter(pred).len() && i
                    != j implies s.filter(pred)[i] != s.filter(pred)[j] by {
                let f = s.filter(pred);
                let df = dl.filter(pred);
                if i < df.len() && j < df.len() {
                    assert(f[i] == df[i] && f[j] == df[j]);
                } else if i < df.len() {
                    assert(f[j] == s.last());
                    assert(f[i] == df[i]);
                    let k = choose|k: int| 0 <= k < dl.len() && dl[k] == df[i];
                    assert(s[k] == df[i]);
                    assert(s[k] != s[s.len() - 1]);
                } else {
                    assert(f[i] == s.last());
                    assert(f[j] == df[j]);
                    let k = choose|k: int| 0 <= k < dl.len() && dl[k] == df[j];
                    assert(s[k] == df[j]);
                    assert(s[k] != s[s.len() - 1]);
                }
            }
        }
    }
}

/// A filter that keeps every element returns the sequence unchanged.
pub proof fn lemma_filter_all<A>(s: Seq<A>, pred: spec_fn(A) -> bool)
    requires
        forall|i: int| 0 <= i < s.len() ==> pred(#[trigger] s[i]),
    ensures
        s.filter(pred) == s,
    decreases s.len(),
{
    reveal(Seq::filter);
    if s.len() == 0 {
        assert(s.filter(pred) =~= s);
    } else {
        let dl = s.drop_last();
        assert(forall|j: int| 0 <= j < dl.len() ==> #[trigger] dl[j] == s[j]);
        lemma_filter_all(dl, pred);
        assert(pred(s.last()));
        assert(s.filter(pred) =~= s);
    }
}

/// Deleting a handle that is nowhere in `s` leaves `s` unchanged.
pub proof fn lemma_delete_absent(s: Seq<u32>, h: u32)
    requires
        !s.contains(h),
    ensures
        s.filter(keep_other_handles(h)) == s,
{
    assert forall|i: int| 0 <= i < s.len() implies keep_other_handles(h)(#[trigger] s[i]) by {
        if s[i] == h {
            assert(s.contains(h));
        }
    }
    lemma_filter_all(s, keep_other_handles(h));
}

/// Deleting the handle just pushed removes exactly it.
pub proof fn lemma_delete_pushed(s: Seq<u32>, h: u32)
    requires
        !s.contains(h),
    ensures
        s.push(h).filter(keep_other_handles(h)) == s,
{
    s.lemma_filter_push(h, keep_other_handles(h));
    lemma_delete_absent(s, h);
}

/// Deleting a handle that occurs in a duplicate-free sequence removes
/// exactly one element, keeps every other element, and keeps the sequence
/// duplicate-free.
pub proof fn lemma_delete_present(s: Seq<u32>, h: u32)
    requires
        s.no_duplicates(),
        s.contains(h),
    ensures
        s.filter(keep_other_handles(h)).len() == s.len() - 1,
        !s.filter(keep_other_handles(h)).contains(h),
        forall|x: u32|
            x != h ==> s.filter(keep_other_handles(h)).contains(x) == s.contains(x),
        s.filter(keep_other_handles(h)).no_duplicates(),
    decreases s.len(),
{
    reveal(Seq::filter);
    let pred = keep_other_handles(h);
    lemma_filter_no_duplicates(s, pred);
    lemma_filter_elems(s, pred);
    let dl = s.drop_last();
    assert(forall|j: int| 0 <= j < dl.len() ==> #[trigger] dl[j] == s[j]);
    if s.last() == h {
        assert forall|i: int| 0 <= i < dl.len() implies pred(#[trigger] dl[i]) by {
            assert(dl[i] == s[i] && s[s.len() - 1] == h);
        }
        lemma_filter_all(dl, pred);
        assert(s.filter(pred) == dl);
        assert forall|x: u32| x != h implies dl.contains(x) == s.contains(x) by {
            if s.contains(x) {
                let k = choose|k: int| 0 <= k < s.len() && s[k] == x;
                assert(k < s.len() - 1 || s[k] == h);
                if k < s.len() - 1 {
                    assert(dl[k] == x);
                }
            }
            if dl.contains(x) {
                let k = choose|k: int| 0 <= k < dl.len() && dl[k] == x;
                assert(s[k] == x);
            }
        }
        if dl.contains(h) {
            let k = choose|k: int| 0 <= k < dl.len() && dl[k] == h;
            assert(s[k] == s[s.len() - 1] && k != s.len() - 1);
            assert(false);
        }
    } else {
        assert(dl.contains(h)) by {
            let k = choose|k: int| 0 <= k < s.len() && s[k] == h;
            assert(k != s.len() - 1);
            assert(dl[k] == h);
        }
        assert(dl.no_duplicates());
        lemma_delete_present(dl, h);
        assert(pred(s.last()));
        assert(s.filter(pred) == dl.filter(pred).push(s.last()));
        assert(s.filter(pred).len() == s.len() - 1);
        if s.filter(pred).contains(h) {
            let k = choose|k: int|
                0 <= k < s.filter(pred).len() && s.filter(pred)[k] == h;
            if k < dl.filter(pred).len() {
                assert(dl.filter(pred)[k] == h);
                assert(dl.filter(pred).contains(h));
            }
        }
        assert forall|x: u32|
            x != h implies s.filter(pred).contains(x) == s.contains(x) by {
            let f = s.filter(pred);
            let df = dl.filter(pred);
            if s.contains(x) {
                let k = choose|k: int| 0 <= k < s.len() && s[k] == x;
                if k == s.len() - 1 {
                    assert(f[f.len() - 1] == x);
                } else {
                    assert(dl[k] == x);
                    assert(dl.contains(x));
                    assert(df.contains(x));
                    let m = choose|m: int| 0 <= m < df.len() && df[m] == x;
                    assert(f[m] == x);
                }
            }
            if f.contains(x) {
                let k = choose|k: int| 0 <= k < f.len() && f[k] == x;
                if k < df.len() {
                    assert(df[k] == x);
                    assert(df.contains(x));
                    assert(dl.contains(x));
                    let m = choose|m: int| 0 <= m < dl.len() && dl[m] == x;
                    assert(s[m] == x);
                } else {
                    assert(s[s.len() - 1] == x);
                }
            }
        }
    }
}

/// One task keeps the context well formed and touches no configuration.
pub proof fn lemma_apply_task_wf(c: GlView, t: GlTask)
    requires
        c.wf(),
    ensures
        apply_task(c, t).wf(),
        apply_task(c, t).same_config(c),
{
    match t {
        GlTask::DeleteShader(id) => {
            lemma_filter_elems(c.live_shaders, keep_other_handles(id));
            lemma_filter_no_duplicates(c.live_shaders, keep_other_handles(id));
        },
        GlTask::DeleteProgram(id) => {
            lemma_filter_elems(c.live_programs, keep_other_handles(id));
            lemma_filter_no_duplicates(c.live_programs, keep_other_handles(id));
            let after = apply_task(c, t);
            if after.bound_program != 0 {
                assert(c.bound_program != id && c.live_programs.contains(c.bound_program));
                let k = choose|k: int|
                    0 <= k < c.live_programs.len() && c.live_programs[k] == c.bound_program;
                assert(keep_other_handles(id)(c.live_programs[k]));
                assert(after.live_programs.contains(c.bound_program));
            }
        },
        GlTask::PurgeProgramBindings(_) => {},
    }
}

/// Draining the queue keeps the context well formed and touches no
/// configuration.
pub proof fn lemma_drain_wf(c: GlView, q: Seq<GlTask>)
    requires
        c.wf(),
    ensures
        drain(c, q).wf(),
        drain(c, q).same_config(c),
    decreases q.len(),
{
    if q.len() > 0 {
        lemma_apply_task_wf(c, q[0]);
        lemma_drain_wf(apply_task(c, q[0]), q.drop_first());
    }
}

/// FIFO ordering, one step: a task pushed last runs on the state produced by
/// everything queued before it.
pub proof fn lemma_drain_push(c: GlView, q: Seq<GlTask>, t: GlTask)
    ensures
        drain(c, q.push(t)) == apply_task(drain(c, q), t),
    decreases q.len(),
{
    if q.len() == 0 {
        assert(q.push(t)[0] == t);
        assert(q.push(t).drop_first() =~= Seq::<GlTask>::empty());
        assert(drain(apply_task(c, t), Seq::<GlTask>::empty()) == apply_task(c, t));
        assert(drain(c, Seq::<GlTask>::empty()) == c);
    } else {
        assert(q.push(t)[0] == q[0]);
        assert(q.push(t).drop_first() =~= q.drop_first().push(t));
        lemma_drain_push(apply_task(c, q[0]), q.drop_first(), t);
    }
}

/// Draining a concatenation is draining the first part, then the second.
pub proof fn lemma_drain_concat(c: GlView, q1: Seq<GlTask>, q2: Seq<GlTask>)
    ensures
        drain(c, q1 + q2) == drain(drain(c, q1), q2),
    decreases q1.len(),
{
    if q1.len() == 0 {
        assert(q1 + q2 =~= q2);
    } else {
        assert((q1 + q2)[0] == q1[0]);
        assert((q1 + q2).drop_first() =~= q1.drop_first() + q2);
        lemma_drain_concat(apply_task(c, q1[0]), q1.drop_first(), q2);
    }
}

/// Draining a single task is applying it.
pub proof fn lemma_drain_one(c: GlView, t: GlTask)
    ensures
        drain(c, seq![t]) == apply_task(c, t),
{
    assert(seq![t] =~= Seq::<GlTask>::empty().push(t));
    lemma_drain_push(c, Seq::<GlTask>::empty(), t);
    assert(drain(c, Seq::<GlTask>::empty()) == c);
}

/// Draining two tasks applies them in order.
pub proof fn lemma_drain_two(c: GlView, a: GlTask, b: GlTask)
    ensures
        drain(c, seq![a, b]) == apply_task(apply_task(c, a), b),
{
    assert(seq![a, b] =~= seq![a].push(b));
    lemma_drain_push(c, seq![a], b);
    lemma_drain_one(c, a);
}

/// Draining three tasks applies them in order.
pub proof fn lemma_drain_three(c: GlView, a: GlTask, b: GlTask, d: GlTask)
    ensures
        drain(c, seq![a, b, d]) == apply_task(apply_task(apply_task(c, a), b), d),
{
    assert(seq![a, b, d] =~= seq![a, b].push(d));
    lemma_drain_push(c, seq![a, b], d);
    lemma_drain_two(c, a, b);
}

/// Submission order is observation order: after queueing task `a` and then
/// task `b` behind any earlier work `q`, `b` executes on a state in which
/// `a`'s effect has already happened.
pub proof fn lemma_submission_order(c: GlView, q: Seq<GlTask>, a: GlTask, b: GlTask)
    ensures
        drain(c, q.push(a).push(b)) == apply_task(apply_task(drain(c, q), a), b),
{
    lemma_drain_push(c, q.push(a), b);
    lemma_drain_push(c, q, a);
}

/// The handle the next allocation returns: `0` (failure) when the budget is
/// spent or the handle space is exhausted, a fresh nonzero handle otherwise.
pub open spec fn alloc_result(c: GlView) -> u32 {
    if c.alloc_budget == Some(0u32) || c.next_handle == u32::MAX {
        0u32
    } else {
        c.next_handle
    }
}

/// One allocation consumes one unit of a finite budget.
pub open spec fn spend_alloc(b: Option<u32>) -> Option<u32> {
    match b {
        Some(n) => Some((n - 1) as u32),
        None => None,
    }
}

/// Context state after a successful shader-handle allocation.
pub open spec fn after_shader_alloc(c: GlView) -> GlView {
    GlView {
        next_handle: (c.next_handle + 1) as u32,
        live_shaders: c.live_shaders.push(c.next_handle),
        alloc_budget: spend_alloc(c.alloc_budget),
        ..c
    }
}

/// Context state after a successful program-handle allocation.
pub open spec fn after_program_alloc(c: GlView) -> GlView {
    GlView {
        next_handle: (c.next_handle + 1) as u32,
        live_programs: c.live_programs.push(c.next_handle),
        alloc_budget: spend_alloc(c.alloc_budget),
        ..c
    }
}

/// The diagnostic log of the first configured failure matching `src`.
pub open spec fn spec_find_failure(
    fs: Seq<(Seq<char>, Seq<char>)>,
    src: Seq<char>,
) -> Option<Seq<char>>
    decreases fs.len(),
{
    if fs.len() == 0 {
        None
    } else if fs[0].0 == src {
        Some(fs[0].1)
    } else {
        spec_find_failure(fs.drop_first(), src)
    }
}

/// Whether `src` compiles on a backend in state `c`.
pub open spec fn spec_compiles(c: GlView, src: Seq<char>) -> bool {
    spec_find_failure(c.compile_failures, src) is None
}

/// The compiler log `c` reports for `src`: the configured diagnostic on
/// failure, empty on success.
pub open spec fn spec_compile_log(c: GlView, src: Seq<char>) -> Seq<char> {
    match spec_find_failure(c.compile_failures, src) {
        Some(log) => log,
        None => Seq::<char>::empty(),
    }
}

/// State that lives on the context thread: backend handle accounting plus
/// the backend's configured behaviour.
pub struct GlContext {
    opengl_es: bool,
    alloc_budget: Option<u32>,
    next_handle: u32,
    live_shaders: Vec<u32>,
    live_programs: Vec<u32>,
    bound_program: u32,
    uploads: u64,
    binding_cache: Vec<(u64, u32)>,
    compile_failures: Vec<(String, String)>,
    link_fails: bool,
    link_error_code: u32,
    link_log: String,
    uniforms: UniformTable,
}

impl View for GlContext {
    type V = GlView;

    closed spec fn view(&self) -> GlView {
        GlView {
            opengl_es: self.opengl_es,
            alloc_budget: self.alloc_budget,
            next_handle: self.next_handle,
            live_shaders: self.live_shaders@,
            live_programs: self.live_programs@,
            bound_program: self.bound_program,
            uploads: self.uploads as nat,
            binding_cache: self.binding_cache@,
            compile_failures: self.compile_failures@.map_values(
                |p: (String, String)| (p.0@, p.1@),
            ),
            link_fails: self.link_fails,
            link_error_code: self.link_error_code,
            link_log: self.link_log@,
            uniforms: table_view(self.uniforms@),
        }
    }
}

impl GlContext {
    /// A fresh context: no live handles, nothing bound, no uploads, every
    /// source compiles, linking succeeds, no active uniforms.
    pub fn new(reduced_capability: bool) -> (r: GlContext)
        ensures
            r@.wf(),
            r@.opengl_es == reduced_capability,
            r@.alloc_budget is None,
            r@.next_handle == 1,
            r@.live_shaders == Seq::<u32>::empty(),
            r@.live_programs == Seq::<u32>::empty(),
            r@.bound_program == 0,
            r@.uploads == 0,
            r@.binding_cache == Seq::<(u64, u32)>::empty(),
            r@.compile_failures == Seq::<(Seq<char>, Seq<char>)>::empty(),
            !r@.link_fails,
            r@.link_log == Seq::<char>::empty(),
            r@.uniforms == Seq::<(Seq<char>, UniformInfo)>::empty(),
    {
        let r = GlContext {
            opengl_es: reduced_capability,
            alloc_budget: None,
            next_handle: 1,
            live_shaders: Vec::new(),
            live_programs: Vec::new(),
            bound_program: 0,
            uploads: 0,
            binding_cache: Vec::new(),
            compile_failures: Vec::new(),
            link_fails: false,
            link_error_code: 0,
            link_log: String::new(),
            uniforms: Vec::new(),
        };
        proof {
            assert(r@.compile_failures =~= Seq::<(Seq<char>, Seq<char>)>::empty());
            assert(r@.uniforms =~= Seq::<(Seq<char>, UniformInfo)>::empty());
        }
        r
    }

    /// Lets only the next `remaining` handle allocations succeed.
    pub fn limit_allocations(&mut self, remaining: u32)
        ensures
            final(self)@ == (GlView { alloc_budget: Some(remaining), ..old(self)@ }),
    {
        self.alloc_budget = Some(remaining);
        proof {
            assert(self@ =~= (GlView { alloc_budget: Some(remaining), ..old(self)@ }));
        }
    }

    /// Makes every link attempt fail with the given error code and log.
    pub fn set_link_failure(&mut self, error_code: u32, log: &str)
        ensures
            final(self)@ == (GlView {
                link_fails: true,
                link_error_code: error_code,
                link_log: log@,
                ..old(self)@
            }),
    {
        self.link_fails = true;
        self.link_error_code = error_code;
        self.link_log = log.to_owned();
        proof {
            assert(self@ =~= (GlView {
                link_fails: true,
                link_error_code: error_code,
                link_log: log@,
                ..old(self)@
            }));
        }
    }

    /// Makes `source` fail to compile with the given diagnostic log.
    pub fn add_compile_failure(&mut self, source: &str, log: &str)
        ensures
            final(self)@ == (GlView {
                compile_failures: old(self)@.compile_failures.push((source@, log@)),
                ..old(self)@
            }),
    {
        self.compile_failures.push((source.to_owned(), log.to_owned()));
        proof {
            assert(self@.compile_failures =~= old(self)@.compile_failures.push(
                (source@, log@),
            ));
            assert(self@ =~= (GlView {
                compile_failures: old(self)@.compile_failures.push((source@, log@)),
                ..old(self)@
            }));
        }
    }

    /// Adds one active uniform that linked programs report. Rejects an
    /// element count of zero and a name already present, so that the table
    /// stays well formed.
    pub fn add_active_uniform(&mut self, name: &str, info: UniformInfo) -> (r: bool)
        requires
            old(self)@.wf(),
        ensures
            final(self)@.wf(),
            r == (info.size >= 1 && spec_find_uniform(old(self)@.uniforms, name@) is None),
            r ==> final(self)@ == (GlView {
                uniforms: old(self)@.uniforms.push((name@, info)),
                ..old(self)@
            }),
            !r ==> final(self)@ == old(self)@,
    {
        if info.size == 0 {
            return false;
        }
        if find_uniform(&self.uniforms, name).is_some() {
            return false;
        }
        proof {
            lemma_find_uniform_none(old(self)@.uniforms, name@);
        }
        self.uniforms.push((name.to_owned(), info));
        proof {
            assert(self@.uniforms =~= old(self)@.uniforms.push((name@, info)));
            assert(self@ =~= (GlView {
                uniforms: old(self)@.uniforms.push((name@, info)),
                ..old(self)@
            }));
            let t = self@.uniforms;
            assert forall|i: int, j: int|
                0 <= i < t.len() && 0 <= j < t.len() && i != j implies #[trigger] t[i].0
                != #[trigger] t[j].0 by {
                if i < t.len() - 1 && j < t.len() - 1 {
                    assert(old(self)@.uniforms[i] == t[i] && old(self)@.uniforms[j] == t[j]);
                }
            }
        }
        true
    }

    /// Binds a program (or `0` to bind none), as draw code would.
    pub fn bind_program(&mut self, id: u32)
        requires
            old(self)@.wf(),
            id == 0 || old(self)@.live_programs.contains(id),
        ensures
            final(self)@.wf(),
            final(self)@ == (GlView { bound_program: id, ..old(self)@ }),
    {
        self.bound_program = id;
        proof {
            assert(self@ =~= (GlView { bound_program: id, ..old(self)@ }));
        }
    }

    /// Records an external association keyed in part by a program handle,
    /// as a vertex-layout cache would.
    pub fn cache_binding(&mut self, key: u64, program: u32)
        requires
            old(self)@.wf(),
        ensures
            final(self)@.wf(),
            final(self)@ == (GlView {
                binding_cache: old(self)@.binding_cache.push((key, program)),
                ..old(self)@
            }),
    {
        self.binding_cache.push((key, program));
        proof {
            assert(self@ =~= (GlView {
                binding_cache: old(self)@.binding_cache.push((key, program)),
                ..old(self)@
            }));
        }
    }

    /// Whether the backend lacks geometry-stage support.
    pub fn is_reduced_capability(&self) -> (r: bool)
        ensures
            r == self@.opengl_es,
    {
        self.opengl_es
    }

    /// How many shader-source uploads the backend has received.
    pub fn upload_count(&self) -> (r: u64)
        ensures
            r as nat == self@.uploads,
    {
        self.uploads
    }

    /// How many shader handles are live.
    pub fn live_shader_count(&self) -> (r: usize)
        ensures
            r == self@.live_shaders.len(),
    {
        self.live_shaders.len()
    }

    /// How many program handles are live.
    pub fn live_program_count(&self) -> (r: usize)
        ensures
            r == self@.live_programs.len(),
    {
        self.live_programs.len()
    }

    /// The currently bound program handle; `0` means none.
    pub fn current_program(&self) -> (r: u32)
        ensures
            r == self@.bound_program,
    {
        self.bound_program
    }

    /// How many cached association records exist.
    pub fn binding_cache_len(&self) -> (r: usize)
        ensures
            r == self@.binding_cache.len(),
    {
        self.binding_cache.len()
    }

    /// Whether `id` is a live shader handle.
    pub fn is_live_shader(&self, id: u32) -> (r: bool)
        ensures
            r == self@.live_shaders.contains(id),
    {
        let mut i: usize = 0;
        while i < self.live_shaders.len()
            invariant
                0 <= i <= self@.live_shaders.len(),
                forall|k: int| 0 <= k < i ==> #[trigger] self@.live_shaders[k] != id,
            decreases self@.live_shaders.len() - i,
        {
            if self.live_shaders[i] == id {
                return true;
            }
            i = i + 1;
        }
        false
    }

    /// Whether `id` is a live program handle.
    pub fn is_live_program(&self, id: u32) -> (r: bool)
        ensures
            r == self@.live_programs.contains(id),
    {
        let mut i: usize = 0;
        while i < self.live_programs.len()
            invariant
                0 <= i <= self@.live_programs.len(),
                forall|k: int| 0 <= k < i ==> #[trigger] self@.live_programs[k] != id,
            decreases self@.live_programs.len() - i,
        {
            if self.live_programs[i] == id {
                return true;
            }
            i = i + 1;
        }
        false
    }

    /// Whether some cached association record references program `id`.
    pub fn has_cached_binding_for(&self, id: u32) -> (r: bool)
        ensures
            r == exists|k: int|
                0 <= k < self@.binding_cache.len() && #[trigger] self@.binding_cache[k].1 == id,
    {
        let mut i: usize = 0;
        while i < self.binding_cache.len()
            invariant
                0 <= i <= self@.binding_cache.len(),
                forall|k: int| 0 <= k < i ==> #[trigger] self@.binding_cache[k].1 != id,
            decreases self@.binding_cache.len() - i,
        {
            if self.binding_cache[i].1 == id {
                return true;
            }
            i = i + 1;
        }
        false
    }

    /// Requests a new shader-object handle; `0` reports allocation failure.
    pub fn create_shader(&mut self) -> (r: u32)
        requires
            old(self)@.wf(),
        ensures
            final(self)@.wf(),
            r == alloc_result(old(self)@),
            r == 0 ==> final(self)@ == old(self)@,
            r != 0 ==> final(self)@ == after_shader_alloc(old(self)@),
            r != 0 ==> !old(self)@.live_shaders.contains(r) && !old(self)@.live_programs.contains(
                r,
            ),
    {
        if self.next_handle == u32::MAX {
            return 0;
        }
        match self.alloc_budget {
            Some(n) => {
                if n == 0 {
                    return 0;
                }
                self.alloc_budget = Some(n - 1);
            },
            None => {},
        }
        let id = self.next_handle;
        self.next_handle = self.next_handle + 1;
        self.live_shaders.push(id);
        proof {
            assert(self@ =~= after_shader_alloc(old(self)@));
            let s = self@.live_shaders;
            assert(forall|i: int|
                0 <= i < s.len() - 1 ==> #[trigger] s[i] == old(self)@.live_shaders[i]);
            assert(forall|i: int, j: int|
                0 <= i < s.len() && 0 <= j < s.len() && i != j ==> s[i] != s[j]);
        }
        id
    }

    /// Requests a new program-object handle; `0` reports allocation failure.
    pub fn create_program(&mut self) -> (r: u32)
        requires
            old(self)@.wf(),
        ensures
            final(self)@.wf(),
            r == alloc_result(old(self)@),
            r == 0 ==> final(self)@ == old(self)@,
            r != 0 ==> final(self)@ == after_program_alloc(old(self)@),
            r != 0 ==> !old(self)@.live_shaders.contains(r) && !old(self)@.live_programs.contains(
                r,
            ),
    {
        if self.next_handle == u32::MAX {
            return 0;
        }
        match self.alloc_budget {
            Some(n) => {
                if n == 0 {
                    return 0;
                }
                self.alloc_budget = Some(n - 1);
            },
            None => {},
        }
        let id = self.next_handle;
        self.next_handle = self.next_handle + 1;
        self.live_programs.push(id);
        proof {
            assert(self@ =~= after_program_alloc(old(self)@));
            let s = self@.live_programs;
            assert(forall|i: int|
                0 <= i < s.len() - 1 ==> #[trigger] s[i] == old(self)@.live_programs[i]);
            assert(forall|i: int, j: int|
                0 <= i < s.len() && 0 <= j < s.len() && i != j ==> s[i] != s[j]);
            if self@.bound_program != 0 {
                let k = choose|k: int|
                    0 <= k < old(self)@.live_programs.len() && old(self)@.live_programs[k] == old(
                        self,
                    )@.bound_program;
                assert(s[k] == self@.bound_program);
            }
        }
        id
    }

    /// Uploads `source` for the given shader and compiles it, reporting
    /// compile status and the diagnostic log.
    pub fn compile_shader(&mut self, shader: u32, source: &str) -> (r: (bool, String))
        requires
            old(self)@.wf(),
            old(self)@.live_shaders.contains(shader),
            old(self)@.uploads < u64::MAX,
        ensures
            final(self)@.wf(),
            final(self)@ == (GlView { uploads: old(self)@.uploads + 1, ..old(self)@ }),
            r.0 == spec_compiles(old(self)@, source@),
            r.1@ == spec_compile_log(old(self)@, source@),
    {
        self.uploads = self.uploads + 1;
        proof {
            assert(self@ =~= (GlView { uploads: old(self)@.uploads + 1, ..old(self)@ }));
        }
        let needle: String = source.to_owned();
        let ghost fs = self@.compile_failures;
        proof {
            assert(fs.skip(0) =~= fs);
        }
        let mut i: usize = 0;
        while i < self.compile_failures.len()
            invariant
                0 <= i <= self.compile_failures@.len(),
                old(self)@.wf(),
                fs == self@.compile_failures,
                fs.len() == self.compile_failures@.len(),
                needle@ == source@,
                self@ == (GlView { uploads: old(self)@.uploads + 1, ..old(self)@ }),
                forall|k: int|
                    0 <= k < fs.len() ==> #[trigger] fs[k] == (
                        self.compile_failures@[k].0@,
                        self.compile_failures@[k].1@,
                    ),
                spec_find_failure(fs, source@) == spec_find_failure(fs.skip(i as int), source@),
            decreases self.compile_failures@.len() - i,
        {
            assert(fs.skip(i as int)[0] == fs[i as int]);
            if self.compile_failures[i].0 == needle {
                let log = self.compile_failures[i].1.clone();
                return (false, log);
            }
            assert(fs.skip(i as int).drop_first() =~= fs.skip(i as int + 1));
            i = i + 1;
        }
        assert(fs.skip(i as int) =~= Seq::<(Seq<char>, Seq<char>)>::empty());
        (true, String::new())
    }

    /// Attaches the given shaders to the program and links it, reporting
    /// link status, the backend error code and the info log.
    pub fn attach_and_link(&self, program: u32, shaders: &Vec<u32>) -> (r: (bool, u32, String))
        requires
            self@.wf(),
            self@.live_programs.contains(program),
            forall|k: int|
                0 <= k < shaders@.len() ==> self@.live_shaders.contains(#[trigger] shaders@[k]),
        ensures
            r.0 == !self@.link_fails,
            r.1 == self@.link_error_code,
            r.2@ == self@.link_log,
    {
        (!self.link_fails, self.link_error_code, self.link_log.clone())
    }

    /// How many active uniforms the linked program reports.
    pub fn active_uniform_count(&self, program: u32) -> (r: usize)
        requires
            self@.wf(),
            self@.live_programs.contains(program),
        ensures
            r == self@.uniforms.len(),
    {
        self.uniforms.len()
    }

    /// Name, data-type tag and element count of the active uniform at
    /// `index`.
    pub fn active_uniform(&self, program: u32, index: usize) -> (r: (String, u32, u32))
        requires
            self@.wf(),
            self@.live_programs.contains(program),
            index < self@.uniforms.len(),
        ensures
            r.0@ == self@.uniforms[index as int].0,
            r.1 == self@.uniforms[index as int].1.data_type,
            r.2 == self@.uniforms[index as int].1.size,
    {
        let name = self.uniforms[index].0.clone();
        (name, self.uniforms[index].1.data_type, self.uniforms[index].1.size)
    }

    /// Binding location of the uniform named `name`; `-1` when there is
    /// none.
    pub fn uniform_location(&self, program: u32, name: &str) -> (r: i32)
        requires
            self@.wf(),
            self@.live_programs.contains(program),
        ensures
            r == (match spec_find_uniform(self@.uniforms, name@) {
                Some(info) => info.location,
                None => -1i32,
            }),
    {
        match find_uniform(&self.uniforms, name) {
            Some(info) => info.location,
            None => -1i32,
        }
    }

    /// Deletes a shader-object handle; absent handles are ignored.
    pub fn delete_shader(&mut self, id: u32)
        requires
            old(self)@.wf(),
        ensures
            final(self)@.wf(),
            final(self)@ == apply_task(old(self)@, GlTask::DeleteShader(id)),
    {
        broadcast use vstd::prelude::Seq::lemma_filter_push;

        let ghost pred = keep_other_handles(id);
        let mut kept: Vec<u32> = Vec::new();
        let mut i: usize = 0;
        proof {
            reveal(Seq::filter);
            assert(old(self)@.live_shaders.take(0) =~= Seq::<u32>::empty());
        }
        while i < self.live_shaders.len()
            invariant
                0 <= i <= self.live_shaders@.len(),
                kept@ == old(self)@.live_shaders.take(i as int).filter(pred),
                self@ == old(self)@,
                pred == keep_other_handles(id),
            decreases self.live_shaders@.len() - i,
        {
            let h = self.live_shaders[i];
            proof {
                let s = old(self)@.live_shaders;
                assert(s.take(i as int + 1) =~= s.take(i as int).push(h));
                s.take(i as int).lemma_filter_push(h, pred);
            }
            if h != id {
                kept.push(h);
                proof {
                    assert(pred(h));
                }
            } else {
                proof {
                    assert(!pred(h));
                }
            }
            i = i + 1;
        }
        proof {
            assert(old(self)@.live_shaders.take(i as int) =~= old(self)@.live_shaders);
            lemma_apply_task_wf(old(self)@, GlTask::DeleteShader(id));
        }
        self.live_shaders = kept;
        proof {
            assert(self@ =~= apply_task(old(self)@, GlTask::DeleteShader(id)));
        }
    }

    /// Unbinds the program if it is currently bound, then deletes its
    /// handle; absent handles are ignored.
    pub fn delete_program(&mut self, id: u32)
        requires
            old(self)@.wf(),
        ensures
            final(self)@.wf(),
            final(self)@ == apply_task(old(self)@, GlTask::DeleteProgram(id)),
    {
        broadcast use vstd::prelude::Seq::lemma_filter_push;

        if self.bound_program == id {
            self.bound_program = 0;
        }
        let ghost pred = keep_other_handles(id);
        let mut kept: Vec<u32> = Vec::new();
        let mut i: usize = 0;
        proof {
            reveal(Seq::filter);
            assert(old(self)@.live_programs.take(0) =~= Seq::<u32>::empty());
        }
        while i < self.live_programs.len()
            invariant
                0 <= i <= self.live_programs@.len(),
                kept@ == old(self)@.live_programs.take(i as int).filter(pred),
                self@.live_programs == old(self)@.live_programs,
                self@ == (GlView {
                    bound_program: if old(self)@.bound_program == id {
                        0u32
                    } else {
                        old(self)@.bound_program
                    },
                    ..old(self)@
                }),
                pred == keep_other_handles(id),
            decreases self.live_programs@.len() - i,
        {
            let h = self.live_programs[i];
            proof {
                let s = old(self)@.live_programs;
                assert(s.take(i as int + 1) =~= s.take(i as int).push(h));
                s.take(i as int).lemma_filter_push(h, pred);
            }
            if h != id {
                kept.push(h);
                proof {
                    assert(pred(h));
                }
            } else {
                proof {
                    assert(!pred(h));
                }
            }
            i = i + 1;
        }
        proof {
            assert(old(self)@.live_programs.take(i as int) =~= old(self)@.live_programs);
            lemma_apply_task_wf(old(self)@, GlTask::DeleteProgram(id));
        }
        self.live_programs = kept;
        proof {
            assert(self@ =~= apply_task(old(self)@, GlTask::DeleteProgram(id)));
        }
    }

    /// Removes every cached association record that references program
    /// `id`.
    pub fn purge_program_bindings(&mut self, id: u32)
        requires
            old(self)@.wf(),
        ensures
            final(self)@.wf(),
            final(self)@ == apply_task(old(self)@, GlTask::PurgeProgramBindings(id)),
    {
        broadcast use vstd::prelude::Seq::lemma_filter_push;

        let ghost pred = keep_other_entries(id);
        let mut kept: Vec<(u64, u32)> = Vec::new();
        let mut i: usize = 0;
        proof {
            reveal(Seq::filter);
            assert(old(self)@.binding_cache.take(0) =~= Seq::<(u64, u32)>::empty());
        }
        while i < self.binding_cache.len()
            invariant
                0 <= i <= self.binding_cache@.len(),
                kept@ == old(self)@.binding_cache.take(i as int).filter(pred),
                self@ == old(self)@,
                pred == keep_other_entries(id),
            decreases self.binding_cache@.len() - i,
        {
            let e = self.binding_cache[i];
            proof {
                let s = old(self)@.binding_cache;
                assert(s.take(i as int + 1) =~= s.take(i as int).push(e));
                s.take(i as int).lemma_filter_push(e, pred);
            }
            if e.1 != id {
                kept.push(e);
                proof {
                    assert(pred(e));
                }
            } else {
                proof {
                    assert(!pred(e));
                }
            }
            i = i + 1;
        }
        proof {
            assert(old(self)@.binding_cache.take(i as int) =~= old(self)@.binding_cache);
        }
        self.binding_cache = kept;
        proof {
            assert(self@ =~= apply_task(old(self)@, GlTask::PurgeProgramBindings(id)));
        }
    }

    /// Runs one deferred task.
    pub fn apply(&mut self, task: GlTask)
        requires
            old(self)@.wf(),
        ensures
            final(self)@.wf(),
            final(self)@ == apply_task(old(self)@, task),
    {
        match task {
            GlTask::DeleteShader(id) => self.delete_shader(id),
            GlTask::DeleteProgram(id) => self.delete_program(id),
            GlTask::PurgeProgramBindings(id) => self.purge_program_bindings(id),
        }
    }
}

/// Owns the context on behalf of its single thread: synchronous work goes
/// through the methods of `ctxt` after the queue is drained, deferred work
/// is queued in submission order.
pub struct GlExecutor {
    /// The context-thread state.
    pub ctxt: GlContext,
    /// Fire-and-forget tasks not yet run, front to back.
    pub queue: Vec<GlTask>,
}

impl GlExecutor {
    /// Takes ownership of a context; the queue starts empty.
    pub fn new(ctxt: GlContext) -> (r: GlExecutor)
        ensures
            r.ctxt@ == ctxt@,
            r.queue@ == Seq::<GlTask>::empty(),
    {
        GlExecutor { ctxt, queue: Vec::new() }
    }

    /// Whether the owned context is well formed.
    pub open spec fn wf(self) -> bool {
        self.ctxt@.wf()
    }

    /// Fire-and-forget submission: the task is queued behind everything
    /// submitted before it and the caller does not wait.
    pub fn submit(&mut self, task: GlTask)
        ensures
            final(self).ctxt == old(self).ctxt,
            final(self).queue@ == old(self).queue@.push(task),
    {
        self.queue.push(task);
    }

    /// Runs every queued task, front to back, leaving the queue empty.
    pub fn run_pending(&mut self)
        requires
            old(self).wf(),
        ensures
            final(self).wf(),
            final(self).ctxt@ == drain(old(self).ctxt@, old(self).queue@),
            final(self).queue@ == Seq::<GlTask>::empty(),
    {
        let ghost q = self.queue@;
        let ghost c0 = self.ctxt@;
        let mut i: usize = 0;
        while i < self.queue.len()
            invariant
                0 <= i <= q.len(),
                self.queue@ == q,
                self.ctxt@ == drain(c0, q.take(i as int)),
                self.ctxt@.wf(),
            decreases q.len() - i,
        {
            let task = self.queue[i];
            proof {
                assert(q.take(i as int + 1) =~= q.take(i as int).push(q[i as int]));
                lemma_drain_push(c0, q.take(i as int), q[i as int]);
            }
            self.ctxt.apply(task);
            i = i + 1;
        }
        proof {
            assert(q.take(i as int) =~= q);
        }
        self.queue = Vec::new();
    }
}

} // verus!
