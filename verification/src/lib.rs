//! Truecolour ANSI rendering of RGBA images over an 8x8 symbol atlas.
use vstd::prelude::*;

pub mod ansi;
pub mod atlas;
pub mod backend;
pub mod cpu;
pub mod error;
pub mod gpu;
pub mod render;
pub mod source;

pub use backend::Backend;
pub use error::RenderError;
pub use render::{Frame, Prepared};
pub use source::SourceImage;

verus! {

/// The symbol and colours picked for one 8x8 cell.
#[derive(Clone, Copy, Debug, PartialEq, Eq)]
pub struct Choice {
    pub codepoint: u32,
    pub fg: [u8; 3],
    pub bg: [u8; 3],
    pub transparent_bg: u8,
}

/// The all-zero choice.
pub open spec fn blank_choice() -> Choice {
    Choice { codepoint: 0, fg: [0, 0, 0], bg: [0, 0, 0], transparent_bg: 0 }
}

impl Default for Choice {
    fn default() -> (c: Choice)
        ensures
            c == blank_choice(),
    {
        Choice { codepoint: 0, fg: [0, 0, 0], bg: [0, 0, 0], transparent_bg: 0 }
    }
}

/// The CUDA fallback state shared by the chunks a renderer scores.
struct RendererState {
    cuda_disabled: Option<String>,
    fallback: Option<String>,
}

/// What a renderer is: the backend asked for, the batch limit, why CUDA was
/// given up (if it was), and the warning not yet taken.
pub struct RendererModel {
    pub requested: Backend,
    pub max_batch_cells: usize,
    pub cuda_disabled: Option<Seq<char>>,
    pub fallback: Option<Seq<char>>,
}

pub open spec fn string_view(s: Option<String>) -> Option<Seq<char>> {
    match s {
        Some(t) => Some(t@),
        None => None,
    }
}

/// Splits batches of requests into chunks and decides, chunk by chunk, on
/// which backend their cells are scored.
pub struct Renderer {
    requested: Backend,
    max_batch_cells: usize,
    state: RendererState,
}

impl View for Renderer {
    type V = RendererModel;

    closed spec fn view(&self) -> RendererModel {
        RendererModel {
            requested: self.requested,
            max_batch_cells: self.max_batch_cells,
            cuda_disabled: string_view(self.state.cuda_disabled),
            fallback: string_view(self.state.fallback),
        }
    }
}

/// The warning recorded when CUDA fails under `Backend::Auto`:
/// "CUDA unavailable (<reason>); falling back to CPU".
pub open spec fn fallback_message(reason: Seq<char>) -> Seq<char> {
    seq!['C', 'U', 'D', 'A', ' ', 'u', 'n', 'a', 'v', 'a', 'i', 'l', 'a', 'b', 'l', 'e', ' ', '(']
        + reason + seq![
        ')',
        ';',
        ' ',
        'f',
        'a',
        'l',
        'l',
        'i',
        'n',
        'g',
        ' ',
        'b',
        'a',
        'c',
        'k',
        ' ',
        't',
        'o',
        ' ',
        'C',
        'P',
        'U',
    ]
}

/// The backend that scores a renderer's next chunk.
pub open spec fn next_backend(r: RendererModel) -> Backend {
    match r.requested {
        Backend::Cpu => Backend::Cpu,
        Backend::Cuda => Backend::Cuda,
        Backend::Auto => if r.cuda_disabled is Some {
            Backend::Cpu
        } else {
            Backend::Cuda
        },
    }
}

/// Sum of the cell counts `cells[start..end]`.
pub open spec fn run_cells(cells: Seq<usize>, start: int, end: int) -> int
    decreases end - start,
{
    if end <= start {
        0
    } else {
        run_cells(cells, start, end - 1) + cells[end - 1]
    }
}

/// `batches` cuts the requests `0..cells.len()` into consecutive non-empty
/// chunks, in order, each as long as it can be: a chunk takes its first
/// request whatever its size, then each next one while the chunk's cells
/// stay within `max`.
pub open spec fn greedy_chunks(cells: Seq<usize>, max: int, batches: Seq<(usize, usize)>) -> bool {
    &&& cells.len() == 0 <==> batches.len() == 0
    &&& batches.len() > 0 ==> batches[0].0 == 0 && batches[batches.len() - 1].1 == cells.len()
    &&& forall|k: int|
        0 <= k < batches.len() - 1 ==> (#[trigger] batches[k]).1 == batches[k + 1].0
    &&& forall|k: int|
        #![trigger batches[k]]
        0 <= k < batches.len() ==> {
            let (s, e) = batches[k];
            &&& s < e <= cells.len()
            &&& (e == s + 1 || run_cells(cells, s as int, e as int) <= max)
            &&& (e < cells.len() ==> run_cells(cells, s as int, e + 1) > max)
        }
}

proof fn lemma_run_cells_grows(cells: Seq<usize>, start: int, end: int)
    requires
        start <= end,
    ensures
        run_cells(cells, start, end) >= 0,
    decreases end - start,
{
    if end > start {
        lemma_run_cells_grows(cells, start, end - 1);
    }
}

impl Renderer {
    /// A renderer with the default batch limit of 262144 cells.
    pub fn new(backend: Backend) -> (r: Renderer)
        ensures
            r@ == (RendererModel {
                requested: backend,
                max_batch_cells: 262_144,
                cuda_disabled: None,
                fallback: None,
            }),
            fresh(r@),
    {
        Self::with_batch_limit(backend, 262_144)
    }

    /// A renderer whose chunks hold at most `max_batch_cells` cells (at
    /// least 1), unless one request alone is larger.
    pub fn with_batch_limit(backend: Backend, max_batch_cells: usize) -> (r: Renderer)
        ensures
            r@ == (RendererModel {
                requested: backend,
                max_batch_cells: if max_batch_cells >= 1 {
                    max_batch_cells
                } else {
                    1
                },
                cuda_disabled: None,
                fallback: None,
            }),
            fresh(r@),
    {
        Renderer {
            requested: backend,
            max_batch_cells: if max_batch_cells >= 1 {
                max_batch_cells
            } else {
                1
            },
            state: RendererState { cuda_disabled: None, fallback: None },
        }
    }

    /// The backend asked for.
    pub fn backend(&self) -> (b: Backend)
        ensures
            b == self@.requested,
    {
        self.requested
    }

    /// Hands out the CUDA fallback warning, once.
    pub fn take_fallback_warning(&mut self) -> (w: Option<String>)
        ensures
            string_view(w) == old(self)@.fallback,
            final(self)@ == apply_step(old(self)@, RendererStep::TakeWarning),
    {
        self.state.fallback.take()
    }

    /// The backend that scores the next chunk.
    pub fn chunk_backend(&self) -> (b: Backend)
        ensures
            b == next_backend(self@),
    {
        match self.requested {
            Backend::Cpu => Backend::Cpu,
            Backend::Cuda => Backend::Cuda,
            Backend::Auto => if self.state.cuda_disabled.is_some() {
                Backend::Cpu
            } else {
                Backend::Cuda
            },
        }
    }

    /// Decides what a failure of the CUDA backend on a chunk leads to.
    /// Under `Backend::Auto`, at the first failure, CUDA is given up for
    /// good, a warning awaits the caller, and the chunk goes to the CPU;
    /// otherwise nothing changes and the failure is the chunk's result.
    pub fn cuda_failed(&mut self, reason: String) -> (action: CudaFailure)
        ensures
            final(self)@ == apply_step(old(self)@, RendererStep::CudaFailed(reason@)),
            action == (if falls_back(old(self)@) {
                CudaFailure::RunOnCpu
            } else {
                CudaFailure::GiveUp
            }),
    {
        if self.requested != Backend::Auto || self.state.cuda_disabled.is_some() {
            return CudaFailure::GiveUp;
        }
        let mut message = "CUDA unavailable (".to_owned();
        message.append(reason.as_str());
        message.append("); falling back to CPU");
        proof {
            reveal_strlit("CUDA unavailable (");
            reveal_strlit("); falling back to CPU");
            assert(message@ =~= fallback_message(reason@));
        }
        self.state.cuda_disabled = Some(reason);
        self.state.fallback = Some(message);
        CudaFailure::RunOnCpu
    }

    /// Cuts a batch, given each request's cell count, into the chunks that
    /// are scored together: `(start, end)` index ranges, in order.
    pub fn batches(&self, cells: &[usize]) -> (chunks: Vec<(usize, usize)>)
        ensures
            greedy_chunks(cells@, self@.max_batch_cells as int, chunks@),
    {
        let n = cells.len();
        let max = self.max_batch_cells;
        let mut chunks: Vec<(usize, usize)> = Vec::new();
        let mut start: usize = 0;
        while start < n
            invariant
                n == cells@.len(),
                max == self@.max_batch_cells,
                start <= n,
                start == 0 <==> chunks@.len() == 0,
                chunks@.len() > 0 ==> chunks@[0].0 == 0 && chunks@[chunks@.len() - 1].1 == start,
                forall|k: int|
                    0 <= k < chunks@.len() - 1 ==> (#[trigger] chunks@[k]).1 == chunks@[k + 1].0,
                forall|k: int|
                    #![trigger chunks@[k]]
                    0 <= k < chunks@.len() ==> {
                        let (s, e) = chunks@[k];
                        &&& s < e <= cells@.len()
                        &&& (e == s + 1 || run_cells(cells@, s as int, e as int) <= max)
                        &&& (e < cells@.len() ==> run_cells(cells@, s as int, e + 1) > max)
                    },
            decreases n - start,
        {
            let mut end = start;
            let mut acc: usize = 0;
            while end < n
                invariant_except_break
                    n == cells@.len(),
                    start < n,
                    start <= end <= n,
                    acc == run_cells(cells@, start as int, end as int),
                    end > start + 1 ==> acc <= max,
                ensures
                    start < end <= n,
                    end == start + 1 || run_cells(cells@, start as int, end as int) <= max,
                    end < n ==> run_cells(cells@, start as int, end + 1) > max,
                decreases n - end,
            {
                let rc = cells[end];
                if end > start && (acc > max || rc > max - acc) {
                    break;
                }
                proof {
                    lemma_run_cells_grows(cells@, start as int, end as int);
                }
                acc = acc + rc;
                end = end + 1;
            }
            chunks.push((start, end));
            start = end;
        }
        chunks
    }
}

/// A renderer after its fallback warning has been taken.
pub open spec fn warning_taken(r: RendererModel) -> RendererModel {
    RendererModel { fallback: None, ..r }
}

/// What a failure of the CUDA backend on a chunk leads to.
#[derive(Clone, Copy, Debug, PartialEq, Eq)]
pub enum CudaFailure {
    /// Score the chunk on the CPU instead.
    RunOnCpu,
    /// The failure is the chunk's result.
    GiveUp,
}

/// The steps that change a renderer's state.
pub enum RendererStep {
    /// The fallback warning is taken.
    TakeWarning,
    /// The CUDA backend failed on a chunk, for the given reason.
    CudaFailed(Seq<char>),
}

/// Whether a CUDA failure falls back to the CPU: only under
/// `Backend::Auto`, and only at the first failure.
pub open spec fn falls_back(r: RendererModel) -> bool {
    r.requested == Backend::Auto && r.cuda_disabled is None
}

/// The renderer after one step.
pub open spec fn apply_step(r: RendererModel, step: RendererStep) -> RendererModel {
    match step {
        RendererStep::TakeWarning => warning_taken(r),
        RendererStep::CudaFailed(reason) => if falls_back(r) {
            RendererModel {
                cuda_disabled: Some(reason),
                fallback: Some(fallback_message(reason)),
                ..r
            }
        } else {
            r
        },
    }
}

/// The renderer after a sequence of steps.
pub open spec fn run_steps(r: RendererModel, steps: Seq<RendererStep>) -> RendererModel
    decreases steps.len(),
{
    if steps.len() == 0 {
        r
    } else {
        apply_step(run_steps(r, steps.drop_last()), steps.last())
    }
}

/// A renderer as constructed: CUDA not given up, no warning.
pub open spec fn fresh(r: RendererModel) -> bool {
    r.cuda_disabled is None && r.fallback is None
}

/// A warning exists only once CUDA has been given up, and CUDA is given up
/// only under `Backend::Auto`.
pub open spec fn fallback_consistent(r: RendererModel) -> bool {
    &&& r.fallback is Some ==> r.cuda_disabled is Some
    &&& r.cuda_disabled is Some ==> r.requested == Backend::Auto
}

/// Law: no step changes the backend asked for or the batch limit, and
/// every step keeps a consistent renderer consistent.
pub proof fn lemma_steps_keep_settings(r: RendererModel, steps: Seq<RendererStep>)
    ensures
        run_steps(r, steps).requested == r.requested,
        run_steps(r, steps).max_batch_cells == r.max_batch_cells,
        fallback_consistent(r) ==> fallback_consistent(run_steps(r, steps)),
        fresh(r) ==> fallback_consistent(r),
    decreases steps.len(),
{
    if steps.len() > 0 {
        lemma_steps_keep_settings(r, steps.drop_last());
    }
}

/// Law: a renderer has a warning only after a CUDA failure under
/// `Backend::Auto`: starting fresh, with another backend or with no CUDA
/// failure among the steps, there is never a warning nor a CPU fallback.
pub proof fn lemma_warning_needs_auto_failure(r: RendererModel, steps: Seq<RendererStep>)
    requires
        fresh(r),
        r.requested != Backend::Auto || forall|i: int|
            0 <= i < steps.len() ==> !(#[trigger] steps[i] is CudaFailed),
    ensures
        fresh(run_steps(r, steps)),
    decreases steps.len(),
{
    if steps.len() > 0 {
        if r.requested == Backend::Auto {
            assert forall|i: int| 0 <= i < steps.drop_last().len() implies !(
            #[trigger] steps.drop_last()[i] is CudaFailed) by {
                assert(steps.drop_last()[i] == steps[i]);
            }
        }
        lemma_warning_needs_auto_failure(r, steps.drop_last());
        lemma_steps_keep_settings(r, steps.drop_last());
        if r.requested == Backend::Auto {
            assert(steps.last() == steps[steps.len() - 1]);
        }
    }
}

/// Law: once CUDA has been given up it stays given up, no later chunk goes
/// to CUDA, and no new warning arises: a warning that is gone stays gone.
pub proof fn lemma_cuda_failure_sticks(r: RendererModel, steps: Seq<RendererStep>)
    requires
        fallback_consistent(r),
        r.cuda_disabled is Some,
    ensures
        run_steps(r, steps).cuda_disabled == r.cuda_disabled,
        next_backend(run_steps(r, steps)) == Backend::Cpu,
        r.fallback is None ==> run_steps(r, steps).fallback is None,
        run_steps(r, steps).fallback is Some ==> run_steps(r, steps).fallback == r.fallback,
    decreases steps.len(),
{
    if steps.len() > 0 {
        lemma_cuda_failure_sticks(r, steps.drop_last());
    }
}

/// Law: the fallback warning is handed out at most once: after a take that
/// gave a warning, no sequence of later steps brings one back; right after
/// any take there is none; and taking changes nothing else.
pub proof fn lemma_warning_taken_once(r: RendererModel, steps: Seq<RendererStep>)
    requires
        fallback_consistent(r),
    ensures
        apply_step(r, RendererStep::TakeWarning).fallback == None::<Seq<char>>,
        apply_step(apply_step(r, RendererStep::TakeWarning), RendererStep::TakeWarning)
            == apply_step(r, RendererStep::TakeWarning),
        next_backend(apply_step(r, RendererStep::TakeWarning)) == next_backend(r),
        r.fallback is Some ==> run_steps(apply_step(r, RendererStep::TakeWarning), steps).fallback
            == None::<Seq<char>>,
{
    if r.fallback is Some {
        lemma_cuda_failure_sticks(apply_step(r, RendererStep::TakeWarning), steps);
    }
}

/// Law: every chunk is scored on a concrete backend, never `Auto`; a CPU
/// renderer never tries CUDA; and a failure that falls back leaves the
/// renderer on the CPU.
pub proof fn lemma_chunks_run_on_concrete_backends(r: RendererModel, reason: Seq<char>)
    ensures
        next_backend(r) != Backend::Auto,
        r.requested == Backend::Cpu ==> next_backend(r) == Backend::Cpu,
        falls_back(r) ==> next_backend(apply_step(r, RendererStep::CudaFailed(reason)))
            == Backend::Cpu,
        !falls_back(r) ==> apply_step(r, RendererStep::CudaFailed(reason)) == r,
{
}


/// Request `i` lies in chunk `k`.
pub open spec fn in_chunk(batches: Seq<(usize, usize)>, k: int, i: int) -> bool {
    batches[k].0 <= i < batches[k].1
}

/// Request `i` lies in one of the first `m` chunks.
pub open spec fn placed(batches: Seq<(usize, usize)>, m: int, i: int) -> bool {
    exists|k: int| 0 <= k < m && #[trigger] in_chunk(batches, k, i)
}

proof fn lemma_chunks_prefix_cover(cells: Seq<usize>, max: int, batches: Seq<(usize, usize)>, m: int)
    requires
        greedy_chunks(cells, max, batches),
        1 <= m <= batches.len(),
    ensures
        forall|i: int| 0 <= i < batches[m - 1].1 ==> #[trigger] placed(batches, m, i),
    decreases m,
{
    if m > 1 {
        lemma_chunks_prefix_cover(cells, max, batches, m - 1);
        assert(batches[m - 2].1 == batches[m - 1].0);
        assert forall|i: int| 0 <= i < batches[m - 1].1 implies #[trigger] placed(batches, m, i) by {
            if i >= batches[m - 1].0 {
                assert(in_chunk(batches, m - 1, i));
            } else {
                assert(placed(batches, m - 1, i));
                let k = choose|k: int| 0 <= k < m - 1 && #[trigger] in_chunk(batches, k, i);
                assert(in_chunk(batches, k, i));
            }
        }
    } else {
        assert(batches[0].0 == 0);
        assert forall|i: int| 0 <= i < batches[0].1 implies #[trigger] placed(batches, 1, i) by {
            assert(in_chunk(batches, 0, i));
        }
    }
}

proof fn lemma_chunks_ordered(cells: Seq<usize>, max: int, batches: Seq<(usize, usize)>, j: int, k: int)
    requires
        greedy_chunks(cells, max, batches),
        0 <= j < k < batches.len(),
    ensures
        batches[j].1 <= batches[k].0,
    decreases k - j,
{
    assert(batches[k - 1].1 == batches[k].0);
    if j < k - 1 {
        lemma_chunks_ordered(cells, max, batches, j, k - 1);
        assert(batches[k - 1].0 < batches[k - 1].1);
    }
}

/// Law: batching places every request in exactly one chunk, chunks come in
/// request order, and a chunk of more than one request holds at most the
/// batch limit's worth of cells.
pub proof fn lemma_chunks_place_each_request_once(cells: Seq<usize>, max: int, batches: Seq<(usize, usize)>)
    requires
        greedy_chunks(cells, max, batches),
    ensures
        forall|i: int| 0 <= i < cells.len() ==> #[trigger] placed(batches, batches.len() as int, i),
        forall|j: int, k: int, i: int|
            0 <= j < batches.len() && 0 <= k < batches.len() && #[trigger] in_chunk(batches, j, i)
                && #[trigger] in_chunk(batches, k, i) ==> j == k,
        forall|j: int, k: int|
            0 <= j < k < batches.len() ==> #[trigger] batches[j].1 <= #[trigger] batches[k].0,
        forall|k: int|
            0 <= k < batches.len() && batches[k].1 > batches[k].0 + 1 ==> run_cells(
                cells,
                #[trigger] batches[k].0 as int,
                batches[k].1 as int,
            ) <= max,
{
    if batches.len() > 0 {
        lemma_chunks_prefix_cover(cells, max, batches, batches.len() as int);
    }
    assert forall|j: int, k: int| 0 <= j < k < batches.len() implies #[trigger] batches[j].1
        <= #[trigger] batches[k].0 by {
        lemma_chunks_ordered(cells, max, batches, j, k);
    }
    assert forall|j: int, k: int, i: int|
        0 <= j < batches.len() && 0 <= k < batches.len() && #[trigger] in_chunk(batches, j, i)
            && #[trigger] in_chunk(batches, k, i) implies j == k by {
        if j < k {
            lemma_chunks_ordered(cells, max, batches, j, k);
        } else if k < j {
            lemma_chunks_ordered(cells, max, batches, k, j);
        }
    }
    assert forall|k: int|
        0 <= k < batches.len() && batches[k].1 > batches[k].0 + 1 implies run_cells(
            cells,
            #[trigger] batches[k].0 as int,
            batches[k].1 as int,
        ) <= max by {
        let (s, e) = batches[k];
        assert(e == s + 1 || run_cells(cells, s as int, e as int) <= max);
    }
}

} // verus!
