use std::sync::Arc;
use vstd::prelude::*;

verus! {

/// The registers that a switch between kernel control flows saves: the
/// return address, the stack pointer and the callee-saved registers s0..s11.
pub struct TaskContext {
    pub ra: usize,
    pub sp: usize,
    pub s: [usize; 12],
}

impl TaskContext {
    /// The context with every register zero.
    pub fn zero_init() -> (cx: Self)
        ensures
            cx.ra == 0,
            cx.sp == 0,
            forall|i: int| 0 <= i < 12 ==> #[trigger] cx.s@[i] == 0,
    {
        TaskContext { ra: 0, sp: 0, s: [0usize; 12] }
    }
}

/// The state of one hart: the thread it runs, the context of its idle
/// control flow, and the times (in microseconds) at which it last returned
/// to user code and last trapped into the kernel. `T` is the handle of a thread.
pub struct Processor<T> {
    current: Option<T>,
    idle_task_cx: TaskContext,
    user_clock: usize,
    kernel_clock: usize,
}

impl<T> Processor<T> {
    /// The thread that the hart runs.
    pub closed spec fn spec_current(&self) -> Option<T> {
        self.current
    }

    /// The context of the hart's idle control flow.
    pub closed spec fn spec_idle_task_cx(&self) -> TaskContext {
        self.idle_task_cx
    }

    /// When the hart last returned to user code.
    pub closed spec fn spec_user_clock(&self) -> usize {
        self.user_clock
    }

    /// When the hart last trapped into the kernel.
    pub closed spec fn spec_kernel_clock(&self) -> usize {
        self.kernel_clock
    }

    pub fn new() -> (p: Self)
        ensures
            p.spec_current() is None,
            p.spec_idle_task_cx().ra == 0,
            p.spec_idle_task_cx().sp == 0,
            forall|i: int| 0 <= i < 12 ==> #[trigger] p.spec_idle_task_cx().s@[i] == 0,
            p.spec_user_clock() == 0,
            p.spec_kernel_clock() == 0,
    {
        Self { current: None, idle_task_cx: TaskContext::zero_init(), user_clock: 0, kernel_clock: 0 }
    }

    /// Records `now` as the time at which the hart returns to user code.
    pub fn update_user_clock(&mut self, now: usize)
        ensures
            final(self).spec_user_clock() == now,
            final(self).spec_kernel_clock() == old(self).spec_kernel_clock(),
            final(self).spec_current() == old(self).spec_current(),
            final(self).spec_idle_task_cx() == old(self).spec_idle_task_cx(),
    {
        self.user_clock = now;
    }

    /// Records `now` as the time at which the hart traps into the kernel.
    pub fn update_kernel_clock(&mut self, now: usize)
        ensures
            final(self).spec_kernel_clock() == now,
            final(self).spec_user_clock() == old(self).spec_user_clock(),
            final(self).spec_current() == old(self).spec_current(),
            final(self).spec_idle_task_cx() == old(self).spec_idle_task_cx(),
    {
        self.kernel_clock = now;
    }

    pub fn get_user_clock(&self) -> (t: usize)
        ensures
            t == self.spec_user_clock(),
    {
        self.user_clock
    }

    pub fn get_kernel_clock(&self) -> (t: usize)
        ensures
            t == self.spec_kernel_clock(),
    {
        self.kernel_clock
    }

    /// The context of the hart's idle control flow, to save into or load from
    /// on a switch.
    pub fn idle_task_cx_mut(&mut self) -> (cx: &mut TaskContext)
        ensures
            *cx == old(self).spec_idle_task_cx(),
            final(self).spec_idle_task_cx() == *final(cx),
            final(self).spec_current() == old(self).spec_current(),
            final(self).spec_user_clock() == old(self).spec_user_clock(),
            final(self).spec_kernel_clock() == old(self).spec_kernel_clock(),
    {
        &mut self.idle_task_cx
    }

    /// Makes `task` the thread that the hart runs.
    pub fn set_current(&mut self, task: T)
        ensures
            final(self).spec_current() == Some(task),
            final(self).spec_idle_task_cx() == old(self).spec_idle_task_cx(),
            final(self).spec_user_clock() == old(self).spec_user_clock(),
            final(self).spec_kernel_clock() == old(self).spec_kernel_clock(),
    {
        self.current = Some(task);
    }

    /// Takes the thread that the hart runs away from it, leaving it none.
    pub fn take_current(&mut self) -> (task: Option<T>)
        ensures
            task == old(self).spec_current(),
            final(self).spec_current() is None,
            final(self).spec_idle_task_cx() == old(self).spec_idle_task_cx(),
            final(self).spec_user_clock() == old(self).spec_user_clock(),
            final(self).spec_kernel_clock() == old(self).spec_kernel_clock(),
    {
        self.current.take()
    }
}

/// `Arc::clone` (std), which makes another pointer to the value `a` points
/// to. To Verus an `Arc` is the value it points to, so the clone equals `a`;
/// that both point to the same allocation, and the reference count that the
/// call raises, are left unsaid.
#[verifier::external_body]
fn clone_arc<X: ?Sized>(a: &Arc<X>) -> (r: Arc<X>)
    ensures
        r == *a,
{
    Arc::clone(a)
}

impl<X: ?Sized> Processor<Arc<X>> {
    /// A handle of the thread that the hart runs, if any: the thread itself,
    /// so that asking twice with nothing run in between gives the same
    /// thread both times.
    pub fn current(&self) -> (task: Option<Arc<X>>)
        ensures
            task == self.spec_current(),
    {
        match &self.current {
            Some(task) => Some(clone_arc(task)),
            None => None,
        }
    }
}

/// How long the hart has run user code since it last returned to it, at
/// time `now`.
pub fn get_user_runtime_usec<T>(processor: &Processor<T>, now: usize) -> (d: usize)
    requires
        now >= processor.spec_user_clock(),
    ensures
        d == now - processor.spec_user_clock(),
{
    now - processor.get_user_clock()
}

/// How long the hart has run the kernel since it last trapped into it, at
/// time `now`.
pub fn get_kernel_runtime_usec<T>(processor: &Processor<T>, now: usize) -> (d: usize)
    requires
        now >= processor.spec_kernel_clock(),
    ensures
        d == now - processor.spec_kernel_clock(),
{
    now - processor.get_kernel_clock()
}

} // verus!
