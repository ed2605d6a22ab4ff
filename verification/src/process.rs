use vstd::prelude::*;

use crate::id::RecycleAllocator;

verus! {

/// The file descriptor table of a process: slot `fd` holds the open file
/// that descriptor `fd` names, or `None` where the descriptor is free.
pub type FdTable<F> = Vec<Option<F>>;

/// The mutable state of a process.
///
/// `F` is what an open file descriptor holds and `T` the handle of a thread
/// of the process. Processes are named by their pids, the address space by
/// its page-table token.
pub struct ProcessControlBlockInner<F, T> {
    pub is_zombie: bool,
    /// The token (satp value) of the process's address space.
    pub user_token: usize,
    /// The pid of the parent process, if it has one.
    pub parent: Option<usize>,
    /// The pids of the child processes, in the order in which they were created.
    pub children: Vec<usize>,
    pub exit_code: i32,
    pub fd_table: FdTable<F>,
    /// The pending signals, one bit each.
    pub signals: u32,
    /// Slot `tid` holds thread `tid`, or `None` where no thread has that id.
    pub tasks: Vec<Option<T>>,
    pub task_res_allocator: RecycleAllocator,
}

/// The lowest free descriptor of `table`, or its length where none is free.
pub open spec fn lowest_free_fd<F>(table: Seq<Option<F>>) -> int {
    if exists|i: int| 0 <= i < table.len() && table[i] is None {
        choose|i: int|
            0 <= i < table.len() && table[i] is None && forall|j: int| 0 <= j < i ==> table[j] is Some
    } else {
        table.len() as int
    }
}

/// The descriptor table `table` after `alloc_fd`: unchanged where a slot is
/// free, else grown by one free slot.
pub open spec fn fd_table_after_alloc<F>(table: Seq<Option<F>>) -> Seq<Option<F>> {
    if lowest_free_fd(table) < table.len() {
        table
    } else {
        table.push(None)
    }
}

/// The thread table `tasks` after thread `tid` was put in it: grown with
/// empty slots up to `tid` where it was shorter, then slot `tid` filled.
pub open spec fn with_task<T>(tasks: Seq<Option<T>>, tid: int, task: T) -> Seq<Option<T>> {
    let grown = if tasks.len() <= tid {
        tasks + Seq::new((tid + 1 - tasks.len()) as nat, |i: int| None::<T>)
    } else {
        tasks
    };
    grown.update(tid, Some(task))
}

/// Whether thread `tid` can be waited for by thread `caller_tid`: it is
/// another thread, and the table holds it.
pub open spec fn waitable<T>(tasks: Seq<Option<T>>, caller_tid: int, tid: int) -> bool {
    tid != caller_tid && 0 <= tid < tasks.len() && tasks[tid] is Some
}

impl<F, T> ProcessControlBlockInner<F, T> {
    /// `self` and `other` agree on everything but the descriptor table.
    pub open spec fn same_but_fd_table(&self, other: &Self) -> bool {
        &&& self.is_zombie == other.is_zombie
        &&& self.user_token == other.user_token
        &&& self.parent == other.parent
        &&& self.children@ == other.children@
        &&& self.exit_code == other.exit_code
        &&& self.signals == other.signals
        &&& self.tasks@ == other.tasks@
        &&& self.task_res_allocator == other.task_res_allocator
    }

    /// `self` and `other` agree on everything but the thread table.
    pub open spec fn same_but_tasks(&self, other: &Self) -> bool {
        &&& self.is_zombie == other.is_zombie
        &&& self.user_token == other.user_token
        &&& self.parent == other.parent
        &&& self.children@ == other.children@
        &&& self.exit_code == other.exit_code
        &&& self.signals == other.signals
        &&& self.fd_table@ == other.fd_table@
        &&& self.task_res_allocator == other.task_res_allocator
    }

    /// `self` and `other` agree on everything but the children.
    pub open spec fn same_but_children(&self, other: &Self) -> bool {
        &&& self.is_zombie == other.is_zombie
        &&& self.user_token == other.user_token
        &&& self.parent == other.parent
        &&& self.exit_code == other.exit_code
        &&& self.signals == other.signals
        &&& self.fd_table@ == other.fd_table@
        &&& self.tasks@ == other.tasks@
        &&& self.task_res_allocator == other.task_res_allocator
    }

    /// `self` and `other` agree on everything but the thread id allocator.
    pub open spec fn same_but_allocator(&self, other: &Self) -> bool {
        &&& self.is_zombie == other.is_zombie
        &&& self.user_token == other.user_token
        &&& self.parent == other.parent
        &&& self.children@ == other.children@
        &&& self.exit_code == other.exit_code
        &&& self.signals == other.signals
        &&& self.fd_table@ == other.fd_table@
        &&& self.tasks@ == other.tasks@
    }

    pub fn get_user_token(&self) -> (token: usize)
        ensures
            token == self.user_token,
    {
        self.user_token
    }

    /// Finds a free descriptor: the lowest free slot of the table, or a new
    /// free slot at its end where every slot is taken. The slot stays free
    /// until the caller fills it.
    pub fn alloc_fd(&mut self) -> (fd: usize)
        ensures
            fd == lowest_free_fd(old(self).fd_table@),
            fd < final(self).fd_table@.len(),
            final(self).fd_table@[fd as int] is None,
            forall|j: int| 0 <= j < fd ==> old(self).fd_table@[j] is Some,
            fd < old(self).fd_table@.len() ==> old(self).fd_table@[fd as int] is None,
            fd == old(self).fd_table@.len() <==> forall|j: int|
                0 <= j < old(self).fd_table@.len() ==> old(self).fd_table@[j] is Some,
            fd < old(self).fd_table@.len() ==> final(self).fd_table@ == old(self).fd_table@,
            fd == old(self).fd_table@.len() ==> final(self).fd_table@ == old(self).fd_table@.push(None),
            final(self).fd_table@ == fd_table_after_alloc(old(self).fd_table@),
            final(self).same_but_fd_table(old(self)),
    {
        let mut fd: usize = 0;
        while fd < self.fd_table.len()
            invariant
                fd <= self.fd_table@.len(),
                self.fd_table@ == old(self).fd_table@,
                forall|j: int| 0 <= j < fd ==> self.fd_table@[j] is Some,
            decreases self.fd_table@.len() - fd,
        {
            if self.fd_table[fd].is_none() {
                proof {
                    lemma_lowest_free_fd_unique(self.fd_table@, fd as int);
                }
                return fd;
            }
            fd = fd + 1;
        }
        proof {
            assert(!exists|i: int| 0 <= i < self.fd_table@.len() && self.fd_table@[i] is None);
        }
        self.fd_table.push(None);
        self.fd_table.len() - 1
    }

    /// Allocates an id for a new thread of the process.
    pub fn alloc_tid(&mut self) -> (tid: usize)
        requires
            old(self).task_res_allocator.can_alloc(),
        ensures
            tid == old(self).task_res_allocator.next_id(),
            old(self).task_res_allocator.spec_recycled().len() > 0 ==> {
                &&& final(self).task_res_allocator.spec_recycled() == old(
                    self,
                ).task_res_allocator.spec_recycled().drop_last()
                &&& final(self).task_res_allocator.spec_current() == old(
                    self,
                ).task_res_allocator.spec_current()
            },
            old(self).task_res_allocator.spec_recycled().len() == 0 ==> {
                &&& final(self).task_res_allocator.spec_recycled() == old(
                    self,
                ).task_res_allocator.spec_recycled()
                &&& final(self).task_res_allocator.spec_current() == old(
                    self,
                ).task_res_allocator.spec_current() + 1
            },
            !old(self).task_res_allocator.allocated().contains(tid),
            tid < usize::MAX,
            final(self).task_res_allocator.allocated() == old(
                self,
            ).task_res_allocator.allocated().insert(tid),
            final(self).same_but_allocator(old(self)),
    {
        self.task_res_allocator.alloc_id()
    }

    /// Releases the id of a thread that has gone.
    pub fn dealloc_tid(&mut self, tid: usize)
        requires
            old(self).task_res_allocator.allocated().contains(tid),
        ensures
            final(self).task_res_allocator.spec_recycled() == old(
                self,
            ).task_res_allocator.spec_recycled().push(tid),
            final(self).task_res_allocator.spec_current() == old(
                self,
            ).task_res_allocator.spec_current(),
            final(self).task_res_allocator.allocated() == old(
                self,
            ).task_res_allocator.allocated().remove(tid),
            final(self).task_res_allocator.next_id() == tid,
            final(self).task_res_allocator.can_alloc(),
            final(self).same_but_allocator(old(self)),
    {
        self.task_res_allocator.dealloc_id(tid)
    }

    /// The number of slots of the thread table.
    pub fn thread_count(&self) -> (n: usize)
        ensures
            n == self.tasks@.len(),
    {
        self.tasks.len()
    }
}

impl<F, T> ProcessControlBlockInner<F, T> {
    /// The state of a new process: no parent, no children, no threads yet,
    /// and descriptors 0, 1 and 2 open on standard input, output and error.
    pub fn new(user_token: usize, stdin: F, stdout: F, stderr: F) -> (inner: Self)
        ensures
            !inner.is_zombie,
            inner.user_token == user_token,
            inner.parent is None,
            inner.children@ == Seq::<usize>::empty(),
            inner.exit_code == 0,
            inner.fd_table@ == seq![Some(stdin), Some(stdout), Some(stderr)],
            inner.signals == 0,
            inner.tasks@ == Seq::<Option<T>>::empty(),
            inner.task_res_allocator.spec_current() == 0,
            inner.task_res_allocator.spec_recycled() == Seq::<usize>::empty(),
            inner.task_res_allocator.allocated() == Set::<usize>::empty(),
            inner.task_res_allocator.next_id() == 0,
            inner.task_res_allocator.can_alloc(),
    {
        ProcessControlBlockInner {
            is_zombie: false,
            user_token,
            parent: None,
            children: Vec::new(),
            exit_code: 0,
            fd_table: vec![Some(stdin), Some(stdout), Some(stderr)],
            signals: 0,
            tasks: Vec::new(),
            task_res_allocator: RecycleAllocator::new(),
        }
    }

    /// Adds a thread to the process: allocates its id, makes the thread with
    /// `new_task` from that id, and puts it in the thread table. In a process
    /// that has no thread yet and has never allocated a thread id, as a new or
    /// a forked one, this is the main thread: id 0, alone in slot 0.
    pub fn add_thread<G: FnOnce(usize) -> T>(&mut self, new_task: G) -> (tid: usize)
        requires
            old(self).task_res_allocator.can_alloc(),
            forall|t: usize| new_task.requires((t,)),
        ensures
            tid == old(self).task_res_allocator.next_id(),
            old(self).task_res_allocator.spec_recycled().len() > 0 ==> {
                &&& final(self).task_res_allocator.spec_recycled() == old(
                    self,
                ).task_res_allocator.spec_recycled().drop_last()
                &&& final(self).task_res_allocator.spec_current() == old(
                    self,
                ).task_res_allocator.spec_current()
            },
            old(self).task_res_allocator.spec_recycled().len() == 0 ==> {
                &&& final(self).task_res_allocator.spec_recycled() == old(
                    self,
                ).task_res_allocator.spec_recycled()
                &&& final(self).task_res_allocator.spec_current() == old(
                    self,
                ).task_res_allocator.spec_current() + 1
            },
            !old(self).task_res_allocator.allocated().contains(tid),
            final(self).task_res_allocator.allocated() == old(
                self,
            ).task_res_allocator.allocated().insert(tid),
            exists|task: T|
                new_task.ensures((tid,), task) && final(self).tasks@ == with_task(
                    old(self).tasks@,
                    tid as int,
                    task,
                ),
            ({
                &&& old(self).tasks@.len() == 0
                &&& old(self).task_res_allocator.spec_current() == 0
                &&& old(self).task_res_allocator.spec_recycled().len() == 0
            }) ==> {
                &&& tid == 0
                &&& final(self).task_res_allocator.allocated() == set![0usize]
                &&& exists|task: T|
                    new_task.ensures((0usize,), task) && final(self).tasks@ == seq![Some(task)]
            },
            final(self).is_zombie == old(self).is_zombie,
            final(self).user_token == old(self).user_token,
            final(self).parent == old(self).parent,
            final(self).children@ == old(self).children@,
            final(self).exit_code == old(self).exit_code,
            final(self).signals == old(self).signals,
            final(self).fd_table@ == old(self).fd_table@,
    {
        let tid = self.alloc_tid();
        let task = new_task(tid);
        self.install_task(tid, task);
        proof {
            if old(self).tasks@.len() == 0 && old(self).task_res_allocator.spec_current() == 0
                && old(self).task_res_allocator.spec_recycled().len() == 0 {
                assert(with_task(old(self).tasks@, 0, task) =~= seq![Some(task)]);
                assert(self.task_res_allocator.allocated() =~= set![0usize]);
            }
        }
        tid
    }

    /// Puts thread `tid` in the thread table, growing the table with empty
    /// slots where it is too short.
    pub fn install_task(&mut self, tid: usize, task: T)
        requires
            tid < usize::MAX,
        ensures
            final(self).tasks@ == with_task(old(self).tasks@, tid as int, task),
            final(self).same_but_tasks(old(self)),
    {
        let ghost old_tasks = self.tasks@;
        while self.tasks.len() < tid + 1
            invariant
                tid < usize::MAX,
                old_tasks.len() <= self.tasks@.len(),
                old_tasks.len() <= tid ==> self.tasks@.len() <= tid + 1,
                old_tasks.len() > tid ==> self.tasks@ == old_tasks,
                self.tasks@ == old_tasks + Seq::new(
                    (self.tasks@.len() - old_tasks.len()) as nat,
                    |i: int| None::<T>,
                ),
                self.same_but_tasks(old(self)),
            decreases tid + 1 - self.tasks@.len(),
        {
            self.tasks.push(None);
            proof {
                assert(self.tasks@ =~= old_tasks + Seq::new(
                    (self.tasks@.len() - old_tasks.len()) as nat,
                    |i: int| None::<T>,
                ));
            }
        }
        proof {
            if old_tasks.len() > tid {
                assert(self.tasks@ =~= old_tasks);
            }
        }
        self.tasks.set(tid, Some(task));
    }

    /// Waits for thread `tid` on behalf of thread `caller_tid`, where
    /// `exit_code` is what thread `tid` has recorded of its exit (`None`
    /// while it runs). Answers -1 where the thread does not exist or is the
    /// caller, -2 where it has not exited yet; otherwise removes it from the
    /// thread table and answers its exit code.
    pub fn waittid(&mut self, caller_tid: usize, tid: usize, exit_code: Option<i32>) -> (r: i32)
        ensures
            !waitable(old(self).tasks@, caller_tid as int, tid as int) ==> {
                &&& r == -1
                &&& final(self).tasks@ == old(self).tasks@
            },
            waitable(old(self).tasks@, caller_tid as int, tid as int) && exit_code is Some ==> {
                &&& r == exit_code->0
                &&& final(self).tasks@ == old(self).tasks@.update(tid as int, None)
            },
            waitable(old(self).tasks@, caller_tid as int, tid as int) && exit_code is None ==> {
                &&& r == -2
                &&& final(self).tasks@ == old(self).tasks@
            },
            tid == caller_tid || tid >= old(self).tasks@.len() || old(self).tasks@[tid as int] is None
                ==> r == -1 && final(self).tasks@ == old(self).tasks@,
            tid != caller_tid && tid < old(self).tasks@.len() && old(self).tasks@[tid as int] is Some
                && exit_code is Some ==> r == exit_code->0 && final(self).tasks@ == old(
                self,
            ).tasks@.update(tid as int, None),
            tid != caller_tid && tid < old(self).tasks@.len() && old(self).tasks@[tid as int] is Some
                && exit_code is None ==> r == -2 && final(self).tasks@ == old(self).tasks@,
            final(self).same_but_tasks(old(self)),
    {
        if caller_tid == tid {
            return -1;
        }
        if tid >= self.tasks.len() || self.tasks[tid].is_none() {
            return -1;
        }
        match exit_code {
            Some(code) => {
                self.tasks.set(tid, None);
                code
            },
            None => -2,
        }
    }
}

impl<F, T: Clone> ProcessControlBlockInner<F, T> {
    /// A handle of thread `tid`, which the table holds.
    pub fn get_task(&self, tid: usize) -> (task: T)
        requires
            tid < self.tasks@.len(),
            self.tasks@[tid as int] is Some,
        ensures
            cloned::<T>(self.tasks@[tid as int]->0, task),
    {
        self.tasks[tid].as_ref().unwrap().clone()
    }
}

impl<F: Clone, T> ProcessControlBlockInner<F, T> {
    /// The state of the child that process `parent_pid`, whose state `self`
    /// is, forks as process `child_pid` with address space `child_token`:
    /// each open descriptor of the parent is duplicated in the same slot, and
    /// the parent records the child. The parent must run a single thread.
    pub fn fork(&mut self, parent_pid: usize, child_pid: usize, child_token: usize) -> (child: Self)
        requires
            old(self).tasks@.len() == 1,
        ensures
            !child.is_zombie,
            child.user_token == child_token,
            child.parent == Some(parent_pid),
            child.children@ == Seq::<usize>::empty(),
            child.exit_code == 0,
            child.fd_table@.len() == old(self).fd_table@.len(),
            forall|i: int|
                0 <= i < child.fd_table@.len() ==> {
                    &&& (old(self).fd_table@[i] is None ==> child.fd_table@[i] is None)
                    &&& (old(self).fd_table@[i] is Some ==> child.fd_table@[i] is Some && cloned::<F>(
                        old(self).fd_table@[i]->0,
                        child.fd_table@[i]->0,
                    ))
                },
            child.signals == 0,
            child.tasks@ == Seq::<Option<T>>::empty(),
            child.task_res_allocator.spec_current() == 0,
            child.task_res_allocator.spec_recycled() == Seq::<usize>::empty(),
            child.task_res_allocator.allocated() == Set::<usize>::empty(),
            child.task_res_allocator.next_id() == 0,
            child.task_res_allocator.can_alloc(),
            final(self).children@ == old(self).children@.push(child_pid),
            final(self).same_but_children(old(self)),
    {
        let mut new_fd_table: FdTable<F> = Vec::new();
        let mut i: usize = 0;
        while i < self.fd_table.len()
            invariant
                i <= self.fd_table@.len(),
                self.fd_table@ == old(self).fd_table@,
                new_fd_table@.len() == i,
                forall|k: int|
                    0 <= k < i ==> {
                        &&& (self.fd_table@[k] is None ==> new_fd_table@[k] is None)
                        &&& (self.fd_table@[k] is Some ==> new_fd_table@[k] is Some && cloned::<F>(
                            self.fd_table@[k]->0,
                            new_fd_table@[k]->0,
                        ))
                    },
            decreases self.fd_table@.len() - i,
        {
            match &self.fd_table[i] {
                Some(file) => new_fd_table.push(Some(file.clone())),
                None => new_fd_table.push(None),
            }
            i = i + 1;
        }
        self.children.push(child_pid);
        ProcessControlBlockInner {
            is_zombie: false,
            user_token: child_token,
            parent: Some(parent_pid),
            children: Vec::new(),
            exit_code: 0,
            fd_table: new_fd_table,
            signals: 0,
            tasks: Vec::new(),
            task_res_allocator: RecycleAllocator::new(),
        }
    }
}

/// The lowest free descriptor is the free slot that no free slot precedes.
pub proof fn lemma_lowest_free_fd_unique<F>(table: Seq<Option<F>>, fd: int)
    requires
        0 <= fd < table.len(),
        table[fd] is None,
        forall|j: int| 0 <= j < fd ==> table[j] is Some,
    ensures
        lowest_free_fd(table) == fd,
{
    assert(exists|i: int| 0 <= i < table.len() && table[i] is None);
    let c = choose|i: int|
        0 <= i < table.len() && table[i] is None && forall|j: int| 0 <= j < i ==> table[j] is Some;
    assert(0 <= fd < table.len() && table[fd] is None && forall|j: int| 0 <= j < fd ==> table[j] is Some);
    if c < fd {
    } else if c > fd {
    }
}

/// Where slot `k` is free, some free slot has no free slot before it.
proof fn lemma_lowest_free_exists<F>(table: Seq<Option<F>>, k: int)
    requires
        0 <= k < table.len(),
        table[k] is None,
    ensures
        exists|i: int|
            0 <= i < table.len() && table[i] is None && forall|j: int| 0 <= j < i ==> table[j] is Some,
    decreases k,
{
    if forall|j: int| 0 <= j < k ==> table[j] is Some {
        assert(0 <= k < table.len() && table[k] is None && forall|j: int| 0 <= j < k ==> table[j] is Some);
    } else {
        let j = choose|j: int| 0 <= j < k && !(table[j] is Some);
        lemma_lowest_free_exists(table, j);
    }
}

/// Where every slot is taken, the lowest free descriptor is the table's length.
proof fn lemma_lowest_free_fd_full<F>(table: Seq<Option<F>>)
    requires
        forall|j: int| 0 <= j < table.len() ==> table[j] is Some,
    ensures
        lowest_free_fd(table) == table.len(),
{
}

/// A descriptor found free stays the one found until its slot is filled:
/// `alloc_fd` called again on the table it left answers the same.
pub proof fn lemma_alloc_fd_repeats<F>(table: Seq<Option<F>>)
    ensures
        lowest_free_fd(fd_table_after_alloc(table)) == lowest_free_fd(table),
        lowest_free_fd(table) < fd_table_after_alloc(table).len(),
{
    if exists|i: int| 0 <= i < table.len() && table[i] is None {
        let k = choose|i: int| 0 <= i < table.len() && table[i] is None;
        lemma_lowest_free_exists(table, k);
        let fd = choose|i: int|
            0 <= i < table.len() && table[i] is None && forall|j: int| 0 <= j < i ==> table[j] is Some;
        lemma_lowest_free_fd_unique(table, fd);
    } else {
        lemma_lowest_free_fd_full(table);
        let grown = table.push(None);
        lemma_lowest_free_fd_unique(grown, table.len() as int);
    }
}

/// A thread put in the table is what the table then holds in its slot; the
/// slots that held threads before still hold them, and the slots the table
/// grew by are empty.
pub proof fn lemma_installed_task_reads<T>(tasks: Seq<Option<T>>, tid: int, task: T)
    requires
        0 <= tid,
    ensures
        with_task(tasks, tid, task).len() == if tasks.len() <= tid {
            tid + 1
        } else {
            tasks.len() as int
        },
        with_task(tasks, tid, task)[tid] == Some(task),
        forall|j: int|
            0 <= j < tasks.len() && j != tid ==> #[trigger] with_task(tasks, tid, task)[j] == tasks[j],
        forall|j: int|
            tasks.len() <= j < tid ==> #[trigger] with_task(tasks, tid, task)[j] is None,
{
}

/// A thread can be waited for exactly when it is not the caller and the
/// table holds it, whatever its id is next to the caller's.
pub proof fn lemma_waitable_exactly<T>(tasks: Seq<Option<T>>, caller_tid: int, tid: int)
    ensures
        waitable(tasks, caller_tid, tid) <==> (tid != caller_tid && 0 <= tid < tasks.len()
            && tasks[tid] is Some),
{
}

/// `alloc_fd` keeps every descriptor: each slot of the table holds what it
/// held, and the table grows only where every slot was taken, by one free slot.
pub proof fn lemma_alloc_fd_keeps_descriptors<F>(table: Seq<Option<F>>)
    ensures
        forall|j: int| 0 <= j < table.len() ==> #[trigger] fd_table_after_alloc(table)[j] == table[j],
        fd_table_after_alloc(table).len() == table.len() || fd_table_after_alloc(table).len()
            == table.len() + 1,
        fd_table_after_alloc(table).len() == table.len() + 1 <==> forall|j: int|
            0 <= j < table.len() ==> table[j] is Some,
        fd_table_after_alloc(table).len() == table.len() + 1 ==> fd_table_after_alloc(
            table,
        )[table.len() as int] is None,
{
    if exists|i: int| 0 <= i < table.len() && table[i] is None {
        let k = choose|i: int| 0 <= i < table.len() && table[i] is None;
        lemma_lowest_free_exists(table, k);
        let fd = choose|i: int|
            0 <= i < table.len() && table[i] is None && forall|j: int| 0 <= j < i ==> table[j] is Some;
        lemma_lowest_free_fd_unique(table, fd);
        assert(!forall|j: int| 0 <= j < table.len() ==> table[j] is Some) by {
            assert(!(table[k] is Some));
        }
    } else {
        lemma_lowest_free_fd_full(table);
    }
}

/// A thread whose exit code was collected is gone: waiting for it again
/// answers -1.
pub proof fn lemma_reaped_thread_not_waitable<T>(tasks: Seq<Option<T>>, caller_tid: int, tid: int)
    requires
        waitable(tasks, caller_tid, tid),
    ensures
        !waitable(tasks.update(tid, None), caller_tid, tid),
{
}

} // verus!
