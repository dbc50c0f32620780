//! Tasks and the task-id allocator.
//!
//! A task id is drawn from a 64-bit bitmap: bit `i` set means id `i` is
//! free. At most 64 tasks are live at any time.

use vstd::prelude::*;

use crate::config::{PAGE_SIZE, STACK_TOP_ADDR, TASK_START_ADDR, TRAMPOLINE_VA, TRAPFRAME_VA};
use crate::mm::mapping::{Mapping, Segment, PTE_EXECUTE, PTE_READ, PTE_USER, PTE_WRITE};
use crate::mm::page::{free_from, lemma_free_from_mono, lemma_free_page_fits, lemma_step_keeps_free,
    single_page_step, PageAllocator};
use crate::sched::context::{Context, TaskContext, TrapFrame};

verus! {

/// Whether a task runs in supervisor mode on the kernel mapping or in
/// user mode on its own address space.
#[derive(Debug, Clone, Copy, PartialEq, Eq, Structural)]
pub enum TaskType {
    Kernel,
    User,
}

/// Scheduling state of a task. Exactly one task is `Running` at a time.
#[derive(Debug, Clone, Copy, PartialEq, Eq, Structural)]
pub enum TaskState {
    Runnable,
    Running,
    Sleeping,
    Dead,
}

/// Numeric id of a task, in `0..64`.
#[derive(Debug, Clone, Copy, PartialEq, Eq, Structural)]
pub struct TaskId(pub u32);

/// True when bit `i` of `map` is set, that is, when id `i` is free.
pub open spec fn id_free(map: u64, i: u64) -> bool {
    (map >> i) & 1 == 1
}

/// Allocates task ids out of a 64-bit bitmap; a set bit marks a free id.
pub struct TaskIdAllocator {
    pub task_id_map: u64,
}

impl TaskIdAllocator {
    /// A fresh allocator with all 64 ids free.
    pub fn new() -> (r: Self)
        ensures
            r.task_id_map == u64::MAX,
            forall|i: u64| i < 64 ==> id_free(r.task_id_map, i),
    {
        proof {
            assert(forall|i: u64| i < 64 ==> #[trigger] ((u64::MAX >> i) & 1) == 1) by (bit_vector);
        }
        TaskIdAllocator { task_id_map: u64::MAX }
    }

    /// Hands out the lowest free id and marks it live.
    pub fn alloc_task_id(&mut self) -> (id: TaskId)
        requires
            old(self).task_id_map != 0,
        ensures
            id.0 < 64,
            id_free(old(self).task_id_map, id.0 as u64),
            forall|j: u64| j < id.0 ==> !id_free(old(self).task_id_map, j),
            final(self).task_id_map == old(self).task_id_map & !(1u64 << (id.0 as u64)),
            !id_free(final(self).task_id_map, id.0 as u64),
    {
        let id_map = self.task_id_map;
        proof {
            assert(id_map >> 0u64 == id_map) by (bit_vector);
        }
        let mut next: u32 = 0;
        loop
            invariant
                next < 64,
                id_map != 0,
                id_map >> (next as u64) != 0,
                id_map == old(self).task_id_map,
                id_map == self.task_id_map,
                forall|j: u64| j < next ==> !id_free(id_map, j),
            decreases 64 - next,
        {
            if (id_map >> (next as u64)) & 1 == 1 {
                self.task_id_map = id_map & !(1u64 << (next as u64));
                proof {
                    let n = next as u64;
                    assert(((id_map & !(1u64 << n)) >> n) & 1 != 1) by (bit_vector)
                        requires
                            n < 64,
                    ;
                }
                return TaskId(next);
            }
            proof {
                let n = next as u64;
                assert(n != 63) by (bit_vector)
                    requires
                        n < 64,
                        id_map >> n != 0,
                        (id_map >> n) & 1 != 1,
                ;
                let np = (n + 1) as u64;
                assert(id_map >> np != 0) by (bit_vector)
                    requires
                        np == n + 1,
                        n < 63,
                        id_map >> n != 0,
                        (id_map >> n) & 1 != 1,
                ;
            }
            next = next + 1;
        }
    }

    /// Returns a live id to the bitmap.
    pub fn free_task_id(&mut self, task_id: TaskId)
        requires
            task_id.0 < 64,
            !id_free(old(self).task_id_map, task_id.0 as u64),
        ensures
            final(self).task_id_map == old(self).task_id_map | (1u64 << (task_id.0 as u64)),
            id_free(final(self).task_id_map, task_id.0 as u64),
            forall|j: u64|
                j < 64 && j != task_id.0 ==> id_free(final(self).task_id_map, j) == id_free(
                    old(self).task_id_map,
                    j,
                ),
    {
        let map = self.task_id_map;
        self.task_id_map = map | (1u64 << (task_id.0 as u64));
        proof {
            let n = task_id.0 as u64;
            assert(((map | (1u64 << n)) >> n) & 1 == 1) by (bit_vector)
                requires
                    n < 64,
            ;
            assert(forall|j: u64|
                j < 64 && j != n ==> ((map | (1u64 << n)) >> j) & 1 == (map >> j) & 1)
                by (bit_vector)
                requires
                    n < 64,
            ;
        }
    }
}

/// The unit of scheduling: a numbered task with its own kernel stack
/// page, trap-frame/context page, and — for user tasks — a user stack
/// page and a private address space.
pub struct Task {
    pub id: TaskId,
    pub task_type: TaskType,
    pub task_state: TaskState,
    pub func: u64,
    pub mm: Option<Mapping>,
    pub kstack: u64,
    pub ustack: u64,
    pub context_page: u64,
    pub context: Context,
}

impl Task {
    /// A task is intact: a user task owns a well-formed address space, a
    /// kernel task none, and its stacks lie below the frame-number bound.
    pub open spec fn wf(self) -> bool {
        &&& (self.task_type is User <==> self.mm is Some)
        &&& (self.mm is Some ==> self.mm->Some_0.wf())
        &&& self.kstack + PAGE_SIZE <= u64::MAX
    }

    /// Builds the private address space of a user task: its code page,
    /// the shared trampoline, its trap frame, and its stack, at the fixed
    /// virtual addresses every user task shares.
    fn init_mm(&mut self, trampoline_paddr: u64)
        requires
            old(self).wf(),
            old(self).mm is Some ==> {
                &&& old(self).func & 0xfff == 0
                &&& old(self).func < 0x100_0000_0000_0000 - 4096
                &&& trampoline_paddr & 0xfff == 0
                &&& trampoline_paddr < 0x100_0000_0000_0000 - 4096
                &&& old(self).context_page & 0xfff == 0
                &&& old(self).context_page < 0x100_0000_0000_0000 - 4096
                &&& old(self).ustack & 0xfff == 0
                &&& old(self).ustack < 0x100_0000_0000_0000 - 4096
                &&& old(self).mm->Some_0.next_ppn + 8 <= 0x1000_0000_0000
            },
        ensures
            final(self).wf(),
            *final(self) == (Task { mm: final(self).mm, ..*old(self) }),
            old(self).mm is None ==> final(self).mm == old(self).mm,
            final(self).mm is Some <==> old(self).mm is Some,
            final(self).mm is Some ==> {
                let m = final(self).mm->Some_0;
                &&& m.translate(TASK_START_ADDR) == Some(old(self).func)
                &&& m.translate(TRAMPOLINE_VA) == Some(trampoline_paddr)
                &&& m.translate(TRAPFRAME_VA) == Some(old(self).context_page)
                &&& m.translate((STACK_TOP_ADDR - PAGE_SIZE) as u64) == Some(old(self).ustack)
            },
    {
        if self.mm.is_some() {
            let func_paddr = self.func;
            let context_paddr = self.context_page;
            let ustack_paddr = self.ustack;
            let mm = self.mm.as_mut().unwrap();
            proof {
                assert(0x1000u64 & 0xfff == 0 && 0x7f_ffff_f000u64 & 0xfff == 0
                    && 0x7f_ffff_e000u64 & 0xfff == 0 && 0x9fff_f000u64 & 0xfff == 0)
                    by (bit_vector);
                assert(TASK_START_ADDR == 0x1000u64 && TRAMPOLINE_VA == 0x7f_ffff_f000u64
                    && TRAPFRAME_VA == 0x7f_ffff_e000u64 && (STACK_TOP_ADDR - PAGE_SIZE) as u64
                    == 0x9fff_f000u64);
                assert((PTE_READ | PTE_EXECUTE | PTE_USER) & (PTE_READ | PTE_EXECUTE) != 0 && (
                PTE_EXECUTE | PTE_READ) & (PTE_READ | PTE_EXECUTE) != 0 && (PTE_READ | PTE_WRITE)
                    & (PTE_READ | PTE_EXECUTE) != 0 && (PTE_READ | PTE_WRITE | PTE_USER) & (
                PTE_READ | PTE_EXECUTE) != 0) by (bit_vector);
                assert(page_count_is_one());
            }
            mm.map(
                Segment {
                    vaddr: TASK_START_ADDR,
                    paddr: func_paddr,
                    len: PAGE_SIZE,
                    flags: PTE_READ | PTE_EXECUTE | PTE_USER,
                },
            );
            mm.map(
                Segment {
                    vaddr: TRAMPOLINE_VA,
                    paddr: trampoline_paddr,
                    len: PAGE_SIZE,
                    flags: PTE_EXECUTE | PTE_READ,
                },
            );
            mm.map(
                Segment {
                    vaddr: TRAPFRAME_VA,
                    paddr: context_paddr,
                    len: PAGE_SIZE,
                    flags: PTE_READ | PTE_WRITE,
                },
            );
            mm.map(
                Segment {
                    vaddr: STACK_TOP_ADDR - PAGE_SIZE,
                    paddr: ustack_paddr,
                    len: PAGE_SIZE,
                    flags: PTE_READ | PTE_WRITE | PTE_USER,
                },
            );
        }
    }

    /// Prepares the switch context so that the first resume starts the
    /// task: a kernel task begins at its entry function on its kernel
    /// stack; a user task begins in the kernel's return-to-user path,
    /// with the trap frame pointing at the fixed user entry and stack.
    fn init_context(&mut self, user_ret_addr: u64)
        requires
            old(self).kstack + PAGE_SIZE <= u64::MAX,
        ensures
            final(self).context.task_ctx.ra == (if old(self).task_type is Kernel {
                old(self).func
            } else {
                user_ret_addr
            }),
            final(self).context.task_ctx.sp == old(self).kstack + PAGE_SIZE,
            old(self).task_type is User ==> final(self).context.trapframe.epc == TASK_START_ADDR
                && final(self).context.trapframe.regs@[2] == STACK_TOP_ADDR,
            old(self).task_type is Kernel ==> final(self).context.trapframe == old(
                self,
            ).context.trapframe,
            *final(self) == (Task { context: final(self).context, ..*old(self) }),
    {
        let ra = match self.task_type {
            TaskType::Kernel => self.func,
            TaskType::User => user_ret_addr,
        };
        self.context.task_ctx.ra = ra;
        self.context.task_ctx.sp = self.kstack + PAGE_SIZE;
        if matches!(self.task_type, TaskType::User) {
            self.context.trapframe.epc = TASK_START_ADDR;
            self.context.trapframe.set_sp(STACK_TOP_ADDR);
        }
    }

    /// Creates a task ready to be scheduled: draws an id, allocates the
    /// kernel stack and the context page — plus, for a user task, a user
    /// stack and a fresh address space with the fixed user layout — and
    /// initializes the switch context so the first resume starts at the
    /// entry point. Exhausting the 64-id space is fatal and excluded here;
    /// the caller guarantees enough free pages.
    pub fn new(
        func: u64,
        task_type: TaskType,
        pa: &mut PageAllocator,
        ids: &mut TaskIdAllocator,
        trampoline_paddr: u64,
        user_ret_addr: u64,
    ) -> (r: (Task, TaskId))
        requires
            old(pa).wf(),
            free_from(*old(pa), 0, 4),
            old(pa).base + old(pa).pages@.len() * 4096 <= 0x100_0000_0000_0000 - 0x10000,
            old(ids).task_id_map != 0,
            task_type is User ==> func & 0xfff == 0 && func < 0x100_0000_0000_0000 - 4096,
            trampoline_paddr & 0xfff == 0,
            trampoline_paddr < 0x100_0000_0000_0000 - 4096,
        ensures
            final(pa).wf(),
            final(pa).base == old(pa).base,
            final(pa).pages@.len() == old(pa).pages@.len(),
            free_from(*final(pa), 0, 0),
            forall|m: int| free_from(*old(pa), 0, m) ==> free_from(*final(pa), 0, m - 4),
            final(ids).task_id_map == old(ids).task_id_map & !(1u64 << (r.1.0 as u64)),
            r.1.0 < 64,
            id_free(old(ids).task_id_map, r.1.0 as u64),
            r.0.id == r.1,
            r.0.wf(),
            r.0.task_type == task_type,
            r.0.task_state is Runnable,
            r.0.func == func,
            r.0.context.task_ctx.ra == (if task_type is Kernel {
                func
            } else {
                user_ret_addr
            }),
            r.0.context.task_ctx.sp == r.0.kstack + PAGE_SIZE,
            task_type is User ==> {
                &&& r.0.context.trapframe.epc == TASK_START_ADDR
                &&& r.0.context.trapframe.regs@[2] == STACK_TOP_ADDR
                &&& r.0.mm is Some
                &&& r.0.mm->Some_0.translate(TASK_START_ADDR) == Some(func)
                &&& r.0.mm->Some_0.translate(TRAMPOLINE_VA) == Some(trampoline_paddr)
                &&& r.0.mm->Some_0.translate(TRAPFRAME_VA) == Some(r.0.context_page)
                &&& r.0.mm->Some_0.translate((STACK_TOP_ADDR - PAGE_SIZE) as u64) == Some(
                    r.0.ustack,
                )
            },
            task_type is Kernel ==> r.0.mm is None && r.0.ustack == 0,
    {
        let id = ids.alloc_task_id();
        let ghost pa0 = *pa;
        proof {
            lemma_free_page_fits(*pa, 0, 4);
        }
        let kstack = alloc_one_page(pa, Ghost(4));
        let ghost pa1 = *pa;
        proof {
            lemma_free_page_fits(*pa, 0, 3);
        }
        let ustack: u64 = match task_type {
            TaskType::Kernel => 0,
            TaskType::User => alloc_one_page(pa, Ghost(3)),
        };
        let ghost pa2 = *pa;
        proof {
            if task_type is Kernel {
                lemma_free_from_mono(*pa, 0, 3, 2);
            }
            lemma_free_page_fits(*pa, 0, 2);
        }
        let context_page = alloc_one_page(pa, Ghost(2));
        let ghost pa3 = *pa;
        proof {
            lemma_free_page_fits(*pa, 0, 1);
        }
        let mm: Option<Mapping> = match task_type {
            TaskType::Kernel => None,
            TaskType::User => {
                let root_page = alloc_one_page(pa, Ghost(1));
                proof {
                    let a = root_page;
                    assert(a <= 0x100_0000_0000_0000 - 0x10000 ==> (a >> 12u64) + 9
                        <= 0x1000_0000_0000) by (bit_vector);
                }
                Some(Mapping::new(root_page >> 12u64))
            },
        };
        let frame = zero_frame();
        let mut task = Task {
            id,
            task_type,
            task_state: TaskState::Runnable,
            func,
            mm,
            kstack,
            ustack,
            context_page,
            context: Context { trapframe: frame, task_ctx: TaskContext::default() },
        };
        task.init_mm(trampoline_paddr);
        task.init_context(user_ret_addr);
        proof {
            assert forall|m: int| free_from(pa0, 0, m) implies free_from(*pa, 0, m - 4) by {
                lemma_new_free_chain(pa0, pa1, pa2, pa3, *pa, m);
            }
        }
        (task, id)
    }

    /// The task's trap frame, for the trap path to fill and read.
    pub fn frame(&mut self) -> (r: &mut TrapFrame)
        ensures
            *r == old(self).context.trapframe,
            *final(self) == (Task {
                context: Context { trapframe: *final(r), ..old(self).context },
                ..*old(self)
            }),
    {
        &mut self.context.trapframe
    }

    /// The task's switch context, for the context-switch path.
    pub fn task_context(&mut self) -> (r: &mut TaskContext)
        ensures
            *r == old(self).context.task_ctx,
            *final(self) == (Task {
                context: Context { task_ctx: *final(r), ..old(self).context },
                ..*old(self)
            }),
    {
        &mut self.context.task_ctx
    }

    /// The user task's address space. Kernel tasks have none; asking for
    /// it is a programming error the runtime treats as fatal.
    pub fn mm(&self) -> (r: &Mapping)
        requires
            self.mm is Some,
        ensures
            *r == self.mm->Some_0,
    {
        self.mm.as_ref().unwrap()
    }

    /// Top of the kernel stack: the stack grows down from here.
    pub fn kstack_top(&self) -> (r: u64)
        requires
            self.kstack + PAGE_SIZE <= u64::MAX,
        ensures
            r == self.kstack + PAGE_SIZE,
    {
        self.kstack + PAGE_SIZE
    }

    /// The page-table-base value of the user task's address space. Only
    /// user tasks carry one; the kernel task's is a programming error the
    /// runtime treats as fatal.
    pub fn satp(&self) -> (r: u64)
        requires
            self.mm is Some,
            self.mm->Some_0.wf(),
        ensures
            r == self.mm->Some_0.tables@[0].ppn | (8u64 << 60u64),
    {
        self.mm.as_ref().unwrap().satp()
    }

    /// The scheduling state.
    pub fn get_state(&self) -> (r: &TaskState)
        ensures
            *r == self.task_state,
    {
        &self.task_state
    }

    /// Moves the task to a new scheduling state.
    pub fn set_state(&mut self, state: TaskState)
        ensures
            *final(self) == (Task { task_state: state, ..*old(self) }),
    {
        self.task_state = state;
    }

    /// Releases everything the task owns: its stack and context pages go
    /// back to the page allocator and its id back to the id bitmap.
    pub fn destroy(self, pa: &mut PageAllocator, ids: &mut TaskIdAllocator)
        requires
            old(pa).wf(),
            self.id.0 < 64,
            !id_free(old(ids).task_id_map, self.id.0 as u64),
        ensures
            final(pa).wf(),
            final(pa).base == old(pa).base,
            final(pa).pages@.len() == old(pa).pages@.len(),
            final(ids).task_id_map == old(ids).task_id_map | (1u64 << (self.id.0 as u64)),
            id_free(final(ids).task_id_map, self.id.0 as u64),
    {
        pa.free(self.kstack);
        pa.free(self.context_page);
        if self.ustack != 0 {
            pa.free(self.ustack);
        }
        ids.free_task_id(self.id);
    }
}

/// One page maps exactly one page.
pub open spec fn page_count_is_one() -> bool {
    crate::mm::mapping::page_count(PAGE_SIZE) == 1
}

/// Ids are unique among live tasks: an id handed out by `alloc_task_id`
/// cannot be handed out again before it is freed. Stated over the bitmap:
/// the first allocation clears the bit of the id it returns, so a second
/// allocation, which only returns free ids, returns a different id.
pub proof fn lemma_task_ids_unique(map0: u64, id1: u64, map1: u64, id2: u64)
    requires
        id1 < 64,
        id_free(map0, id1),
        map1 == map0 & !(1u64 << id1),
        id2 < 64,
        id_free(map1, id2),
    ensures
        id2 != id1,
{
    assert(((map0 & !(1u64 << id1)) >> id1) & 1 != 1) by (bit_vector)
        requires
            id1 < 64,
    ;
}

/// Freeing an id and allocating again may hand the same id back: after
/// `free_task_id(id)` the bit of `id` is set again, so `id` is once more
/// a candidate, and it is the one returned whenever no smaller id is free.
pub proof fn lemma_task_id_reuse(map0: u64, id: u64, map1: u64)
    requires
        id < 64,
        map1 == map0 | (1u64 << id),
    ensures
        id_free(map1, id),
{
    assert(((map0 | (1u64 << id)) >> id) & 1 == 1) by (bit_vector)
        requires
            id < 64,
    ;
}


/// Allocates one page, which the caller's free-page budget guarantees to
/// succeed, and returns its (page-aligned) physical address.
fn alloc_one_page(pa: &mut PageAllocator, Ghost(n): Ghost<int>) -> (addr: u64)
    requires
        old(pa).wf(),
        free_from(*old(pa), 0, n),
        n >= 1,
        old(pa).base + old(pa).pages@.len() * 4096 <= 0x100_0000_0000_0000 - 0x10000,
    ensures
        final(pa).wf(),
        final(pa).base == old(pa).base,
        final(pa).pages@.len() == old(pa).pages@.len(),
        single_page_step(*old(pa), *final(pa)),
        free_from(*final(pa), 0, n - 1),
        addr & 0xfff == 0,
        0 < addr,
        addr <= 0x100_0000_0000_0000 - 0x10000,
        addr + 4096 <= u64::MAX,
{
    proof {
        lemma_free_page_fits(*pa, 0, n);
    }
    let r = pa.alloc_pages(0);
    match r {
        Some(a) => {
            proof {
                let i = choose|i: int|
                    #[trigger] old(pa).first_fit_at(i, 0) && a == old(pa).base + i * 4096
                        && pa.pages@ == old(pa).marked(i, 0);
                assert(single_page_step(*old(pa), *pa));
                lemma_step_keeps_free(*old(pa), *pa, n);
                assert(i + crate::mm::page::pages_of(0) <= old(pa).pages@.len());
                assert(crate::mm::page::pages_of(0) == 1) by {
                    assert(1u64 << 0usize == 1) by (bit_vector);
                }
                assert(a <= old(pa).base + (old(pa).pages@.len() - 1) * 4096);
                assert((a as int) % 4096 == 0) by {
                    assert((old(pa).base as int) % 4096 == 0);
                }
                assert(a % 4096 == 0 ==> a & 0xfff == 0) by (bit_vector);
            }
            a
        },
        None => {
            proof {
                assert(false);
            }
            0
        },
    }
}

/// An all-zero trap frame.
fn zero_frame() -> (r: TrapFrame)
    ensures
        r.epc == 0,
{
    TrapFrame { regs: [0u64; 32], kernel_satp: 0, kernel_trap: 0, kernel_sp: 0, epc: 0 }
}

/// The four allocations of `Task::new` consume at most four pages of any
/// free chain; a kernel task skips two of them.
proof fn lemma_new_free_chain(
    pa0: PageAllocator,
    pa1: PageAllocator,
    pa2: PageAllocator,
    pa3: PageAllocator,
    pa4: PageAllocator,
    m: int,
)
    requires
        single_page_step(pa0, pa1),
        pa2 == pa1 || single_page_step(pa1, pa2),
        single_page_step(pa2, pa3),
        pa4 == pa3 || single_page_step(pa3, pa4),
        free_from(pa0, 0, m),
    ensures
        free_from(pa4, 0, m - 4),
{
    lemma_step_keeps_free(pa0, pa1, m);
    if pa2 == pa1 {
        lemma_free_from_mono(pa1, 0, m - 1, m - 2);
    } else {
        lemma_step_keeps_free(pa1, pa2, m - 1);
    }
    lemma_step_keeps_free(pa2, pa3, m - 2);
    if pa4 == pa3 {
        lemma_free_from_mono(pa3, 0, m - 3, m - 4);
    } else {
        lemma_step_keeps_free(pa3, pa4, m - 3);
    }
}

} // verus!
