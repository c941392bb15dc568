//! Process management syscalls: exit, yield, time, trace, mmap, munmap and sbrk, each on
//! the task manager that the kernel hands in.
use vstd::prelude::*;
use crate::config::PAGE_SIZE;
use crate::mm::{
    MapPermission, VirtAddr, PageView, floor_page, ceil_page, sv39, VA_LIMIT, VPN_LIMIT, range_free,
    range_full, with_range, without_range, byte_at, bytes_stored, flags_of,
};
use crate::laws::{
    lemma_mmap_maps_requested_pages, lemma_munmap_unmaps_requested_pages,
    lemma_heap_growth_is_usable, lemma_trace_write_changes_one_byte, lemma_timeval_layout,
};
use crate::mm::PTEFlags;
use crate::task::{
    TaskManager, TaskControlBlock, TaskStatus, change_program_brk, current_task_mmap,
    current_task_munmap, exit_current_and_run_next, get_syscall_info, read_buffer_from_va,
    suspend_current_and_run_next, write_buffer_to_va, brk_change_safe, heap_resized,
    readable_at, writable_at, read_in_mapped_pages, write_in_mapped_pages, switched_away,
    syscall_info_result, next_ready, with_status,
};

verus! {

/// Seconds and microseconds, laid out as the user program reads them: two machine words.
#[derive(Debug)]
pub struct TimeVal {
    pub sec: usize,
    pub usec: usize,
}

/// The `k` low bytes of `v`, least significant first.
pub open spec fn le_bytes(v: nat, k: nat) -> Seq<u8>
    decreases k,
{
    if k == 0 {
        Seq::empty()
    } else {
        seq![(v % 256) as u8] + le_bytes(v / 256, (k - 1) as nat)
    }
}

/// The 16 bytes of a `TimeVal` on the 64-bit target: each field as 8 little-endian bytes.
pub open spec fn timeval_bytes(sec: usize, usec: usize) -> Seq<u8> {
    le_bytes(sec as nat, 8) + le_bytes(usec as nat, 8)
}

/// Number of bytes of a `TimeVal` on the 64-bit target.
pub const TIMEVAL_SIZE: usize = 16;

/// The 8 little-endian bytes of `v`.
fn word_bytes(v: usize, out: &mut Vec<u8>)
    ensures
        final(out)@ == old(out)@ + le_bytes(v as nat, 8),
{
    let mut x = v;
    let mut i: usize = 0;
    while i < 8
        invariant
            i <= 8,
            out@ + le_bytes(x as nat, (8 - i) as nat) == old(out)@ + le_bytes(v as nat, 8),
        decreases 8 - i,
    {
        let ghost before = out@;
        out.push((x % 256) as u8);
        proof {
            assert(le_bytes(x as nat, (8 - i) as nat) == seq![(x % 256) as u8] + le_bytes(
                (x / 256) as nat,
                (8 - i - 1) as nat,
            ));
            assert(out@ + le_bytes((x / 256) as nat, (8 - i - 1) as nat) =~= before + le_bytes(
                x as nat,
                (8 - i) as nat,
            ));
        }
        x = x / 256;
        i = i + 1;
    }
    assert(le_bytes(x as nat, 0) =~= Seq::<u8>::empty());
    assert(out@ =~= out@ + le_bytes(x as nat, 0));
}

impl TimeVal {
    /// The time `us` microseconds after boot.
    pub fn from_us(us: usize) -> (r: TimeVal)
        ensures
            r.sec == us / 1_000_000,
            r.usec == us % 1_000_000,
            r.sec * 1_000_000 + r.usec == us,
            r.usec < 1_000_000,
    {
        TimeVal { sec: us / 1_000_000, usec: us % 1_000_000 }
    }

    /// The bytes of this value as the user program reads them.
    pub fn to_bytes(&self) -> (r: Vec<u8>)
        ensures
            r@ == timeval_bytes(self.sec, self.usec),
            r@.len() == TIMEVAL_SIZE,
    {
        let mut out: Vec<u8> = Vec::new();
        word_bytes(self.sec, &mut out);
        word_bytes(self.usec, &mut out);
        proof {
            lemma_le_bytes_len(self.sec as nat, 8);
            lemma_le_bytes_len(self.usec as nat, 8);
        }
        out
    }
}

/// Law: the time written is monotonic: for a later clock value the (seconds,
/// microseconds) pair is not smaller in lexicographic order.
pub proof fn lemma_time_monotonic(us1: usize, us2: usize)
    requires
        us1 <= us2,
    ensures
        us1 / 1_000_000 < us2 / 1_000_000 || (us1 / 1_000_000 == us2 / 1_000_000 && us1
            % 1_000_000 <= us2 % 1_000_000),
{
    vstd::arithmetic::div_mod::lemma_div_is_ordered(us1 as int, us2 as int, 1_000_000);
    vstd::arithmetic::div_mod::lemma_fundamental_div_mod(us1 as int, 1_000_000);
    vstd::arithmetic::div_mod::lemma_fundamental_div_mod(us2 as int, 1_000_000);
}

/// `le_bytes(v, k)` has `k` bytes.
proof fn lemma_le_bytes_len(v: nat, k: nat)
    ensures
        le_bytes(v, k).len() == k,
    decreases k,
{
    if k > 0 {
        lemma_le_bytes_len(v / 256, (k - 1) as nat);
    }
}

/// Byte `i` of `le_bytes(v, k)` is digit `i` of `v` in base 256.
pub proof fn lemma_le_bytes_digits(v: nat, k: nat)
    ensures
        le_bytes(v, k).len() == k,
        forall|i: int|
            0 <= i < k ==> #[trigger] le_bytes(v, k)[i] == (v / vstd::arithmetic::power::pow(
                256,
                i as nat,
            ) as nat) % 256,
    decreases k,
{
    lemma_le_bytes_len(v, k);
    if k > 0 {
        lemma_le_bytes_digits(v / 256, (k - 1) as nat);
        assert forall|i: int| 0 <= i < k implies #[trigger] le_bytes(v, k)[i] == (v
            / vstd::arithmetic::power::pow(256, i as nat) as nat) % 256 by {
            reveal(vstd::arithmetic::power::pow);
            let rest = le_bytes(v / 256, (k - 1) as nat);
            assert(le_bytes(v, k) == seq![(v % 256) as u8] + rest);
            if i == 0 {
                assert(vstd::arithmetic::power::pow(256, 0) == 1);
                assert(le_bytes(v, k)[0] == (v % 256) as u8);
                assert(v / 1 == v);
            } else {
                assert(le_bytes(v, k)[i] == rest[i - 1]);
                let p = vstd::arithmetic::power::pow(256, (i - 1) as nat);
                vstd::arithmetic::power::lemma_pow_positive(256, (i - 1) as nat);
                assert(vstd::arithmetic::power::pow(256, i as nat) == 256 * p);
                assert(rest[i - 1] == ((v / 256) / (p as nat)) % 256);
                vstd::arithmetic::div_mod::lemma_div_denominator(v as int, 256, p);
                assert(((v / 256) / (p as nat)) == v / ((256 * p) as nat));
            }
        }
    }
}

/// The memory of the current task.
pub open spec fn current_memory(tm: TaskManager) -> Map<usize, PageView> {
    tm.tasks_view()[tm.current()].memory_set@
}

/// `new` is `old` with only the current task's address space changed, to `m` (its token
/// kept).
pub open spec fn only_memory_changed(old: TaskManager, new: TaskManager, m: Map<usize, PageView>) -> bool {
    let cur = old.current();
    let t = old.tasks_view()[cur];
    &&& new.current() == cur
    &&& new.counts() == old.counts()
    &&& new.tasks_view() == old.tasks_view().update(
        cur,
        TaskControlBlock { memory_set: new.tasks_view()[cur].memory_set, ..t },
    )
    &&& new.tasks_view()[cur].memory_set.spec_token() == t.memory_set.spec_token()
    &&& new.tasks_view()[cur].memory_set@ == m
}

/// The current task exits and the next ready task runs; some other task must be ready
/// (when none is, every application has completed and the kernel stops). The result is
/// the pair of tasks to switch between.
pub fn sys_exit(tm: &mut TaskManager, _exit_code: i32) -> (r: (usize, usize))
    requires
        old(tm).wf(),
        old(tm).tasks_view().len() > 0,
        next_ready(
            with_status(old(tm).tasks_view(), old(tm).current(), TaskStatus::Exited),
            old(tm).current(),
        ) is Some,
    ensures
        final(tm).wf(),
        switched_away(*old(tm), *final(tm), TaskStatus::Exited, r),
{
    exit_current_and_run_next(tm)
}

/// The current task gives up the processor: it is suspended and the next ready task runs.
/// The result is 0 and the pair of tasks to switch between.
pub fn sys_yield(tm: &mut TaskManager) -> (r: (isize, (usize, usize)))
    requires
        old(tm).wf(),
        old(tm).tasks_view().len() > 0,
    ensures
        final(tm).wf(),
        r.0 == 0,
        switched_away(*old(tm), *final(tm), TaskStatus::Ready, r.1),
{
    let s = suspend_current_and_run_next(tm);
    (0, s)
}

/// Writes the time `us` microseconds after boot, as a `TimeVal`, to user address `ts` of
/// the current task: 0, or -1 when the page of `ts` is not mapped writable.
pub fn sys_get_time(tm: &mut TaskManager, ts: usize, _tz: usize, us: usize) -> (r: isize)
    requires
        old(tm).wf(),
        old(tm).tasks_view().len() > 0,
        write_in_mapped_pages(current_memory(*old(tm)), ts, TIMEVAL_SIZE),
    ensures
        final(tm).wf(),
        final(tm).tasks_view().len() == old(tm).tasks_view().len(),
        if writable_at(current_memory(*old(tm)), ts as int) {
            &&& r == 0
            &&& only_memory_changed(*old(tm), *final(tm), current_memory(*final(tm)))
            &&& bytes_stored(
                current_memory(*old(tm)),
                current_memory(*final(tm)),
                ts as int,
                timeval_bytes(us / 1_000_000, us % 1_000_000),
            )
        } else {
            r == -1 && *final(tm) == *old(tm)
        },
        writable_at(current_memory(*old(tm)), ts as int) ==> forall|i: int|
            0 <= i < 8 ==> #[trigger] byte_at(current_memory(*final(tm)), ts + i) == (us
                / 1_000_000) as nat / vstd::arithmetic::power::pow(256, i as nat) as nat % 256
                && byte_at(current_memory(*final(tm)), ts + 8 + i) == (us % 1_000_000) as nat
                / vstd::arithmetic::power::pow(256, i as nat) as nat % 256,
{
    proof {
        tm.lemma_wf_facts();
    }
    let k_time = TimeVal::from_us(us);
    let buffer = k_time.to_bytes();
    let ok = write_buffer_to_va(tm, ts, TIMEVAL_SIZE, buffer.as_slice());
    proof {
        assert(buffer@.take(TIMEVAL_SIZE as int) =~= buffer@);
        lemma_timeval_layout(us / 1_000_000, us % 1_000_000);
        if writable_at(current_memory(*old(tm)), ts as int) {
            assert forall|i: int| 0 <= i < 8 implies #[trigger] byte_at(
                current_memory(*tm),
                ts + i,
            ) == (us / 1_000_000) as nat / vstd::arithmetic::power::pow(256, i as nat) as nat % 256
                && byte_at(current_memory(*tm), ts + 8 + i) == (us % 1_000_000) as nat
                / vstd::arithmetic::power::pow(256, i as nat) as nat % 256 by {
                assert(byte_at(current_memory(*tm), ts + i) == buffer@[i]);
                assert(byte_at(current_memory(*tm), ts + (8 + i)) == buffer@[8 + i]);
                assert(ts + (8 + i) == ts + 8 + i);
            }
        }
    }
    if ok {
        0
    } else {
        -1
    }
}

/// Number of bytes that a trace read takes from user memory: one machine word.
pub const TRACE_READ_LEN: usize = 8;

/// What `sys_trace` does, given the counters `row` and the memory `m` of the current
/// task: its result, and the bytes it stores at `id` (if any).
pub open spec fn trace_outcome(
    row: Seq<usize>,
    m: Map<usize, PageView>,
    trace_request: usize,
    id: usize,
    data: usize,
) -> (isize, Option<Seq<u8>>) {
    if trace_request == 2 {
        (syscall_info_result(row, id), None)
    } else if !readable_at(m, id as int) {
        (-1isize, None)
    } else if trace_request == 0 {
        (byte_at(m, id as int) as isize, None)
    } else if trace_request == 1 {
        if writable_at(m, id as int) {
            (0, Some(seq![data as u8]))
        } else {
            (-1isize, None)
        }
    } else {
        (-1isize, None)
    }
}

/// Request 0 reads the byte at user address `id`, request 1 writes the low byte of `data`
/// there, request 2 answers how often the current task made syscall `id`. Requests 0 and
/// 1 first read a machine word at `id`, and fail (-1) when `id` is not legal or its page
/// is not mapped readable; request 1 also fails when the page is not writable. Any other
/// request fails.
pub fn sys_trace(tm: &mut TaskManager, trace_request: usize, id: usize, data: usize) -> (r: isize)
    requires
        old(tm).wf(),
        old(tm).tasks_view().len() > 0,
        trace_request != 2 ==> read_in_mapped_pages(current_memory(*old(tm)), id, TRACE_READ_LEN),
    ensures
        final(tm).wf(),
        final(tm).tasks_view().len() == old(tm).tasks_view().len(),
        ({
            let out = trace_outcome(
                old(tm).counts()[old(tm).current()],
                current_memory(*old(tm)),
                trace_request,
                id,
                data,
            );
            &&& r == out.0
            &&& match out.1 {
                Some(bytes) => {
                    &&& only_memory_changed(*old(tm), *final(tm), current_memory(*final(tm)))
                    &&& bytes_stored(current_memory(*old(tm)), current_memory(*final(tm)), id as int, bytes)
                },
                None => *final(tm) == *old(tm),
            }
        }),
        trace_request == 1 && r == 0 ==> {
            &&& byte_at(current_memory(*final(tm)), id as int) == data as u8
            &&& forall|a: int|
                0 <= a <= usize::MAX && a != id && current_memory(*old(tm)).contains_key(
                    floor_page(a) as usize,
                ) ==> #[trigger] byte_at(current_memory(*final(tm)), a) == byte_at(
                    current_memory(*old(tm)),
                    a,
                )
        },
{
    proof {
        tm.lemma_wf_facts();
    }
    if trace_request == 2 {
        return get_syscall_info(tm, id);
    }
    let mut read_buffer: Vec<u8> = Vec::new();
    let mut i: usize = 0;
    while i < TRACE_READ_LEN
        invariant
            i <= TRACE_READ_LEN,
            read_buffer@.len() == i,
        decreases TRACE_READ_LEN - i,
    {
        read_buffer.push(0u8);
        i = i + 1;
    }
    let ghost before = read_buffer@;
    if !read_buffer_from_va(tm, id, TRACE_READ_LEN, &mut read_buffer) {
        return -1;
    }
    proof {
        assert(read_buffer@[0] == byte_at(current_memory(*old(tm)), id as int + 0));
    }
    match trace_request {
        0 => {
            return read_buffer[0] as isize;
        },
        1 => {
            let writer_buffer: Vec<u8> = vec![data as u8];
            proof {
                assert(id < VA_LIMIT);
                assert(floor_page(id as int) == floor_page(sv39(id as int)));
            }
            if !write_buffer_to_va(tm, id, writer_buffer.len(), writer_buffer.as_slice()) {
                return -1;
            }
            proof {
                assert(writer_buffer@.take(1) =~= seq![data as u8]);
                lemma_trace_write_changes_one_byte(
                    old(tm).counts()[old(tm).current()],
                    current_memory(*old(tm)),
                    current_memory(*tm),
                    id,
                    data,
                );
            }
            return 0;
        },
        _ => return -1,
    }
}

/// The permission that the bits of `port` ask for: bit 0 readable, bit 1 writable, bit 2
/// executable; always accessible to the user.
pub open spec fn port_permission(port: usize) -> MapPermission {
    MapPermission {
        readable: port & 1 != 0,
        writable: port & 2 != 0,
        executable: port & 4 != 0,
        user: true,
    }
}

/// The arguments of `mmap` that are refused before the address space is looked at: a
/// start that is not page-aligned, bits of `port` other than the low three, or no bit.
pub open spec fn mmap_args_bad(start: usize, port: usize) -> bool {
    start % PAGE_SIZE != 0 || port & !0x7usize != 0 || port & 0x7usize == 0
}

/// The pages `sys_mmap(start, len, ..)` and `sys_munmap(start, len)` cover: from the page
/// of `start` up to the first page at or above `start + len`, addresses taken modulo the
/// SV39 space.
pub open spec fn user_page_range(start: usize, len: usize) -> (int, int) {
    (floor_page(sv39(start as int)), ceil_page(sv39(start + len)))
}

/// Maps `[start, start + len)`, rounded out to pages, in the current task with the
/// permission of `port`: 0, or -1 when the arguments are bad or one of the pages is
/// already mapped; on -1 nothing changes. Bad arguments are refused before `start + len`
/// is computed or the current task is looked at.
pub fn sys_mmap(tm: &mut TaskManager, start: usize, len: usize, port: usize) -> (r: isize)
    requires
        old(tm).wf(),
        !mmap_args_bad(start, port) ==> old(tm).tasks_view().len() > 0 && start + len
            <= usize::MAX,
    ensures
        final(tm).wf(),
        final(tm).tasks_view().len() == old(tm).tasks_view().len(),
        ({
            let (lo, hi) = user_page_range(start, len);
            let m = current_memory(*old(tm));
            if !mmap_args_bad(start, port) && lo <= hi && range_free(m, lo, hi) {
                r == 0 && only_memory_changed(
                    *old(tm),
                    *final(tm),
                    with_range(m, lo, hi, flags_of(port_permission(port))),
                )
            } else {
                r == -1 && final(tm).current() == old(tm).current() && final(tm).counts()
                    == old(tm).counts() && final(tm).tasks_view() == old(tm).tasks_view()
            }
        }),
        r == 0 ==> forall|a: int|
            sv39(start as int) <= a < sv39(start + len) ==> {
                &&& current_memory(*final(tm)).contains_key(#[trigger] floor_page(a) as usize)
                &&& current_memory(*final(tm))[floor_page(a) as usize].0 == PTEFlags {
                    valid: true,
                    readable: port & 1 != 0,
                    writable: port & 2 != 0,
                    executable: port & 4 != 0,
                    user: true,
                }
            },
{
    proof {
        tm.lemma_wf_facts();
    }
    if start % PAGE_SIZE != 0 {
        return -1;
    }
    if port & !0x7 != 0 {
        return -1;
    }
    if port & 0x7 == 0 {
        return -1;
    }
    let start_va = VirtAddr::from_usize(start);
    proof {
        vstd::arithmetic::div_mod::lemma_mod_mod(start as int, PAGE_SIZE as int, 0x800_0000);
    }
    if !start_va.aligned() {
        return -1;
    }
    let end_va = VirtAddr::from_usize(start + len);
    let mut map_permission = MapPermission::user_only();
    if port & 0x1 != 0 {
        map_permission.readable = true;
    }
    if port & 0x2 != 0 {
        map_permission.writable = true;
    }
    if port & 0x4 != 0 {
        map_permission.executable = true;
    }
    proof {
        assert(map_permission == port_permission(port));
        assert(end_va.0 < VA_LIMIT);
        assert(ceil_page(end_va.0 as int) <= VPN_LIMIT);
    }
    let r = current_task_mmap(tm, start_va, end_va, map_permission);
    proof {
        lemma_mmap_maps_requested_pages(current_memory(*old(tm)), start, len, port);
    }
    r
}

/// Unmaps `[start, start + len)`, rounded out to pages, in the current task: 0, or -1
/// when `start` is not page-aligned or one of the pages is not mapped; on -1 nothing
/// changes.
pub fn sys_munmap(tm: &mut TaskManager, start: usize, len: usize) -> (r: isize)
    requires
        old(tm).wf(),
        old(tm).tasks_view().len() > 0,
        start + len <= usize::MAX,
    ensures
        final(tm).wf(),
        final(tm).tasks_view().len() == old(tm).tasks_view().len(),
        ({
            let (lo, hi) = user_page_range(start, len);
            let m = current_memory(*old(tm));
            if start % PAGE_SIZE == 0 && range_full(m, lo, hi) {
                r == 0 && only_memory_changed(*old(tm), *final(tm), without_range(m, lo, hi))
            } else {
                r == -1 && final(tm).current() == old(tm).current() && final(tm).counts()
                    == old(tm).counts() && final(tm).tasks_view() == old(tm).tasks_view()
            }
        }),
        r == 0 ==> forall|a: int|
            sv39(start as int) <= a < sv39(start + len) ==> !current_memory(
                *final(tm),
            ).contains_key(#[trigger] floor_page(a) as usize),
{
    proof {
        tm.lemma_wf_facts();
    }
    let start_va = VirtAddr::from_usize(start);
    let end_va = VirtAddr::from_usize(start + len);
    proof {
        vstd::arithmetic::div_mod::lemma_mod_mod(start as int, PAGE_SIZE as int, 0x800_0000);
    }
    if !start_va.aligned() {
        return -1;
    }
    let r = current_task_munmap(tm, start_va, end_va);
    proof {
        if start % PAGE_SIZE == 0 {
            lemma_munmap_unmaps_requested_pages(current_memory(*old(tm)), start, len);
        }
    }
    r
}

/// Moves the end of the current task's heap by `size` bytes: the previous end, or -1 when
/// the heap would end below its bottom.
pub fn sys_sbrk(tm: &mut TaskManager, size: i32) -> (r: isize)
    requires
        old(tm).wf(),
        old(tm).tasks_view().len() > 0,
        brk_change_safe(old(tm).tasks_view()[old(tm).current()], size),
    ensures
        final(tm).wf(),
        final(tm).tasks_view().len() == old(tm).tasks_view().len(),
        final(tm).current() == old(tm).current(),
        final(tm).counts() == old(tm).counts(),
        ({
            let cur = old(tm).current();
            let t = old(tm).tasks_view()[cur];
            let new_brk = t.program_brk + size;
            if new_brk < t.heap_bottom {
                r == -1 && final(tm).tasks_view() == old(tm).tasks_view()
            } else {
                &&& r == t.program_brk as isize
                &&& final(tm).tasks_view() == old(tm).tasks_view().update(
                    cur,
                    TaskControlBlock {
                        program_brk: new_brk as usize,
                        memory_set: final(tm).tasks_view()[cur].memory_set,
                        ..t
                    },
                )
                &&& final(tm).tasks_view()[cur].memory_set@ == heap_resized(
                    t.memory_set@,
                    t.program_brk as int,
                    new_brk,
                )
                &&& final(tm).tasks_view()[cur].memory_set.spec_token() == t.memory_set.spec_token()
            }
        }),
        ({
            let t = old(tm).tasks_view()[old(tm).current()];
            let new_brk = t.program_brk + size;
            size > 0 && new_brk >= t.heap_bottom ==> forall|a: int|
                t.program_brk <= a < new_brk && #[trigger] floor_page(a) >= ceil_page(
                    t.program_brk as int,
                ) ==> readable_at(current_memory(*final(tm)), a) && writable_at(
                    current_memory(*final(tm)),
                    a,
                )
        }),
{
    proof {
        tm.lemma_wf_facts();
    }
    let ghost t = old(tm).tasks_view()[old(tm).current()];
    let r = change_program_brk(tm, size);
    proof {
        if size > 0 && t.program_brk + size >= t.heap_bottom {
            lemma_heap_growth_is_usable(t.memory_set@, t.program_brk as int, t.program_brk + size);
        }
    }
    if let Some(old_brk) = r {
        old_brk as isize
    } else {
        -1
    }
}

} // verus!
