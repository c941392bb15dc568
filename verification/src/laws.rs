//! Properties that relate several operations: what one call undoes of another, what a
//! read gives back of a write.
use vstd::prelude::*;
use crate::config::{MAX_SYSCALL, PAGE_SIZE};
use crate::mm::{
    PageView, PTEFlags, ceil_page, floor_page, range_free, range_full, with_range,
    without_range, byte_at, bytes_stored, sv39, flags_of, VA_LIMIT, VPN_LIMIT,
};
use crate::syscall::process::{
    user_page_range, mmap_args_bad, port_permission, trace_outcome, timeval_bytes,
};
use crate::task::{TaskStatus, with_status};
use crate::task::{
    TaskControlBlock, brk_change_safe, heap_resized, counted, syscall_info_result, count_fits, readable_at, writable_at, loaded, min_len,
};

verus! {

/// Law: unmapping the pages that a mapping of free pages added gives back the address
/// space it started from, and that unmapping succeeds (all those pages are mapped).
pub proof fn lemma_unmap_undoes_map(m: Map<usize, PageView>, lo: int, hi: int, flags: PTEFlags)
    requires
        range_free(m, lo, hi),
    ensures
        range_full(with_range(m, lo, hi, flags), lo, hi),
        without_range(with_range(m, lo, hi, flags), lo, hi) == m,
{
    assert(without_range(with_range(m, lo, hi, flags), lo, hi) =~= m);
}

/// Law: mapping a non-empty range twice fails the second time: after the first mapping
/// none of its pages is free.
pub proof fn lemma_map_twice_fails(m: Map<usize, PageView>, lo: int, hi: int, flags: PTEFlags)
    requires
        0 <= lo < hi <= usize::MAX + 1,
    ensures
        !range_free(with_range(m, lo, hi, flags), lo, hi),
{
    assert(with_range(m, lo, hi, flags).contains_key(lo as usize));
}

/// Law: after unmapping a non-empty range, unmapping it again fails: none of its pages
/// is mapped.
pub proof fn lemma_unmap_twice_fails(m: Map<usize, PageView>, lo: int, hi: int)
    requires
        0 <= lo < hi <= usize::MAX + 1,
    ensures
        !range_full(without_range(m, lo, hi), lo, hi),
{
    assert(!without_range(m, lo, hi).contains_key(lo as usize));
}

/// Law: growing the heap by `n` bytes and shrinking it back by `n` gives back the
/// address space (the pages gained were free, so the growth succeeded and the shrink
/// can unmap them).
pub proof fn lemma_heap_shrink_undoes_grow(m: Map<usize, PageView>, brk: int, n: int)
    requires
        n > 0,
        range_free(m, ceil_page(brk), ceil_page(brk + n)),
    ensures
        range_full(heap_resized(m, brk, brk + n), ceil_page(brk + n - n), ceil_page(brk + n)),
        heap_resized(heap_resized(m, brk, brk + n), brk + n, brk) == m,
{
    assert(heap_resized(heap_resized(m, brk, brk + n), brk + n, brk) =~= m);
}

/// Law: a byte stored at a user address reads back from there, and the store leaves
/// every page's flags, so whether the address is readable or writable, unchanged.
pub proof fn lemma_read_after_write(
    old: Map<usize, PageView>,
    new: Map<usize, PageView>,
    va: int,
    b: u8,
)
    requires
        0 <= va,
        old.contains_key(floor_page(va) as usize),
        floor_page(va) <= usize::MAX,
        bytes_stored(old, new, va, seq![b]),
    ensures
        byte_at(new, va) == b,
        readable_at(new, va) == readable_at(old, va),
        writable_at(new, va) == writable_at(old, va),
{
    let vpn = floor_page(va) as usize;
    let off = va % (PAGE_SIZE as int);
    assert(vpn * PAGE_SIZE + off == va);
    assert(new.contains_key(vpn));
    assert(new[vpn].1[off] == seq![b][0]);
    assert(new.dom() == old.dom());
    assert forall|v: usize| new.contains_key(v) implies new[v].0 == old[v].0 by {}
}

/// Law: after a syscall is counted, asking for its count answers one more than before.
pub proof fn lemma_count_then_info(counts: Seq<Seq<usize>>, cur: int, syscall_id: usize)
    requires
        0 <= cur < counts.len(),
        counts[cur].len() == MAX_SYSCALL,
        syscall_id < MAX_SYSCALL,
        count_fits(counts[cur], syscall_id),
        counts[cur][syscall_id as int] < isize::MAX,
    ensures
        syscall_info_result(counted(counts, cur, syscall_id)[cur], syscall_id)
            == syscall_info_result(counts[cur], syscall_id) + 1,
{
}

/// Law: `sbrk(0)` can always be made and changes nothing: it only answers the current
/// break. So after a call that moved the break by `size` and answered `b`, `sbrk(0)`
/// answers `b + size`.
pub proof fn lemma_sbrk_zero_only_answers(t: TaskControlBlock)
    requires
        t.wf(),
    ensures
        brk_change_safe(t, 0),
        heap_resized(t.memory_set@, t.program_brk as int, t.program_brk as int) == t.memory_set@,
{
    assert(heap_resized(t.memory_set@, t.program_brk as int, t.program_brk as int)
        =~= t.memory_set@);
}

/// The counters after the syscalls `calls` were counted, one after the other, starting
/// from `init`; each call is (current task, syscall id).
pub open spec fn counts_after(init: Seq<Seq<usize>>, calls: Seq<(int, usize)>) -> Seq<Seq<usize>>
    decreases calls.len(),
{
    if calls.len() == 0 {
        init
    } else {
        counted(counts_after(init, calls.drop_last()), calls.last().0, calls.last().1)
    }
}

/// How many of `calls` were syscall `id` made while task `task` was current.
pub open spec fn times_called(calls: Seq<(int, usize)>, task: int, id: usize) -> nat
    decreases calls.len(),
{
    if calls.len() == 0 {
        0
    } else {
        times_called(calls.drop_last(), task, id) + if calls.last() == (task, id) {
            1nat
        } else {
            0nat
        }
    }
}

/// `counts` has a row of `MAX_SYSCALL` counters for each of `n` tasks.
pub open spec fn counter_shape(counts: Seq<Seq<usize>>, n: int) -> bool {
    &&& counts.len() == n
    &&& forall|t: int| 0 <= t < n ==> (#[trigger] counts[t]).len() == MAX_SYSCALL
}

/// Law: starting from counters that are all zero (as a new task manager's are), after a
/// sequence of counted syscalls each counter of task `t` for id `id` is the number of
/// those syscalls that were `id` made while `t` was current; syscalls made while other
/// tasks were current do not change it.
pub proof fn lemma_counter_counts_calls(init: Seq<Seq<usize>>, n: int, calls: Seq<(int, usize)>)
    requires
        counter_shape(init, n),
        forall|t: int, id: int| 0 <= t < n && 0 <= id < MAX_SYSCALL ==> #[trigger] init[t][id] == 0,
        forall|k: int| 0 <= k < calls.len() ==> 0 <= (#[trigger] calls[k]).0 < n,
        calls.len() < usize::MAX,
    ensures
        counter_shape(counts_after(init, calls), n),
        forall|t: int, id: usize|
            0 <= t < n && id < MAX_SYSCALL ==> #[trigger] counts_after(init, calls)[t][id as int]
                == times_called(calls, t, id),
    decreases calls.len(),
{
    if calls.len() > 0 {
        let prev = calls.drop_last();
        assert forall|k: int| 0 <= k < prev.len() implies 0 <= (#[trigger] prev[k]).0 < n by {
            assert(prev[k] == calls[k]);
        }
        lemma_counter_counts_calls(init, n, prev);
        lemma_times_called_bound(prev);
        let c = counts_after(init, prev);
        let last = calls.last();
        assert(0 <= last.0 < n) by {
            assert(calls[calls.len() - 1] == last);
        }
        let next = counts_after(init, calls);
        assert(next == counted(c, last.0, last.1));
        assert forall|t: int, id: usize|
            0 <= t < n && id < MAX_SYSCALL implies #[trigger] next[t][id as int]
                == times_called(calls, t, id) by {
            assert(times_called(prev, t, id) <= prev.len());
        }
    }
}

/// No id of one task is counted more often than there are calls.
proof fn lemma_times_called_bound(calls: Seq<(int, usize)>)
    ensures
        forall|t: int, id: usize| #[trigger] times_called(calls, t, id) <= calls.len(),
    decreases calls.len(),
{
    if calls.len() > 0 {
        lemma_times_called_bound(calls.drop_last());
        assert forall|t: int, id: usize| #[trigger] times_called(calls, t, id) <= calls.len() by {
            assert(times_called(calls.drop_last(), t, id) <= calls.drop_last().len());
        }
    }
}

/// Law: storing `bytes` at `va` makes each of them read back from its address, and
/// leaves every other byte of the mapped pages as it was.
pub proof fn lemma_stored_bytes_read_back(
    old: Map<usize, PageView>,
    new: Map<usize, PageView>,
    va: int,
    bytes: Seq<u8>,
)
    requires
        bytes_stored(old, new, va, bytes),
        0 <= va,
    ensures
        forall|i: int|
            0 <= i < bytes.len() && va + i <= usize::MAX && old.contains_key(
                floor_page(va + i) as usize,
            ) ==> #[trigger] byte_at(new, va + i) == bytes[i],
        forall|a: int|
            0 <= a <= usize::MAX && !(va <= a < va + bytes.len()) && old.contains_key(
                floor_page(a) as usize,
            ) ==> #[trigger] byte_at(new, a) == byte_at(old, a),
{
    assert forall|i: int|
        0 <= i < bytes.len() && va + i <= usize::MAX && old.contains_key(
            floor_page(va + i) as usize,
        ) implies #[trigger] byte_at(new, va + i) == bytes[i] by {
        let a = va + i;
        let vpn = floor_page(a) as usize;
        let off = a % (PAGE_SIZE as int);
        assert(vpn * PAGE_SIZE + off == a);
        assert(new.contains_key(vpn));
    }
    assert forall|a: int|
        0 <= a <= usize::MAX && !(va <= a < va + bytes.len()) && old.contains_key(
            floor_page(a) as usize,
        ) implies #[trigger] byte_at(new, a) == byte_at(old, a) by {
        let vpn = floor_page(a) as usize;
        let off = a % (PAGE_SIZE as int);
        assert(vpn * PAGE_SIZE + off == a);
        assert(new.contains_key(vpn));
    }
}

/// Law: a copy of `va_len` bytes through a buffer of `buf_len` bytes moves as many bytes
/// as the smaller of the two, so a buffer of at least `va_len` bytes moves all of them.
pub proof fn lemma_copy_length(va_len: int, buf_len: int)
    ensures
        min_len(va_len, buf_len) <= va_len,
        min_len(va_len, buf_len) <= buf_len,
        min_len(va_len, buf_len) == va_len || min_len(va_len, buf_len) == buf_len,
        buf_len >= va_len ==> min_len(va_len, buf_len) == va_len,
{
}

/// Law: a read into a buffer of at least `va_len` bytes fills its first `va_len` bytes
/// with the user bytes from `va` on, and keeps the buffer's length.
pub proof fn lemma_read_fills_buffer(buf: Seq<u8>, m: Map<usize, PageView>, va: int, va_len: int)
    requires
        0 <= va_len <= buf.len(),
    ensures
        loaded(buf, m, va, min_len(va_len, buf.len() as int)).len() == buf.len(),
        forall|i: int|
            0 <= i < va_len ==> #[trigger] loaded(buf, m, va, min_len(va_len, buf.len() as int))[i]
                == byte_at(m, va + i),
        forall|i: int|
            va_len <= i < buf.len() ==> #[trigger] loaded(buf, m, va, min_len(va_len, buf.len() as int))[i]
                == buf[i],
{
    lemma_copy_length(va_len, buf.len() as int);
}

/// Law: a write from a buffer of at least `va_len` bytes stores exactly its first
/// `va_len` bytes.
pub proof fn lemma_write_takes_buffer(wb: Seq<u8>, va_len: int)
    requires
        0 <= va_len <= wb.len(),
    ensures
        wb.take(min_len(va_len, wb.len() as int)).len() == va_len,
        forall|i: int|
            0 <= i < va_len ==> #[trigger] wb.take(min_len(va_len, wb.len() as int))[i] == wb[i],
{
    lemma_copy_length(va_len, wb.len() as int);
}

/// Law: for a page-aligned `start`, the pages that `mmap` and `munmap` cover start at the
/// page of `start` and hold every address from `start` up to `start + len` (both taken
/// modulo the SV39 space), and no page past the last of them.
pub proof fn lemma_user_page_range_covers(start: usize, len: usize)
    requires
        start % PAGE_SIZE == 0,
        start + len <= usize::MAX,
    ensures
        ({
            let (lo, hi) = user_page_range(start, len);
            &&& lo * PAGE_SIZE == sv39(start as int)
            &&& forall|a: int|
                sv39(start as int) <= a < sv39(start + len) ==> lo <= #[trigger] floor_page(a) < hi
            &&& lo < hi ==> (hi - 1) * PAGE_SIZE < sv39(start + len)
        }),
{
    vstd::arithmetic::div_mod::lemma_mod_mod(start as int, PAGE_SIZE as int, 0x800_0000);
}

/// Law: a successful `mmap` maps every page holding an address of the requested range
/// to a fresh zeroed frame that is valid and user-accessible, readable exactly when bit 0
/// of `port` is set, writable exactly when bit 1 is, executable exactly when bit 2 is;
/// every other page is left as it was.
pub proof fn lemma_mmap_maps_requested_pages(
    m: Map<usize, PageView>,
    start: usize,
    len: usize,
    port: usize,
)
    requires
        !mmap_args_bad(start, port),
        start + len <= usize::MAX,
    ensures
        ({
            let (lo, hi) = user_page_range(start, len);
            let new = with_range(m, lo, hi, flags_of(port_permission(port)));
            &&& forall|a: int|
                sv39(start as int) <= a < sv39(start + len) ==> {
                    &&& new.contains_key(#[trigger] floor_page(a) as usize)
                    &&& new[floor_page(a) as usize].0 == PTEFlags {
                        valid: true,
                        readable: port & 1 != 0,
                        writable: port & 2 != 0,
                        executable: port & 4 != 0,
                        user: true,
                    }
                    &&& byte_at(new, a) == 0
                }
            &&& forall|vpn: usize|
                !(lo <= vpn < hi) ==> (#[trigger] new.contains_key(vpn) == m.contains_key(vpn) && (
                m.contains_key(vpn) ==> new[vpn] == m[vpn]))
        }),
{
    lemma_user_page_range_covers(start, len);
    let (lo, hi) = user_page_range(start, len);
    assert(hi <= VPN_LIMIT + 1);
    assert forall|a: int| sv39(start as int) <= a < sv39(start + len) implies byte_at(
        with_range(m, lo, hi, flags_of(port_permission(port))),
        a,
    ) == 0 by {
        assert(lo <= floor_page(a) < hi);
    }
}

/// Law: a successful `munmap` unmaps every page holding an address of the requested
/// range and leaves every other page as it was.
pub proof fn lemma_munmap_unmaps_requested_pages(m: Map<usize, PageView>, start: usize, len: usize)
    requires
        start % PAGE_SIZE == 0,
        start + len <= usize::MAX,
    ensures
        ({
            let (lo, hi) = user_page_range(start, len);
            let new = without_range(m, lo, hi);
            &&& forall|a: int|
                sv39(start as int) <= a < sv39(start + len) ==> !new.contains_key(
                    #[trigger] floor_page(a) as usize,
                )
            &&& forall|vpn: usize|
                !(lo <= vpn < hi) ==> (#[trigger] new.contains_key(vpn) == m.contains_key(vpn) && (
                m.contains_key(vpn) ==> new[vpn] == m[vpn]))
        }),
{
    lemma_user_page_range_covers(start, len);
}

/// Law: when the heap grows from `old_brk` to `new_brk`, every address it gains is
/// usable: an address on a page the heap already reached keeps its page as it was, and
/// an address on a page the heap gains is on a fresh zeroed page that the kernel can
/// read and write for the user, not executable. Pages below the old end are untouched.
pub proof fn lemma_heap_growth_is_usable(m: Map<usize, PageView>, old_brk: int, new_brk: int)
    requires
        0 <= old_brk < new_brk,
        ceil_page(new_brk) <= VPN_LIMIT,
    ensures
        ({
            let h = heap_resized(m, old_brk, new_brk);
            &&& forall|a: int|
                old_brk <= a < new_brk && #[trigger] floor_page(a) >= ceil_page(old_brk) ==> {
                    &&& readable_at(h, a)
                    &&& writable_at(h, a)
                    &&& h[floor_page(a) as usize].0.user
                    &&& !h[floor_page(a) as usize].0.executable
                    &&& byte_at(h, a) == 0
                }
            &&& forall|vpn: usize|
                vpn < ceil_page(old_brk) ==> (#[trigger] h.contains_key(vpn) == m.contains_key(vpn) && (
                m.contains_key(vpn) ==> h[vpn] == m[vpn]))
        }),
{
    let h = heap_resized(m, old_brk, new_brk);
    assert forall|a: int|
        old_brk <= a < new_brk && #[trigger] floor_page(a) >= ceil_page(old_brk) implies {
            &&& readable_at(h, a)
            &&& writable_at(h, a)
            &&& h[floor_page(a) as usize].0.user
            &&& !h[floor_page(a) as usize].0.executable
            &&& byte_at(h, a) == 0
        } by {
        assert(a < VA_LIMIT);
        vstd::arithmetic::div_mod::lemma_small_mod(a as nat, VA_LIMIT as nat);
        assert(sv39(a) == a);
        assert(floor_page(a) < ceil_page(new_brk));
    }
}

/// Law: when the heap shrinks from `old_brk` to `new_brk`, every page holding only
/// addresses it loses is unmapped, and the pages below the new end are untouched.
pub proof fn lemma_heap_shrink_releases(m: Map<usize, PageView>, old_brk: int, new_brk: int)
    requires
        0 <= new_brk < old_brk <= usize::MAX,
    ensures
        ({
            let h = heap_resized(m, old_brk, new_brk);
            &&& forall|a: int|
                new_brk <= a < old_brk && #[trigger] floor_page(a) >= ceil_page(new_brk) ==> !h.contains_key(
                    floor_page(a) as usize,
                )
            &&& forall|vpn: usize|
                vpn < ceil_page(new_brk) ==> (#[trigger] h.contains_key(vpn) == m.contains_key(vpn) && (
                m.contains_key(vpn) ==> h[vpn] == m[vpn]))
        }),
{
    let h = heap_resized(m, old_brk, new_brk);
    assert forall|a: int|
        new_brk <= a < old_brk && #[trigger] floor_page(a) >= ceil_page(new_brk) implies !h.contains_key(
            floor_page(a) as usize,
        ) by {
        assert(floor_page(a) < ceil_page(old_brk));
        assert(0 <= floor_page(a) <= usize::MAX);
    }
}

/// Law: a trace write (request 1) succeeds exactly when `id` is readable and writable,
/// and then changes exactly one byte: the byte at `id` becomes the low byte of `data`,
/// every other byte and every page's flags stay as they were.
pub proof fn lemma_trace_write_changes_one_byte(
    row: Seq<usize>,
    m: Map<usize, PageView>,
    new: Map<usize, PageView>,
    id: usize,
    data: usize,
)
    requires
        trace_outcome(row, m, 1, id, data).1 matches Some(bytes) && bytes_stored(m, new, id as int, bytes),
    ensures
        trace_outcome(row, m, 1, id, data).0 == 0,
        readable_at(m, id as int) && writable_at(m, id as int),
        byte_at(new, id as int) == data as u8,
        new.dom() == m.dom(),
        forall|vpn: usize| #[trigger] new.contains_key(vpn) ==> new[vpn].0 == m[vpn].0,
        forall|a: int|
            0 <= a <= usize::MAX && a != id && m.contains_key(floor_page(a) as usize)
                ==> #[trigger] byte_at(new, a) == byte_at(m, a),
{
    let bytes = trace_outcome(row, m, 1, id, data).1->0;
    lemma_stored_bytes_read_back(m, new, id as int, bytes);
    assert(byte_at(new, id as int + 0) == bytes[0]);
    assert forall|a: int|
        0 <= a <= usize::MAX && a != id && m.contains_key(floor_page(a) as usize)
            implies #[trigger] byte_at(new, a) == byte_at(m, a) by {
        assert(!(id <= a < id + bytes.len()));
    }
}

/// Law: a trace read (request 0) of a readable address answers the byte stored there;
/// any request other than 0, 1 and 2 fails.
pub proof fn lemma_trace_read_answers_byte(
    row: Seq<usize>,
    m: Map<usize, PageView>,
    trace_request: usize,
    id: usize,
    data: usize,
)
    ensures
        trace_request == 0 && readable_at(m, id as int) ==> trace_outcome(row, m, 0, id, data).0
            == byte_at(m, id as int) as isize,
        trace_request == 0 && readable_at(m, id as int) ==> 0 <= trace_outcome(row, m, 0, id, data).0 < 256,
        trace_request != 2 && !readable_at(m, id as int) ==> trace_outcome(
            row,
            m,
            trace_request,
            id,
            data,
        ).0 == -1,
        trace_request > 2 ==> trace_outcome(row, m, trace_request, id, data).0 == -1,
        trace_request != 1 ==> trace_outcome(row, m, trace_request, id, data).1 is None,
{
}

/// Law: a page number is the number of whole pages below the address, and the first page
/// at or above an address is the page holding its last byte below it, plus one.
pub proof fn lemma_page_rounding(a: int)
    requires
        0 <= a,
    ensures
        floor_page(a) * PAGE_SIZE <= a < (floor_page(a) + 1) * PAGE_SIZE,
        a == 0 ==> ceil_page(a) == 0,
        a > 0 ==> (ceil_page(a) - 1) * PAGE_SIZE < a <= ceil_page(a) * PAGE_SIZE,
{
}

/// Law: an address keeps only its low 39 bits: addresses inside the SV39 space are
/// unchanged, and addresses that differ by the size of the space are the same.
pub proof fn lemma_sv39_wraps(v: int)
    requires
        0 <= v,
    ensures
        v < VA_LIMIT ==> sv39(v) == v,
        sv39(v + VA_LIMIT) == sv39(v),
        0 <= sv39(v) < VA_LIMIT,
{
    if v < VA_LIMIT {
        vstd::arithmetic::div_mod::lemma_small_mod(v as nat, VA_LIMIT as nat);
    }
    vstd::arithmetic::div_mod::lemma_mod_add_multiples_vanish(v, VA_LIMIT as int);
}

/// Law: `mmap` refuses a start that is not page-aligned, a `port` of 0 and a `port` above
/// 7, and accepts every page-aligned start with a `port` from 1 to 7.
pub proof fn lemma_mmap_arguments(start: usize, port: usize)
    ensures
        start % PAGE_SIZE != 0 ==> mmap_args_bad(start, port),
        port == 0 ==> mmap_args_bad(start, port),
        port > 7 ==> mmap_args_bad(start, port),
        start % PAGE_SIZE == 0 && 1 <= port <= 7 ==> !mmap_args_bad(start, port),
{
    assert(port > 7 ==> port & !0x7usize != 0) by (bit_vector);
    assert(port == 0 ==> port & 0x7usize == 0) by (bit_vector);
    assert(1 <= port <= 7 ==> port & !0x7usize == 0 && port & 0x7usize != 0) by (bit_vector);
}

/// Law: giving task `i` a status changes that status and nothing else: the other tasks,
/// the number of tasks and the rest of task `i` stay as they were.
pub proof fn lemma_with_status_changes_one_status(
    tasks: Seq<TaskControlBlock>,
    i: int,
    status: TaskStatus,
)
    requires
        0 <= i < tasks.len(),
    ensures
        with_status(tasks, i, status).len() == tasks.len(),
        with_status(tasks, i, status)[i].task_status == status,
        with_status(tasks, i, status)[i].memory_set == tasks[i].memory_set,
        with_status(tasks, i, status)[i].heap_bottom == tasks[i].heap_bottom,
        with_status(tasks, i, status)[i].program_brk == tasks[i].program_brk,
        forall|j: int| 0 <= j < tasks.len() && j != i ==> #[trigger] with_status(tasks, i, status)[j]
            == tasks[j],
{
}

/// Law: a trace request 2 answers how often the current task made syscall `id` (as
/// counted in `row`), or -1 for an id not below `MAX_SYSCALL`, and stores nothing.
pub proof fn lemma_trace_count_request(row: Seq<usize>, m: Map<usize, PageView>, id: usize, data: usize)
    ensures
        id < MAX_SYSCALL ==> trace_outcome(row, m, 2, id, data).0 == row[id as int] as isize,
        id >= MAX_SYSCALL ==> trace_outcome(row, m, 2, id, data).0 == -1,
        trace_outcome(row, m, 2, id, data).1 is None,
{
}

/// Law: the bytes written for a time are its seconds and then its microseconds, each as
/// eight bytes, least significant first.
pub proof fn lemma_timeval_layout(sec: usize, usec: usize)
    ensures
        timeval_bytes(sec, usec).len() == 16,
        forall|k: int| 0 <= k < 8 ==> #[trigger] timeval_bytes(sec, usec)[k] == (sec as nat / vstd::arithmetic::power::pow(256, k as nat) as nat) % 256,
        forall|k: int| 8 <= k < 16 ==> #[trigger] timeval_bytes(sec, usec)[k] == (usec as nat / vstd::arithmetic::power::pow(256, (k - 8) as nat) as nat) % 256,
{
    crate::syscall::process::lemma_le_bytes_digits(sec as nat, 8);
    crate::syscall::process::lemma_le_bytes_digits(usec as nat, 8);
}

} // verus!
