use vstd::prelude::*;

verus! {

broadcast use vstd::layout::layout_of_primitives;

/// The bytes of a machine word.
pub open spec fn word_size() -> int {
    vstd::layout::size_of::<usize>() as int
}

/// The bytes that the first `k` arguments take on the user stack, each with
/// its terminating NUL.
pub open spec fn strings_size(args: Seq<Vec<u8>>, k: int) -> int
    decreases k,
{
    if k <= 0 || k > args.len() {
        0
    } else {
        strings_size(args, k - 1) + args[k - 1]@.len() + 1
    }
}

/// Where the arguments of a new program go on its user stack. Below the top
/// lies the argument vector (one word per argument and a final zero word),
/// starting at `argv_base`; below it the arguments themselves, each followed
/// by a NUL, the first one highest; below them, aligned down to a word,
/// the stack pointer the program starts with.
pub struct ArgvLayout {
    /// The stack pointer the program starts with.
    pub user_sp: usize,
    /// The address of the argument vector.
    pub argv_base: usize,
    /// The words of the argument vector: the address of each argument, then 0.
    pub argv: Vec<usize>,
}

/// Whether `ustack_top` leaves room below it for the argument vector and the
/// arguments `args`.
pub open spec fn args_fit(ustack_top: usize, args: Seq<Vec<u8>>) -> bool {
    (args.len() + 1) * word_size() + strings_size(args, args.len() as int) <= ustack_top
}

/// Where the argument vector starts.
pub open spec fn argv_base_of(ustack_top: usize, args: Seq<Vec<u8>>) -> int {
    ustack_top - (args.len() + 1) * word_size()
}

/// Where argument `i` starts.
pub open spec fn arg_address(ustack_top: usize, args: Seq<Vec<u8>>, i: int) -> int {
    argv_base_of(ustack_top, args) - strings_size(args, i + 1)
}

/// The lowest byte the arguments take.
pub open spec fn args_low(ustack_top: usize, args: Seq<Vec<u8>>) -> int {
    argv_base_of(ustack_top, args) - strings_size(args, args.len() as int)
}

/// The stack pointer the program starts with: the lowest byte of the
/// arguments, aligned down to a word.
pub open spec fn user_sp_of(ustack_top: usize, args: Seq<Vec<u8>>) -> int {
    args_low(ustack_top, args) - args_low(ustack_top, args) % word_size()
}

proof fn lemma_strings_size_monotonic(args: Seq<Vec<u8>>, i: int, j: int)
    requires
        0 <= i <= j <= args.len(),
    ensures
        strings_size(args, i) + (j - i) <= strings_size(args, j),
    decreases j - i,
{
    if i < j {
        lemma_strings_size_monotonic(args, i, j - 1);
    }
}

/// Where the arguments fit, the argument vector alone does, and a word is 4
/// or 8 bytes.
proof fn lemma_args_fit_bounds(ustack_top: usize, args: Seq<Vec<u8>>)
    requires
        args_fit(ustack_top, args),
    ensures
        word_size() == 4 || word_size() == 8,
        args.len() + 1 <= (args.len() + 1) * word_size() <= ustack_top,
        0 <= strings_size(args, args.len() as int) <= ustack_top - (args.len() + 1) * word_size(),
{
    let w = word_size();
    let m = args.len() + 1;
    assert(w == 4 || w == 8);
    assert(m <= m * w) by (nonlinear_arith)
        requires
            w >= 1,
            m >= 0,
    ;
    lemma_strings_size_monotonic(args, 0, args.len() as int);
}

/// Lays out the arguments `args` of a program about to run on the user
/// stack whose top is `ustack_top`.
pub fn layout_exec_args(ustack_top: usize, args: &Vec<Vec<u8>>) -> (layout: ArgvLayout)
    requires
        args_fit(ustack_top, args@),
    ensures
        layout.argv_base == argv_base_of(ustack_top, args@),
        layout.argv@.len() == args@.len() + 1,
        layout.argv@[args@.len() as int] == 0,
        forall|i: int|
            0 <= i < args@.len() ==> #[trigger] layout.argv@[i] == arg_address(ustack_top, args@, i),
        layout.user_sp == user_sp_of(ustack_top, args@),
{
    let w = core::mem::size_of::<usize>();
    let n = args.len();
    proof {
        lemma_args_fit_bounds(ustack_top, args@);
    }
    let words: usize = n + 1;
    proof {
        assert(words * w <= ustack_top);
    }
    let argv_base = ustack_top - words * w;
    let mut user_sp = argv_base;
    let mut argv: Vec<usize> = Vec::new();
    let mut i: usize = 0;
    while i < n
        invariant
            n == args@.len(),
            w as int == word_size(),
            w > 0,
            i <= n,
            argv_base == ustack_top - (n + 1) * w,
            args_fit(ustack_top, args@),
            user_sp == argv_base - strings_size(args@, i as int),
            argv@.len() == i,
            forall|k: int| 0 <= k < i ==> #[trigger] argv@[k] == argv_base - strings_size(args@, k + 1),
        decreases n - i,
    {
        proof {
            lemma_strings_size_monotonic(args@, i + 1, n as int);
            assert(strings_size(args@, i + 1) == strings_size(args@, i as int) + args@[i as int]@.len() + 1);
        }
        user_sp = user_sp - (args[i].len() + 1);
        argv.push(user_sp);
        i = i + 1;
    }
    argv.push(0);
    assert(user_sp % w <= user_sp) by (nonlinear_arith)
        requires
            w > 0,
    ;
    user_sp = user_sp - user_sp % w;
    ArgvLayout { user_sp, argv_base, argv }
}

/// Whether the argument vector and the arguments `args` fit below
/// `ustack_top`.
pub fn exec_args_fit(ustack_top: usize, args: &Vec<Vec<u8>>) -> (b: bool)
    ensures
        b == args_fit(ustack_top, args@),
{
    let w = core::mem::size_of::<usize>();
    let n = args.len();
    proof {
        assert(w == 4 || w == 8);
        lemma_strings_size_monotonic(args@, 0, n as int);
    }
    let words = match n.checked_add(1) {
        Some(m) => m,
        None => {
            proof {
                let m = n + 1;
                assert(m <= m * w) by (nonlinear_arith)
                    requires
                        w >= 1,
                        m >= 0,
                ;
            }
            return false;
        },
    };
    let vector_bytes = match words.checked_mul(w) {
        Some(b) => b,
        None => return false,
    };
    if vector_bytes > ustack_top {
        return false;
    }
    let mut room = ustack_top - vector_bytes;
    let mut i: usize = 0;
    while i < n
        invariant
            n == args@.len(),
            w as int == word_size(),
            i <= n,
            room == ustack_top - (n + 1) * word_size() - strings_size(args@, i as int),
        decreases n - i,
    {
        let len = args[i].len();
        proof {
            assert(strings_size(args@, i + 1) == strings_size(args@, i as int) + len + 1);
        }
        if len >= room {
            proof {
                lemma_strings_size_monotonic(args@, i + 1, n as int);
            }
            return false;
        }
        room = room - (len + 1);
        i = i + 1;
    }
    true
}

/// The writes that fill the argument vector for the arguments `args` on the
/// user stack whose top is `ustack_top`, as (address, word) pairs: the
/// address of each argument, then 0.
pub fn exec_argv_words(ustack_top: usize, args: &Vec<Vec<u8>>) -> (writes: Vec<(usize, usize)>)
    requires
        args_fit(ustack_top, args@),
    ensures
        is_exec_argv_writes(ustack_top, args@, writes@),
{
    let w = core::mem::size_of::<usize>();
    let n = args.len();
    let layout = layout_exec_args(ustack_top, args);
    proof {
        lemma_args_fit_bounds(ustack_top, args@);
    }
    let mut writes: Vec<(usize, usize)> = Vec::new();
    let mut addr = layout.argv_base;
    let mut i: usize = 0;
    while i < n
        invariant
            n == args@.len(),
            w as int == word_size(),
            w == 4 || w == 8,
            i <= n,
            args_fit(ustack_top, args@),
            (n + 1) * w <= ustack_top,
            layout.argv_base == argv_base_of(ustack_top, args@),
            layout.argv@.len() == n + 1,
            layout.argv@[n as int] == 0,
            forall|k: int| 0 <= k < n ==> #[trigger] layout.argv@[k] == arg_address(ustack_top, args@, k),
            addr == layout.argv_base + i * w,
            writes@.len() == i,
            forall|k: int|
                0 <= k < i ==> #[trigger] writes@[k] == (
                    (argv_base_of(ustack_top, args@) + k * word_size()) as usize,
                    if k < n {
                        arg_address(ustack_top, args@, k) as usize
                    } else {
                        0usize
                    },
                ),
        decreases n - i,
    {
        writes.push((addr, layout.argv[i]));
        assert(addr + w <= ustack_top && addr + w == layout.argv_base + (i + 1) * w) by (nonlinear_arith)
            requires
                addr == layout.argv_base + i * w,
                layout.argv_base == ustack_top - (n + 1) * w,
                i < n,
                w > 0,
        ;
        addr = addr + w;
        i = i + 1;
    }
    writes.push((addr, 0));
    writes
}

/// The byte that write `strings_size(args, i) + k` of the argument strings
/// puts at its address: byte `k` of argument `i`, or the NUL after it.
pub open spec fn arg_byte(args: Seq<Vec<u8>>, i: int, k: int) -> u8 {
    if k < args[i]@.len() {
        args[i]@[k]
    } else {
        0
    }
}

/// Whether `writes` are the (address, byte) writes that put the arguments
/// `args` on the user stack whose top is `ustack_top`: each argument byte by
/// byte from its address on, then its NUL, the first argument first.
pub open spec fn is_exec_arg_writes(
    ustack_top: usize,
    args: Seq<Vec<u8>>,
    writes: Seq<(usize, u8)>,
) -> bool {
    &&& writes.len() == strings_size(args, args.len() as int)
    &&& forall|i: int, k: int|
        0 <= i < args.len() && 0 <= k <= args[i]@.len() ==> #[trigger] writes[strings_size(args, i) + k]
            == ((arg_address(ustack_top, args, i) + k) as usize, arg_byte(args, i, k))
}

/// Whether `writes` are the (address, word) writes that fill the argument
/// vector for the arguments `args` on the user stack whose top is
/// `ustack_top`: word `i` holds the address of argument `i`, and the last
/// word, after them, holds 0.
pub open spec fn is_exec_argv_writes(
    ustack_top: usize,
    args: Seq<Vec<u8>>,
    writes: Seq<(usize, usize)>,
) -> bool {
    &&& writes.len() == args.len() + 1
    &&& forall|i: int|
        0 <= i <= args.len() ==> #[trigger] writes[i] == (
            (argv_base_of(ustack_top, args) + i * word_size()) as usize,
            if i < args.len() {
                arg_address(ustack_top, args, i) as usize
            } else {
                0usize
            },
        )
}

/// The writes that put the arguments `args` on the user stack whose top is
/// `ustack_top`, as (address, byte) pairs: each argument byte by byte from
/// its address on, then its NUL, the first argument first.
pub fn exec_arg_bytes(ustack_top: usize, args: &Vec<Vec<u8>>) -> (writes: Vec<(usize, u8)>)
    requires
        args_fit(ustack_top, args@),
    ensures
        is_exec_arg_writes(ustack_top, args@, writes@),
        forall|i: int, k: int|
            0 <= i < args@.len() && 0 <= k < args@[i]@.len() ==> (#[trigger] writes@[strings_size(
                args@,
                i,
            ) + k]).1 == args@[i]@[k],
        forall|i: int|
            0 <= i < args@.len() ==> (#[trigger] writes@[strings_size(args@, i) + args@[i]@.len()]).1
                == 0,
        forall|i: int, k: int|
            0 <= i < args@.len() && 0 <= k < args@[i]@.len() ==> writes@[strings_size(args@, i) + k + 1].0
                == (#[trigger] writes@[strings_size(args@, i) + k]).0 + 1,
        args@.len() > 0 ==> writes@[args@[0]@.len() as int].0 + 1 == ustack_top - (args@.len() + 1)
            * word_size(),
        forall|i: int|
            0 <= i && i + 1 < args@.len() ==> (#[trigger] writes@[strings_size(args@, i + 1) + args@[i
                + 1]@.len()]).0 + 1 == writes@[strings_size(args@, i)].0,
{
    let w = core::mem::size_of::<usize>();
    let n = args.len();
    proof {
        lemma_args_fit_bounds(ustack_top, args@);
    }
    let words: usize = n + 1;
    proof {
        assert(words * w <= ustack_top);
    }
    let argv_base = ustack_top - words * w;
    let mut user_sp = argv_base;
    let mut writes: Vec<(usize, u8)> = Vec::new();
    let mut i: usize = 0;
    while i < n
        invariant
            n == args@.len(),
            w as int == word_size(),
            i <= n,
            argv_base == argv_base_of(ustack_top, args@),
            args_fit(ustack_top, args@),
            user_sp == argv_base - strings_size(args@, i as int),
            writes@.len() == strings_size(args@, i as int),
            forall|ii: int, k: int|
                0 <= ii < i && 0 <= k <= args@[ii]@.len() ==> #[trigger] writes@[strings_size(
                    args@,
                    ii,
                ) + k] == ((arg_address(ustack_top, args@, ii) + k) as usize, arg_byte(args@, ii, k)),
        decreases n - i,
    {
        let arg = &args[i];
        let len = arg.len();
        proof {
            lemma_strings_size_monotonic(args@, i + 1, n as int);
            assert(strings_size(args@, i + 1) == strings_size(args@, i as int) + len + 1);
        }
        user_sp = user_sp - (len + 1);
        let ghost start = writes@.len();
        let ghost prefix = writes@;
        let mut p = user_sp;
        let mut k: usize = 0;
        while k < len
            invariant
                n == args@.len(),
                i < n,
                arg == &args@[i as int],
                len == arg@.len(),
                k <= len,
                user_sp == arg_address(ustack_top, args@, i as int),
                user_sp + len + 1 <= argv_base,
                p == user_sp + k,
                start == prefix.len(),
                start == strings_size(args@, i as int),
                forall|ii: int, kk: int|
                    0 <= ii < i && 0 <= kk <= args@[ii]@.len() ==> #[trigger] prefix[strings_size(
                        args@,
                        ii,
                    ) + kk] == ((arg_address(ustack_top, args@, ii) + kk) as usize, arg_byte(
                        args@,
                        ii,
                        kk,
                    )),
                writes@.len() == start + k,
                writes@.subrange(0, start as int) == prefix,
                forall|kk: int|
                    0 <= kk < k ==> #[trigger] writes@[start + kk] == ((user_sp + kk) as usize, arg_byte(
                        args@,
                        i as int,
                        kk,
                    )),
            decreases len - k,
        {
            writes.push((p, arg[k]));
            proof {
                assert(writes@.subrange(0, start as int) =~= prefix);
            }
            p = p + 1;
            k = k + 1;
        }
        writes.push((p, 0));
        proof {
            assert(writes@.subrange(0, start as int) =~= prefix);
            assert forall|ii: int, kk: int|
                0 <= ii < i + 1 && 0 <= kk <= args@[ii]@.len() implies #[trigger] writes@[strings_size(
                args@,
                ii,
            ) + kk] == ((arg_address(ustack_top, args@, ii) + kk) as usize, arg_byte(args@, ii, kk)) by {
                if ii < i {
                    lemma_strings_size_monotonic(args@, ii + 1, i as int);
                    assert(strings_size(args@, ii + 1) == strings_size(args@, ii) + args@[ii]@.len() + 1);
                    lemma_strings_size_monotonic(args@, 0, ii);
                    assert(strings_size(args@, ii) + kk < start);
                    assert(writes@[strings_size(args@, ii) + kk] == writes@.subrange(0, start as int)[strings_size(args@, ii) + kk]);
                } else {
                    if kk < len {
                        assert(writes@[start + kk] == ((user_sp + kk) as usize, arg_byte(args@, i as int, kk)));
                    }
                }
            }
        }
        i = i + 1;
    }
    proof {
        lemma_exec_arg_writes_copy_arguments(ustack_top, args@, writes@);
    }
    writes
}

/// The argument vector fills the top of the stack; each argument with its
/// NUL sits right below the one before it (the first right below the
/// vector), so that no two overlap; and the starting stack pointer is
/// word-aligned, at most a word below the lowest argument.
pub proof fn lemma_exec_layout_well_formed(ustack_top: usize, args: Seq<Vec<u8>>)
    requires
        args_fit(ustack_top, args),
    ensures
        argv_base_of(ustack_top, args) + (args.len() + 1) * word_size() == ustack_top,
        forall|i: int|
            0 <= i < args.len() ==> #[trigger] arg_address(ustack_top, args, i) + args[i]@.len() + 1
                == (if i == 0 {
                argv_base_of(ustack_top, args)
            } else {
                arg_address(ustack_top, args, i - 1)
            }),
        forall|i: int, j: int|
            0 <= i < j < args.len() ==> #[trigger] arg_address(ustack_top, args, j) + args[j]@.len()
                + 1 <= #[trigger] arg_address(ustack_top, args, i),
        forall|i: int|
            0 <= i < args.len() ==> args_low(ustack_top, args) <= #[trigger] arg_address(
                ustack_top,
                args,
                i,
            ),
        0 <= user_sp_of(ustack_top, args) <= args_low(ustack_top, args),
        args_low(ustack_top, args) - user_sp_of(ustack_top, args) < word_size(),
        user_sp_of(ustack_top, args) % word_size() == 0,
{
    let w = word_size();
    assert(w == 4 || w == 8);
    let n = args.len() as int;
    lemma_strings_size_monotonic(args, 0, n);
    assert forall|i: int|
        0 <= i < args.len() implies #[trigger] arg_address(ustack_top, args, i) + args[i]@.len() + 1
        == (if i == 0 {
        argv_base_of(ustack_top, args)
    } else {
        arg_address(ustack_top, args, i - 1)
    }) by {
        assert(strings_size(args, i + 1) == strings_size(args, i) + args[i]@.len() + 1);
    }
    assert forall|i: int, j: int|
        0 <= i < j < args.len() implies #[trigger] arg_address(ustack_top, args, j) + args[j]@.len()
        + 1 <= #[trigger] arg_address(ustack_top, args, i) by {
        assert(strings_size(args, j + 1) == strings_size(args, j) + args[j]@.len() + 1);
        lemma_strings_size_monotonic(args, i + 1, j);
    }
    assert forall|i: int|
        0 <= i < args.len() implies args_low(ustack_top, args) <= #[trigger] arg_address(
        ustack_top,
        args,
        i,
    ) by {
        lemma_strings_size_monotonic(args, i + 1, n);
    }
    let low = args_low(ustack_top, args);
    assert(low >= 0);
    assert(0 <= low % w < w && (low - low % w) % w == 0) by (nonlinear_arith)
        requires
            w > 0,
            low >= 0,
    {
        vstd::arithmetic::div_mod::lemma_fundamental_div_mod(low, w);
        vstd::arithmetic::div_mod::lemma_mod_multiples_basic(low / w, w);
    }
}

/// The memory `mem` (a value at each address) once the writes `writes`,
/// (address, value) pairs, are made in order.
pub open spec fn apply_writes<V>(mem: spec_fn(int) -> V, writes: Seq<(usize, V)>) -> spec_fn(int) -> V
    decreases writes.len(),
{
    if writes.len() == 0 {
        mem
    } else {
        let before = apply_writes(mem, writes.drop_last());
        let last = writes.last();
        |x: int| if x == last.0 as int { last.1 } else { before(x) }
    }
}

/// Where no later write goes to the address of write `j`, the memory there
/// holds what write `j` put.
proof fn lemma_last_write_wins<V>(mem: spec_fn(int) -> V, writes: Seq<(usize, V)>, j: int)
    requires
        0 <= j < writes.len(),
        forall|j2: int| j < j2 < writes.len() ==> #[trigger] writes[j2].0 != writes[j].0,
    ensures
        apply_writes(mem, writes)(writes[j].0 as int) == writes[j].1,
    decreases writes.len(),
{
    if j < writes.len() - 1 {
        let front = writes.drop_last();
        assert forall|j2: int| j < j2 < front.len() implies #[trigger] front[j2].0 != front[j].0 by {
            assert(front[j2] == writes[j2]);
        }
        lemma_last_write_wins(mem, front, j);
        assert(front[j] == writes[j]);
        assert(writes[writes.len() - 1].0 != writes[j].0);
    }
}

/// Where no write goes to address `x`, the memory there is as it was.
proof fn lemma_unwritten<V>(mem: spec_fn(int) -> V, writes: Seq<(usize, V)>, x: int)
    requires
        forall|j: int| 0 <= j < writes.len() ==> #[trigger] writes[j].0 as int != x,
    ensures
        apply_writes(mem, writes)(x) == mem(x),
    decreases writes.len(),
{
    if writes.len() > 0 {
        let front = writes.drop_last();
        assert forall|j: int| 0 <= j < front.len() implies #[trigger] front[j].0 as int != x by {
            assert(front[j] == writes[j]);
        }
        lemma_unwritten(mem, front, x);
        assert(writes[writes.len() - 1].0 as int != x);
    }
}

/// Each of the first `strings_size(args, m)` argument writes is byte `k`
/// (or the NUL, at `k` the length) of some argument `i` below `m`.
proof fn lemma_write_index(args: Seq<Vec<u8>>, m: int, j: int) -> (ik: (int, int))
    requires
        0 <= m <= args.len(),
        0 <= j < strings_size(args, m),
    ensures
        0 <= ik.0 < m,
        0 <= ik.1 <= args[ik.0]@.len(),
        j == strings_size(args, ik.0) + ik.1,
    decreases m,
{
    assert(m > 0);
    assert(strings_size(args, m) == strings_size(args, m - 1) + args[m - 1]@.len() + 1);
    if j < strings_size(args, m - 1) {
        lemma_write_index(args, m - 1, j)
    } else {
        (m - 1, j - strings_size(args, m - 1))
    }
}

/// The argument writes copy every argument whole: write `k` of argument `i`
/// puts the argument's own byte `k`, and the write after its last byte puts
/// the NUL. They go to consecutive addresses within an argument; the first
/// argument's NUL lies right below the argument vector, at
/// `ustack_top - (n + 1) * word` for `n` arguments, and each later
/// argument's NUL right below the first byte of the one before it.
pub proof fn lemma_exec_arg_writes_copy_arguments(
    ustack_top: usize,
    args: Seq<Vec<u8>>,
    writes: Seq<(usize, u8)>,
)
    requires
        args_fit(ustack_top, args),
        is_exec_arg_writes(ustack_top, args, writes),
    ensures
        forall|i: int, k: int|
            0 <= i < args.len() && 0 <= k < args[i]@.len() ==> (#[trigger] writes[strings_size(args, i)
                + k]).1 == args[i]@[k],
        forall|i: int|
            0 <= i < args.len() ==> (#[trigger] writes[strings_size(args, i) + args[i]@.len()]).1 == 0,
        forall|i: int, k: int|
            0 <= i < args.len() && 0 <= k < args[i]@.len() ==> writes[strings_size(args, i) + k + 1].0
                == (#[trigger] writes[strings_size(args, i) + k]).0 + 1,
        args.len() > 0 ==> writes[args[0]@.len() as int].0 + 1 == ustack_top - (args.len() + 1)
            * word_size(),
        forall|i: int|
            0 <= i && i + 1 < args.len() ==> (#[trigger] writes[strings_size(args, i + 1) + args[i
                + 1]@.len()]).0 + 1 == writes[strings_size(args, i)].0,
{
    let n = args.len() as int;
    assert forall|i: int, k: int| 0 <= i < n && 0 <= k <= args[i]@.len() implies (#[trigger] writes[
        strings_size(args, i) + k]).0 as int == arg_address(ustack_top, args, i) + k && writes[
        strings_size(args, i) + k].1 == arg_byte(args, i, k) by {
        lemma_arg_write_address(ustack_top, args, writes, i, k);
    }
    assert forall|i: int, k: int| 0 <= i < n && 0 <= k < args[i]@.len() implies writes[strings_size(
        args,
        i,
    ) + k + 1].0 == (#[trigger] writes[strings_size(args, i) + k]).0 + 1 by {
        assert(writes[strings_size(args, i) + (k + 1)].0 as int == arg_address(ustack_top, args, i) + (k
            + 1));
    }
    if n > 0 {
        assert(strings_size(args, 0) == 0);
        assert(strings_size(args, 1) == args[0]@.len() + 1);
        assert(writes[strings_size(args, 0) + args[0]@.len()].0 as int == arg_address(ustack_top, args, 0)
            + args[0]@.len());
    }
    assert forall|i: int| 0 <= i && i + 1 < n implies (#[trigger] writes[strings_size(args, i + 1) + args[i
        + 1]@.len()]).0 + 1 == writes[strings_size(args, i)].0 by {
        assert(strings_size(args, i + 2) == strings_size(args, i + 1) + args[i + 1]@.len() + 1);
        assert(writes[strings_size(args, i) + 0].0 as int == arg_address(ustack_top, args, i) + 0);
    }
}

/// The vector words read back: word `i` holds the address of argument `i`,
/// the last word 0, and no word write reaches outside the vector.
proof fn lemma_argv_words_read_back(
    ustack_top: usize,
    args: Seq<Vec<u8>>,
    words: Seq<(usize, usize)>,
    word_mem: spec_fn(int) -> usize,
)
    requires
        args_fit(ustack_top, args),
        is_exec_argv_writes(ustack_top, args, words),
    ensures
        apply_writes(word_mem, words)(argv_base_of(ustack_top, args) + args.len() * word_size()) == 0,
        forall|i: int|
            0 <= i < args.len() ==> #[trigger] apply_writes(word_mem, words)(argv_base_of(ustack_top, args)
                + i * word_size()) == arg_address(ustack_top, args, i),
        forall|x: int|
            !(argv_base_of(ustack_top, args) <= x < ustack_top) ==> #[trigger] apply_writes(word_mem, words)(x)
                == word_mem(x),
{
    let n = args.len() as int;
    let w = word_size();
    let base = argv_base_of(ustack_top, args);
    lemma_args_fit_bounds(ustack_top, args);
    assert forall|i: int| 0 <= i <= n implies (#[trigger] words[i]).0 as int == base + i * w && base <= base + i * w
        && base + i * w + w <= ustack_top by {
        assert(base + i * w + w <= ustack_top && 0 <= i * w) by (nonlinear_arith)
            requires
                base == ustack_top - (n + 1) * w,
                0 <= i <= n,
                w > 0,
        ;
    }
    assert forall|i: int| 0 <= i <= n implies apply_writes(word_mem, words)(base + i * w) == (
    #[trigger] words[i]).1 by {
        assert forall|j2: int| i < j2 < words.len() implies #[trigger] words[j2].0 != words[i].0 by {
            assert(words[j2].0 as int == base + j2 * w);
            assert(i * w < j2 * w) by (nonlinear_arith)
                requires
                    i < j2,
                    w > 0,
            ;
        }
        lemma_last_write_wins(word_mem, words, i);
    }
    assert(words[n].1 == 0);
    assert forall|i: int|
        0 <= i < args.len() implies #[trigger] apply_writes(word_mem, words)(base + i * w) == arg_address(
        ustack_top,
        args,
        i,
    ) by {
        lemma_strings_size_monotonic(args, i + 1, n);
        lemma_strings_size_monotonic(args, 0, i + 1);
        assert(0 <= arg_address(ustack_top, args, i) <= base);
        assert(words[i].1 == arg_address(ustack_top, args, i) as usize);
        assert(apply_writes(word_mem, words)(base + i * w) == words[i].1);
    }
    assert forall|x: int| !(base <= x < ustack_top) implies #[trigger] apply_writes(word_mem, words)(x)
        == word_mem(x) by {
        assert forall|j: int| 0 <= j < words.len() implies #[trigger] words[j].0 as int != x by {
            assert(words[j].0 as int == base + j * w);
        }
        lemma_unwritten(word_mem, words, x);
    }
}

/// Argument write `j` goes to byte `k` of argument `i`, inside the
/// arguments' area.
proof fn lemma_arg_write_address(ustack_top: usize, args: Seq<Vec<u8>>, bytes: Seq<(usize, u8)>, i: int, k: int)
    requires
        args_fit(ustack_top, args),
        is_exec_arg_writes(ustack_top, args, bytes),
        0 <= i < args.len(),
        0 <= k <= args[i]@.len(),
    ensures
        bytes[strings_size(args, i) + k].0 as int == arg_address(ustack_top, args, i) + k,
        args_low(ustack_top, args) <= arg_address(ustack_top, args, i) + k < argv_base_of(ustack_top, args),
        0 <= strings_size(args, i) + k < strings_size(args, i + 1) <= strings_size(args, args.len() as int),
{
    let n = args.len() as int;
    lemma_args_fit_bounds(ustack_top, args);
    lemma_strings_size_monotonic(args, i + 1, n);
    lemma_strings_size_monotonic(args, 0, i);
    assert(strings_size(args, i + 1) == strings_size(args, i) + args[i]@.len() + 1);
}

/// The argument bytes read back: from the address of argument `i` on lie its
/// bytes, then a NUL, and no byte write reaches outside the arguments' area.
proof fn lemma_arg_bytes_read_back(
    ustack_top: usize,
    args: Seq<Vec<u8>>,
    bytes: Seq<(usize, u8)>,
    byte_mem: spec_fn(int) -> u8,
)
    requires
        args_fit(ustack_top, args),
        is_exec_arg_writes(ustack_top, args, bytes),
    ensures
        forall|i: int, k: int|
            0 <= i < args.len() && 0 <= k <= args[i]@.len() ==> #[trigger] apply_writes(byte_mem, bytes)(
                arg_address(ustack_top, args, i) + k) == arg_byte(args, i, k),
        forall|x: int|
            !(args_low(ustack_top, args) <= x < argv_base_of(ustack_top, args)) ==> #[trigger] apply_writes(
                byte_mem,
                bytes,
            )(x) == byte_mem(x),
{
    let n = args.len() as int;
    assert forall|i: int, k: int| 0 <= i < args.len() && 0 <= k <= args[i]@.len() implies #[trigger] apply_writes(
        byte_mem,
        bytes,
    )(arg_address(ustack_top, args, i) + k) == arg_byte(args, i, k) by {
        let j = strings_size(args, i) + k;
        lemma_arg_write_address(ustack_top, args, bytes, i, k);
        assert forall|j2: int| j < j2 < bytes.len() implies #[trigger] bytes[j2].0 != bytes[j].0 by {
            let (i2, k2) = lemma_write_index(args, n, j2);
            lemma_arg_write_address(ustack_top, args, bytes, i2, k2);
            if i2 < i {
                lemma_strings_size_monotonic(args, i2 + 1, i);
            } else if i2 > i {
                lemma_exec_layout_well_formed(ustack_top, args);
                assert(arg_address(ustack_top, args, i2) + args[i2]@.len() + 1 <= arg_address(
                    ustack_top,
                    args,
                    i,
                ));
            }
        }
        lemma_last_write_wins(byte_mem, bytes, j);
    }
    assert forall|x: int| !(args_low(ustack_top, args) <= x < argv_base_of(ustack_top, args)) implies #[trigger] apply_writes(
        byte_mem,
        bytes,
    )(x) == byte_mem(x) by {
        assert forall|j: int| 0 <= j < bytes.len() implies #[trigger] bytes[j].0 as int != x by {
            let (i2, k2) = lemma_write_index(args, n, j);
            lemma_arg_write_address(ustack_top, args, bytes, i2, k2);
        }
        lemma_unwritten(byte_mem, bytes, x);
    }
}

/// Reading the new program's stack back gives its arguments. With the
/// vector words and the argument bytes written, each group in order: word
/// `i` of the vector holds the address of argument `i` and the last word 0;
/// from the address in word `i` on lie the bytes of argument `i`, then a
/// NUL; and no write reaches outside the vector (for the words) or outside
/// the arguments' area below it (for the bytes), so the two groups do not
/// meet.
pub proof fn lemma_exec_args_read_back(
    ustack_top: usize,
    args: Seq<Vec<u8>>,
    words: Seq<(usize, usize)>,
    bytes: Seq<(usize, u8)>,
    word_mem: spec_fn(int) -> usize,
    byte_mem: spec_fn(int) -> u8,
)
    requires
        args_fit(ustack_top, args),
        is_exec_argv_writes(ustack_top, args, words),
        is_exec_arg_writes(ustack_top, args, bytes),
    ensures
        apply_writes(word_mem, words)(argv_base_of(ustack_top, args) + args.len() * word_size()) == 0,
        forall|i: int|
            0 <= i < args.len() ==> #[trigger] apply_writes(word_mem, words)(argv_base_of(ustack_top, args)
                + i * word_size()) == arg_address(ustack_top, args, i),
        forall|i: int, k: int|
            0 <= i < args.len() && 0 <= k <= args[i]@.len() ==> #[trigger] apply_writes(byte_mem, bytes)(
                apply_writes(word_mem, words)(argv_base_of(ustack_top, args) + i * word_size()) + k)
                == arg_byte(args, i, k),
        forall|i: int, k: int|
            0 <= i < args.len() && 0 <= k < args[i]@.len() ==> #[trigger] apply_writes(byte_mem, bytes)(
                apply_writes(word_mem, words)(argv_base_of(ustack_top, args) + i * word_size()) + k)
                == args[i]@[k],
        forall|i: int|
            0 <= i < args.len() ==> #[trigger] apply_writes(byte_mem, bytes)(
                apply_writes(word_mem, words)(argv_base_of(ustack_top, args) + i * word_size())
                + args[i]@.len()) == 0u8,
        forall|x: int|
            !(argv_base_of(ustack_top, args) <= x < ustack_top) ==> #[trigger] apply_writes(word_mem, words)(x)
                == word_mem(x),
        forall|x: int|
            !(args_low(ustack_top, args) <= x < argv_base_of(ustack_top, args)) ==> #[trigger] apply_writes(
                byte_mem,
                bytes,
            )(x) == byte_mem(x),
{
    lemma_argv_words_read_back(ustack_top, args, words, word_mem);
    lemma_arg_bytes_read_back(ustack_top, args, bytes, byte_mem);
    assert forall|i: int, k: int| 0 <= i < args.len() && 0 <= k <= args[i]@.len() implies #[trigger] apply_writes(
        byte_mem,
        bytes,
    )(apply_writes(word_mem, words)(argv_base_of(ustack_top, args) + i * word_size()) + k) == arg_byte(
        args,
        i,
        k,
    ) by {
        assert(apply_writes(word_mem, words)(argv_base_of(ustack_top, args) + i * word_size()) == arg_address(
            ustack_top,
            args,
            i,
        ));
        assert(apply_writes(byte_mem, bytes)(arg_address(ustack_top, args, i) + k) == arg_byte(args, i, k));
    }
}

} // verus!
