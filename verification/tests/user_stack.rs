use os_kernel::user_stack::{exec_arg_bytes, exec_args_fit, exec_argv_words, layout_exec_args};

#[test]
fn layout_of_two_arguments() {
    let w = core::mem::size_of::<usize>();
    let args = vec![b"ab".to_vec(), b"c".to_vec()];
    let top = 0x1000;
    let l = layout_exec_args(top, &args);
    assert_eq!(l.argv_base, top - 3 * w);
    assert_eq!(l.argv.len(), 3);
    assert_eq!(l.argv[0], l.argv_base - 3);
    assert_eq!(l.argv[1], l.argv_base - 5);
    assert_eq!(l.argv[2], 0);
    let low = l.argv_base - 5;
    assert_eq!(l.user_sp, low - low % w);
    assert_eq!(l.user_sp % w, 0);
}

#[test]
fn layout_on_a_64_bit_machine() {
    if core::mem::size_of::<usize>() != 8 {
        return;
    }
    let args = vec![b"ab".to_vec(), b"c".to_vec()];
    let l = layout_exec_args(0x1000, &args);
    assert_eq!(l.argv_base, 0xfe8);
    assert_eq!(l.argv, vec![0xfe5, 0xfe3, 0]);
    assert_eq!(l.user_sp, 0xfe0);
}

#[test]
fn layout_without_arguments() {
    let w = core::mem::size_of::<usize>();
    let l = layout_exec_args(0x2000, &Vec::new());
    assert_eq!(l.argv_base, 0x2000 - w);
    assert_eq!(l.argv, vec![0]);
    assert_eq!(l.user_sp, 0x2000 - w);
}

#[test]
fn arguments_sit_back_to_back_below_the_vector() {
    let args = vec![b"init".to_vec(), b"".to_vec(), b"-x".to_vec()];
    let l = layout_exec_args(0x4000, &args);
    assert_eq!(l.argv[0] + 5, l.argv_base);
    assert_eq!(l.argv[1] + 1, l.argv[0]);
    assert_eq!(l.argv[2] + 3, l.argv[1]);
    assert!(l.user_sp <= l.argv[2]);
    assert!(l.argv[2] - l.user_sp < core::mem::size_of::<usize>());
}

#[test]
fn layout_that_exactly_fits() {
    let w = core::mem::size_of::<usize>();
    let args = vec![vec![7u8; 3]];
    let top = 2 * w + 4;
    let l = layout_exec_args(top, &args);
    assert_eq!(l.argv_base, 4);
    assert_eq!(l.argv[0], 0);
    assert_eq!(l.user_sp, 0);
}

#[test]
fn argument_bytes_go_below_the_vector_with_their_nuls() {
    let args = vec![b"ab".to_vec(), b"c".to_vec()];
    let l = layout_exec_args(0x1000, &args);
    let writes = exec_arg_bytes(0x1000, &args);
    assert_eq!(
        writes,
        vec![
            (l.argv[0], b'a'),
            (l.argv[0] + 1, b'b'),
            (l.argv[0] + 2, 0),
            (l.argv[1], b'c'),
            (l.argv[1] + 1, 0),
        ]
    );
}

#[test]
fn argument_bytes_on_a_64_bit_machine() {
    if core::mem::size_of::<usize>() != 8 {
        return;
    }
    let args = vec![b"sh".to_vec(), b"".to_vec()];
    let writes = exec_arg_bytes(0x1000, &args);
    assert_eq!(writes, vec![(0xfe5, b's'), (0xfe6, b'h'), (0xfe7, 0), (0xfe4, 0)]);
}

#[test]
fn no_arguments_write_no_bytes() {
    let writes = exec_arg_bytes(0x1000, &Vec::new());
    assert!(writes.is_empty());
}

#[test]
fn arguments_fit_exactly_or_not_at_all() {
    let w = core::mem::size_of::<usize>();
    let args = vec![vec![7u8; 3]];
    assert!(exec_args_fit(2 * w + 4, &args));
    assert!(!exec_args_fit(2 * w + 3, &args));
    assert!(!exec_args_fit(w, &args));
    assert!(exec_args_fit(w, &Vec::new()));
    assert!(!exec_args_fit(w - 1, &Vec::new()));
}

#[test]
fn vector_words_hold_the_argument_addresses_then_zero() {
    let w = core::mem::size_of::<usize>();
    let args = vec![b"ab".to_vec(), b"c".to_vec()];
    let l = layout_exec_args(0x1000, &args);
    let words = exec_argv_words(0x1000, &args);
    assert_eq!(
        words,
        vec![(l.argv_base, l.argv[0]), (l.argv_base + w, l.argv[1]), (l.argv_base + 2 * w, 0)]
    );
    assert_eq!(l.argv_base + 3 * w, 0x1000);
}

#[test]
fn stack_reads_back_the_arguments() {
    let w = core::mem::size_of::<usize>();
    let args = vec![b"init".to_vec(), b"".to_vec(), b"-x".to_vec()];
    let top = 0x200;
    let mut mem = vec![0xEEu8; top];
    for (addr, word) in exec_argv_words(top, &args) {
        mem[addr..addr + w].copy_from_slice(&word.to_le_bytes());
    }
    for (addr, byte) in exec_arg_bytes(top, &args) {
        mem[addr] = byte;
    }
    let l = layout_exec_args(top, &args);
    for (i, arg) in args.iter().enumerate() {
        let at = l.argv_base + i * w;
        let p = usize::from_le_bytes(mem[at..at + w].try_into().unwrap());
        let end = p + mem[p..].iter().position(|b| *b == 0).unwrap();
        assert_eq!(&mem[p..end], &arg[..]);
    }
    let at = l.argv_base + args.len() * w;
    assert_eq!(usize::from_le_bytes(mem[at..at + w].try_into().unwrap()), 0);
    assert!(mem[..l.user_sp].iter().all(|b| *b == 0xEE));
}
