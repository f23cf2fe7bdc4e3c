use jeprof_rs::{parse_header, parse_mapped_library, parse_profile, parse_stack_addrs, parse_thread};

#[test]
fn test_parse_profile() {
    let data = "heap_v2/131072
  t*: 4385: 810327 [0: 0]
  t0: 129: 4965 [0: 0]
  t1: 191: 7942 [0: 0]
  t2: 0: 0 [0: 0]
  t3: 128: 5268 [0: 0]
  t4: 4: 405115494 [0: 0]
  t5: 468: 42015 [0: 0]
  t6: 148: 5586 [0: 0]
  t7: 232: 15290 [0: 0]
  t8: 0: 0 [0: 0]
@ 0x004 0x003 0x002 0x001
  t*: 1: 224 [0: 0]
  t5: 1: 224 [0: 0]
@ 0x001 0x002 0x003 0x004
  t*: 1: 224 [0: 0]
  t5: 1: 224 [0: 0]
MAPPED_LIBRARIES:
";
    let (profile, _) = parse_profile(data.as_bytes()).unwrap();
    assert_eq!(131072, profile.sampling_rate);
    assert_eq!("*", profile.totals[0].id);
    assert_eq!(4385, profile.totals[0].inuse_count);
    assert_eq!(4385, profile.totals[0].inuse_count);
    assert_eq!(2, profile.stacks.len());

    let stack = &profile.stacks[0];
    assert_eq!(4, stack.addrs.len());
    assert_eq!(4, stack.addrs[0]);
}

#[test]
fn test_parse_header() {
    let data = "heap_v2/12345";
    let (sampling_rate, _) = parse_header(data.as_bytes(), 0).unwrap();
    assert_eq!(12345, sampling_rate)
}

#[test]
fn test_parse_stack_addrs() {
    let data = "@ 0x000000000001 0x000000000002 0x000000000003 0x000000000004";
    let (addrs, _) = parse_stack_addrs(data.as_bytes(), 0).unwrap();
    assert_eq!(4, addrs.len());
    assert_eq!(1, addrs[0]);
    assert_eq!(2, addrs[1]);
    assert_eq!(3, addrs[2]);
    assert_eq!(4, addrs[3]);
}

#[test]
fn test_parse_library() {
    let data = "00000001-00000004 r--p 00000000 103:02 5000                      /usr/lib/x86_64-linux-gnu/libgcc_s.so.1";
    let (lib, _) = parse_mapped_library(data.as_bytes(), 0).unwrap();
    assert_eq!("/usr/lib/x86_64-linux-gnu/libgcc_s.so.1", lib.path);
    assert_eq!(1, lib.first);
    assert_eq!(4, lib.last);
}

#[test]
fn test_parse_thread() {
    let data = "t123: 5000: 6000 [7000: 8000]";
    let result = parse_thread(data.as_bytes(), 0);

    match result {
        Some((thread, _)) => {
            assert_eq!(thread.id, "123");
            assert_eq!(thread.inuse_count, 5000);
            assert_eq!(thread.inuse_space, 6000);
            assert_eq!(thread.alloc_count, 7000);
            assert_eq!(thread.alloc_space, 8000);
        }
        None => panic!("Parsing failed"),
    }
}

#[test]
fn test_parse_thread_star() {
    let data = "t*: 5000: 6000 [7000: 9000]";
    let result = parse_thread(data.as_bytes(), 0);

    match result {
        Some((thread, _)) => {
            assert_eq!(thread.id, "*");
            assert_eq!(thread.inuse_count, 5000);
            assert_eq!(thread.inuse_space, 6000);
            assert_eq!(thread.alloc_count, 7000);
            assert_eq!(thread.alloc_space, 9000);
        }
        None => panic!("Parsing failed"),
    }
}
