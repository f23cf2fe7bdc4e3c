use jeprof_rs::{
    hexadecimal_value, parse_decimal, parse_mapped_library, parse_stack, parse_stack_addrs,
    parse_thread, ParseError, Profile,
};

#[test]
fn minimal_document_any_rate() {
    let data = "heap_v2/131072\n  t*: 0: 0 [0: 0]\n@ 0\n  t*: 0: 0 [0: 0]\nMAPPED_LIBRARIES:\n";
    let profile = Profile::parse(data).unwrap();
    assert_eq!(131072, profile.sampling_rate);
    assert_eq!(1, profile.totals.len());
    assert_eq!(1, profile.stacks.len());
    assert_eq!(0, profile.mapped_libraries.len());
}

#[test]
fn minimal_document_largest_rate() {
    let data =
        "heap_v2/18446744073709551615\n  t*: 0: 0 [0: 0]\n@ 0\n  t*: 0: 0 [0: 0]\nMAPPED_LIBRARIES:\n";
    let profile = Profile::parse(data).unwrap();
    assert_eq!(u64::MAX, profile.sampling_rate);
}

#[test]
fn rate_overflowing_64_bits_is_rejected() {
    let data =
        "heap_v2/18446744073709551616\n  t*: 0: 0 [0: 0]\n@ 0\n  t*: 0: 0 [0: 0]\nMAPPED_LIBRARIES:\n";
    assert_eq!(Profile::parse(data).unwrap_err(), ParseError::ParseFailure);
}

#[test]
fn hex_case_insensitive_and_prefix_optional() {
    assert_eq!(Some((31, 4)), hexadecimal_value(b"0x1F", 0));
    assert_eq!(Some((31, 4)), hexadecimal_value(b"0X1f", 0));
    assert_eq!(Some((31, 2)), hexadecimal_value(b"1f", 0));
}

#[test]
fn hex_underscores_ignored() {
    assert_eq!(Some((1, 13)), hexadecimal_value(b"0x00_00_00_01", 0));
    assert_eq!(Some((1, 2)), hexadecimal_value(b"1_", 0));
}

#[test]
fn hex_rejects_missing_digits() {
    assert_eq!(None, hexadecimal_value(b"0x", 0));
    assert_eq!(None, hexadecimal_value(b"_1", 0));
    assert_eq!(None, hexadecimal_value(b"g", 0));
}

#[test]
fn hex_64_bit_boundary() {
    assert_eq!(Some((u64::MAX, 16)), hexadecimal_value(b"ffffffffffffffff", 0));
    assert_eq!(None, hexadecimal_value(b"10000000000000000", 0));
}

#[test]
fn decimal_64_bit_boundary() {
    assert_eq!(Some((u64::MAX, 20)), parse_decimal(b"18446744073709551615", 0));
    assert_eq!(None, parse_decimal(b"18446744073709551616", 0));
}

#[test]
fn addrs_keep_source_order() {
    let (addrs, _) = parse_stack_addrs(b"@ 0x004 0x003 0x002 0x001", 0).unwrap();
    assert_eq!(vec![4, 3, 2, 1], addrs);
}

#[test]
fn stack_needs_an_address_and_a_thread() {
    assert_eq!(None, parse_stack(b"@\n  t*: 1: 2 [3: 4]\n", 0).map(|x| x.1));
    assert_eq!(None, parse_stack(b"@ 0x1\n", 0).map(|x| x.1));
    let (stack, _) = parse_stack(b"@ 0x1\n  t*: 1: 2 [3: 4]\n", 0).unwrap();
    assert_eq!(vec![1], stack.addrs);
    assert_eq!(1, stack.threads.len());
    assert_eq!("*", stack.threads[0].id);
}

#[test]
fn thread_id_must_not_be_empty() {
    assert_eq!(None, parse_thread(b"t: 5000: 6000 [7000: 8000]", 0).map(|x| x.1));
}

#[test]
fn library_path_keeps_embedded_spaces() {
    let data = "00000001-00000004 r--p 00000000 103:02 5000 /usr/lib/my libs/lib a.so";
    let (lib, _) = parse_mapped_library(data.as_bytes(), 0).unwrap();
    assert_eq!("/usr/lib/my libs/lib a.so", lib.path);
}

#[test]
fn empty_path_rows_are_dropped() {
    let data = "heap_v2/1\n  t*: 0: 0 [0: 0]\n@ 0\n  t*: 0: 0 [0: 0]\nMAPPED_LIBRARIES:\n00000001-00000004 r--p 00000000 103:02 5000 \n00000005-00000008 r--p 00000000 103:02 5000 /lib/a.so\n";
    let profile = Profile::parse(data).unwrap();
    assert_eq!(1, profile.mapped_libraries.len());
    assert_eq!("/lib/a.so", profile.mapped_libraries[0].path);
    assert_eq!(5, profile.mapped_libraries[0].first);
    assert_eq!(8, profile.mapped_libraries[0].last);
}

#[test]
fn missing_marker_fails() {
    let data = "heap_v2/131072\n  t*: 0: 0 [0: 0]\n@ 0\n  t*: 0: 0 [0: 0]\n";
    assert_eq!(Profile::parse(data).unwrap_err(), ParseError::ParseFailure);
}

#[test]
fn wrong_magic_is_unsupported() {
    assert_eq!(Profile::parse("heap_v1/1\n").unwrap_err(), ParseError::UnsupportedFormat);
    assert_eq!(Profile::parse("bogus").unwrap_err(), ParseError::UnsupportedFormat);
    assert_eq!(Profile::parse("").unwrap_err(), ParseError::UnsupportedFormat);
}

#[test]
fn magic_with_broken_structure_is_parse_failure() {
    assert_eq!(Profile::parse("heap_v2/abc\n").unwrap_err(), ParseError::ParseFailure);
    assert_eq!(Profile::parse("heap_v2/1\n").unwrap_err(), ParseError::ParseFailure);
}

#[test]
fn end_to_end_document() {
    let data = "heap_v2/131072\n  t*: 4385: 810327 [0: 0]\n@ 0x004 0x003 0x002 0x001\n  t*: 1: 224 [0: 0]\n  t5: 1: 224 [0: 0]\n@ 0x001 0x002 0x003 0x004\n  t*: 1: 224 [0: 0]\n  t5: 1: 224 [0: 0]\nMAPPED_LIBRARIES:\n";
    let profile = Profile::parse(data).unwrap();
    assert_eq!(131072, profile.sampling_rate);
    assert_eq!("*", profile.totals[0].id);
    assert_eq!(4385, profile.totals[0].inuse_count);
    assert_eq!(2, profile.stacks.len());
    assert_eq!(vec![4, 3, 2, 1], profile.stacks[0].addrs);
}

#[test]
fn trailing_text_after_the_table_is_left_unconsumed() {
    let data = "heap_v2/1\n  t*: 0: 0 [0: 0]\n@ 0\n  t*: 0: 0 [0: 0]\nMAPPED_LIBRARIES:\nnot a map row";
    let profile = Profile::parse(data).unwrap();
    assert_eq!(0, profile.mapped_libraries.len());
}
