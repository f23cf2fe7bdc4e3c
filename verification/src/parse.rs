//! The executable parsers, one per grammar rule.
//!
//! Each parser walks the input bytes from a position and is proved to return
//! exactly the outcome the corresponding rule of [`crate::grammar`] assigns:
//! the same value and the same end position on success, and failure exactly
//! when the rule rejects.
use crate::grammar::{
    colon_space_tag, has_magic, header_tag, hex_prefix_at, keep_named, lemma_keep_named_append,
    magic_tag, marker_tag, spec_addr_item, spec_addrs, spec_decimal, spec_header,
    spec_hex_literal, spec_mapped_library, spec_maplib_line, spec_maplib_lines, spec_profile_doc,
    spec_stack, spec_stack_addrs, spec_stacks, spec_thread, spec_thread_line, spec_thread_lines,
    space_bracket_tag, SpecMappedLibrary, SpecProfile, SpecStack, SpecThread,
};
use crate::model::{
    maplibs_view, stacks_view, threads_view, MappedLibrary, ParseError, Profile, Stack, Thread,
};
use crate::text::{
    byte_is_dec_digit, byte_is_hex_digit, byte_is_id, byte_is_space, bytes_to_string,
    dec_digit_pred, dec_run_end, dec_value, hex_digit_val, hex_digit_value, hex_run_end,
    hex_run_pred, hex_run_value, id_pred, id_run_end, is_dec_digit, is_hex_digit,
    lemma_dec_value_append, lemma_hex_run_value_append, lemma_run_end, line_pred, line_run_end,
    newline_pred, newline_run_end, space_pred, space_run_end, tag_at, NEWLINE, SPACE, TAB,
    UNDERSCORE,
};
use vstd::prelude::*;
use vstd::string::StringSliceAdditionalSpecFns;

verus! {

/// The end of the greedy run of space or tab bytes starting at `pos`.
fn scan_spaces(s: &[u8], pos: usize) -> (end: usize)
    requires
        pos <= s@.len(),
    ensures
        end as int == space_run_end(s@, pos as int),
        pos <= end <= s@.len(),
{
    let mut i = pos;
    while i < s.len() && (s[i] == SPACE || s[i] == TAB)
        invariant
            pos <= i <= s@.len(),
            space_run_end(s@, pos as int) == space_run_end(s@, i as int),
        decreases s@.len() - i,
    {
        i += 1;
    }
    i
}

/// The end of the greedy run of thread-id bytes starting at `pos`.
fn scan_id(s: &[u8], pos: usize) -> (end: usize)
    requires
        pos <= s@.len(),
    ensures
        end as int == id_run_end(s@, pos as int),
        pos <= end <= s@.len(),
{
    let mut i = pos;
    while i < s.len() && ((48 <= s[i] && s[i] <= 57) || (97 <= s[i] && s[i] <= 122) || (65 <= s[i]
        && s[i] <= 90) || s[i] == 42)
        invariant
            pos <= i <= s@.len(),
            id_run_end(s@, pos as int) == id_run_end(s@, i as int),
        decreases s@.len() - i,
    {
        i += 1;
    }
    i
}

/// The end of the greedy run of decimal digits starting at `pos`.
fn scan_digits(s: &[u8], pos: usize) -> (end: usize)
    requires
        pos <= s@.len(),
    ensures
        end as int == dec_run_end(s@, pos as int),
        pos <= end <= s@.len(),
{
    let mut i = pos;
    while i < s.len() && 48 <= s[i] && s[i] <= 57
        invariant
            pos <= i <= s@.len(),
            dec_run_end(s@, pos as int) == dec_run_end(s@, i as int),
        decreases s@.len() - i,
    {
        i += 1;
    }
    i
}

/// The position of the next line terminator at or after `pos` (or the end of
/// the input).
fn scan_line(s: &[u8], pos: usize) -> (end: usize)
    requires
        pos <= s@.len(),
    ensures
        end as int == line_run_end(s@, pos as int),
        pos <= end <= s@.len(),
{
    let mut i = pos;
    while i < s.len() && s[i] != NEWLINE
        invariant
            pos <= i <= s@.len(),
            line_run_end(s@, pos as int) == line_run_end(s@, i as int),
        decreases s@.len() - i,
    {
        i += 1;
    }
    i
}

/// The end of the greedy run of line terminators starting at `pos`.
fn scan_newlines(s: &[u8], pos: usize) -> (end: usize)
    requires
        pos <= s@.len(),
    ensures
        end as int == newline_run_end(s@, pos as int),
        pos <= end <= s@.len(),
{
    let mut i = pos;
    while i < s.len() && s[i] == NEWLINE
        invariant
            pos <= i <= s@.len(),
            newline_run_end(s@, pos as int) == newline_run_end(s@, i as int),
        decreases s@.len() - i,
    {
        i += 1;
    }
    i
}

/// Does the separator `": "` stand at `pos`?
fn expect_colon_space(s: &[u8], pos: usize) -> (r: bool)
    requires
        pos <= s@.len(),
    ensures
        r == tag_at(s@, pos as int, colon_space_tag()),
{
    pos < s.len() && pos + 1 < s.len() && s[pos] == 58 && s[pos + 1] == 32
}

/// Does the opening `" ["` stand at `pos`?
fn expect_space_bracket(s: &[u8], pos: usize) -> (r: bool)
    requires
        pos <= s@.len(),
    ensures
        r == tag_at(s@, pos as int, space_bracket_tag()),
{
    pos < s.len() && pos + 1 < s.len() && s[pos] == 32 && s[pos + 1] == 91
}

/// Does the header prefix `"heap_v2/"` stand at `pos`?
fn expect_header_tag(s: &[u8], pos: usize) -> (r: bool)
    requires
        pos <= s@.len(),
    ensures
        r == tag_at(s@, pos as int, header_tag()),
{
    pos <= s.len() && s.len() - pos >= 8 && s[pos] == 104 && s[pos + 1] == 101 && s[pos + 2] == 97 && s[pos + 3]
        == 112 && s[pos + 4] == 95 && s[pos + 5] == 118 && s[pos + 6] == 50 && s[pos + 7] == 47
}

/// Does the magic token `"heap_v2"` stand at `pos`?
fn expect_magic(s: &[u8], pos: usize) -> (r: bool)
    requires
        pos <= s@.len(),
    ensures
        r == tag_at(s@, pos as int, magic_tag()),
{
    pos <= s.len() && s.len() - pos >= 7 && s[pos] == 104 && s[pos + 1] == 101 && s[pos + 2] == 97 && s[pos + 3]
        == 112 && s[pos + 4] == 95 && s[pos + 5] == 118 && s[pos + 6] == 50
}

/// Does the marker line `"MAPPED_LIBRARIES:"` with its terminator stand at
/// `pos`?
fn expect_marker(s: &[u8], pos: usize) -> (r: bool)
    requires
        pos <= s@.len(),
    ensures
        r == tag_at(s@, pos as int, marker_tag()),
{
    pos <= s.len() && s.len() - pos >= 18 && s[pos] == 77 && s[pos + 1] == 65 && s[pos + 2] == 80 && s[pos + 3] == 80
        && s[pos + 4] == 69 && s[pos + 5] == 68 && s[pos + 6] == 95 && s[pos + 7] == 76 && s[pos
        + 8] == 73 && s[pos + 9] == 66 && s[pos + 10] == 82 && s[pos + 11] == 65 && s[pos + 12]
        == 82 && s[pos + 13] == 73 && s[pos + 14] == 69 && s[pos + 15] == 83 && s[pos + 16] == 58
        && s[pos + 17] == 10
}

/// A run of one or more decimal digits, read as an unsigned 64-bit number.
#[verifier::loop_isolation(false)]
pub fn parse_decimal(s: &[u8], pos: usize) -> (r: Option<(u64, usize)>)
    requires
        pos <= s@.len(),
    ensures
        r matches Some((v, end)) ==> spec_decimal(s@, pos as int) == Some((v, end as int)) && pos
            < end <= s@.len(),
        r is None ==> spec_decimal(s@, pos as int) is None,
{
    if !(pos < s.len() && 48 <= s[pos] && s[pos] <= 57) {
        return None;
    }
    let ghost start = pos as int;
    let mut i = pos;
    let mut v: u64 = 0;
    while i < s.len() && 48 <= s[i] && s[i] <= 57
        invariant
            pos <= i <= s@.len(),
            is_dec_digit(s@[pos as int]),
            dec_run_end(s@, pos as int) == dec_run_end(s@, i as int),
            v as nat == dec_value(s@.subrange(pos as int, i as int)),
        decreases s@.len() - i,
    {
        let ghost cur = i as int;
        let d = s[i] - 48;
        let w: u128 = v as u128 * 10 + d as u128;
        if w > u64::MAX as u128 {
            proof {
                lemma_run_end(s@, cur + 1, dec_digit_pred());
                let end = dec_run_end(s@, start);
                assert(dec_digit_pred()(s@[cur]));
                assert(end == dec_run_end(s@, cur + 1));
                assert(cur + 1 <= end <= s@.len());
                let head = s@.subrange(start, cur + 1);
                assert(head.drop_last() =~= s@.subrange(start, cur));
                assert(dec_value(head) == w);
                lemma_dec_value_append(head, s@.subrange(cur + 1, end));
                assert(head + s@.subrange(cur + 1, end) =~= s@.subrange(start, end));
                assert(dec_value(s@.subrange(start, end)) > u64::MAX);
            }
            return None;
        }
        v = w as u64;
        i += 1;
        proof {
            assert(s@.subrange(start, i as int).drop_last() =~= s@.subrange(start, cur));
            assert(v as nat == dec_value(s@.subrange(start, i as int)));
        }
    }
    proof {
        assert(dec_run_end(s@, i as int) == i as int);
        lemma_run_end(s@, start, dec_digit_pred());
        assert(dec_digit_pred()(s@[start]));
    }
    Some((v, i))
}

/// A hexadecimal literal: optional case-insensitive `0x` prefix, then one or
/// more hex digits optionally interspersed with `_` separators.
#[verifier::loop_isolation(false)]
pub fn hexadecimal_value(s: &[u8], pos: usize) -> (r: Option<(u64, usize)>)
    requires
        pos <= s@.len(),
    ensures
        r matches Some((v, end)) ==> spec_hex_literal(s@, pos as int) == Some((v, end as int))
            && pos < end <= s@.len(),
        r is None ==> spec_hex_literal(s@, pos as int) is None,
{
    let mut i = pos;
    if pos < s.len() && pos + 1 < s.len() && s[pos] == 48 && (s[pos + 1] == 120 || s[pos + 1]
        == 88) {
        i = pos + 2;
    }
    proof {
        assert(i as int == if hex_prefix_at(s@, pos as int) {
            pos + 2
        } else {
            pos as int
        });
    }
    if !(i < s.len() && byte_is_hex_digit(s[i])) {
        return None;
    }
    let ghost start = i as int;
    let mut v: u64 = 0;
    while i < s.len() && ((48 <= s[i] && s[i] <= 57) || (97 <= s[i] && s[i] <= 102) || (65 <= s[i]
        && s[i] <= 70) || s[i] == 95)
        invariant
            start <= i as int <= s@.len(),
            0 <= start < s@.len(),
            is_hex_digit(s@[start]),
            hex_run_end(s@, start) == hex_run_end(s@, i as int),
            v as nat == hex_run_value(s@.subrange(start, i as int)),
        decreases s@.len() - i,
    {
        let ghost cur = i as int;
        let b = s[i];
        if b != UNDERSCORE {
            assert(is_hex_digit(b));
            if v >= 0x1000000000000000u64 {
                proof {
                    lemma_run_end(s@, cur + 1, hex_run_pred());
                    let end = hex_run_end(s@, start);
                    assert(hex_run_pred()(s@[cur]));
                    assert(end == hex_run_end(s@, cur + 1));
                    assert(cur + 1 <= end <= s@.len());
                    let head = s@.subrange(start, cur + 1);
                    assert(head.drop_last() =~= s@.subrange(start, cur));
                    assert(hex_run_value(head) == v as nat * 16 + hex_digit_val(b));
                    assert(hex_run_value(head) > u64::MAX);
                    lemma_hex_run_value_append(head, s@.subrange(cur + 1, end));
                    assert(head + s@.subrange(cur + 1, end) =~= s@.subrange(start, end));
                    assert(hex_run_value(s@.subrange(start, end)) > u64::MAX);
                }
                return None;
            }
            let d = hex_digit_value(b);
            v = v * 16 + d as u64;
        }
        i += 1;
        proof {
            assert(s@.subrange(start, i as int).drop_last() =~= s@.subrange(start, cur));
            assert(s@.subrange(start, i as int).last() == s@[cur]);
            assert(v as nat == hex_run_value(s@.subrange(start, i as int)));
        }
    }
    proof {
        assert(hex_run_end(s@, i as int) == i as int);
        lemma_run_end(s@, start, hex_run_pred());
        assert(hex_run_pred()(s@[start]));
    }
    Some((v, i))
}

/// The header: the literal `heap_v2/` immediately followed by the decimal
/// sampling rate.
pub fn parse_header(s: &[u8], pos: usize) -> (r: Option<(u64, usize)>)
    requires
        pos <= s@.len(),
    ensures
        r matches Some((v, end)) ==> spec_header(s@, pos as int) == Some((v, end as int)) && pos
            < end <= s@.len(),
        r is None ==> spec_header(s@, pos as int) is None,
{
    if !expect_header_tag(s, pos) {
        return None;
    }
    let n = s.len();
    proof {
        assert(header_tag().len() == 8);
        assert(pos + 8 <= n);
    }
    parse_decimal(s, pos + 8)
}

/// One statistics record:
/// `"t" ID ": " DIGITS ": " DIGITS " [" DIGITS ": " DIGITS "]"`.
pub fn parse_thread(s: &[u8], pos: usize) -> (r: Option<(Thread, usize)>)
    requires
        pos <= s@.len(),
    ensures
        r matches Some((t, end)) ==> spec_thread(s@, pos as int) == Some((t@, end as int)) && pos
            < end <= s@.len(),
        r is None ==> spec_thread(s@, pos as int) is None,
{
    let n = s.len();
    if !(pos < n && s[pos] == 116) {
        return None;
    }
    let idp = pos + 1;
    if !(idp < n && byte_is_id(s[idp])) {
        return None;
    }
    let idend = scan_id(s, idp);
    let id = bytes_to_string(s, idp, idend);
    if !expect_colon_space(s, idend) {
        return None;
    }
    proof {
        assert(colon_space_tag().len() == 2);
        assert(space_bracket_tag().len() == 2);
        assert(idend + 2 <= n);
    }
    let (inuse_count, p1) = match parse_decimal(s, idend + 2) {
        None => {
            return None;
        },
        Some(x) => x,
    };
    if !expect_colon_space(s, p1) {
        return None;
    }
    proof {
        assert(p1 + 2 <= n);
    }
    let (inuse_space, p2) = match parse_decimal(s, p1 + 2) {
        None => {
            return None;
        },
        Some(x) => x,
    };
    if !expect_space_bracket(s, p2) {
        return None;
    }
    proof {
        assert(p2 + 2 <= n);
    }
    let (alloc_count, p3) = match parse_decimal(s, p2 + 2) {
        None => {
            return None;
        },
        Some(x) => x,
    };
    if !expect_colon_space(s, p3) {
        return None;
    }
    proof {
        assert(p3 + 2 <= n);
    }
    let (alloc_space, p4) = match parse_decimal(s, p3 + 2) {
        None => {
            return None;
        },
        Some(x) => x,
    };
    if !(p4 < n && s[p4] == 93) {
        return None;
    }
    let t = Thread { id, inuse_count, inuse_space, alloc_count, alloc_space };
    proof {
        assert(t@ =~= SpecThread {
            id: crate::text::ascii_view(s@.subrange(idp as int, idend as int)),
            inuse_count,
            inuse_space,
            alloc_count,
            alloc_space,
        });
        assert(spec_thread(s@, pos as int) == Some((t@, (p4 + 1) as int)));
    }
    Some((t, p4 + 1))
}

/// One indented, line-terminated statistics record.
pub fn parse_thread_line(s: &[u8], pos: usize) -> (r: Option<(Thread, usize)>)
    requires
        pos <= s@.len(),
    ensures
        r matches Some((t, end)) ==> spec_thread_line(s@, pos as int) == Some((t@, end as int))
            && pos < end <= s@.len(),
        r is None ==> spec_thread_line(s@, pos as int) is None,
{
    if !(pos < s.len() && byte_is_space(s[pos])) {
        return None;
    }
    let p = scan_spaces(s, pos);
    match parse_thread(s, p) {
        None => None,
        Some((t, p2)) => {
            if p2 < s.len() && s[p2] == NEWLINE {
                Some((t, p2 + 1))
            } else {
                None
            }
        },
    }
}

/// One or more statistics lines, greedily consumed.
#[verifier::loop_isolation(false)]
pub fn parse_thread_lines(s: &[u8], pos: usize) -> (r: Option<(Vec<Thread>, usize)>)
    requires
        pos <= s@.len(),
    ensures
        r matches Some((ts, end)) ==> spec_thread_lines(s@, pos as int) == Some(
            (threads_view(ts@), end as int),
        ) && pos < end <= s@.len(),
        r is None ==> spec_thread_lines(s@, pos as int) is None,
{
    let mut out: Vec<Thread> = Vec::new();
    let mut cur = pos;
    let mut stop = false;
    while !stop
        invariant
            pos <= cur <= s@.len(),
            out@.len() == 0 ==> cur == pos,
            out@.len() > 0 ==> pos < cur,
            stop ==> spec_thread_line(s@, cur as int) is None,
            spec_thread_lines(s@, pos as int) == (match spec_thread_lines(s@, cur as int) {
                None => if out@.len() > 0 {
                    Some((threads_view(out@), cur as int))
                } else {
                    None
                },
                Some((ts, e)) => Some((threads_view(out@) + ts, e)),
            }),
        decreases s@.len() - cur + (if stop {
            0int
        } else {
            1int
        }),
    {
        let next = parse_thread_line(s, cur);
        match next {
            None => {
                stop = true;
            },
            Some((t, p)) => {
                let ghost prev = cur as int;
                let ghost prev_out = out@;
                out.push(t);
                cur = p;
                proof {
                    assert(threads_view(out@) =~= threads_view(prev_out).push(t@));
                    if spec_thread_lines(s@, p as int) is Some {
                        let (ts, e) = spec_thread_lines(s@, p as int)->Some_0;
                        assert(spec_thread_lines(s@, prev) == Some((seq![t@] + ts, e)));
                        assert(threads_view(prev_out) + (seq![t@] + ts) =~= threads_view(out@)
                            + ts);
                    } else {
                        assert(spec_thread_lines(s@, prev) == Some((seq![t@], p as int)));
                        assert(threads_view(prev_out) + seq![t@] =~= threads_view(out@));
                    }
                }
            },
        }
    }
    proof {
        assert(spec_thread_lines(s@, cur as int) is None);
    }
    if out.len() == 0 {
        None
    } else {
        Some((out, cur))
    }
}

/// One address of a stack line: whitespace, then a hexadecimal literal.
fn parse_addr_item(s: &[u8], pos: usize) -> (r: Option<(u64, usize)>)
    requires
        pos <= s@.len(),
    ensures
        r matches Some((v, end)) ==> spec_addr_item(s@, pos as int) == Some((v, end as int))
            && pos < end <= s@.len(),
        r is None ==> spec_addr_item(s@, pos as int) is None,
{
    if !(pos < s.len() && byte_is_space(s[pos])) {
        return None;
    }
    let p = scan_spaces(s, pos);
    hexadecimal_value(s, p)
}

/// One or more whitespace-separated addresses, greedily consumed, in source
/// order.
#[verifier::loop_isolation(false)]
fn parse_addrs(s: &[u8], pos: usize) -> (r: Option<(Vec<u64>, usize)>)
    requires
        pos <= s@.len(),
    ensures
        r matches Some((vs, end)) ==> spec_addrs(s@, pos as int) == Some((vs@, end as int)) && pos
            < end <= s@.len(),
        r is None ==> spec_addrs(s@, pos as int) is None,
{
    let mut out: Vec<u64> = Vec::new();
    let mut cur = pos;
    let mut stop = false;
    while !stop
        invariant
            pos <= cur <= s@.len(),
            out@.len() == 0 ==> cur == pos,
            out@.len() > 0 ==> pos < cur,
            stop ==> spec_addr_item(s@, cur as int) is None,
            spec_addrs(s@, pos as int) == (match spec_addrs(s@, cur as int) {
                None => if out@.len() > 0 {
                    Some((out@, cur as int))
                } else {
                    None
                },
                Some((vs, e)) => Some((out@ + vs, e)),
            }),
        decreases s@.len() - cur + (if stop {
            0int
        } else {
            1int
        }),
    {
        let next = parse_addr_item(s, cur);
        match next {
            None => {
                stop = true;
            },
            Some((v, p)) => {
                let ghost prev = cur as int;
                let ghost prev_out = out@;
                out.push(v);
                cur = p;
                proof {
                    if spec_addrs(s@, p as int) is Some {
                        let (vs, e) = spec_addrs(s@, p as int)->Some_0;
                        assert(spec_addrs(s@, prev) == Some((seq![v] + vs, e)));
                        assert(prev_out + (seq![v] + vs) =~= out@ + vs);
                    } else {
                        assert(spec_addrs(s@, prev) == Some((seq![v], p as int)));
                        assert(prev_out + seq![v] =~= out@);
                    }
                }
            },
        }
    }
    if out.len() == 0 {
        None
    } else {
        Some((out, cur))
    }
}

/// The address line of a stack block: the marker `@`, then one or more
/// whitespace-separated addresses.
pub fn parse_stack_addrs(s: &[u8], pos: usize) -> (r: Option<(Vec<u64>, usize)>)
    requires
        pos <= s@.len(),
    ensures
        r matches Some((vs, end)) ==> spec_stack_addrs(s@, pos as int) == Some(
            (vs@, end as int),
        ) && pos < end <= s@.len(),
        r is None ==> spec_stack_addrs(s@, pos as int) is None,
{
    if !(pos < s.len() && s[pos] == 64) {
        return None;
    }
    parse_addrs(s, pos + 1)
}

/// One stack block: an `@` line of addresses, then the block's statistics
/// lines.
pub fn parse_stack(s: &[u8], pos: usize) -> (r: Option<(Stack, usize)>)
    requires
        pos <= s@.len(),
    ensures
        r matches Some((st, end)) ==> spec_stack(s@, pos as int) == Some((st@, end as int)) && pos
            < end <= s@.len(),
        r is None ==> spec_stack(s@, pos as int) is None,
{
    let (addrs, p) = match parse_stack_addrs(s, pos) {
        None => {
            return None;
        },
        Some(x) => x,
    };
    if !(p < s.len() && s[p] == NEWLINE) {
        return None;
    }
    let (threads, p2) = match parse_thread_lines(s, p + 1) {
        None => {
            return None;
        },
        Some(x) => x,
    };
    let st = Stack { addrs, threads };
    proof {
        assert(st@ =~= SpecStack { addrs: addrs@, threads: threads_view(threads@) });
        assert(spec_stack(s@, pos as int) == Some((st@, p2 as int)));
    }
    Some((st, p2))
}

/// One or more stack blocks, greedily consumed.
#[verifier::loop_isolation(false)]
fn parse_stacks(s: &[u8], pos: usize) -> (r: Option<(Vec<Stack>, usize)>)
    requires
        pos <= s@.len(),
    ensures
        r matches Some((sts, end)) ==> spec_stacks(s@, pos as int) == Some(
            (stacks_view(sts@), end as int),
        ) && pos < end <= s@.len(),
        r is None ==> spec_stacks(s@, pos as int) is None,
{
    let mut out: Vec<Stack> = Vec::new();
    let mut cur = pos;
    let mut stop = false;
    while !stop
        invariant
            pos <= cur <= s@.len(),
            out@.len() == 0 ==> cur == pos,
            out@.len() > 0 ==> pos < cur,
            stop ==> spec_stack(s@, cur as int) is None,
            spec_stacks(s@, pos as int) == (match spec_stacks(s@, cur as int) {
                None => if out@.len() > 0 {
                    Some((stacks_view(out@), cur as int))
                } else {
                    None
                },
                Some((sts, e)) => Some((stacks_view(out@) + sts, e)),
            }),
        decreases s@.len() - cur + (if stop {
            0int
        } else {
            1int
        }),
    {
        let next = parse_stack(s, cur);
        match next {
            None => {
                stop = true;
            },
            Some((st, p)) => {
                let ghost prev = cur as int;
                let ghost prev_out = out@;
                out.push(st);
                cur = p;
                proof {
                    assert(stacks_view(out@) =~= stacks_view(prev_out).push(st@));
                    if spec_stacks(s@, p as int) is Some {
                        let (sts, e) = spec_stacks(s@, p as int)->Some_0;
                        assert(spec_stacks(s@, prev) == Some((seq![st@] + sts, e)));
                        assert(stacks_view(prev_out) + (seq![st@] + sts) =~= stacks_view(out@)
                            + sts);
                    } else {
                        assert(spec_stacks(s@, prev) == Some((seq![st@], p as int)));
                        assert(stacks_view(prev_out) + seq![st@] =~= stacks_view(out@));
                    }
                }
            },
        }
    }
    if out.len() == 0 {
        None
    } else {
        Some((out, cur))
    }
}

/// One row of the library table: two addresses, the permission, offset,
/// device and inode columns (validated and discarded), and the backing path.
pub fn parse_mapped_library(s: &[u8], pos: usize) -> (r: Option<(MappedLibrary, usize)>)
    requires
        pos <= s@.len(),
    ensures
        r matches Some((m, end)) ==> spec_mapped_library(s@, pos as int) == Some(
            (m@, end as int),
        ) && pos < end <= s@.len(),
        r is None ==> spec_mapped_library(s@, pos as int) is None,
{
    let n = s.len();
    let (first, p) = match hexadecimal_value(s, pos) {
        None => {
            return None;
        },
        Some(x) => x,
    };
    if !(p < n && s[p] == 45) {
        return None;
    }
    let (last, p2) = match hexadecimal_value(s, p + 1) {
        None => {
            return None;
        },
        Some(x) => x,
    };
    if !(p2 < n && byte_is_space(s[p2])) {
        return None;
    }
    let p3 = scan_spaces(s, p2);
    if n - p3 < 4 {
        return None;
    }
    let p4 = p3 + 4;
    if !(p4 < n && byte_is_space(s[p4])) {
        return None;
    }
    let p5 = scan_spaces(s, p4);
    if n - p5 < 8 {
        return None;
    }
    let hex8 = byte_is_hex_digit(s[p5]) && byte_is_hex_digit(s[p5 + 1]) && byte_is_hex_digit(
        s[p5 + 2],
    ) && byte_is_hex_digit(s[p5 + 3]) && byte_is_hex_digit(s[p5 + 4]) && byte_is_hex_digit(
        s[p5 + 5],
    ) && byte_is_hex_digit(s[p5 + 6]) && byte_is_hex_digit(s[p5 + 7]);
    if !hex8 {
        return None;
    }
    proof {
        assert forall|i: int| p5 <= i < p5 + 8 implies is_hex_digit(#[trigger] s@[i]) by {
            assert(i == p5 || i == p5 + 1 || i == p5 + 2 || i == p5 + 3 || i == p5 + 4 || i == p5
                + 5 || i == p5 + 6 || i == p5 + 7);
        }
    }
    let p6 = p5 + 8;
    if !(p6 < n && byte_is_space(s[p6])) {
        return None;
    }
    let p7 = scan_spaces(s, p6);
    if !(p7 < n && byte_is_dec_digit(s[p7])) {
        return None;
    }
    let p8 = scan_digits(s, p7);
    if !(p8 < n && s[p8] == 58) {
        return None;
    }
    if !(p8 + 1 < n && byte_is_dec_digit(s[p8 + 1])) {
        return None;
    }
    let p9 = scan_digits(s, p8 + 1);
    if !(p9 < n && byte_is_space(s[p9])) {
        return None;
    }
    let p10 = scan_spaces(s, p9);
    if !(p10 < n && byte_is_dec_digit(s[p10])) {
        return None;
    }
    let p11 = scan_digits(s, p10);
    if !(p11 < n && byte_is_space(s[p11])) {
        return None;
    }
    let p12 = scan_spaces(s, p11);
    let pend = scan_line(s, p12);
    let path = bytes_to_string(s, p12, pend);
    let m = MappedLibrary { first, last, path };
    proof {
        assert(m@ =~= SpecMappedLibrary {
            first,
            last,
            path: crate::text::ascii_view(s@.subrange(p12 as int, pend as int)),
        });
        assert(spec_mapped_library(s@, pos as int) == Some((m@, pend as int)));
    }
    Some((m, pend))
}

/// One line-terminated library row.
fn parse_maplib_line(s: &[u8], pos: usize) -> (r: Option<(MappedLibrary, usize)>)
    requires
        pos <= s@.len(),
    ensures
        r matches Some((m, end)) ==> spec_maplib_line(s@, pos as int) == Some((m@, end as int))
            && pos < end <= s@.len(),
        r is None ==> spec_maplib_line(s@, pos as int) is None,
{
    match parse_mapped_library(s, pos) {
        None => None,
        Some((m, p)) => {
            if p < s.len() && s[p] == NEWLINE {
                Some((m, p + 1))
            } else {
                None
            }
        },
    }
}

/// Zero or more library rows, greedily consumed; never fails.
#[verifier::loop_isolation(false)]
fn parse_maplib_lines(s: &[u8], pos: usize) -> (r: (Vec<MappedLibrary>, usize))
    requires
        pos <= s@.len(),
    ensures
        spec_maplib_lines(s@, pos as int) == (maplibs_view(r.0@), r.1 as int),
        pos <= r.1 <= s@.len(),
{
    let mut out: Vec<MappedLibrary> = Vec::new();
    let mut cur = pos;
    let mut stop = false;
    while !stop
        invariant
            pos <= cur <= s@.len(),
            stop ==> spec_maplib_line(s@, cur as int) is None,
            spec_maplib_lines(s@, pos as int) == (
                maplibs_view(out@) + spec_maplib_lines(s@, cur as int).0,
                spec_maplib_lines(s@, cur as int).1,
            ),
        decreases s@.len() - cur + (if stop {
            0int
        } else {
            1int
        }),
    {
        let next = parse_maplib_line(s, cur);
        match next {
            None => {
                stop = true;
            },
            Some((m, p)) => {
                let ghost prev = cur as int;
                let ghost prev_out = out@;
                out.push(m);
                cur = p;
                proof {
                    assert(maplibs_view(out@) =~= maplibs_view(prev_out).push(m@));
                    let (ms, e) = spec_maplib_lines(s@, p as int);
                    assert(spec_maplib_lines(s@, prev) == (seq![m@] + ms, e));
                    assert(maplibs_view(prev_out) + (seq![m@] + ms) =~= maplibs_view(out@) + ms);
                }
            },
        }
    }
    proof {
        assert(maplibs_view(out@) + spec_maplib_lines(s@, cur as int).0 =~= maplibs_view(out@));
    }
    (out, cur)
}

/// Keep the rows whose backing path is not empty, in source order.
#[verifier::loop_isolation(false)]
fn filter_named(libs: Vec<MappedLibrary>) -> (r: Vec<MappedLibrary>)
    ensures
        maplibs_view(r@) == keep_named(maplibs_view(libs@)),
{
    let ghost all = maplibs_view(libs@);
    let mut rest = libs;
    let mut out: Vec<MappedLibrary> = Vec::new();
    while rest.len() > 0
        invariant
            keep_named(all) == maplibs_view(out@) + keep_named(maplibs_view(rest@)),
        decreases rest@.len(),
    {
        let ghost prev_rest = rest@;
        let ghost prev_out = out@;
        let m = rest.remove(0);
        proof {
            assert(prev_rest =~= seq![m] + rest@);
            assert(maplibs_view(prev_rest) =~= seq![m@] + maplibs_view(rest@));
            lemma_keep_named_append(seq![m@], maplibs_view(rest@));
            assert(seq![m@].drop_last() =~= Seq::<SpecMappedLibrary>::empty());
            assert(keep_named(Seq::<SpecMappedLibrary>::empty())
                == Seq::<SpecMappedLibrary>::empty());
            if m@.path.len() > 0 {
                assert(keep_named(seq![m@]) =~= seq![m@]);
            } else {
                assert(keep_named(seq![m@]) =~= Seq::<SpecMappedLibrary>::empty());
            }
        }
        if !m.path.as_str().is_empty() {
            out.push(m);
            proof {
                assert(maplibs_view(out@) =~= maplibs_view(prev_out).push(m@));
                assert(maplibs_view(prev_out) + (seq![m@] + keep_named(maplibs_view(rest@)))
                    =~= maplibs_view(out@) + keep_named(maplibs_view(rest@)));
            }
        } else {
            proof {
                assert(maplibs_view(prev_out) + (Seq::<SpecMappedLibrary>::empty() + keep_named(
                    maplibs_view(rest@),
                )) =~= maplibs_view(out@) + keep_named(maplibs_view(rest@)));
            }
        }
    }
    proof {
        assert(maplibs_view(rest@) =~= Seq::<SpecMappedLibrary>::empty());
        assert(maplibs_view(out@) + keep_named(maplibs_view(rest@)) =~= maplibs_view(out@));
    }
    out
}

/// The whole document, from the first byte of the input. On success the
/// returned position is where structural parsing stopped; trailing text is
/// left unconsumed, as the grammar allows.
pub fn parse_profile(s: &[u8]) -> (r: Option<(Profile, usize)>)
    ensures
        r matches Some((p, end)) ==> spec_profile_doc(s@) == Some((p@, end as int)) && end
            <= s@.len(),
        r is None ==> spec_profile_doc(s@) is None,
{
    let n = s.len();
    let (sampling_rate, p) = match parse_header(s, 0) {
        None => {
            return None;
        },
        Some(x) => x,
    };
    if !(p < n && s[p] == NEWLINE) {
        return None;
    }
    let (totals, p2) = match parse_thread_lines(s, p + 1) {
        None => {
            return None;
        },
        Some(x) => x,
    };
    let (stacks, p3) = match parse_stacks(s, p2) {
        None => {
            return None;
        },
        Some(x) => x,
    };
    let p4 = scan_newlines(s, p3);
    if !expect_marker(s, p4) {
        return None;
    }
    proof {
        assert(marker_tag().len() == 18);
        assert(p4 + 18 <= n);
    }
    let (libs, p5) = parse_maplib_lines(s, p4 + 18);
    let kept = filter_named(libs);
    let prof = Profile { sampling_rate, totals, stacks, mapped_libraries: kept };
    proof {
        assert(prof@ =~= SpecProfile {
            sampling_rate,
            totals: threads_view(totals@),
            stacks: stacks_view(stacks@),
            mapped_libraries: keep_named(maplibs_view(libs@)),
        });
        assert(spec_profile_doc(s@) == Some((prof@, p5 as int)));
    }
    Some((prof, p5))
}

impl Profile {
    /// Parse a complete `heap_v2` dump. An input that does not begin with
    /// the magic token is rejected as `UnsupportedFormat` before any
    /// structural parsing; an input the grammar rejects yields
    /// `ParseFailure`; otherwise the parsed profile is returned whole.
    pub fn parse(profile: &str) -> (r: Result<Profile, ParseError>)
        ensures
            !has_magic(profile.spec_bytes()) ==> (r matches Err(e) && e
                == ParseError::UnsupportedFormat),
            has_magic(profile.spec_bytes()) && spec_profile_doc(profile.spec_bytes()) is None ==> (
            r matches Err(e) && e == ParseError::ParseFailure),
            has_magic(profile.spec_bytes()) ==> (spec_profile_doc(
                profile.spec_bytes(),
            ) matches Some((sp, end)) ==> (r matches Ok(p) && p@ == sp)),
    {
        let s = profile.as_bytes();
        if !expect_magic(s, 0) {
            return Err(ParseError::UnsupportedFormat);
        }
        match parse_profile(s) {
            Some((p, _)) => Ok(p),
            None => Err(ParseError::ParseFailure),
        }
    }
}

} // verus!
