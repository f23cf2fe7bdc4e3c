//! The `heap_v2` grammar, stated as specification functions over the byte
//! sequence of the input.
//!
//! Each `spec_*` function is one rule of the grammar. A rule either rejects
//! the input (`None`) or yields the parsed value together with the position
//! just past what the rule consumed. Every repetition is greedy and the
//! grammar is deterministic, so these functions assign each input exactly one
//! outcome; the executable parsers in [`crate::parse`] are proved to return
//! it.
use crate::text::{
    ascii_view, dec_run_end, dec_value, hex_run_end, hex_run_pred, hex_run_value, id_run_end,
    is_dec_digit, is_hex_digit, is_id_byte, is_space, lemma_run_end, line_run_end,
    newline_run_end, space_pred, space_run_end, tag_at, NEWLINE,
};
use vstd::prelude::*;

verus! {

/// One statistics line: a thread id (digits, or `*` for the cross-thread
/// aggregate) and its four counters.
#[verifier::ext_equal]
pub ghost struct SpecThread {
    pub id: Seq<char>,
    pub inuse_count: u64,
    pub inuse_space: u64,
    pub alloc_count: u64,
    pub alloc_space: u64,
}

/// One call chain: its addresses in source order and its per-thread
/// breakdown.
#[verifier::ext_equal]
pub ghost struct SpecStack {
    pub addrs: Seq<u64>,
    pub threads: Seq<SpecThread>,
}

/// One row of the process memory map: the bounding addresses and the backing
/// path.
#[verifier::ext_equal]
pub ghost struct SpecMappedLibrary {
    pub first: u64,
    pub last: u64,
    pub path: Seq<char>,
}

/// The whole parsed document.
#[verifier::ext_equal]
pub ghost struct SpecProfile {
    pub sampling_rate: u64,
    pub totals: Seq<SpecThread>,
    pub stacks: Seq<SpecStack>,
    pub mapped_libraries: Seq<SpecMappedLibrary>,
}

/// The magic token every supported dump begins with: `heap_v2`.
pub open spec fn magic_tag() -> Seq<u8> {
    seq![104u8, 101u8, 97u8, 112u8, 95u8, 118u8, 50u8]
}

/// The header prefix `heap_v2/`.
pub open spec fn header_tag() -> Seq<u8> {
    seq![104u8, 101u8, 97u8, 112u8, 95u8, 118u8, 50u8, 47u8]
}

/// The field separator `: ` of a statistics line.
pub open spec fn colon_space_tag() -> Seq<u8> {
    seq![58u8, 32u8]
}

/// The ` [` opening the cumulative pair of a statistics line.
pub open spec fn space_bracket_tag() -> Seq<u8> {
    seq![32u8, 91u8]
}

/// The marker line `MAPPED_LIBRARIES:` introducing the library table,
/// including its line terminator.
pub open spec fn marker_tag() -> Seq<u8> {
    seq![
        77u8,
        65u8,
        80u8,
        80u8,
        69u8,
        68u8,
        95u8,
        76u8,
        73u8,
        66u8,
        82u8,
        65u8,
        82u8,
        73u8,
        69u8,
        83u8,
        58u8,
        10u8,
    ]
}

/// An optional case-insensitive `0x` prefix stands at `pos`.
pub open spec fn hex_prefix_at(s: Seq<u8>, pos: int) -> bool {
    &&& 0 <= pos
    &&& pos + 2 <= s.len()
    &&& s[pos] == 48
    &&& (s[pos + 1] == 120 || s[pos + 1] == 88)
}

/// A hexadecimal literal: optional `0x`/`0X` prefix, then one or more hex
/// digits optionally interspersed with `_` separators, greedily consumed.
/// Rejected when no digit follows the prefix or the value exceeds 64 bits.
pub open spec fn spec_hex_literal(s: Seq<u8>, pos: int) -> Option<(u64, int)> {
    let start = if hex_prefix_at(s, pos) {
        pos + 2
    } else {
        pos
    };
    if 0 <= start < s.len() && is_hex_digit(s[start]) {
        let end = hex_run_end(s, start);
        let v = hex_run_value(s.subrange(start, end));
        if v <= u64::MAX {
            Some((v as u64, end))
        } else {
            None
        }
    } else {
        None
    }
}

/// A run of one or more decimal digits, read as an unsigned 64-bit number.
/// Rejected when no digit stands at `pos` or the value exceeds 64 bits.
pub open spec fn spec_decimal(s: Seq<u8>, pos: int) -> Option<(u64, int)> {
    if 0 <= pos < s.len() && is_dec_digit(s[pos]) {
        let end = dec_run_end(s, pos);
        let v = dec_value(s.subrange(pos, end));
        if v <= u64::MAX {
            Some((v as u64, end))
        } else {
            None
        }
    } else {
        None
    }
}

/// The header: the literal `heap_v2/` immediately followed by the decimal
/// sampling rate.
pub open spec fn spec_header(s: Seq<u8>, pos: int) -> Option<(u64, int)> {
    if tag_at(s, pos, header_tag()) {
        spec_decimal(s, pos + 8)
    } else {
        None
    }
}

/// One statistics record:
/// `"t" ID ": " DIGITS ": " DIGITS " [" DIGITS ": " DIGITS "]"`.
pub open spec fn spec_thread(s: Seq<u8>, pos: int) -> Option<(SpecThread, int)> {
    if !(0 <= pos < s.len() && s[pos] == 116) {
        None
    } else {
        let idp = pos + 1;
        if !(idp < s.len() && is_id_byte(s[idp])) {
            None
        } else {
            let idend = id_run_end(s, idp);
            let id = ascii_view(s.subrange(idp, idend));
            if !tag_at(s, idend, colon_space_tag()) {
                None
            } else {
                match spec_decimal(s, idend + 2) {
                    None => None,
                    Some((inuse_count, p1)) => if !tag_at(s, p1, colon_space_tag()) {
                        None
                    } else {
                        match spec_decimal(s, p1 + 2) {
                            None => None,
                            Some((inuse_space, p2)) => if !tag_at(s, p2, space_bracket_tag()) {
                                None
                            } else {
                                match spec_decimal(s, p2 + 2) {
                                    None => None,
                                    Some((alloc_count, p3)) => if !tag_at(
                                        s,
                                        p3,
                                        colon_space_tag(),
                                    ) {
                                        None
                                    } else {
                                        match spec_decimal(s, p3 + 2) {
                                            None => None,
                                            Some((alloc_space, p4)) => if !(p4 < s.len() && s[p4]
                                                == 93) {
                                                None
                                            } else {
                                                Some(
                                                    (
                                                        SpecThread {
                                                            id,
                                                            inuse_count,
                                                            inuse_space,
                                                            alloc_count,
                                                            alloc_space,
                                                        },
                                                        p4 + 1,
                                                    ),
                                                )
                                            },
                                        }
                                    },
                                }
                            },
                        }
                    },
                }
            }
        }
    }
}

/// One indented, line-terminated statistics record.
pub open spec fn spec_thread_line(s: Seq<u8>, pos: int) -> Option<(SpecThread, int)> {
    if !(0 <= pos < s.len() && is_space(s[pos])) {
        None
    } else {
        let p = space_run_end(s, pos);
        match spec_thread(s, p) {
            None => None,
            Some((t, p2)) => if p2 < s.len() && s[p2] == NEWLINE {
                Some((t, p2 + 1))
            } else {
                None
            },
        }
    }
}

/// One or more statistics lines, greedily consumed.
pub open spec fn spec_thread_lines(s: Seq<u8>, pos: int) -> Option<(Seq<SpecThread>, int)>
    decreases s.len() - pos,
{
    match spec_thread_line(s, pos) {
        None => None,
        Some((t, p)) => if !(pos < p <= s.len()) {
            None
        } else {
            match spec_thread_lines(s, p) {
                None => Some((seq![t], p)),
                Some((ts, p2)) => Some((seq![t] + ts, p2)),
            }
        },
    }
}

/// One address of a stack line: whitespace, then a hexadecimal literal.
pub open spec fn spec_addr_item(s: Seq<u8>, pos: int) -> Option<(u64, int)> {
    if !(0 <= pos < s.len() && is_space(s[pos])) {
        None
    } else {
        spec_hex_literal(s, space_run_end(s, pos))
    }
}

/// One or more whitespace-separated addresses, greedily consumed, in source
/// order.
pub open spec fn spec_addrs(s: Seq<u8>, pos: int) -> Option<(Seq<u64>, int)>
    decreases s.len() - pos,
{
    match spec_addr_item(s, pos) {
        None => None,
        Some((v, p)) => if !(pos < p <= s.len()) {
            None
        } else {
            match spec_addrs(s, p) {
                None => Some((seq![v], p)),
                Some((vs, p2)) => Some((seq![v] + vs, p2)),
            }
        },
    }
}

/// The address line of a stack block: the marker `@`, then one or more
/// whitespace-separated addresses.
pub open spec fn spec_stack_addrs(s: Seq<u8>, pos: int) -> Option<(Seq<u64>, int)> {
    if !(0 <= pos < s.len() && s[pos] == 64) {
        None
    } else {
        spec_addrs(s, pos + 1)
    }
}

/// One stack block: an `@` line of addresses, then the block's statistics
/// lines.
pub open spec fn spec_stack(s: Seq<u8>, pos: int) -> Option<(SpecStack, int)> {
    match spec_stack_addrs(s, pos) {
        None => None,
        Some((addrs, p)) => if !(p < s.len() && s[p] == NEWLINE) {
            None
        } else {
            match spec_thread_lines(s, p + 1) {
                None => None,
                Some((threads, p2)) => Some((SpecStack { addrs, threads }, p2)),
            }
        },
    }
}

/// One or more stack blocks, greedily consumed.
pub open spec fn spec_stacks(s: Seq<u8>, pos: int) -> Option<(Seq<SpecStack>, int)>
    decreases s.len() - pos,
{
    match spec_stack(s, pos) {
        None => None,
        Some((st, p)) => if !(pos < p <= s.len()) {
            None
        } else {
            match spec_stacks(s, p) {
                None => Some((seq![st], p)),
                Some((sts, p2)) => Some((seq![st] + sts, p2)),
            }
        },
    }
}

/// One row of the library table:
/// `ADDR "-" ADDR WS PERM(4 bytes) WS OFFSET(8 hex digits) WS MAJOR ":"
/// MINOR WS INODE WS PATH`, where the path is the rest of the line verbatim.
pub open spec fn spec_mapped_library(s: Seq<u8>, pos: int) -> Option<(SpecMappedLibrary, int)> {
    match spec_hex_literal(s, pos) {
        None => None,
        Some((first, p)) => if !(p < s.len() && s[p] == 45) {
            None
        } else {
            match spec_hex_literal(s, p + 1) {
                None => None,
                Some((last, p2)) => if !(p2 < s.len() && is_space(s[p2])) {
                    None
                } else {
                    let p3 = space_run_end(s, p2);
                    if !(p3 + 4 <= s.len()) {
                        None
                    } else {
                        let p4 = p3 + 4;
                        if !(p4 < s.len() && is_space(s[p4])) {
                            None
                        } else {
                            let p5 = space_run_end(s, p4);
                            if !(p5 + 8 <= s.len() && (forall|i: int|
                                p5 <= i < p5 + 8 ==> is_hex_digit(#[trigger] s[i]))) {
                                None
                            } else {
                                let p6 = p5 + 8;
                                if !(p6 < s.len() && is_space(s[p6])) {
                                    None
                                } else {
                                    let p7 = space_run_end(s, p6);
                                    if !(p7 < s.len() && is_dec_digit(s[p7])) {
                                        None
                                    } else {
                                        let p8 = dec_run_end(s, p7);
                                        if !(p8 < s.len() && s[p8] == 58) {
                                            None
                                        } else {
                                            if !(p8 + 1 < s.len() && is_dec_digit(s[p8 + 1])) {
                                                None
                                            } else {
                                                let p9 = dec_run_end(s, p8 + 1);
                                                if !(p9 < s.len() && is_space(s[p9])) {
                                                    None
                                                } else {
                                                    let p10 = space_run_end(s, p9);
                                                    if !(p10 < s.len() && is_dec_digit(s[p10])) {
                                                        None
                                                    } else {
                                                        let p11 = dec_run_end(s, p10);
                                                        if !(p11 < s.len() && is_space(s[p11])) {
                                                            None
                                                        } else {
                                                            let p12 = space_run_end(s, p11);
                                                            let pend = line_run_end(s, p12);
                                                            Some(
                                                                (
                                                                    SpecMappedLibrary {
                                                                        first,
                                                                        last,
                                                                        path: ascii_view(
                                                                            s.subrange(p12, pend),
                                                                        ),
                                                                    },
                                                                    pend,
                                                                ),
                                                            )
                                                        }
                                                    }
                                                }
                                            }
                                        }
                                    }
                                }
                            }
                        }
                    }
                },
            }
        },
    }
}

/// One line-terminated library row.
pub open spec fn spec_maplib_line(s: Seq<u8>, pos: int) -> Option<(SpecMappedLibrary, int)> {
    match spec_mapped_library(s, pos) {
        None => None,
        Some((m, p)) => if p < s.len() && s[p] == NEWLINE {
            Some((m, p + 1))
        } else {
            None
        },
    }
}

/// Zero or more library rows, greedily consumed; never fails.
pub open spec fn spec_maplib_lines(s: Seq<u8>, pos: int) -> (Seq<SpecMappedLibrary>, int)
    decreases s.len() - pos,
{
    match spec_maplib_line(s, pos) {
        None => (Seq::empty(), pos),
        Some((m, p)) => if !(pos < p <= s.len()) {
            (Seq::empty(), pos)
        } else {
            let (ms, p2) = spec_maplib_lines(s, p);
            (seq![m] + ms, p2)
        },
    }
}

/// The library rows whose backing path is not empty, in source order.
pub open spec fn keep_named(ms: Seq<SpecMappedLibrary>) -> Seq<SpecMappedLibrary>
    decreases ms.len(),
{
    if ms.len() == 0 {
        Seq::empty()
    } else {
        let rest = keep_named(ms.drop_last());
        if ms.last().path.len() > 0 {
            rest.push(ms.last())
        } else {
            rest
        }
    }
}

/// Filtering distributes over concatenation.
pub proof fn lemma_keep_named_append(a: Seq<SpecMappedLibrary>, b: Seq<SpecMappedLibrary>)
    ensures
        keep_named(a + b) == keep_named(a) + keep_named(b),
    decreases b.len(),
{
    if b.len() == 0 {
        assert(a + b =~= a);
        assert(keep_named(a) + keep_named(b) =~= keep_named(a));
    } else {
        lemma_keep_named_append(a, b.drop_last());
        assert((a + b).drop_last() =~= a + b.drop_last());
        if b.last().path.len() > 0 {
            assert(keep_named(a) + keep_named(b) =~= (keep_named(a) + keep_named(
                b.drop_last(),
            )).push(b.last()));
        }
    }
}

/// The whole document: header, totals block, stack blocks, optional blank
/// lines, the `MAPPED_LIBRARIES:` marker, and the library table, of which
/// only rows with a non-empty path are kept. The position returned is where
/// structural parsing stopped; trailing text beyond it is left unconsumed.
pub open spec fn spec_profile_doc(s: Seq<u8>) -> Option<(SpecProfile, int)> {
    match spec_header(s, 0) {
        None => None,
        Some((sampling_rate, p)) => if !(p < s.len() && s[p] == NEWLINE) {
            None
        } else {
            match spec_thread_lines(s, p + 1) {
                None => None,
                Some((totals, p2)) => match spec_stacks(s, p2) {
                    None => None,
                    Some((stacks, p3)) => {
                        let p4 = newline_run_end(s, p3);
                        if !tag_at(s, p4, marker_tag()) {
                            None
                        } else {
                            let (ms, p5) = spec_maplib_lines(s, p4 + 18);
                            Some(
                                (
                                    SpecProfile {
                                        sampling_rate,
                                        totals,
                                        stacks,
                                        mapped_libraries: keep_named(ms),
                                    },
                                    p5,
                                ),
                            )
                        }
                    },
                },
            }
        },
    }
}

/// A document is supported exactly when it begins with the magic token.
pub open spec fn has_magic(s: Seq<u8>) -> bool {
    tag_at(s, 0, magic_tag())
}

/// A successful hexadecimal literal consumes at least one byte and stays in
/// bounds.
pub proof fn lemma_hex_literal_advances(s: Seq<u8>, pos: int)
    requires
        0 <= pos <= s.len(),
    ensures
        spec_hex_literal(s, pos) matches Some((v, end)) ==> pos < end <= s.len(),
{
    let start = if hex_prefix_at(s, pos) {
        pos + 2
    } else {
        pos
    };
    if 0 <= start < s.len() && is_hex_digit(s[start]) {
        lemma_run_end(s, start, hex_run_pred());
        assert(hex_run_pred()(s[start]));
        assert(hex_run_end(s, start) > start) by {
            if hex_run_end(s, start) == start {
                assert(!hex_run_pred()(s[start]));
            }
        }
    }
}

/// A successful address item consumes at least one byte and stays in bounds.
pub proof fn lemma_addr_item_advances(s: Seq<u8>, pos: int)
    requires
        0 <= pos <= s.len(),
    ensures
        spec_addr_item(s, pos) matches Some((v, end)) ==> pos < end <= s.len(),
{
    if 0 <= pos < s.len() && is_space(s[pos]) {
        lemma_run_end(s, pos, space_pred());
        lemma_hex_literal_advances(s, space_run_end(s, pos));
    }
}

} // verus!
