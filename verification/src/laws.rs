//! Properties of the grammar that hold for every input, stated and proved
//! once and for all.
use crate::grammar::{
    header_tag, hex_prefix_at, keep_named, lemma_addr_item_advances, marker_tag, spec_addr_item,
    spec_addrs, spec_header, spec_hex_literal, spec_maplib_line, spec_maplib_lines,
    spec_mapped_library, spec_profile_doc, spec_stack, spec_stack_addrs, spec_stacks, spec_thread,
    spec_thread_line, spec_thread_lines, SpecMappedLibrary, SpecProfile, SpecStack, SpecThread,
};
use crate::text::{
    ascii_view, dec_digit_pred, dec_digit_val, dec_value, hex_run_pred, hex_run_value, id_pred,
    is_dec_digit, is_hex_digit, is_id_byte, is_space, is_upper_hex_letter, lemma_run_end_of,
    newline_pred, newline_run_end, space_pred, tag_at, NEWLINE, STAR, UNDERSCORE,
};
use vstd::prelude::*;

verus! {

/// A statistics record whose id token is exactly `*` — the byte after the
/// star ends the id run — decodes to the literal id `"*"`: the aggregate
/// token is never conflated with a numeric id.
pub proof fn lemma_aggregate_id(s: Seq<u8>, pos: int)
    requires
        0 <= pos,
        pos + 3 <= s.len(),
        s[pos] == 116,
        s[pos + 1] == STAR,
        !is_id_byte(s[pos + 2]),
    ensures
        spec_thread(s, pos) matches Some((t, end)) ==> t.id == seq!['*'],
{
    assert(id_pred()(s[pos + 1]));
    lemma_run_end_of(s, pos + 1, pos + 2, id_pred());
    assert(s.subrange(pos + 1, pos + 2) =~= seq![STAR]);
    assert(ascii_view(seq![STAR]) =~= seq!['*']);
}

/// Lower-case the hexadecimal letters of a byte sequence.
pub open spec fn lower_hex_byte(b: u8) -> u8 {
    if is_upper_hex_letter(b) {
        (b + 32) as u8
    } else {
        b
    }
}

pub open spec fn lower_hex(rs: Seq<u8>) -> Seq<u8> {
    rs.map(|i: int, b: u8| lower_hex_byte(b))
}

/// Hexadecimal decoding is case-insensitive: lower-casing every letter of a
/// run leaves its value unchanged.
pub proof fn lemma_hex_case_insensitive(rs: Seq<u8>)
    ensures
        hex_run_value(lower_hex(rs)) == hex_run_value(rs),
    decreases rs.len(),
{
    if rs.len() == 0 {
        assert(lower_hex(rs) =~= rs);
    } else {
        lemma_hex_case_insensitive(rs.drop_last());
        assert(lower_hex(rs).drop_last() =~= lower_hex(rs.drop_last()));
        assert(lower_hex(rs).last() == lower_hex_byte(rs.last()));
    }
}

/// The `0x` prefix of a hexadecimal literal is optional: a prefixed literal
/// decodes exactly as the literal that starts after the prefix (provided the
/// digits do not themselves begin with another prefix).
pub proof fn lemma_hex_prefix_optional(s: Seq<u8>, pos: int)
    requires
        hex_prefix_at(s, pos),
        !hex_prefix_at(s, pos + 2),
    ensures
        spec_hex_literal(s, pos) == spec_hex_literal(s, pos + 2),
{
}

/// Underscore separators are ignored: inserting one anywhere inside a
/// hexadecimal run leaves its value unchanged.
pub proof fn lemma_separators_ignored(a: Seq<u8>, b: Seq<u8>)
    ensures
        hex_run_value(a + seq![UNDERSCORE] + b) == hex_run_value(a + b),
    decreases b.len(),
{
    if b.len() == 0 {
        assert(a + seq![UNDERSCORE] + b =~= a + seq![UNDERSCORE]);
        assert((a + seq![UNDERSCORE]).drop_last() =~= a);
        assert((a + seq![UNDERSCORE]).last() == UNDERSCORE);
        assert(a + b =~= a);
    } else {
        lemma_separators_ignored(a, b.drop_last());
        assert((a + seq![UNDERSCORE] + b).drop_last() =~= a + seq![UNDERSCORE] + b.drop_last());
        assert((a + b).drop_last() =~= a + b.drop_last());
        assert((a + seq![UNDERSCORE] + b).last() == b.last());
        assert((a + b).last() == b.last());
    }
}

/// An address list preserves source order exactly: the first token's value
/// stands first, and the remaining tokens follow unchanged — nothing is
/// reversed or sorted.
pub proof fn lemma_addrs_source_order(s: Seq<u8>, pos: int)
    requires
        0 <= pos <= s.len(),
        spec_addr_item(s, pos) is Some,
    ensures
        spec_addr_item(s, pos) matches Some((v, p)) ==> (spec_addrs(s, p) is None ==> spec_addrs(
            s,
            pos,
        ) == Some((seq![v], p))),
        spec_addr_item(s, pos) matches Some((v, p)) ==> (spec_addrs(s, p) matches Some((vs, e))
            ==> spec_addrs(s, pos) == Some((seq![v] + vs, e))),
{
    lemma_addr_item_advances(s, pos);
    let (v, p) = spec_addr_item(s, pos)->Some_0;
    assert(spec_addr_item(s, pos) == Some((v, p)));
    assert(pos < p <= s.len());
    if spec_addrs(s, p) is Some {
        let (vs, e) = spec_addrs(s, p)->Some_0;
        assert(spec_addrs(s, p) == Some((vs, e)));
        assert(spec_addrs(s, pos) == Some((seq![v] + vs, e)));
    } else {
        assert(spec_addrs(s, pos) == Some((seq![v], p)));
    }
}

/// Every row that filtering keeps has a non-empty path.
pub proof fn lemma_kept_paths_nonempty(ms: Seq<SpecMappedLibrary>)
    ensures
        forall|i: int|
            0 <= i < keep_named(ms).len() ==> #[trigger] keep_named(ms)[i].path.len() > 0,
    decreases ms.len(),
{
    if ms.len() > 0 {
        lemma_kept_paths_nonempty(ms.drop_last());
        let rest = keep_named(ms.drop_last());
        assert forall|i: int|
            0 <= i < keep_named(ms).len() implies #[trigger] keep_named(ms)[i].path.len() > 0 by {
            if ms.last().path.len() > 0 {
                assert(keep_named(ms) == rest.push(ms.last()));
                if i < rest.len() {
                    assert(keep_named(ms)[i] == rest[i]);
                } else {
                    assert(keep_named(ms)[i] == ms.last());
                }
            } else {
                assert(keep_named(ms) == rest);
            }
        }
    }
}

/// Filtering drops nothing else: a table whose rows all have non-empty paths
/// is kept whole.
pub proof fn lemma_named_rows_kept(ms: Seq<SpecMappedLibrary>)
    requires
        forall|i: int| 0 <= i < ms.len() ==> #[trigger] ms[i].path.len() > 0,
    ensures
        keep_named(ms) == ms,
    decreases ms.len(),
{
    if ms.len() == 0 {
        assert(keep_named(ms) =~= ms);
    } else {
        lemma_named_rows_kept(ms.drop_last());
        assert(keep_named(ms) =~= ms);
    }
}

/// Rows with an empty path are absent from every parsed profile.
pub proof fn lemma_profile_paths_nonempty(s: Seq<u8>)
    ensures
        spec_profile_doc(s) matches Some((p, end)) ==> forall|i: int|
            0 <= i < p.mapped_libraries.len() ==> #[trigger] p.mapped_libraries[i].path.len() > 0,
{
    if spec_profile_doc(s) is Some {
        let (rate, p) = spec_header(s, 0)->Some_0;
        let (totals, p2) = spec_thread_lines(s, p + 1)->Some_0;
        let (stacks, p3) = spec_stacks(s, p2)->Some_0;
        let p4 = newline_run_end(s, p3);
        let (ms, p5) = spec_maplib_lines(s, p4 + 18);
        lemma_kept_paths_nonempty(ms);
    }
}

/// The canonical decimal digits of a number, most significant first.
pub open spec fn dec_repr(v: nat) -> Seq<u8>
    decreases v,
{
    if v < 10 {
        seq![(48 + v) as u8]
    } else {
        dec_repr(v / 10).push((48 + v % 10) as u8)
    }
}

pub proof fn lemma_dec_repr(v: nat)
    ensures
        dec_repr(v).len() >= 1,
        forall|i: int| 0 <= i < dec_repr(v).len() ==> is_dec_digit(#[trigger] dec_repr(v)[i]),
        dec_value(dec_repr(v)) == v,
    decreases v,
{
    if v < 10 {
        assert(dec_value(Seq::<u8>::empty()) == 0);
        assert(dec_repr(v).drop_last() =~= Seq::<u8>::empty());
    } else {
        lemma_dec_repr(v / 10);
        let prefix = dec_repr(v / 10);
        let d = (48 + v % 10) as u8;
        assert(dec_repr(v).drop_last() =~= prefix);
        assert(dec_repr(v).last() == d);
        assert(dec_value(dec_repr(v)) == dec_value(prefix) * 10 + dec_digit_val(d));
        assert(v / 10 * 10 + v % 10 == v);
        assert forall|i: int|
            0 <= i < dec_repr(v).len() implies is_dec_digit(#[trigger] dec_repr(v)[i]) by {
            if i < prefix.len() {
                assert(dec_repr(v)[i] == prefix[i]);
            } else {
                assert(dec_repr(v)[i] == d);
            }
        }
    }
}

/// The bytes of one indented all-zero aggregate statistics line,
/// `"  t*: 0: 0 [0: 0]\n"`.
pub open spec fn total_line_tag() -> Seq<u8> {
    seq![
        32u8,
        32u8,
        116u8,
        42u8,
        58u8,
        32u8,
        48u8,
        58u8,
        32u8,
        48u8,
        32u8,
        91u8,
        48u8,
        58u8,
        32u8,
        48u8,
        93u8,
        10u8,
    ]
}

/// The bytes of a one-address stack line, `"@ 0\n"`.
pub open spec fn stack_line_tag() -> Seq<u8> {
    seq![64u8, 32u8, 48u8, 10u8]
}

/// The statistics record that `total_line_tag` denotes: the aggregate id
/// with all four counters zero.
pub open spec fn zero_star_thread() -> SpecThread {
    SpecThread { id: seq!['*'], inuse_count: 0, inuse_space: 0, alloc_count: 0, alloc_space: 0 }
}

/// A minimal well-formed document with the given sampling rate: the header,
/// one aggregate totals line, one stack of one address with one statistics
/// line, and an empty library table.
pub open spec fn minimal_doc(rate: u64) -> Seq<u8> {
    header_tag() + dec_repr(rate as nat) + minimal_tail()
}

pub open spec fn minimal_tail() -> Seq<u8> {
    seq![NEWLINE] + total_line_tag() + stack_line_tag() + total_line_tag() + marker_tag()
}

/// Wherever the bytes of `total_line_tag` stand, they parse as one
/// statistics line yielding `zero_star_thread`.
pub proof fn lemma_total_line(s: Seq<u8>, q: int)
    requires
        tag_at(s, q, total_line_tag()),
    ensures
        spec_thread_line(s, q) == Some((zero_star_thread(), q + 18)),
{
    assert(total_line_tag().len() == 18);
    assert(s[q] == 32 && s[q + 1] == 32 && s[q + 2] == 116 && s[q + 3] == 42 && s[q + 4] == 58
        && s[q + 5] == 32 && s[q + 6] == 48 && s[q + 7] == 58 && s[q + 8] == 32 && s[q + 9] == 48
        && s[q + 10] == 32 && s[q + 11] == 91 && s[q + 12] == 48 && s[q + 13] == 58 && s[q + 14]
        == 32 && s[q + 15] == 48 && s[q + 16] == 93 && s[q + 17] == 10);
    assert(dec_value(Seq::<u8>::empty()) == 0);
    // the indentation run
    assert forall|i: int| q <= i < q + 2 implies #[trigger] space_pred()(s[i]) by {
        assert(i == q || i == q + 1);
    }
    assert(!space_pred()(s[q + 2]));
    lemma_run_end_of(s, q, q + 2, space_pred());
    // the id run
    assert(id_pred()(s[q + 3]));
    assert(!id_pred()(s[q + 4]));
    lemma_run_end_of(s, q + 3, q + 4, id_pred());
    assert(s.subrange(q + 3, q + 4) =~= seq![42u8]);
    assert(ascii_view(seq![42u8]) =~= seq!['*']);
    // the four zero counters
    assert(dec_digit_pred()(s[q + 6]) && !dec_digit_pred()(s[q + 7]));
    lemma_run_end_of(s, q + 6, q + 7, dec_digit_pred());
    assert(s.subrange(q + 6, q + 7) =~= seq![48u8]);
    assert(dec_value(seq![48u8]) == 0) by {
        assert(seq![48u8].drop_last() =~= Seq::<u8>::empty());
    }
    assert(dec_digit_pred()(s[q + 9]) && !dec_digit_pred()(s[q + 10]));
    lemma_run_end_of(s, q + 9, q + 10, dec_digit_pred());
    assert(s.subrange(q + 9, q + 10) =~= seq![48u8]);
    assert(dec_digit_pred()(s[q + 12]) && !dec_digit_pred()(s[q + 13]));
    lemma_run_end_of(s, q + 12, q + 13, dec_digit_pred());
    assert(s.subrange(q + 12, q + 13) =~= seq![48u8]);
    assert(dec_digit_pred()(s[q + 15]) && !dec_digit_pred()(s[q + 16]));
    lemma_run_end_of(s, q + 15, q + 16, dec_digit_pred());
    assert(s.subrange(q + 15, q + 16) =~= seq![48u8]);
    // the separators
    assert(tag_at(s, q + 4, crate::grammar::colon_space_tag()));
    assert(tag_at(s, q + 7, crate::grammar::colon_space_tag()));
    assert(tag_at(s, q + 10, crate::grammar::space_bracket_tag()));
    assert(tag_at(s, q + 13, crate::grammar::colon_space_tag()));
    assert(spec_thread(s, q + 2) == Some((zero_star_thread(), q + 17)));
}

/// The position just past the sampling-rate digits of the minimal document.
pub open spec fn minimal_base(rate: u64) -> int {
    8 + dec_repr(rate as nat).len() as int
}

/// The byte layout of the minimal document: where its header, digits,
/// statistics lines, stack line and marker stand.
#[verifier::rlimit(60)]
#[verifier::spinoff_prover]
pub proof fn lemma_minimal_layout(rate: u64)
    ensures
        ({
            let s = minimal_doc(rate);
            let base = minimal_base(rate);
            &&& s.len() == base + 59
            &&& 9 <= base
            &&& tag_at(s, 0, header_tag())
            &&& s.subrange(8, base) == dec_repr(rate as nat)
            &&& s[base] == NEWLINE
            &&& tag_at(s, base + 1, total_line_tag())
            &&& s[base + 19] == 64
            &&& s[base + 20] == 32
            &&& s[base + 21] == 48
            &&& s[base + 22] == 10
            &&& tag_at(s, base + 23, total_line_tag())
            &&& s[base + 41] == 77
            &&& tag_at(s, base + 41, marker_tag())
        }),
{
    let s = minimal_doc(rate);
    let rep = dec_repr(rate as nat);
    lemma_dec_repr(rate as nat);
    let k = rep.len() as int;
    let base = minimal_base(rate);
    assert(header_tag().len() == 8 && total_line_tag().len() == 18 && stack_line_tag().len() == 4
        && marker_tag().len() == 18 && minimal_tail().len() == 59);
    assert(s.len() == base + 59);
    assert forall|i: int| 0 <= i < 8 implies s[i] == header_tag()[i] by {}
    assert forall|i: int| 0 <= i < k implies s[8 + i] == rep[i] by {}
    assert forall|j: int| 0 <= j < 59 implies s[base + j] == minimal_tail()[j] by {}
    assert(tag_at(s, 0, header_tag()));
    assert(s.subrange(8, base) =~= rep);
    assert(s[base] == NEWLINE);
    assert(tag_at(s, base + 1, total_line_tag())) by {
        assert forall|i: int|
            0 <= i < 18 implies s[base + 1 + i] == #[trigger] total_line_tag()[i] by {
            assert(minimal_tail()[1 + i] == total_line_tag()[i]);
        }
    }
    assert(minimal_tail()[19] == 64 && minimal_tail()[20] == 32 && minimal_tail()[21] == 48
        && minimal_tail()[22] == 10);
    assert(tag_at(s, base + 23, total_line_tag())) by {
        assert forall|i: int|
            0 <= i < 18 implies s[base + 23 + i] == #[trigger] total_line_tag()[i] by {
            assert(minimal_tail()[23 + i] == total_line_tag()[i]);
        }
    }
    assert(minimal_tail()[41] == 77);
    assert(tag_at(s, base + 41, marker_tag())) by {
        assert forall|i: int|
            0 <= i < 18 implies s[base + 41 + i] == #[trigger] marker_tag()[i] by {
            assert(minimal_tail()[41 + i] == marker_tag()[i]);
        }
    }
}

/// The header of the minimal document yields exactly the chosen rate.
#[verifier::rlimit(60)]
#[verifier::spinoff_prover]
pub proof fn lemma_minimal_header(rate: u64)
    ensures
        spec_header(minimal_doc(rate), 0) == Some((rate, minimal_base(rate))),
{
    let s = minimal_doc(rate);
    let rep = dec_repr(rate as nat);
    lemma_dec_repr(rate as nat);
    let base = minimal_base(rate);
    lemma_minimal_layout(rate);
    assert(is_dec_digit(s[8])) by {
        assert(s[8] == s.subrange(8, base)[0]);
    }
    assert forall|i: int| 8 <= i < base implies #[trigger] dec_digit_pred()(s[i]) by {
        assert(s[i] == s.subrange(8, base)[i - 8]);
    }
    assert(!dec_digit_pred()(s[base]));
    lemma_run_end_of(s, 8, base, dec_digit_pred());
    assert(dec_value(s.subrange(8, base)) == rate as nat);
    assert(spec_header(s, 0) == Some((rate, base)));
}

/// Just the bytes of the stack line of the minimal document, and its size.
#[verifier::spinoff_prover]
pub proof fn lemma_minimal_stack_bytes(rate: u64)
    ensures
        ({
            let s = minimal_doc(rate);
            let base = minimal_base(rate);
            &&& s.len() == base + 59
            &&& 9 <= base
            &&& s[base + 19] == 64
            &&& s[base + 20] == 32
            &&& s[base + 21] == 48
            &&& s[base + 22] == 10
            &&& s[base + 41] == 77
        }),
{
    lemma_minimal_layout(rate);
}

/// The address line of the minimal document's one stack block.
#[verifier::rlimit(60)]
#[verifier::spinoff_prover]
pub proof fn lemma_minimal_addrs(rate: u64)
    ensures
        spec_stack_addrs(minimal_doc(rate), minimal_base(rate) + 19) == Some(
            (seq![0u64], minimal_base(rate) + 22),
        ),
{
    let s = minimal_doc(rate);
    let base = minimal_base(rate);
    lemma_minimal_stack_bytes(rate);
    assert(space_pred()(s[base + 20]) && !space_pred()(s[base + 21]));
    lemma_run_end_of(s, base + 20, base + 21, space_pred());
    assert(!hex_prefix_at(s, base + 21));
    assert(is_hex_digit(s[base + 21]));
    assert(hex_run_pred()(s[base + 21]) && !hex_run_pred()(s[base + 22]));
    lemma_run_end_of(s, base + 21, base + 22, hex_run_pred());
    assert(s.subrange(base + 21, base + 22) =~= seq![48u8]);
    assert(hex_run_value(seq![48u8]) == 0) by {
        assert(seq![48u8].drop_last() =~= Seq::<u8>::empty());
        assert(hex_run_value(Seq::<u8>::empty()) == 0);
    }
    assert(spec_hex_literal(s, base + 21) == Some((0u64, base + 22)));
    assert(spec_addr_item(s, base + 20) == Some((0u64, base + 22)));
    assert(!is_space(s[base + 22]));
    assert(spec_addr_item(s, base + 22) is None);
    assert(spec_addrs(s, base + 22) is None);
    assert(spec_addrs(s, base + 20) == Some((seq![0u64], base + 22)));
    assert(spec_stack_addrs(s, base + 19) == Some((seq![0u64], base + 22)));
}

/// The one stack block of the minimal document.
#[verifier::rlimit(60)]
#[verifier::spinoff_prover]
pub proof fn lemma_minimal_stack(rate: u64)
    ensures
        spec_stacks(minimal_doc(rate), minimal_base(rate) + 19) == Some(
            (
                seq![SpecStack { addrs: seq![0u64], threads: seq![zero_star_thread()] }],
                minimal_base(rate) + 41,
            ),
        ),
{
    let s = minimal_doc(rate);
    let base = minimal_base(rate);
    lemma_minimal_layout(rate);
    lemma_minimal_addrs(rate);
    lemma_total_line(s, base + 23);
    assert(!is_space(s[base + 41]));
    assert(spec_thread_line(s, base + 41) is None);
    assert(spec_thread_lines(s, base + 41) is None);
    assert(spec_thread_lines(s, base + 23) == Some((seq![zero_star_thread()], base + 41)));
    let stack0 = SpecStack { addrs: seq![0u64], threads: seq![zero_star_thread()] };
    assert(spec_stack(s, base + 19) == Some((stack0, base + 41)));
    assert(spec_stack_addrs(s, base + 41) is None);
    assert(spec_stack(s, base + 41) is None);
    assert(spec_stacks(s, base + 41) is None);
    assert(spec_stacks(s, base + 19) == Some((seq![stack0], base + 41)));
}

/// For every unsigned 64-bit rate, the minimal well-formed document with
/// that rate parses, and the parsed profile carries exactly that sampling
/// rate.
#[verifier::rlimit(60)]
#[verifier::spinoff_prover]
pub proof fn lemma_minimal_doc_parses(rate: u64)
    ensures
        spec_profile_doc(minimal_doc(rate)) matches Some((p, end)) && p.sampling_rate == rate,
{
    let s = minimal_doc(rate);
    let base = minimal_base(rate);
    lemma_minimal_layout(rate);
    lemma_minimal_header(rate);
    lemma_minimal_stack(rate);
    lemma_total_line(s, base + 1);
    assert(!is_space(s[base + 19]));
    assert(spec_thread_line(s, base + 19) is None);
    assert(spec_thread_lines(s, base + 19) is None);
    assert(spec_thread_lines(s, base + 1) == Some((seq![zero_star_thread()], base + 19)));
    let stack0 = SpecStack { addrs: seq![0u64], threads: seq![zero_star_thread()] };
    assert(!newline_pred()(s[base + 41]));
    lemma_run_end_of(s, base + 41, base + 41, newline_pred());
    assert(spec_hex_literal(s, base + 59) is None);
    assert(spec_mapped_library(s, base + 59) is None);
    assert(spec_maplib_line(s, base + 59) is None);
    assert(spec_maplib_lines(s, base + 59) == (Seq::<SpecMappedLibrary>::empty(), base + 59));
    assert(keep_named(Seq::<SpecMappedLibrary>::empty()) == Seq::<SpecMappedLibrary>::empty());
    let prof = SpecProfile {
        sampling_rate: rate,
        totals: seq![zero_star_thread()],
        stacks: seq![stack0],
        mapped_libraries: Seq::<SpecMappedLibrary>::empty(),
    };
    assert(spec_profile_doc(s) == Some((prof, base + 59)));
}

/// A document that parses contains the `MAPPED_LIBRARIES:` marker: without
/// it, even a well-formed header, totals block and stack list fail.
pub proof fn lemma_marker_required(s: Seq<u8>)
    ensures
        spec_profile_doc(s) is Some ==> exists|pos: int| tag_at(s, pos, marker_tag()),
{
    if spec_profile_doc(s) is Some {
        let (rate, p) = spec_header(s, 0)->Some_0;
        let (totals, p2) = spec_thread_lines(s, p + 1)->Some_0;
        let (stacks, p3) = spec_stacks(s, p2)->Some_0;
        let p4 = newline_run_end(s, p3);
        assert(tag_at(s, p4, marker_tag()));
    }
}

} // verus!
