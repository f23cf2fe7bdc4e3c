//! Byte-level vocabulary of the dump format: character classes, greedy runs,
//! and the numeric value of digit runs.
use vstd::prelude::*;

verus! {

/// Line terminator of the format.
pub const NEWLINE: u8 = 10;
/// Horizontal tab, accepted wherever a space is.
pub const TAB: u8 = 9;
pub const SPACE: u8 = 32;
/// Separator byte that may be interspersed in a hexadecimal literal.
pub const UNDERSCORE: u8 = 95;
/// The aggregate thread id token.
pub const STAR: u8 = 42;

pub open spec fn is_space(b: u8) -> bool {
    b == SPACE || b == TAB
}

pub open spec fn is_dec_digit(b: u8) -> bool {
    48 <= b <= 57
}

pub open spec fn is_lower_hex_letter(b: u8) -> bool {
    97 <= b <= 102
}

pub open spec fn is_upper_hex_letter(b: u8) -> bool {
    65 <= b <= 70
}

pub open spec fn is_hex_digit(b: u8) -> bool {
    is_dec_digit(b) || is_lower_hex_letter(b) || is_upper_hex_letter(b)
}

/// A byte that a hexadecimal literal may contain after its first digit.
pub open spec fn is_hex_run_byte(b: u8) -> bool {
    is_hex_digit(b) || b == UNDERSCORE
}

/// A byte allowed in a thread id: ASCII alphanumeric or `*`.
pub open spec fn is_id_byte(b: u8) -> bool {
    is_dec_digit(b) || (97 <= b <= 122) || (65 <= b <= 90) || b == STAR
}

/// A byte that still belongs to the current line.
pub open spec fn is_line_byte(b: u8) -> bool {
    b != NEWLINE
}

pub open spec fn is_newline(b: u8) -> bool {
    b == NEWLINE
}

pub open spec fn dec_digit_val(b: u8) -> nat
    recommends
        is_dec_digit(b),
{
    (b - 48) as nat
}

pub open spec fn hex_digit_val(b: u8) -> nat
    recommends
        is_hex_digit(b),
{
    if is_dec_digit(b) {
        (b - 48) as nat
    } else if is_lower_hex_letter(b) {
        (b - 87) as nat
    } else {
        (b - 55) as nat
    }
}

/// First position at or after `pos` whose byte fails `p` (or the end of `s`):
/// the end of the greedy run of `p`-bytes starting at `pos`.
pub open spec fn run_end(s: Seq<u8>, pos: int, p: spec_fn(u8) -> bool) -> int
    decreases s.len() - pos,
{
    if pos < 0 || pos >= s.len() {
        pos
    } else if p(s[pos]) {
        run_end(s, pos + 1, p)
    } else {
        pos
    }
}

pub proof fn lemma_run_end(s: Seq<u8>, pos: int, p: spec_fn(u8) -> bool)
    requires
        0 <= pos <= s.len(),
    ensures
        pos <= run_end(s, pos, p) <= s.len(),
        forall|i: int| pos <= i < run_end(s, pos, p) ==> #[trigger] p(s[i]),
        run_end(s, pos, p) < s.len() ==> !p(s[run_end(s, pos, p)]),
    decreases s.len() - pos,
{
    if pos < s.len() && p(s[pos]) {
        lemma_run_end(s, pos + 1, p);
    }
}

/// A greedy run is determined by its content: if every byte of `[pos, end)`
/// satisfies `p` and `end` is the length of `s` or fails `p`, then `end` is
/// the run's end.
pub proof fn lemma_run_end_of(s: Seq<u8>, pos: int, end: int, p: spec_fn(u8) -> bool)
    requires
        0 <= pos <= end <= s.len(),
        forall|i: int| pos <= i < end ==> #[trigger] p(s[i]),
        end < s.len() ==> !p(s[end]),
    ensures
        run_end(s, pos, p) == end,
    decreases end - pos,
{
    if pos < end {
        lemma_run_end_of(s, pos + 1, end, p);
    }
}

pub open spec fn dec_digit_pred() -> spec_fn(u8) -> bool {
    |b: u8| is_dec_digit(b)
}

pub open spec fn hex_run_pred() -> spec_fn(u8) -> bool {
    |b: u8| is_hex_run_byte(b)
}

pub open spec fn space_pred() -> spec_fn(u8) -> bool {
    |b: u8| is_space(b)
}

pub open spec fn id_pred() -> spec_fn(u8) -> bool {
    |b: u8| is_id_byte(b)
}

pub open spec fn line_pred() -> spec_fn(u8) -> bool {
    |b: u8| is_line_byte(b)
}

pub open spec fn newline_pred() -> spec_fn(u8) -> bool {
    |b: u8| is_newline(b)
}

pub open spec fn dec_run_end(s: Seq<u8>, pos: int) -> int {
    run_end(s, pos, dec_digit_pred())
}

pub open spec fn hex_run_end(s: Seq<u8>, pos: int) -> int {
    run_end(s, pos, hex_run_pred())
}

pub open spec fn space_run_end(s: Seq<u8>, pos: int) -> int {
    run_end(s, pos, space_pred())
}

pub open spec fn id_run_end(s: Seq<u8>, pos: int) -> int {
    run_end(s, pos, id_pred())
}

pub open spec fn line_run_end(s: Seq<u8>, pos: int) -> int {
    run_end(s, pos, line_pred())
}

pub open spec fn newline_run_end(s: Seq<u8>, pos: int) -> int {
    run_end(s, pos, newline_pred())
}

/// Value of a decimal digit run, most significant digit first.
pub open spec fn dec_value(ds: Seq<u8>) -> nat
    decreases ds.len(),
{
    if ds.len() == 0 {
        0
    } else {
        dec_value(ds.drop_last()) * 10 + dec_digit_val(ds.last())
    }
}

/// Value of a hexadecimal run, most significant digit first; underscore
/// separator bytes contribute nothing.
pub open spec fn hex_run_value(rs: Seq<u8>) -> nat
    decreases rs.len(),
{
    if rs.len() == 0 {
        0
    } else if is_hex_digit(rs.last()) {
        hex_run_value(rs.drop_last()) * 16 + hex_digit_val(rs.last())
    } else {
        hex_run_value(rs.drop_last())
    }
}

/// Extending a decimal run to the right never decreases its value.
pub proof fn lemma_dec_value_append(a: Seq<u8>, b: Seq<u8>)
    ensures
        dec_value(a + b) >= dec_value(a),
    decreases b.len(),
{
    if b.len() == 0 {
        assert(a + b =~= a);
    } else {
        lemma_dec_value_append(a, b.drop_last());
        assert((a + b).drop_last() =~= a + b.drop_last());
    }
}

/// Extending a hexadecimal run to the right never decreases its value.
pub proof fn lemma_hex_run_value_append(a: Seq<u8>, b: Seq<u8>)
    ensures
        hex_run_value(a + b) >= hex_run_value(a),
    decreases b.len(),
{
    if b.len() == 0 {
        assert(a + b =~= a);
    } else {
        lemma_hex_run_value_append(a, b.drop_last());
        assert((a + b).drop_last() =~= a + b.drop_last());
    }
}

/// The characters that a byte sequence of the input denotes, one character
/// per byte.
pub open spec fn ascii_view(bs: Seq<u8>) -> Seq<char> {
    bs.map(|i: int, b: u8| b as char)
}

/// The fixed byte sequence `t` occurs in `s` at position `pos`.
pub open spec fn tag_at(s: Seq<u8>, pos: int, t: Seq<u8>) -> bool {
    &&& 0 <= pos
    &&& pos + t.len() <= s.len()
    &&& forall|i: int| 0 <= i < t.len() ==> s[pos + i] == #[trigger] t[i]
}

pub fn byte_is_space(b: u8) -> (r: bool)
    ensures
        r == is_space(b),
{
    b == SPACE || b == TAB
}

pub fn byte_is_dec_digit(b: u8) -> (r: bool)
    ensures
        r == is_dec_digit(b),
{
    48 <= b && b <= 57
}

pub fn byte_is_hex_digit(b: u8) -> (r: bool)
    ensures
        r == is_hex_digit(b),
{
    (48 <= b && b <= 57) || (97 <= b && b <= 102) || (65 <= b && b <= 70)
}

pub fn byte_is_id(b: u8) -> (r: bool)
    ensures
        r == is_id_byte(b),
{
    (48 <= b && b <= 57) || (97 <= b && b <= 122) || (65 <= b && b <= 90) || b == STAR
}

pub fn hex_digit_value(b: u8) -> (v: u8)
    requires
        is_hex_digit(b),
    ensures
        v as nat == hex_digit_val(b),
{
    if b <= 57 {
        b - 48
    } else if b >= 97 {
        b - 87
    } else {
        b - 55
    }
}

/// Relies on String::push from std: it appends exactly the one given
/// character to the string.
#[verifier::external_body]
fn push_char(s: &mut String, c: char)
    ensures
        final(s)@ == old(s)@.push(c),
{
    s.push(c);
}

/// Copy the bytes of `s[from..to]` into an owned string, one character per
/// byte.
pub fn bytes_to_string(s: &[u8], from: usize, to: usize) -> (r: String)
    requires
        from <= to <= s@.len(),
    ensures
        r@ == ascii_view(s@.subrange(from as int, to as int)),
{
    let mut out = String::new();
    let mut i: usize = from;
    while i < to
        invariant
            from <= i <= to <= s@.len(),
            out@ == ascii_view(s@.subrange(from as int, i as int)),
        decreases to - i,
    {
        push_char(&mut out, s[i] as char);
        i += 1;
        proof {
            assert(s@.subrange(from as int, i as int).drop_last() =~= s@.subrange(
                from as int,
                i - 1,
            ));
            assert(out@ =~= ascii_view(s@.subrange(from as int, i as int)));
        }
    }
    proof {
        assert(s@.subrange(from as int, to as int) =~= s@.subrange(from as int, i as int));
    }
    out
}

} // verus!
