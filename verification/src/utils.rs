//! Display-width measurement for a single line of text.
//!
//! A line may contain embedded ANSI-style control sequences (colors,
//! attributes).  Those occupy no columns on screen, so the measurer first
//! removes them and then sums the column width of every remaining code
//! point: 0 for zero-width characters, 1 for narrow ones, 2 for wide ones.

use vstd::prelude::*;
use vstd::string::StrSliceExecFns;

verus! {

/// Escape sequences start with ESC (0x1B) or the C1 CSI code point (0x9B).
pub open spec fn is_escape_char(c: char) -> bool {
    c == '\u{1b}' || c == '\u{9b}'
}

/// Introducer characters that may follow the escape code point.
pub open spec fn is_intro_char(c: char) -> bool {
    c == '[' || c == ']' || c == '(' || c == ')' || c == '#' || c == ';' || c == '?'
}

/// Parameter characters: decimal digits and the semicolon separator.
pub open spec fn is_param_char(c: char) -> bool {
    ('0' <= c && c <= '9') || c == ';'
}

/// First index at or after `i` whose character is not an introducer.
pub open spec fn intro_end(s: Seq<char>, i: int) -> int
    decreases s.len() - i,
{
    if 0 <= i < s.len() && is_intro_char(s[i]) {
        intro_end(s, i + 1)
    } else {
        i
    }
}

/// First index at or after `i` whose character is not a parameter character.
pub open spec fn param_end(s: Seq<char>, i: int) -> int
    decreases s.len() - i,
{
    if 0 <= i < s.len() && is_param_char(s[i]) {
        param_end(s, i + 1)
    } else {
        i
    }
}

/// Index just past the escape sequence that starts at `i` (`s[i]` is the
/// escape code point): introducers, then parameters, then one terminating
/// code point if any input remains.
pub open spec fn escape_end(s: Seq<char>, i: int) -> int {
    let p = param_end(s, intro_end(s, i + 1));
    if p < s.len() {
        p + 1
    } else {
        p
    }
}

proof fn lemma_intro_end_bounds(s: Seq<char>, i: int)
    requires
        0 <= i <= s.len(),
    ensures
        i <= intro_end(s, i) <= s.len(),
    decreases s.len() - i,
{
    if i < s.len() && is_intro_char(s[i]) {
        lemma_intro_end_bounds(s, i + 1);
    }
}

proof fn lemma_param_end_bounds(s: Seq<char>, i: int)
    requires
        0 <= i <= s.len(),
    ensures
        i <= param_end(s, i) <= s.len(),
    decreases s.len() - i,
{
    if i < s.len() && is_param_char(s[i]) {
        lemma_param_end_bounds(s, i + 1);
    }
}

proof fn lemma_escape_end_bounds(s: Seq<char>, i: int)
    requires
        0 <= i < s.len(),
    ensures
        i < escape_end(s, i) <= s.len(),
{
    lemma_intro_end_bounds(s, i + 1);
    lemma_param_end_bounds(s, intro_end(s, i + 1));
}

/// The characters of `s` from index `i` on, with every escape sequence
/// removed.
pub open spec fn strip_from(s: Seq<char>, i: int) -> Seq<char>
    decreases s.len() - i,
        via strip_from_dec
{
    if 0 <= i < s.len() {
        if is_escape_char(s[i]) {
            strip_from(s, escape_end(s, i))
        } else {
            seq![s[i]] + strip_from(s, i + 1)
        }
    } else {
        Seq::empty()
    }
}

#[via_fn]
proof fn strip_from_dec(s: Seq<char>, i: int) {
    if 0 <= i < s.len() && is_escape_char(s[i]) {
        lemma_escape_end_bounds(s, i);
    }
}

/// The line with every ANSI-style control sequence removed.
pub open spec fn strip_ansi_spec(s: Seq<char>) -> Seq<char> {
    strip_from(s, 0)
}

/// Terminal column width of the code point `c`, per the East-Asian-width
/// classification: 0 for zero-width or control characters, 1 for narrow
/// characters, 2 for wide ones (one exceptional code point is 3 columns).
pub uninterp spec fn char_cols(c: char) -> nat;

/// Sum of the column widths of the characters of `s`.
pub open spec fn width_sum(s: Seq<char>) -> nat
    decreases s.len(),
{
    if s.len() == 0 {
        0
    } else {
        char_cols(s[0]) + width_sum(s.skip(1))
    }
}

/// Display width of one line: escape sequences removed, the widths of the
/// remaining code points summed.
pub open spec fn line_width_spec(s: Seq<char>) -> nat {
    width_sum(strip_ansi_spec(s))
}

/// Relies on unicode_width::UnicodeWidthChar::width: the column width of a
/// code point, `None` for control characters; every returned width is at
/// most 3 (tables.rs, `single_char_width`).  The result depends on the
/// character alone.
#[verifier::external_body]
fn char_width(c: char) -> (w: usize)
    ensures
        w == char_cols(c),
        w <= 3,
{
    unicode_width::UnicodeWidthChar::width(c).unwrap_or(0)
}

proof fn lemma_width_sum_concat(a: Seq<char>, b: Seq<char>)
    ensures
        width_sum(a + b) == width_sum(a) + width_sum(b),
    decreases a.len(),
{
    if a.len() == 0 {
        assert(a + b =~= b);
    } else {
        assert((a + b).skip(1) =~= a.skip(1) + b);
        lemma_width_sum_concat(a.skip(1), b);
    }
}

proof fn lemma_width_sum_take_step(s: Seq<char>, i: int)
    requires
        0 <= i < s.len(),
    ensures
        width_sum(s.take(i + 1)) == width_sum(s.take(i)) + char_cols(s[i]),
{
    assert(s.take(i + 1) =~= s.take(i) + seq![s[i]]);
    lemma_width_sum_concat(s.take(i), seq![s[i]]);
    assert(seq![s[i]].skip(1) =~= Seq::<char>::empty());
    assert(width_sum(Seq::<char>::empty()) == 0);
    assert(width_sum(seq![s[i]]) == char_cols(s[i]));
}

fn is_escape_char_e(c: char) -> (b: bool)
    ensures
        b == is_escape_char(c),
{
    c == '\u{1b}' || c == '\u{9b}'
}

fn is_intro_char_e(c: char) -> (b: bool)
    ensures
        b == is_intro_char(c),
{
    c == '[' || c == ']' || c == '(' || c == ')' || c == '#' || c == ';' || c == '?'
}

fn is_param_char_e(c: char) -> (b: bool)
    ensures
        b == is_param_char(c),
{
    let u = c as u32;
    (48 <= u && u <= 57) || u == 59
}

/// The characters of `text`, in order.
fn chars_of(text: &str) -> (v: Vec<char>)
    ensures
        v@ == text@,
{
    let n = text.unicode_len();
    let mut v: Vec<char> = Vec::new();
    let mut i: usize = 0;
    proof {
        assert(v@ =~= text@.take(0));
    }
    while i < n
        invariant
            i <= n,
            n == text@.len(),
            v@ == text@.take(i as int),
        decreases n - i,
    {
        let c = text.get_char(i);
        v.push(c);
        proof {
            assert(v@ =~= text@.take(i + 1));
        }
        i += 1;
    }
    proof {
        assert(text@.take(n as int) =~= text@);
    }
    v
}

/// Removes every ANSI-style control sequence from `s`.
fn strip_chars(s: &Vec<char>) -> (out: Vec<char>)
    ensures
        out@ == strip_ansi_spec(s@),
{
    let n = s.len();
    let mut out: Vec<char> = Vec::new();
    let mut i: usize = 0;
    proof {
        assert(out@ + strip_from(s@, 0) =~= strip_from(s@, 0));
    }
    while i < n
        invariant
            i <= n,
            n == s@.len(),
            out@ + strip_from(s@, i as int) == strip_from(s@, 0),
        decreases n - i,
    {
        let c = s[i];
        if is_escape_char_e(c) {
            let ghost i0: int = i as int;
            proof {
                lemma_escape_end_bounds(s@, i0);
            }
            i += 1;
            while i < n && is_intro_char_e(s[i])
                invariant
                    i0 + 1 <= i <= n,
                    n == s@.len(),
                    intro_end(s@, i as int) == intro_end(s@, i0 + 1),
                decreases n - i,
            {
                i += 1;
            }
            proof {
                assert(i as int == intro_end(s@, i0 + 1));
            }
            while i < n && is_param_char_e(s[i])
                invariant
                    i <= n,
                    n == s@.len(),
                    param_end(s@, i as int) == param_end(s@, intro_end(s@, i0 + 1)),
                decreases n - i,
            {
                i += 1;
            }
            proof {
                assert(i as int == param_end(s@, intro_end(s@, i0 + 1)));
            }
            if i < n {
                i += 1;
            }
            proof {
                assert(i as int == escape_end(s@, i0));
                assert(strip_from(s@, i0) == strip_from(s@, i as int));
            }
        } else {
            out.push(c);
            proof {
                assert(strip_from(s@, i as int) == seq![s@[i as int]] + strip_from(s@, i + 1));
                assert(out@ + strip_from(s@, i + 1) =~= strip_from(s@, 0));
            }
            i += 1;
        }
    }
    proof {
        assert(out@ + strip_from(s@, i as int) =~= out@);
    }
    out
}

/// Sums the column widths of the characters of `s`, saturating at the
/// largest 16-bit value.
fn sum_widths(s: &Vec<char>) -> (w: u16)
    ensures
        width_sum(s@) <= 0xFFFF ==> w == width_sum(s@),
        width_sum(s@) > 0xFFFF ==> w == 0xFFFF,
{
    let n = s.len();
    let mut w: usize = 0;
    let mut i: usize = 0;
    proof {
        assert(s@.take(0) =~= Seq::<char>::empty());
    }
    while i < n
        invariant
            i <= n,
            n == s@.len(),
            w <= 0xFFFF,
            width_sum(s@.take(i as int)) <= 0xFFFF ==> w == width_sum(s@.take(i as int)),
            width_sum(s@.take(i as int)) > 0xFFFF ==> w == 0xFFFF,
        decreases n - i,
    {
        let cw = char_width(s[i]);
        proof {
            lemma_width_sum_take_step(s@, i as int);
        }
        if w < 0xFFFF {
            let nw = w + cw;
            w = if nw > 0xFFFF {
                0xFFFF
            } else {
                nw
            };
        }
        i += 1;
    }
    proof {
        assert(s@.take(n as int) =~= s@);
    }
    w as u16
}

/// Holds when no character of `s` is an escape code point.
pub open spec fn escape_free(s: Seq<char>) -> bool {
    forall|i: int| 0 <= i < s.len() ==> !is_escape_char(#[trigger] s[i])
}

proof fn lemma_strip_from_escape_free(s: Seq<char>, i: int)
    requires
        0 <= i <= s.len(),
        forall|j: int| i <= j < s.len() ==> !is_escape_char(#[trigger] s[j]),
    ensures
        strip_from(s, i) == s.skip(i),
    decreases s.len() - i,
{
    if i < s.len() {
        lemma_strip_from_escape_free(s, i + 1);
        assert(seq![s[i]] + s.skip(i + 1) =~= s.skip(i));
    } else {
        assert(s.skip(i) =~= Seq::<char>::empty());
    }
}

/// Stripping changes nothing in a line that holds no escape code point.
pub proof fn lemma_strip_escape_free(s: Seq<char>)
    requires
        escape_free(s),
    ensures
        strip_ansi_spec(s) == s,
{
    lemma_strip_from_escape_free(s, 0);
    assert(s.skip(0) =~= s);
}

/// Number of narrow (one-column) code points in `s`.
pub open spec fn count_narrow(s: Seq<char>) -> nat
    decreases s.len(),
{
    if s.len() == 0 {
        0
    } else {
        (if char_cols(s[0]) == 1 {
            1nat
        } else {
            0nat
        }) + count_narrow(s.skip(1))
    }
}

/// Number of wide (two-column) code points in `s`.
pub open spec fn count_wide(s: Seq<char>) -> nat
    decreases s.len(),
{
    if s.len() == 0 {
        0
    } else {
        (if char_cols(s[0]) == 2 {
            1nat
        } else {
            0nat
        }) + count_wide(s.skip(1))
    }
}

proof fn lemma_width_sum_counts(s: Seq<char>)
    requires
        forall|i: int| 0 <= i < s.len() ==> #[trigger] char_cols(s[i]) <= 2,
    ensures
        width_sum(s) == count_narrow(s) + 2 * count_wide(s),
    decreases s.len(),
{
    if s.len() > 0 {
        assert forall|i: int| 0 <= i < s.skip(1).len() implies #[trigger] char_cols(
            s.skip(1)[i],
        ) <= 2 by {
            assert(s.skip(1)[i] == s[i + 1]);
        }
        lemma_width_sum_counts(s.skip(1));
        assert(char_cols(s[0]) <= 2);
    }
}

/// For an escape-free line whose code points are all zero-width, narrow or
/// wide, the measured width is the number of narrow code points plus twice
/// the number of wide ones.
pub proof fn lemma_width_counts(s: Seq<char>)
    requires
        escape_free(s),
        forall|i: int| 0 <= i < s.len() ==> #[trigger] char_cols(s[i]) <= 2,
    ensures
        line_width_spec(s) == count_narrow(s) + 2 * count_wide(s),
{
    lemma_strip_escape_free(s);
    lemma_width_sum_counts(s);
}

/// A complete color/attribute (SGR) sequence: ESC, `[`, parameter
/// characters, and the terminating `m`.
pub open spec fn is_sgr_seq(e: Seq<char>) -> bool {
    &&& e.len() >= 3
    &&& e[0] == '\u{1b}'
    &&& e[1] == '['
    &&& e[e.len() - 1] == 'm'
    &&& forall|i: int| 2 <= i < e.len() - 1 ==> is_param_char(#[trigger] e[i])
}

proof fn lemma_param_run(s: Seq<char>, i: int, k: int)
    requires
        0 <= i <= k < s.len(),
        forall|j: int| i <= j < k ==> is_param_char(#[trigger] s[j]),
        !is_param_char(s[k]),
    ensures
        param_end(s, i) == k,
    decreases k - i,
{
    if i < k {
        lemma_param_run(s, i + 1, k);
    }
}

proof fn lemma_scan_region(s: Seq<char>, i: int, k: int)
    requires
        0 <= i <= k < s.len(),
        forall|j: int| i <= j < k ==> is_param_char(#[trigger] s[j]),
        s[k] == 'm',
    ensures
        param_end(s, intro_end(s, i)) == k,
    decreases k - i,
{
    if i == k {
        assert(!is_intro_char(s[i]));
        assert(!is_param_char(s[i]));
    } else if is_intro_char(s[i]) {
        assert(intro_end(s, i) == intro_end(s, i + 1));
        lemma_scan_region(s, i + 1, k);
    } else {
        assert(intro_end(s, i) == i);
        lemma_param_run(s, i, k);
    }
}

proof fn lemma_intro_end_shift(a: Seq<char>, b: Seq<char>, j: int)
    requires
        0 <= j,
    ensures
        intro_end(a + b, a.len() + j) == a.len() + intro_end(b, j),
    decreases b.len() - j,
{
    if j < b.len() {
        assert((a + b)[a.len() + j] == b[j]);
        if is_intro_char(b[j]) {
            lemma_intro_end_shift(a, b, j + 1);
        }
    }
}

proof fn lemma_param_end_shift(a: Seq<char>, b: Seq<char>, j: int)
    requires
        0 <= j,
    ensures
        param_end(a + b, a.len() + j) == a.len() + param_end(b, j),
    decreases b.len() - j,
{
    if j < b.len() {
        assert((a + b)[a.len() + j] == b[j]);
        if is_param_char(b[j]) {
            lemma_param_end_shift(a, b, j + 1);
        }
    }
}

proof fn lemma_escape_end_shift(a: Seq<char>, b: Seq<char>, j: int)
    requires
        0 <= j < b.len(),
    ensures
        escape_end(a + b, a.len() + j) == a.len() + escape_end(b, j),
{
    lemma_intro_end_bounds(b, j + 1);
    lemma_intro_end_shift(a, b, j + 1);
    lemma_param_end_shift(a, b, intro_end(b, j + 1));
    lemma_param_end_bounds(b, intro_end(b, j + 1));
}

proof fn lemma_strip_from_shift(a: Seq<char>, b: Seq<char>, j: int)
    requires
        0 <= j,
    ensures
        strip_from(a + b, a.len() + j) == strip_from(b, j),
    decreases b.len() - j,
{
    let s = a + b;
    if j < b.len() {
        assert(s[a.len() + j] == b[j]);
        if is_escape_char(b[j]) {
            lemma_escape_end_shift(a, b, j);
            lemma_escape_end_bounds(b, j);
            lemma_strip_from_shift(a, b, escape_end(b, j));
        } else {
            lemma_strip_from_shift(a, b, j + 1);
        }
    }
}

/// An SGR sequence at the front of a line is stripped away whole.
pub proof fn lemma_strip_sgr_prefix(e: Seq<char>, t: Seq<char>)
    requires
        is_sgr_seq(e),
    ensures
        strip_ansi_spec(e + t) == strip_ansi_spec(t),
{
    let s = e + t;
    assert(s[0] == '\u{1b}');
    assert(s[1] == '[');
    assert(s[e.len() - 1] == 'm');
    assert forall|j: int| 2 <= j < e.len() - 1 implies is_param_char(#[trigger] s[j]) by {
        assert(s[j] == e[j]);
    }
    lemma_scan_region(s, 2, e.len() - 1);
    assert(intro_end(s, 1) == intro_end(s, 2));
    assert(escape_end(s, 0) == e.len() as int);
    assert(strip_from(s, 0) == strip_from(s, e.len() as int));
    lemma_strip_from_shift(e, t, 0);
}

proof fn lemma_strip_escape_free_prefix(s: Seq<char>, q: Seq<char>, i: int)
    requires
        escape_free(s),
        0 <= i <= s.len(),
    ensures
        strip_from(s + q, i) == s.skip(i) + strip_from(s + q, s.len() as int),
    decreases s.len() - i,
{
    let w = s + q;
    if i < s.len() {
        assert(w[i] == s[i]);
        assert(!is_escape_char(s[i]));
        lemma_strip_escape_free_prefix(s, q, i + 1);
        assert(seq![s[i]] + (s.skip(i + 1) + strip_from(w, s.len() as int)) =~= s.skip(i)
            + strip_from(w, s.len() as int));
    } else {
        assert(s.skip(i) =~= Seq::<char>::empty());
        assert(Seq::<char>::empty() + strip_from(w, s.len() as int) =~= strip_from(
            w,
            s.len() as int,
        ));
    }
}

/// Holds when `t` is `s` wrapped in one SGR prefix and one SGR suffix.
pub open spec fn wraps(t: Seq<char>, p: Seq<char>, s: Seq<char>, q: Seq<char>) -> bool {
    is_sgr_seq(p) && is_sgr_seq(q) && t == p + s + q
}

/// Holds when `t` is `s` unchanged, or `s` wrapped in SGR sequences.
pub open spec fn sgr_wrapped(t: Seq<char>, s: Seq<char>) -> bool {
    t == s || (exists|p: Seq<char>, q: Seq<char>| #[trigger] wraps(t, p, s, q))
}

/// Styling never changes the measured width: a line wrapped in SGR
/// sequences measures exactly as its escape-free source does, and the
/// sequences themselves contribute no width.
pub proof fn lemma_styled_width_eq(t: Seq<char>, s: Seq<char>)
    requires
        sgr_wrapped(t, s),
        escape_free(s),
    ensures
        line_width_spec(t) == line_width_spec(s),
        line_width_spec(s) == width_sum(s),
{
    lemma_strip_escape_free(s);
    if t != s {
        let (p, q) = choose|p: Seq<char>, q: Seq<char>| wraps(t, p, s, q);
        assert(t =~= p + (s + q));
        lemma_strip_sgr_prefix(p, s + q);
        lemma_strip_escape_free_prefix(s, q, 0);
        assert(s.skip(0) =~= s);
        lemma_strip_from_shift(s, q, 0);
        assert(q =~= q + Seq::<char>::empty());
        lemma_strip_sgr_prefix(q, Seq::<char>::empty());
        assert(strip_from(Seq::<char>::empty(), 0) =~= Seq::<char>::empty());
        assert(s + Seq::<char>::empty() =~= s);
        lemma_width_sum_concat(s, Seq::<char>::empty());
    }
}

/// Display width in terminal columns of one line of text.
///
/// Embedded ANSI-style control sequences contribute no width; every other
/// code point contributes its East-Asian width.  The result saturates at
/// the largest 16-bit value.  An empty line measures 0.
pub fn get_line_width_accurate(text: &str) -> (w: u16)
    ensures
        line_width_spec(text@) <= 0xFFFF ==> w == line_width_spec(text@),
        line_width_spec(text@) > 0xFFFF ==> w == 0xFFFF,
        text@.len() == 0 ==> w == 0,
{
    let chars = chars_of(text);
    let stripped = strip_chars(&chars);
    let w = sum_widths(&stripped);
    proof {
        if text@.len() == 0 {
            assert(strip_ansi_spec(text@) =~= Seq::<char>::empty());
        }
    }
    w
}

} // verus!
