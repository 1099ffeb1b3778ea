//! Rendering: static banner painting and the frame-animation engine, with a
//! terminal-state guard that restores the terminal exactly once on every
//! exit path.

use vstd::prelude::*;
use vstd::arithmetic::div_mod::{lemma_mod_multiples_vanish, lemma_small_mod};
use vstd::seq_lib::*;
use vstd::string::StringExecFns;
use std::io::Write;
use crate::animation::Animation;
use crate::banner::BannerContent;
use crate::error::BannerError;
use crate::style::{is_plain, styled_of, Style};
use crate::terminal::{KeyInput, TermCall, Terminal};
use crate::utils::{get_line_width_accurate, line_width_spec};

verus! {

/// The width used when the terminal's width cannot be determined.
pub const FALLBACK_WIDTH: u16 = 80;

/// Left padding of a line: when centering is on and the line is narrower
/// than the terminal, half the slack, rounding down; otherwise none.
pub open spec fn padding_spec(terminal_width: u16, content_width: u16, centered: bool) -> int {
    if centered && terminal_width > content_width {
        (terminal_width - content_width) / 2
    } else {
        0
    }
}

/// Computes the left padding needed to center content of the given width.
///
/// The padding is never negative: content at least as wide as the terminal
/// gets none, and so does content that is not centered.
pub fn calculate_padding(terminal_width: u16, content_width: u16, centered: bool) -> (p: u16)
    ensures
        p == padding_spec(terminal_width, content_width, centered),
{
    if centered && terminal_width > content_width {
        (terminal_width - content_width) / 2
    } else {
        0
    }
}

/// The width a recorded column-query answer yields: the reported count,
/// or the fallback when no terminal was attached.
pub open spec fn cols_of(ans: Option<u16>) -> u16 {
    match ans {
        Some(w) => w,
        None => FALLBACK_WIDTH,
    }
}

/// Queries the terminal's width in columns.
///
/// The query is recorded in the call log with its answer: the result is
/// `Ok(w)` exactly when the geometry source reported `w` columns, and a
/// `TerminalSize` error exactly when it reported no size, so that callers
/// fall back to 80 columns.
pub fn get_terminal_width(term: &mut Terminal) -> (r: Result<u16, BannerError>)
    ensures
        r matches Ok(w) ==> final(term).log() == old(term).log().push(
            TermCall::QueryCols(Some(w)),
        ),
        r is Err ==> final(term).log() == old(term).log().push(TermCall::QueryCols(None)),
        r matches Err(e) ==> e matches BannerError::TerminalSize(_),
{
    match term.query_cols() {
        Some(w) => Ok(w),
        None => Err(
            BannerError::TerminalSize(
                String::from_str("no attached terminal, or the size is unavailable"),
            ),
        ),
    }
}

/// The carriage-return-plus-newline line terminator.  Raw mode disables
/// automatic carriage-return translation, so a bare newline is not enough.
pub open spec fn crlf() -> Seq<char> {
    seq!['\r', '\n']
}

/// `n` line terminators in a row.
pub open spec fn crlf_repeat(n: nat) -> Seq<char>
    decreases n,
{
    if n == 0 {
        Seq::empty()
    } else {
        crlf_repeat((n - 1) as nat) + crlf()
    }
}

/// `n` spaces in a row.
pub open spec fn spaces(n: int) -> Seq<char>
    decreases n,
{
    if n <= 0 {
        Seq::empty()
    } else {
        spaces(n - 1) + seq![' ']
    }
}

fn crlf_string(n: u16) -> (s: String)
    ensures
        s@ == crlf_repeat(n as nat),
{
    let mut s = String::new();
    let mut i: u16 = 0;
    proof {
        reveal_strlit("\r\n");
        assert(s@ =~= crlf_repeat(0));
    }
    while i < n
        invariant
            i <= n,
            s@ == crlf_repeat(i as nat),
            "\r\n"@ =~= crlf(),
        decreases n - i,
    {
        s.append("\r\n");
        i += 1;
    }
    s
}

fn space_string(n: u16) -> (s: String)
    ensures
        s@ == spaces(n as int),
{
    let mut s = String::new();
    let mut i: u16 = 0;
    proof {
        reveal_strlit(" ");
        assert(s@ =~= spaces(0));
    }
    while i < n
        invariant
            i <= n,
            s@ == spaces(i as int),
            " "@ =~= seq![' '],
        decreases n - i,
    {
        s.append(" ");
        i += 1;
    }
    s
}

/// The measured width of a line, saturated to what a 16-bit column count
/// can hold.
pub open spec fn measured_width(line: Seq<char>) -> u16 {
    if line_width_spec(line) <= 0xFFFF {
        line_width_spec(line) as u16
    } else {
        0xFFFF
    }
}

/// One rendered line of static output: left padding, the styled line, and
/// the line terminator.
pub open spec fn rendered_line_spec(
    style: Style,
    centered: bool,
    terminal_width: u16,
    line: Seq<char>,
) -> Seq<char> {
    spaces(padding_spec(terminal_width, measured_width(line), centered)) + styled_of(style, line)
        + crlf()
}

/// The same line rendered with a style that sets nothing: the line itself
/// stands where the styled line would.
pub open spec fn plain_line_spec(centered: bool, terminal_width: u16, line: Seq<char>) -> Seq<
    char,
> {
    spaces(padding_spec(terminal_width, measured_width(line), centered)) + line + crlf()
}

/// All lines of static output, in order.
pub open spec fn static_lines_spec(
    lines: Seq<Seq<char>>,
    style: Style,
    centered: bool,
    terminal_width: u16,
) -> Seq<char>
    decreases lines.len(),
{
    if lines.len() == 0 {
        Seq::empty()
    } else {
        static_lines_spec(lines.drop_last(), style, centered, terminal_width)
            + rendered_line_spec(style, centered, terminal_width, lines.last())
    }
}

/// All lines of static output under a style that sets nothing.
pub open spec fn plain_lines_spec(
    lines: Seq<Seq<char>>,
    centered: bool,
    terminal_width: u16,
) -> Seq<char>
    decreases lines.len(),
{
    if lines.len() == 0 {
        Seq::empty()
    } else {
        plain_lines_spec(lines.drop_last(), centered, terminal_width) + plain_line_spec(
            centered,
            terminal_width,
            lines.last(),
        )
    }
}

/// The full static output: top padding, then every line.
pub open spec fn static_render_spec(
    lines: Seq<Seq<char>>,
    style: Style,
    centered: bool,
    padding_top: u16,
    terminal_width: u16,
) -> Seq<char> {
    crlf_repeat(padding_top as nat) + static_lines_spec(lines, style, centered, terminal_width)
}

/// The full static output under a style that sets nothing.
pub open spec fn plain_render_spec(
    lines: Seq<Seq<char>>,
    centered: bool,
    padding_top: u16,
    terminal_width: u16,
) -> Seq<char> {
    crlf_repeat(padding_top as nat) + plain_lines_spec(lines, centered, terminal_width)
}

/// The views of a sequence of lines.
pub open spec fn lines_view(lines: Seq<String>) -> Seq<Seq<char>> {
    lines.map_values(|l: String| l@)
}

/// Builds the text a static render writes: `padding_top` blank lines, then
/// every content line in order, left-padded (centered when asked), styled,
/// and terminated with carriage-return-plus-newline.
///
/// With a style that sets nothing, the output is exactly the padded raw
/// lines.
pub fn render_static_text(
    content: &BannerContent,
    style: &Style,
    centered: bool,
    padding_top: u16,
    terminal_width: u16,
) -> (out: String)
    ensures
        out@ == static_render_spec(
            lines_view(content@),
            *style,
            centered,
            padding_top,
            terminal_width,
        ),
        is_plain(*style) ==> out@ == plain_render_spec(
            lines_view(content@),
            centered,
            padding_top,
            terminal_width,
        ),
{
    let mut out = crlf_string(padding_top);
    let n = content.len();
    let mut i: usize = 0;
    proof {
        assert(lines_view(content@.take(0)) =~= Seq::<Seq<char>>::empty());
        assert(out@ + static_lines_spec(lines_view(content@.take(0)), *style, centered,
            terminal_width) =~= out@);
        assert(out@ + plain_lines_spec(lines_view(content@.take(0)), centered, terminal_width)
            =~= out@);
        reveal_strlit("\r\n");
    }
    while i < n
        invariant
            i <= n,
            n == content@.len(),
            "\r\n"@ =~= crlf(),
            out@ == crlf_repeat(padding_top as nat) + static_lines_spec(
                lines_view(content@.take(i as int)),
                *style,
                centered,
                terminal_width,
            ),
            is_plain(*style) ==> out@ == crlf_repeat(padding_top as nat) + plain_lines_spec(
                lines_view(content@.take(i as int)),
                centered,
                terminal_width,
            ),
        decreases n - i,
    {
        let line = &content[i];
        let line_width = get_line_width_accurate(line.as_str());
        let padding = calculate_padding(terminal_width, line_width, centered);
        let styled_line = style.apply(line.as_str());
        let pad = space_string(padding);
        out.append(pad.as_str());
        out.append(styled_line.as_str());
        out.append("\r\n");
        proof {
            let lv = lines_view(content@.take(i as int));
            let lv1 = lines_view(content@.take(i + 1));
            assert(lv1.drop_last() =~= lv);
            assert(lv1.last() == content@[i as int]@);
            assert(line_width == measured_width(content@[i as int]@));
            assert(out@ =~= crlf_repeat(padding_top as nat) + static_lines_spec(
                lv1,
                *style,
                centered,
                terminal_width,
            ));
            if is_plain(*style) {
                assert(out@ =~= crlf_repeat(padding_top as nat) + plain_lines_spec(
                    lv1,
                    centered,
                    terminal_width,
                ));
            }
        }
        i += 1;
    }
    proof {
        assert(content@.take(n as int) =~= content@);
    }
    out
}

/// The calls of one static paint, given the column query's answer: the
/// query, one write of the full rendered text at the answered width (80
/// columns when there was no answer), and one flush.
pub open spec fn static_output_calls(
    ans: Option<u16>,
    lines: Seq<Seq<char>>,
    style: Style,
    centered: bool,
    padding_top: u16,
) -> Seq<TermCall> {
    seq![
        TermCall::QueryCols(ans),
        TermCall::Print(static_render_spec(lines, style, centered, padding_top, cols_of(ans))),
        TermCall::Flush,
    ]
}

/// The same calls under a style that sets nothing: the raw padded lines
/// are what is written.
pub open spec fn plain_output_calls(
    ans: Option<u16>,
    lines: Seq<Seq<char>>,
    centered: bool,
    padding_top: u16,
) -> Seq<TermCall> {
    seq![
        TermCall::QueryCols(ans),
        TermCall::Print(plain_render_spec(lines, centered, padding_top, cols_of(ans))),
        TermCall::Flush,
    ]
}

/// Paints fixed content once: queries the terminal width (falling back to
/// 80 columns when there is no answer), builds the full output, writes it,
/// and flushes exactly once.
///
/// The calls made are the recorded width query, one write of the full
/// rendered text at the answered width, and one flush; on failure a prefix
/// of them.
pub fn display_static_content(
    term: &mut Terminal,
    content: &BannerContent,
    style: &Style,
    centered: bool,
    padding_top: u16,
) -> (r: Result<(), BannerError>)
    ensures
        r is Ok ==> exists|ans: Option<u16>|
            final(term).log() =~= old(term).log() + #[trigger] static_output_calls(
                ans,
                lines_view(content@),
                *style,
                centered,
                padding_top,
            ),
        r is Ok && is_plain(*style) ==> exists|ans: Option<u16>|
            final(term).log() =~= old(term).log() + #[trigger] plain_output_calls(
                ans,
                lines_view(content@),
                centered,
                padding_top,
            ),
        r is Err ==> exists|ans: Option<u16>|
            ({
                let calls = #[trigger] static_output_calls(
                    ans,
                    lines_view(content@),
                    *style,
                    centered,
                    padding_top,
                );
                final(term).log() =~= old(term).log() + calls.take(2) || final(term).log()
                    =~= old(term).log() + calls
            }),
        r matches Err(e) ==> e matches BannerError::Io(_),
{
    let queried = get_terminal_width(term);
    let ghost ans: Option<u16> = match queried {
        Ok(w) => Some(w),
        Err(_) => None,
    };
    let terminal_width = match queried {
        Ok(w) => w,
        Err(_) => FALLBACK_WIDTH,
    };
    proof {
        assert(terminal_width == cols_of(ans));
    }
    let out = render_static_text(content, style, centered, padding_top, terminal_width);
    match term.print(out.as_str()) {
        Ok(()) => {},
        Err(m) => {
            proof {
                assert(term.log() =~= old(term).log() + static_output_calls(
                    ans,
                    lines_view(content@),
                    *style,
                    centered,
                    padding_top,
                ).take(2));
            }
            return Err(BannerError::Io(m));
        },
    }
    match term.flush() {
        Ok(()) => {},
        Err(m) => {
            proof {
                assert(term.log() =~= old(term).log() + static_output_calls(
                    ans,
                    lines_view(content@),
                    *style,
                    centered,
                    padding_top,
                ));
            }
            return Err(BannerError::Io(m));
        },
    }
    proof {
        assert(term.log() =~= old(term).log() + static_output_calls(
            ans,
            lines_view(content@),
            *style,
            centered,
            padding_top,
        ));
        if is_plain(*style) {
            assert(term.log() =~= old(term).log() + plain_output_calls(
                ans,
                lines_view(content@),
                centered,
                padding_top,
            ));
        }
    }
    Ok(())
}

/// The restoration sequence: leave the alternate screen, show the cursor,
/// disable raw input mode.
pub open spec fn restore_calls() -> Seq<TermCall> {
    seq![TermCall::LeaveAlt, TermCall::ShowCursor, TermCall::DisableRaw]
}

/// The acquisition sequence: enable raw input mode, hide the cursor,
/// enter the alternate screen.
pub open spec fn acquire_calls() -> Seq<TermCall> {
    seq![TermCall::EnableRaw, TermCall::HideCursor, TermCall::EnterAlt]
}

/// The two calls whose exactly-once occurrence restoration is judged by.
pub open spec fn is_restore_call(c: TermCall) -> bool {
    c == TermCall::DisableRaw || c == TermCall::LeaveAlt
}

/// Number of occurrences of the call `c` in `s`.
pub open spec fn count_calls(s: Seq<TermCall>, c: TermCall) -> nat
    decreases s.len(),
{
    if s.len() == 0 {
        0
    } else {
        count_calls(s.drop_last(), c) + (if s.last() == c {
            1nat
        } else {
            0nat
        })
    }
}

proof fn lemma_count_concat(a: Seq<TermCall>, b: Seq<TermCall>, c: TermCall)
    ensures
        count_calls(a + b, c) == count_calls(a, c) + count_calls(b, c),
    decreases b.len(),
{
    if b.len() == 0 {
        assert(a + b =~= a);
    } else {
        assert((a + b).drop_last() =~= a + b.drop_last());
        assert((a + b).last() == b.last());
        lemma_count_concat(a, b.drop_last(), c);
    }
}

proof fn lemma_count_none(s: Seq<TermCall>, c: TermCall)
    requires
        forall|i: int| 0 <= i < s.len() ==> s[i] != c,
    ensures
        count_calls(s, c) == 0,
    decreases s.len(),
{
    if s.len() > 0 {
        lemma_count_none(s.drop_last(), c);
    }
}

proof fn lemma_count_restore()
    ensures
        count_calls(restore_calls(), TermCall::DisableRaw) == 1,
        count_calls(restore_calls(), TermCall::LeaveAlt) == 1,
{
    reveal_with_fuel(count_calls, 5);
    let s = restore_calls();
    assert(s.drop_last() =~= seq![TermCall::LeaveAlt, TermCall::ShowCursor]);
    assert(s.drop_last().drop_last() =~= seq![TermCall::LeaveAlt]);
    assert(s.drop_last().drop_last().drop_last() =~= Seq::<TermCall>::empty());
}

proof fn lemma_ext_push(pre: Seq<TermCall>, post: Seq<TermCall>, k: int, c: TermCall, x: TermCall)
    requires
        post == pre.push(c),
        0 <= k <= pre.len(),
    ensures
        count_calls(post.skip(k), x) == count_calls(pre.skip(k), x) + (if c == x {
            1nat
        } else {
            0nat
        }),
{
    assert(post.skip(k) =~= pre.skip(k).push(c));
    assert(post.skip(k).drop_last() =~= pre.skip(k));
}

proof fn lemma_ext_extend(pre: Seq<TermCall>, post: Seq<TermCall>, k: int, x: TermCall)
    requires
        0 <= k <= pre.len() <= post.len(),
        post.take(pre.len() as int) == pre,
    ensures
        count_calls(post.skip(k), x) == count_calls(pre.skip(k), x) + count_calls(
            post.skip(pre.len() as int),
            x,
        ),
{
    assert forall|j: int| 0 <= j < pre.len() implies post[j] == pre[j] by {
        assert(post[j] == post.take(pre.len() as int)[j]);
    }
    assert(post.skip(k) =~= pre.skip(k) + post.skip(pre.len() as int));
    lemma_count_concat(pre.skip(k), post.skip(pre.len() as int), x);
}

proof fn lemma_log_step(pre: Seq<TermCall>, post: Seq<TermCall>, base: Seq<TermCall>, c: TermCall)
    requires
        post == pre.push(c),
        base.len() <= pre.len(),
        pre.take(base.len() as int) == base,
        forall|i: int| base.len() <= i < pre.len() ==> !is_restore_call(#[trigger] pre[i]),
        !is_restore_call(c),
    ensures
        base.len() <= post.len(),
        post.take(base.len() as int) == base,
        forall|i: int| base.len() <= i < post.len() ==> !is_restore_call(#[trigger] post[i]),
{
    assert(post.take(base.len() as int) =~= base);
    assert forall|i: int| base.len() <= i < post.len() implies !is_restore_call(post[i]) by {
        if i < pre.len() {
            assert(post[i] == pre[i]);
        }
    }
}

/// Restores the terminal: leaves the alternate screen, shows the cursor,
/// and disables raw input mode, in that order, whatever state each is in.
/// All three are attempted; the first failure is returned.
pub fn restore_terminal_static(term: &mut Terminal) -> (r: Result<(), BannerError>)
    ensures
        final(term).log() == old(term).log() + restore_calls(),
        r matches Err(e) ==> e matches BannerError::Io(_),
{
    let mut first: Result<(), BannerError> = Ok(());
    match term.leave_alt() {
        Ok(()) => {},
        Err(m) => {
            first = Err(BannerError::Io(m));
        },
    }
    match term.show_cursor() {
        Ok(()) => {},
        Err(m) => {
            if first.is_ok() {
                first = Err(BannerError::Io(m));
            }
        },
    }
    match term.disable_raw() {
        Ok(()) => {},
        Err(m) => {
            if first.is_ok() {
                first = Err(BannerError::Io(m));
            }
        },
    }
    proof {
        assert(final(term).log() =~= old(term).log() + restore_calls());
    }
    first
}

/// Exclusive ownership of the terminal's mode state: raw input on, cursor
/// hidden, alternate screen active.  Acquired at the start of an animated
/// display; released — restoring all three — exactly once on every exit
/// path.  Abnormal-termination hooks are the embedding program's
/// integration point: it should install a handler that runs the same
/// restoration sequence.
pub struct TerminalGuard {
    released: bool,
}

impl TerminalGuard {
    /// Whether this guard has already restored the terminal.
    pub closed spec fn is_released(&self) -> bool {
        self.released
    }

    /// Acquires terminal control: enables raw input mode, hides the
    /// cursor, and enters the alternate screen.  Fails with an
    /// input/output error if any underlying mode change fails; restoration
    /// is then still owed and `restore_terminal_static` performs it.
    pub fn acquire(term: &mut Terminal) -> (r: Result<TerminalGuard, BannerError>)
        ensures
            ({
                let ext = final(term).log().skip(old(term).log().len() as int);
                &&& old(term).log().len() <= final(term).log().len()
                &&& final(term).log().take(old(term).log().len() as int) == old(term).log()
                &&& forall|i: int|
                    old(term).log().len() <= i < final(term).log().len() ==> !is_restore_call(
                        #[trigger] final(term).log()[i],
                    )
            }),
            r matches Ok(g) ==> !g.is_released() && final(term).log() == old(term).log()
                + acquire_calls(),
            r is Err ==> final(term).log() == old(term).log() + acquire_calls().take(1)
                || final(term).log() == old(term).log() + acquire_calls().take(2)
                || final(term).log() == old(term).log() + acquire_calls(),
            r matches Err(e) ==> e matches BannerError::Io(_),
    {
        let ghost base = term.log();
        proof {
            assert(base.take(base.len() as int) =~= base);
        }
        let ghost l0 = term.log();
        match term.enable_raw() {
            Ok(()) => {},
            Err(m) => {
                proof {
                    lemma_log_step(l0, term.log(), base, TermCall::EnableRaw);
                    assert(term.log() =~= base + acquire_calls().take(1));
                }
                return Err(BannerError::Io(m));
            },
        }
        proof {
            lemma_log_step(l0, term.log(), base, TermCall::EnableRaw);
        }
        let ghost l1 = term.log();
        match term.hide_cursor() {
            Ok(()) => {},
            Err(m) => {
                proof {
                    lemma_log_step(l1, term.log(), base, TermCall::HideCursor);
                    assert(term.log() =~= base + acquire_calls().take(2));
                }
                return Err(BannerError::Io(m));
            },
        }
        proof {
            lemma_log_step(l1, term.log(), base, TermCall::HideCursor);
        }
        let ghost l2 = term.log();
        match term.enter_alt() {
            Ok(()) => {},
            Err(m) => {
                proof {
                    lemma_log_step(l2, term.log(), base, TermCall::EnterAlt);
                    assert(term.log() =~= base + acquire_calls());
                }
                return Err(BannerError::Io(m));
            },
        }
        proof {
            lemma_log_step(l2, term.log(), base, TermCall::EnterAlt);
            assert(term.log() =~= base + acquire_calls());
        }
        Ok(TerminalGuard { released: false })
    }

    /// Releases terminal control, restoring the prior screen, cursor and
    /// input mode.  Idempotent: the first call performs the restoration
    /// sequence exactly once, a second call is a safe no-op.  An explicit
    /// call surfaces the first restoration failure.
    pub fn release(&mut self, term: &mut Terminal) -> (r: Result<(), BannerError>)
        ensures
            final(self).is_released(),
            old(self).is_released() ==> final(term).log() == old(term).log() && r is Ok,
            !old(self).is_released() ==> final(term).log() == old(term).log() + restore_calls(),
            r matches Err(e) ==> e matches BannerError::Io(_),
    {
        if self.released {
            return Ok(());
        }
        self.released = true;
        restore_terminal_static(term)
    }
}

/// Whether a key press cancels a running animation: the escape key, the
/// letter `q`, or Control-C.
pub open spec fn is_cancel_key_spec(k: KeyInput) -> bool {
    match k {
        KeyInput::Escape => true,
        KeyInput::Char(c, ctrl) => c == 'q' || (c == 'c' && ctrl),
        KeyInput::Other => false,
    }
}

/// Decides whether a key press cancels a running animation.
pub fn is_cancel_key(k: &KeyInput) -> (b: bool)
    ensures
        b == is_cancel_key_spec(*k),
{
    match k {
        KeyInput::Escape => true,
        KeyInput::Char(c, ctrl) => *c == 'q' || (*c == 'c' && *ctrl),
        KeyInput::Other => false,
    }
}

/// Advances the frame cursor after one frame has been shown: returns the
/// next frame index, the completed-pass count, and whether playback is
/// done.  The index wraps to 0 at the end of the sequence; on wraparound a
/// finite repeat count is checked, while `None` never finishes.
pub fn advance_frame(
    frame_index: usize,
    frame_count: usize,
    completed: usize,
    repeat: Option<usize>,
) -> (r: (usize, usize, bool))
    requires
        frame_index < frame_count,
        completed < usize::MAX,
    ensures
        r.0 < frame_count,
        frame_index + 1 < frame_count ==> r.0 == frame_index + 1 && r.1 == completed && !r.2,
        frame_index + 1 == frame_count ==> r.0 == 0 && (match repeat {
            Some(n) => r.1 == completed + 1 && (r.2 <==> r.1 >= n),
            None => r.1 == completed && !r.2,
        }),
{
    let next = frame_index + 1;
    if next < frame_count {
        (next, completed, false)
    } else {
        match repeat {
            Some(count) => {
                let done_passes = completed + 1;
                (0, done_passes, done_passes >= count)
            },
            None => (0, completed, false),
        }
    }
}

fn apply_vertical_padding(term: &mut Terminal, padding: u16) -> (r: Result<(), BannerError>)
    ensures
        padding == 0 ==> final(term).log() == old(term).log(),
        padding > 0 ==> final(term).log() == old(term).log().push(
            TermCall::Print(crlf_repeat(padding as nat)),
        ),
        r matches Err(e) ==> e matches BannerError::Io(_),
{
    if padding > 0 {
        let s = crlf_string(padding);
        match term.print(s.as_str()) {
            Ok(()) => Ok(()),
            Err(m) => Err(BannerError::Io(m)),
        }
    } else {
        Ok(())
    }
}


/// The frame top row: the row the cursor-position query answered, or the
/// top-padding height when the query failed.
pub open spec fn row_of(q: Option<(u16, u16)>, padding_top: u16) -> u16 {
    match q {
        Some(p) => p.1,
        None => padding_top,
    }
}

/// The row of line `i` of a frame whose top row is `start_row`, saturated.
pub open spec fn row_at(start_row: u16, i: int) -> u16 {
    let offset: int = if i > 0xFFFF {
        0xFFFF
    } else {
        i
    };
    if start_row + offset > 0xFFFF {
        0xFFFF
    } else {
        (start_row + offset) as u16
    }
}

/// The column a frame line is positioned at: its left padding.
pub open spec fn pad_of(terminal_width: u16, centered: bool, line: Seq<char>) -> u16 {
    padding_spec(terminal_width, measured_width(line), centered) as u16
}

/// The two calls that paint line `i` of a frame: position the cursor at
/// the line's padding column and row, then write the styled line — no
/// terminator, since absolute positioning makes one unnecessary.
pub open spec fn line_calls(
    style: Style,
    centered: bool,
    terminal_width: u16,
    line: Seq<char>,
    start_row: u16,
    i: int,
) -> Seq<TermCall> {
    seq![
        TermCall::MoveTo(pad_of(terminal_width, centered, line), row_at(start_row, i)),
        TermCall::Print(styled_of(style, line)),
    ]
}

/// The calls that paint the lines of a frame, in order.
pub open spec fn frame_line_calls(
    style: Style,
    centered: bool,
    terminal_width: u16,
    lines: Seq<Seq<char>>,
    start_row: u16,
) -> Seq<TermCall>
    decreases lines.len(),
{
    if lines.len() == 0 {
        Seq::empty()
    } else {
        frame_line_calls(style, centered, terminal_width, lines.drop_last(), start_row)
            + line_calls(
            style,
            centered,
            terminal_width,
            lines.last(),
            start_row,
            lines.len() - 1,
        )
    }
}

/// The calls that open a frame paint: clear the screen, home the cursor,
/// write the top padding, and query the cursor's row (`q` is its answer).
pub open spec fn frame_pre_calls(padding_top: u16, q: Option<(u16, u16)>) -> Seq<TermCall> {
    seq![TermCall::Clear, TermCall::MoveTo(0, 0)] + (if padding_top > 0 {
        seq![TermCall::Print(crlf_repeat(padding_top as nat))]
    } else {
        Seq::<TermCall>::empty()
    }) + seq![TermCall::QueryPos(q)]
}

/// Every call of one frame paint, given the row query's answer `q`: the
/// opening calls, each line painted from the queried row down (from the
/// top-padding height when the query failed), and one flush.
pub open spec fn frame_calls(
    style: Style,
    centered: bool,
    terminal_width: u16,
    padding_top: u16,
    lines: Seq<Seq<char>>,
    q: Option<(u16, u16)>,
) -> Seq<TermCall> {
    frame_pre_calls(padding_top, q) + frame_line_calls(
        style,
        centered,
        terminal_width,
        lines,
        row_of(q, padding_top),
    ) + seq![TermCall::Flush]
}

/// Holds when `ext` is exactly the calls of one frame paint, for whatever
/// answer the row query gave.
pub open spec fn frame_painted(
    ext: Seq<TermCall>,
    style: Style,
    centered: bool,
    terminal_width: u16,
    padding_top: u16,
    lines: Seq<Seq<char>>,
) -> bool {
    exists|q: Option<(u16, u16)>|
        ext =~= #[trigger] frame_calls(style, centered, terminal_width, padding_top, lines, q)
}

/// A poll that reported an event ready, and the read of that event.
pub open spec fn key_read_part(key: KeyInput) -> Seq<TermCall> {
    seq![TermCall::Poll(true), TermCall::ReadKey(key)]
}

/// The parts of one animation pass: its poll (and possible key read), the
/// row query's answer, and the frame paint they precede.
pub open spec fn pass_parts(
    s: Seq<TermCall>,
    poll_part: Seq<TermCall>,
    q: Option<(u16, u16)>,
    style: Style,
    centered: bool,
    terminal_width: u16,
    padding_top: u16,
    lines: Seq<Seq<char>>,
) -> bool {
    &&& s =~= poll_part + frame_calls(style, centered, terminal_width, padding_top, lines, q)
    &&& (poll_part =~= seq![TermCall::Poll(false)] || (exists|key: KeyInput|
        !is_cancel_key_spec(key) && poll_part =~= #[trigger] key_read_part(key)))
}

/// One animation pass: a poll with no event ready, or the read of a key
/// that does not cancel, followed by the paint of the pass's frame.
pub open spec fn render_pass(
    s: Seq<TermCall>,
    style: Style,
    centered: bool,
    terminal_width: u16,
    padding_top: u16,
    lines: Seq<Seq<char>>,
) -> bool {
    exists|poll_part: Seq<TermCall>, q: Option<(u16, u16)>|
        #[trigger] pass_parts(s, poll_part, q, style, centered, terminal_width, padding_top, lines)
}

/// The views of a sequence of frames.
pub open spec fn frames_view(frames: Seq<BannerContent>) -> Seq<Seq<Seq<char>>> {
    frames.map_values(|f: BannerContent| lines_view(f@))
}

/// Holds when `segs` cuts `s` into `count` animation passes, pass `j`
/// painting frame `j` modulo the frame count — the playback order.
pub open spec fn run_segments(
    s: Seq<TermCall>,
    segs: Seq<Seq<TermCall>>,
    style: Style,
    centered: bool,
    terminal_width: u16,
    padding_top: u16,
    frames: Seq<Seq<Seq<char>>>,
    count: int,
) -> bool {
    &&& segs.len() == count
    &&& s =~= segs.flatten()
    &&& forall|j: int|
        0 <= j < count ==> render_pass(
            #[trigger] segs[j],
            style,
            centered,
            terminal_width,
            padding_top,
            frames[j % (frames.len() as int)],
        )
}

/// Holds when `s` is `count` animation passes over the frames in playback
/// order.
pub open spec fn render_run(
    s: Seq<TermCall>,
    style: Style,
    centered: bool,
    terminal_width: u16,
    padding_top: u16,
    frames: Seq<Seq<Seq<char>>>,
    count: int,
) -> bool {
    exists|segs: Seq<Seq<TermCall>>|
        #[trigger] run_segments(s, segs, style, centered, terminal_width, padding_top, frames, count)
}

/// One cancellation: a poll that reported an event and the read of a key
/// that cancels.
pub open spec fn cancel_segment(s: Seq<TermCall>) -> bool {
    exists|key: KeyInput| is_cancel_key_spec(key) && s =~= #[trigger] key_read_part(key)
}

/// The parts of a successful animated display's calls: the acquisition
/// sequence, the recorded width query, `m` animation passes at the
/// answered width (80 columns when there was no answer), at most one
/// ending cancellation, and the restoration sequence.  Under a finite
/// repeat count the run is complete — one pass per frame per repetition,
/// and one full pass for a count of zero — unless a cancellation ended
/// it; under an infinite repeat an uncancelled run holds the loop's whole
/// iteration budget of passes.
pub open spec fn trace_parts(
    ext: Seq<TermCall>,
    style: Style,
    centered: bool,
    ans: Option<u16>,
    padding_top: u16,
    frames: Seq<Seq<Seq<char>>>,
    repeat: Option<usize>,
    m: int,
    run: Seq<TermCall>,
    fin: Seq<TermCall>,
) -> bool {
    &&& ext =~= acquire_calls() + seq![TermCall::QueryCols(ans)] + run + fin + restore_calls()
    &&& 0 <= m
    &&& render_run(run, style, centered, cols_of(ans), padding_top, frames, m)
    &&& (fin =~= Seq::<TermCall>::empty() || cancel_segment(fin))
    &&& (match repeat {
        Some(n) => (fin =~= Seq::<TermCall>::empty()) ==> m == (if n == 0 {
            1int
        } else {
            n as int
        }) * frames.len(),
        None => (fin =~= Seq::<TermCall>::empty()) ==> m == u128::MAX as int,
    })
}

/// What a successful animated display does, stated over its call log.
pub open spec fn animation_trace(
    ext: Seq<TermCall>,
    style: Style,
    centered: bool,
    padding_top: u16,
    frames: Seq<Seq<Seq<char>>>,
    repeat: Option<usize>,
) -> bool {
    exists|ans: Option<u16>, m: int, run: Seq<TermCall>, fin: Seq<TermCall>|
        #[trigger] trace_parts(ext, style, centered, ans, padding_top, frames, repeat, m, run, fin)
}

/// The loop's exit shape, before restoration: the passes so far and at
/// most one ending cancellation.
spec fn exit_parts(
    log: Seq<TermCall>,
    base2: Seq<TermCall>,
    style: Style,
    centered: bool,
    w: u16,
    padding_top: u16,
    frames: Seq<Seq<Seq<char>>>,
    repeat: Option<usize>,
    m: int,
    run: Seq<TermCall>,
    fin: Seq<TermCall>,
) -> bool {
    &&& log =~= base2 + run + fin
    &&& 0 <= m
    &&& render_run(run, style, centered, w, padding_top, frames, m)
    &&& (fin =~= Seq::<TermCall>::empty() || cancel_segment(fin))
    &&& (match repeat {
        Some(n) => (fin =~= Seq::<TermCall>::empty()) ==> m == (if n == 0 {
            1int
        } else {
            n as int
        }) * frames.len(),
        None => (fin =~= Seq::<TermCall>::empty()) ==> m == u128::MAX as int,
    })
}

proof fn lemma_run_append(
    s: Seq<TermCall>,
    seg: Seq<TermCall>,
    segs: Seq<Seq<TermCall>>,
    style: Style,
    centered: bool,
    w: u16,
    padding_top: u16,
    frames: Seq<Seq<Seq<char>>>,
    m: int,
)
    requires
        run_segments(s, segs, style, centered, w, padding_top, frames, m),
        frames.len() > 0,
        render_pass(seg, style, centered, w, padding_top, frames[m % (frames.len() as int)]),
    ensures
        run_segments(s + seg, segs.push(seg), style, centered, w, padding_top, frames, m + 1),
{
    segs.lemma_flatten_push(seg);
    assert(s + seg =~= segs.push(seg).flatten());
    assert forall|j: int| 0 <= j < m + 1 implies render_pass(
        #[trigger] segs.push(seg)[j],
        style,
        centered,
        w,
        padding_top,
        frames[j % (frames.len() as int)],
    ) by {
        if j < m {
            assert(segs.push(seg)[j] == segs[j]);
        } else {
            assert(segs.push(seg)[j] == seg);
        }
    }
}


/// Paints one animation frame in place: clears the screen, homes the
/// cursor, re-emits the top padding, takes the cursor's row as the frame's
/// top (falling back to the padding height when the query fails — the
/// query's failure is recovered locally, never propagated), then positions
/// and writes each styled line and flushes once.
fn render_frame(
    term: &mut Terminal,
    frame: &BannerContent,
    style: &Style,
    centered: bool,
    padding_top: u16,
    terminal_width: u16,
) -> (r: Result<(), BannerError>)
    ensures
        old(term).log().len() <= final(term).log().len(),
        final(term).log().take(old(term).log().len() as int) == old(term).log(),
        forall|i: int|
            old(term).log().len() <= i < final(term).log().len() ==> !is_restore_call(
                #[trigger] final(term).log()[i],
            ),
        count_calls(final(term).log().skip(old(term).log().len() as int), TermCall::Clear) == 1,
        r is Ok ==> frame_painted(
            final(term).log().skip(old(term).log().len() as int),
            *style,
            centered,
            terminal_width,
            padding_top,
            lines_view(frame@),
        ),
        r matches Err(e) ==> e matches BannerError::Io(_),
{
    let ghost base = term.log();
    let ghost lv = lines_view(frame@);
    proof {
        assert(base.take(base.len() as int) =~= base);
        assert(count_calls(base.skip(base.len() as int), TermCall::Clear) == 0) by {
            assert(base.skip(base.len() as int) =~= Seq::<TermCall>::empty());
        }
    }
    let ghost l0 = term.log();
    let cleared = term.clear();
    proof {
        lemma_log_step(l0, term.log(), base, TermCall::Clear);
        lemma_ext_push(l0, term.log(), base.len() as int, TermCall::Clear, TermCall::Clear);
    }
    match cleared {
        Ok(()) => {},
        Err(m) => {
            return Err(BannerError::Io(m));
        },
    }
    let ghost l1 = term.log();
    let homed = term.move_to(0, 0);
    proof {
        lemma_log_step(l1, term.log(), base, TermCall::MoveTo(0, 0));
        lemma_ext_push(l1, term.log(), base.len() as int, TermCall::MoveTo(0, 0), TermCall::Clear);
    }
    match homed {
        Ok(()) => {},
        Err(m) => {
            return Err(BannerError::Io(m));
        },
    }
    let ghost l2 = term.log();
    let padded = apply_vertical_padding(term, padding_top);
    proof {
        if padding_top > 0 {
            lemma_log_step(
                l2,
                term.log(),
                base,
                TermCall::Print(crlf_repeat(padding_top as nat)),
            );
            lemma_ext_push(
                l2,
                term.log(),
                base.len() as int,
                TermCall::Print(crlf_repeat(padding_top as nat)),
                TermCall::Clear,
            );
        }
    }
    match padded {
        Ok(()) => {},
        Err(e) => {
            return Err(e);
        },
    }
    let ghost l3 = term.log();
    let pos = term.query_pos();
    let ghost q: Option<(u16, u16)> = match pos {
        Ok(p) => Some(p),
        Err(_) => None,
    };
    proof {
        lemma_log_step(l3, term.log(), base, TermCall::QueryPos(q));
        lemma_ext_push(l3, term.log(), base.len() as int, TermCall::QueryPos(q), TermCall::Clear);
    }
    let start_row = match pos {
        Ok((_column, row)) => row,
        Err(_) => padding_top,
    };
    let ghost pre = frame_pre_calls(padding_top, q);
    proof {
        assert(start_row == row_of(q, padding_top));
        assert(term.log() =~= base + pre);
        assert(term.log() =~= base + pre + frame_line_calls(
            *style,
            centered,
            terminal_width,
            lv.take(0),
            start_row,
        ));
    }
    let n = frame.len();
    let mut i: usize = 0;
    while i < n
        invariant
            i <= n,
            n == frame@.len(),
            base == old(term).log(),
            lv == lines_view(frame@),
            lv.len() == n,
            start_row == row_of(q, padding_top),
            pre == frame_pre_calls(padding_top, q),
            term.log() =~= base + pre + frame_line_calls(
                *style,
                centered,
                terminal_width,
                lv.take(i as int),
                start_row,
            ),
            base.len() <= term.log().len(),
            term.log().take(base.len() as int) == base,
            forall|j: int|
                base.len() <= j < term.log().len() ==> !is_restore_call(#[trigger] term.log()[j]),
            count_calls(term.log().skip(base.len() as int), TermCall::Clear) == 1,
        decreases n - i,
    {
        let line = &frame[i];
        let line_width = get_line_width_accurate(line.as_str());
        let padding = calculate_padding(terminal_width, line_width, centered);
        let styled_line = style.apply(line.as_str());
        let offset: u16 = if i > 0xFFFF {
            0xFFFF
        } else {
            i as u16
        };
        let row: u16 = if start_row > 0xFFFF - offset {
            0xFFFF
        } else {
            start_row + offset
        };
        proof {
            assert(lv[i as int] == frame@[i as int]@);
            assert(line_width == measured_width(lv[i as int]));
            assert(padding == pad_of(terminal_width, centered, lv[i as int]));
            assert(row == row_at(start_row, i as int));
        }
        let ghost la = term.log();
        let moved = term.move_to(padding, row);
        proof {
            lemma_log_step(la, term.log(), base, TermCall::MoveTo(padding, row));
            lemma_ext_push(
                la,
                term.log(),
                base.len() as int,
                TermCall::MoveTo(padding, row),
                TermCall::Clear,
            );
        }
        match moved {
            Ok(()) => {},
            Err(m) => {
                return Err(BannerError::Io(m));
            },
        }
        let ghost lb = term.log();
        let printed = term.print(styled_line.as_str());
        proof {
            lemma_log_step(lb, term.log(), base, TermCall::Print(styled_line@));
            lemma_ext_push(
                lb,
                term.log(),
                base.len() as int,
                TermCall::Print(styled_line@),
                TermCall::Clear,
            );
            assert(lv.take(i + 1).drop_last() =~= lv.take(i as int));
            assert(lv.take(i + 1).last() == lv[i as int]);
            assert(term.log() =~= base + pre + frame_line_calls(
                *style,
                centered,
                terminal_width,
                lv.take(i + 1),
                start_row,
            ));
        }
        match printed {
            Ok(()) => {},
            Err(m) => {
                return Err(BannerError::Io(m));
            },
        }
        i += 1;
    }
    let ghost lf = term.log();
    let flushed = term.flush();
    proof {
        lemma_log_step(lf, term.log(), base, TermCall::Flush);
        lemma_ext_push(lf, term.log(), base.len() as int, TermCall::Flush, TermCall::Clear);
        assert(lv.take(n as int) =~= lv);
        assert(term.log().skip(base.len() as int) =~= frame_calls(
            *style,
            centered,
            terminal_width,
            padding_top,
            lv,
            q,
        ));
    }
    match flushed {
        Ok(()) => Ok(()),
        Err(m) => Err(BannerError::Io(m)),
    }
}


proof fn lemma_count_no_clear()
    ensures
        count_calls(acquire_calls(), TermCall::Clear) == 0,
        count_calls(restore_calls(), TermCall::Clear) == 0,
{
    reveal_with_fuel(count_calls, 5);
    let a = acquire_calls();
    assert(a.drop_last() =~= seq![TermCall::EnableRaw, TermCall::HideCursor]);
    assert(a.drop_last().drop_last() =~= seq![TermCall::EnableRaw]);
    assert(a.drop_last().drop_last().drop_last() =~= Seq::<TermCall>::empty());
    let r = restore_calls();
    assert(r.drop_last() =~= seq![TermCall::LeaveAlt, TermCall::ShowCursor]);
    assert(r.drop_last().drop_last() =~= seq![TermCall::LeaveAlt]);
    assert(r.drop_last().drop_last().drop_last() =~= Seq::<TermCall>::empty());
}

proof fn lemma_render_bound(c: int, idx: int, len: int, n: int, cnt: int, plus: int)
    requires
        len >= 1,
        0 <= idx < len,
        0 <= c,
        0 <= n,
        c < n || c == 0,
        cnt == c * len + idx + plus,
        0 <= plus <= 1,
    ensures
        cnt <= (if n == 0 {
            1int
        } else {
            n
        }) * len,
{
    let bound = if n == 0 {
        1int
    } else {
        n
    };
    assert(cnt <= (c + 1) * len) by (nonlinear_arith)
        requires
            cnt == c * len + idx + plus,
            idx < len,
            plus <= 1,
    ;
    assert((c + 1) * len <= bound * len) by (nonlinear_arith)
        requires
            c + 1 <= bound,
            len >= 0,
    ;
}


/// Plays an animation: takes exclusive terminal control, then shows the
/// frames in order with the configured pacing until a finite repeat count
/// completes, the user cancels with Escape, `q` or Control-C, or a
/// terminal failure occurs.
///
/// An empty frame sequence is a success and performs no terminal-primitive
/// call at all.  For a non-empty one, on every exit path — completion,
/// cancellation, or failure — the primitive calls of this invocation end
/// with the restoration sequence and hold exactly one raw-mode-disable and
/// one leave-alternate-screen call; under a finite repeat count of `n`
/// passes the screen is cleared for a new frame at most `max(n, 1)` times
/// the frame count — never an extra render.  On success the calls form the
/// acquisition sequence, the recorded width query, then one pass per frame
/// in playback order (each painting exactly its frame's styled lines at
/// their computed columns for the answered width, 80 when there was no
/// answer), then possibly one cancellation, then the restoration sequence;
/// with a finite repeat count the run is complete unless cancelled, and an
/// uncancelled infinite run holds the loop's whole iteration budget.
///
/// An infinite animation loops until cancelled; only an iteration budget
/// the termination checker requires — unreachable in any realistic run —
/// bounds it.
#[verifier::rlimit(100)]
pub fn display_animated(
    term: &mut Terminal,
    animation: &Animation,
    style: &Style,
    centered: bool,
    padding_top: u16,
) -> (r: Result<(), BannerError>)
    ensures
        animation.frames@.len() == 0 ==> r is Ok && final(term).log() == old(term).log(),
        animation.frames@.len() > 0 ==> ({
            let ext = final(term).log().skip(old(term).log().len() as int);
            &&& final(term).log().take(old(term).log().len() as int) == old(term).log()
            &&& ext.len() >= 3
            &&& ext.skip(ext.len() - 3) =~= restore_calls()
            &&& count_calls(ext, TermCall::DisableRaw) == 1
            &&& count_calls(ext, TermCall::LeaveAlt) == 1
        }),
        animation.frames@.len() > 0 && r is Ok ==> ({
            let ext = final(term).log().skip(old(term).log().len() as int);
            &&& ext.len() >= 6
            &&& ext.take(3) =~= acquire_calls()
            &&& animation_trace(
                ext,
                *style,
                centered,
                padding_top,
                frames_view(animation.frames@),
                animation.repeat,
            )
        }),
        animation.frames@.len() > 0 && r is Ok ==> (match animation.repeat {
            Some(n) => count_calls(
                final(term).log().skip(old(term).log().len() as int),
                TermCall::Clear,
            ) <= (if n == 0 {
                1int
            } else {
                n as int
            }) * animation.frames@.len(),
            None => true,
        }),
        r matches Err(e) ==> e matches BannerError::Io(_),
{
    if animation.frames.len() == 0 {
        return Ok(());
    }
    let ghost base = term.log();
    proof {
        assert(base.take(base.len() as int) =~= base);
    }
    let mut guard = match TerminalGuard::acquire(term) {
        Ok(g) => g,
        Err(e) => {
            let ghost mid = term.log();
            match restore_terminal_static(term) {
                Ok(()) => {},
                Err(cleanup) => report_teardown_failure(cleanup.message().as_str()),
            }
            proof {
                lemma_animated_teardown(base, mid, term.log());
            }
            return Err(e);
        },
    };
    let queried = get_terminal_width(term);
    let ghost ans: Option<u16> = match queried {
        Ok(w) => Some(w),
        Err(_) => None,
    };
    let terminal_width = match queried {
        Ok(w) => w,
        Err(_) => FALLBACK_WIDTH,
    };
    let ghost base2 = term.log();
    let ghost fv = frames_view(animation.frames@);
    let ghost mut run: Seq<TermCall> = Seq::empty();
    let ghost mut segs: Seq<Seq<TermCall>> = Seq::empty();
    let ghost mut passes: int = 0;
    let ghost mut wraps: int = 0;
    proof {
        assert(terminal_width == cols_of(ans));
        assert(base2 =~= base + acquire_calls() + seq![TermCall::QueryCols(ans)]);
        assert(base2.take(base2.len() as int) =~= base2);
        assert(count_calls(base2.skip(base2.len() as int), TermCall::Clear) == 0) by {
            assert(base2.skip(base2.len() as int) =~= Seq::<TermCall>::empty());
        }
        assert(segs.flatten() =~= Seq::<TermCall>::empty());
        assert(run_segments(run, segs, *style, centered, terminal_width, padding_top, fv, 0));
        assert(term.log() =~= base2 + run);
    }
    let mut result: Result<(), BannerError> = Ok(());
    let mut frame_index: usize = 0;
    let mut current_repeat: usize = 0;
    let mut fuel: u128 = u128::MAX;
    loop
        invariant_except_break
            result is Ok,
            match animation.repeat {
                Some(n) => current_repeat < n || current_repeat == 0,
                None => current_repeat == 0,
            },
            match animation.repeat {
                Some(_) => wraps == current_repeat as int,
                None => true,
            },
            0 <= wraps,
            passes == wraps * (fv.len() as int) + frame_index,
            match animation.repeat {
                Some(_) => count_calls(term.log().skip(base2.len() as int), TermCall::Clear)
                    == passes,
                None => true,
            },
            term.log() =~= base2 + run,
            run_segments(run, segs, *style, centered, terminal_width, padding_top, fv, passes),
            fuel as int == u128::MAX - passes,
        invariant
            animation.frames@.len() > 0,
            fv == frames_view(animation.frames@),
            fv.len() == animation.frames@.len(),
            fv.len() <= usize::MAX,
            frame_index < animation.frames@.len(),
            !guard.is_released(),
            base2.len() <= term.log().len(),
            term.log().take(base2.len() as int) == base2,
            forall|i: int|
                base2.len() <= i < term.log().len() ==> !is_restore_call(#[trigger] term.log()[i]),
        ensures
            base2.len() <= term.log().len(),
            term.log().take(base2.len() as int) == base2,
            forall|i: int|
                base2.len() <= i < term.log().len() ==> !is_restore_call(#[trigger] term.log()[i]),
            !guard.is_released(),
            result matches Err(e) ==> e matches BannerError::Io(_),
            match animation.repeat {
                Some(n) => count_calls(term.log().skip(base2.len() as int), TermCall::Clear) <= (
                if n == 0 {
                    1int
                } else {
                    n as int
                }) * animation.frames@.len(),
                None => true,
            },
            result is Ok ==> exists|m: int, run2: Seq<TermCall>, fin: Seq<TermCall>|
                #[trigger] exit_parts(
                    term.log(),
                    base2,
                    *style,
                    centered,
                    terminal_width,
                    padding_top,
                    fv,
                    animation.repeat,
                    m,
                    run2,
                    fin,
                ),
        decreases fuel,
    {
        let ghost m_old: int = passes;
        if fuel == 0 {
            proof {
                if let Some(n) = animation.repeat {
                    assert(passes <= 0xFFFF_FFFF_FFFF_FFFFu64 * 0xFFFF_FFFF_FFFF_FFFFu64
                        + 0xFFFF_FFFF_FFFF_FFFFu64) by (nonlinear_arith)
                        requires
                            passes == wraps * (fv.len() as int) + frame_index,
                            0 <= wraps <= 0xFFFF_FFFF_FFFF_FFFFu64,
                            0 <= fv.len() <= 0xFFFF_FFFF_FFFF_FFFFu64,
                            0 <= frame_index <= 0xFFFF_FFFF_FFFF_FFFFu64,
                    ;
                    assert(false);
                }
                assert(m_old == u128::MAX as int);
                assert(term.log() =~= base2 + run + Seq::<TermCall>::empty());
                assert(exit_parts(
                    term.log(),
                    base2,
                    *style,
                    centered,
                    terminal_width,
                    padding_top,
                    fv,
                    animation.repeat,
                    m_old,
                    run,
                    Seq::<TermCall>::empty(),
                ));
            }
            break;
        }
        fuel = fuel - 1;
        let ghost lp = term.log();
        let polled = term.poll_input(animation.frame_delay);
        proof {
            match polled {
                Ok(b) => {
                    lemma_log_step(lp, term.log(), base2, TermCall::Poll(b));
                    lemma_ext_push(
                        lp,
                        term.log(),
                        base2.len() as int,
                        TermCall::Poll(b),
                        TermCall::Clear,
                    );
                },
                Err(_) => {
                    lemma_log_step(lp, term.log(), base2, TermCall::Poll(false));
                    lemma_ext_push(
                        lp,
                        term.log(),
                        base2.len() as int,
                        TermCall::Poll(false),
                        TermCall::Clear,
                    );
                },
            }
            if let Some(n) = animation.repeat {
                lemma_render_bound(
                    current_repeat as int,
                    frame_index as int,
                    animation.frames@.len() as int,
                    n as int,
                    count_calls(term.log().skip(base2.len() as int), TermCall::Clear) as int,
                    0,
                );
            }
        }
        let ready = match polled {
            Ok(b) => b,
            Err(m) => {
                result = Err(BannerError::Io(m));
                break;
            },
        };
        let ghost mut poll_part: Seq<TermCall> = seq![TermCall::Poll(ready)];
        if ready {
            let ghost lr = term.log();
            let key = term.read_key();
            proof {
                match key {
                    Ok(k) => {
                        lemma_log_step(lr, term.log(), base2, TermCall::ReadKey(k));
                        lemma_ext_push(
                            lr,
                            term.log(),
                            base2.len() as int,
                            TermCall::ReadKey(k),
                            TermCall::Clear,
                        );
                    },
                    Err(_) => {
                        lemma_log_step(lr, term.log(), base2, TermCall::ReadKey(KeyInput::Other));
                        lemma_ext_push(
                            lr,
                            term.log(),
                            base2.len() as int,
                            TermCall::ReadKey(KeyInput::Other),
                            TermCall::Clear,
                        );
                    },
                }
                if let Some(n) = animation.repeat {
                    lemma_render_bound(
                        current_repeat as int,
                        frame_index as int,
                        animation.frames@.len() as int,
                        n as int,
                        count_calls(term.log().skip(base2.len() as int), TermCall::Clear) as int,
                        0,
                    );
                }
            }
            match key {
                Ok(k) => {
                    proof {
                        poll_part = key_read_part(k);
                        assert(term.log() =~= base2 + run + poll_part);
                    }
                    if is_cancel_key(&k) {
                        proof {
                            assert(cancel_segment(poll_part));
                            assert(exit_parts(
                                term.log(),
                                base2,
                                *style,
                                centered,
                                terminal_width,
                                padding_top,
                                fv,
                                animation.repeat,
                                m_old,
                                run,
                                poll_part,
                            ));
                        }
                        break;
                    }
                },
                Err(m) => {
                    result = Err(BannerError::Io(m));
                    break;
                },
            }
        } else {
            proof {
                assert(term.log() =~= base2 + run + poll_part);
            }
        }
        let frame = &animation.frames[frame_index];
        let ghost m0 = term.log();
        let rendered = render_frame(term, frame, style, centered, padding_top, terminal_width);
        proof {
            lemma_log_trans(base2, m0, term.log());
            lemma_ext_extend(m0, term.log(), base2.len() as int, TermCall::Clear);
            if let Some(n) = animation.repeat {
                lemma_render_bound(
                    current_repeat as int,
                    frame_index as int,
                    animation.frames@.len() as int,
                    n as int,
                    count_calls(term.log().skip(base2.len() as int), TermCall::Clear) as int,
                    1,
                );
            }
        }
        match rendered {
            Ok(()) => {},
            Err(e) => {
                result = Err(e);
                break;
            },
        }
        proof {
            let k_len = fv.len() as int;
            assert(fv[frame_index as int] == lines_view(frame@));
            lemma_mod_multiples_vanish(wraps, frame_index as int, k_len);
            assert(k_len * wraps == wraps * k_len) by (nonlinear_arith);
            lemma_small_mod(frame_index as nat, fv.len());
            assert(m_old % k_len == frame_index as int);
            let ext_rf = term.log().skip(m0.len() as int);
            assert(term.log() =~= m0 + ext_rf);
            let q = choose|q: Option<(u16, u16)>|
                ext_rf =~= frame_calls(
                    *style,
                    centered,
                    terminal_width,
                    padding_top,
                    lines_view(frame@),
                    q,
                );
            let seg = poll_part + ext_rf;
            assert(seg =~= poll_part + frame_calls(
                *style,
                centered,
                terminal_width,
                padding_top,
                fv[frame_index as int],
                q,
            ));
            assert(pass_parts(
                seg,
                poll_part,
                q,
                *style,
                centered,
                terminal_width,
                padding_top,
                fv[frame_index as int],
            ));
            assert(render_pass(
                seg,
                *style,
                centered,
                terminal_width,
                padding_top,
                fv[m_old % k_len],
            ));
            lemma_run_append(
                run,
                seg,
                segs,
                *style,
                centered,
                terminal_width,
                padding_top,
                fv,
                m_old,
            );
            run = run + seg;
            segs = segs.push(seg);
            assert(term.log() =~= base2 + run);
        }
        let ghost oc = current_repeat as int;
        let ghost oi = frame_index as int;
        let advanced = advance_frame(
            frame_index,
            animation.frames.len(),
            current_repeat,
            animation.repeat,
        );
        frame_index = advanced.0;
        current_repeat = advanced.1;
        proof {
            let glen = fv.len() as int;
            passes = passes + 1;
            if oi + 1 == glen {
                assert((wraps + 1) * glen == wraps * glen + glen) by (nonlinear_arith);
                wraps = wraps + 1;
            }
        }
        if advanced.2 {
            proof {
                let bound: int = match animation.repeat {
                    Some(n) => if n == 0 {
                        1int
                    } else {
                        n as int
                    },
                    None => 0,
                };
                assert(passes == bound * (fv.len() as int));
                assert(term.log() =~= base2 + run + Seq::<TermCall>::empty());
                assert(exit_parts(
                    term.log(),
                    base2,
                    *style,
                    centered,
                    terminal_width,
                    padding_top,
                    fv,
                    animation.repeat,
                    m_old + 1,
                    run,
                    Seq::<TermCall>::empty(),
                ));
            }
            break;
        }
    }
    let ghost mid = term.log();
    let released = guard.release(term);
    proof {
        assert(acquire_calls().len() == 3);
        assert forall|j: int| 0 <= j < base2.len() implies mid[j] == base2[j] by {
            assert(mid[j] == mid.take(base2.len() as int)[j]);
        }
        assert(mid.take(base.len() as int) =~= base);
        assert forall|i: int| base.len() <= i < mid.len() implies !is_restore_call(mid[i]) by {
            if i < base2.len() {
                assert(mid[i] == base2[i]);
                if i - base.len() < 3 {
                    assert(base2[i] == acquire_calls()[i - base.len()]);
                } else {
                    assert(base2[i] == TermCall::QueryCols(ans));
                }
            }
        }
        lemma_animated_teardown(base, mid, term.log());
        let post = term.log();
        let ext = post.skip(base.len() as int);
        assert forall|j: int| 0 <= j < 3 implies ext[j] == acquire_calls()[j] by {
            assert(ext[j] == post[base.len() + j]);
            assert(post[base.len() + j] == mid[base.len() + j]);
            assert(mid[base.len() + j] == base2[base.len() + j]);
        }
        assert(ext.take(3) =~= acquire_calls());
        lemma_count_no_clear();
        assert(base2.skip(base.len() as int) =~= acquire_calls() + seq![TermCall::QueryCols(ans)]);
        assert(count_calls(seq![TermCall::QueryCols(ans)], TermCall::Clear) == 0) by {
            reveal_with_fuel(count_calls, 2);
            assert(seq![TermCall::QueryCols(ans)].drop_last() =~= Seq::<TermCall>::empty());
        }
        lemma_count_concat(acquire_calls(), seq![TermCall::QueryCols(ans)], TermCall::Clear);
        lemma_ext_extend(base2, mid, base.len() as int, TermCall::Clear);
        assert(post.take(mid.len() as int) =~= mid);
        assert(post.skip(mid.len() as int) =~= restore_calls());
        lemma_ext_extend(mid, post, base.len() as int, TermCall::Clear);
        if result is Ok {
            let (m, run2, fin) = choose|m: int, run2: Seq<TermCall>, fin: Seq<TermCall>|
                exit_parts(
                    mid,
                    base2,
                    *style,
                    centered,
                    terminal_width,
                    padding_top,
                    fv,
                    animation.repeat,
                    m,
                    run2,
                    fin,
                );
            assert(post =~= base + (acquire_calls() + seq![TermCall::QueryCols(ans)] + run2 + fin
                + restore_calls()));
            assert(ext =~= acquire_calls() + seq![TermCall::QueryCols(ans)] + run2 + fin
                + restore_calls());
            assert(trace_parts(
                ext,
                *style,
                centered,
                ans,
                padding_top,
                fv,
                animation.repeat,
                m,
                run2,
                fin,
            ));
            assert(animation_trace(
                ext,
                *style,
                centered,
                padding_top,
                fv,
                animation.repeat,
            ));
        }
    }
    match result {
        Ok(()) => match released {
            Ok(()) => Ok(()),
            Err(e) => Err(e),
        },
        Err(e) => {
            match released {
                Ok(()) => {},
                Err(cleanup) => report_teardown_failure(cleanup.message().as_str()),
            }
            Err(e)
        },
    }
}

/// Relies on std::io::Write::write_fmt via writeln on standard error: the
/// diagnostic channel for a restoration failure swallowed during implicit
/// teardown, where surfacing it would mask the primary failure.
#[verifier::external_body]
fn report_teardown_failure(message: &str) {
    let _ = writeln!(std::io::stderr(), "terminal restore failed during cleanup: {}", message);
}


proof fn lemma_log_trans(base: Seq<TermCall>, mid: Seq<TermCall>, post: Seq<TermCall>)
    requires
        base.len() <= mid.len(),
        mid.take(base.len() as int) == base,
        forall|i: int| base.len() <= i < mid.len() ==> !is_restore_call(#[trigger] mid[i]),
        mid.len() <= post.len(),
        post.take(mid.len() as int) == mid,
        forall|i: int| mid.len() <= i < post.len() ==> !is_restore_call(#[trigger] post[i]),
    ensures
        base.len() <= post.len(),
        post.take(base.len() as int) == base,
        forall|i: int| base.len() <= i < post.len() ==> !is_restore_call(#[trigger] post[i]),
{
    assert forall|j: int| 0 <= j < mid.len() implies post[j] == mid[j] by {
        assert(post[j] == post.take(mid.len() as int)[j]);
    }
    assert(post.take(base.len() as int) =~= base);
    assert forall|i: int| base.len() <= i < post.len() implies !is_restore_call(post[i]) by {
        if i < mid.len() {
            assert(post[i] == mid[i]);
        }
    }
}

proof fn lemma_animated_teardown(base: Seq<TermCall>, mid: Seq<TermCall>, post: Seq<TermCall>)
    requires
        base.len() <= mid.len(),
        mid.take(base.len() as int) == base,
        forall|i: int| base.len() <= i < mid.len() ==> !is_restore_call(#[trigger] mid[i]),
        post == mid + restore_calls(),
    ensures
        post.take(base.len() as int) == base,
        ({
            let ext = post.skip(base.len() as int);
            &&& ext.len() >= 3
            &&& ext.skip(ext.len() - 3) =~= restore_calls()
            &&& count_calls(ext, TermCall::DisableRaw) == 1
            &&& count_calls(ext, TermCall::LeaveAlt) == 1
        }),
{
    assert(post.take(base.len() as int) =~= base);
    let body = mid.skip(base.len() as int);
    let ext = post.skip(base.len() as int);
    assert(ext =~= body + restore_calls());
    assert(ext.skip(ext.len() - 3) =~= restore_calls());
    assert forall|i: int| 0 <= i < body.len() implies body[i] != TermCall::DisableRaw by {
        assert(body[i] == mid[base.len() + i]);
    }
    assert forall|i: int| 0 <= i < body.len() implies body[i] != TermCall::LeaveAlt by {
        assert(body[i] == mid[base.len() + i]);
    }
    lemma_count_none(body, TermCall::DisableRaw);
    lemma_count_none(body, TermCall::LeaveAlt);
    lemma_count_concat(body, restore_calls(), TermCall::DisableRaw);
    lemma_count_concat(body, restore_calls(), TermCall::LeaveAlt);
    lemma_count_restore();
    assert(count_calls(ext, TermCall::DisableRaw) == count_calls(body + restore_calls(),
        TermCall::DisableRaw));
    assert(count_calls(ext, TermCall::LeaveAlt) == count_calls(body + restore_calls(),
        TermCall::LeaveAlt));
}

} // verus!
