//! The progress display: a bracketed row of cells showing the trim window
//! and the play head, and a line with the current time and the duration.
use vstd::prelude::*;

use crate::audio_data::AudioVec;
use crate::text::{
    color_terminal, colored_text, hundredths_text, push_hundredths, Color, TerminalColor,
};
use crate::timing::MICROS_PER_SECOND;

verus! {

/// Widest display row: keeps every product of the drawing within 128 bits.
pub const MAX_WIDTH: u64 = 0xffff_ffff;

/// Colour of the play-head cell, for both foreground and background.
pub open spec fn play_head_color() -> TerminalColor {
    TerminalColor(Color(255, 165, 0), Color(255, 165, 0))
}

/// Cell `i` of a row of `width` cells lies at or after time `t` (in
/// microseconds) in a buffer of `len` samples at `rate`:
/// `i >= (t / duration) * width`, compared exactly.
pub open spec fn cell_at_or_after(i: int, t: int, width: int, rate: int, len: int) -> bool {
    i * ((MICROS_PER_SECOND as int) * len) >= t * rate * width
}

/// Cell `i` lies at or before time `t`: `i <= (t / duration) * width`.
pub open spec fn cell_at_or_before(i: int, t: int, width: int, rate: int, len: int) -> bool {
    i * ((MICROS_PER_SECOND as int) * len) <= t * rate * width
}

/// The cell of the play head at position `pos`: `ceil((pos / duration) * width)`.
pub open spec fn head_cell(pos: int, width: int, rate: int, len: int) -> int {
    let scale = (MICROS_PER_SECOND as int) * len;
    (pos * rate * width + scale - 1) / scale
}

/// Absolute playback position: the shown elapsed time from the trim start.
pub open spec fn play_position<S: Copy>(a: AudioVec<S>) -> int {
    a.trim_start + a.playback.shown_elapsed()
}

/// Text of cell `i`: a fill glyph inside the trim window (highlighted at the
/// play head while playing), a blank outside it.
pub open spec fn cell_text<S: Copy>(a: AudioVec<S>, width: int, i: int) -> Seq<char> {
    let rate = a.sample_rate as int;
    let len = a.audio_data@.len() as int;
    if cell_at_or_after(i, a.trim_start as int, width, rate, len) && cell_at_or_before(
        i,
        a.trim_end as int,
        width,
        rate,
        len,
    ) {
        if a.playback.is_active && head_cell(play_position(a), width, rate, len) == i {
            colored_text("#"@, play_head_color())
        } else {
            "#"@
        }
    } else {
        " "@
    }
}

/// The first `n` cells of the row.
pub open spec fn cells<S: Copy>(a: AudioVec<S>, width: int, n: nat) -> Seq<char>
    decreases n,
{
    if n == 0 {
        Seq::empty()
    } else {
        cells(a, width, (n - 1) as nat) + cell_text(a, width, n - 1)
    }
}

/// The bracketed row of `width` cells.
pub open spec fn bar_text<S: Copy>(a: AudioVec<S>, width: nat) -> Seq<char> {
    "["@ + cells(a, width as int, width) + "]"@
}

/// The whole display: the row, then the position and the duration, both
/// truncated to hundredths of a second.
pub open spec fn status_text<S: Copy>(a: AudioVec<S>, width: nat) -> Seq<char> {
    bar_text(a, width) + "\n"@ + hundredths_text((play_position(a) / 10_000) as nat) + "/"@
        + hundredths_text(((a.audio_data@.len() as int * 100) / (a.sample_rate as int)) as nat)
}

/// Draws the progress display of `audio_vec` on a row of `width` cells.
pub fn create_audio_selection_status<S: Copy>(width: u64, audio_vec: &AudioVec<S>) -> (r: String)
    requires
        audio_vec.wf(),
        width <= MAX_WIDTH,
    ensures
        r@ == status_text(*audio_vec, width as nat),
{
    let ghost a = *audio_vec;
    let len = audio_vec.audio_data.len() as u128;
    let rate = audio_vec.sample_rate as u128;
    let w = width as u128;
    let scale = MICROS_PER_SECOND as u128 * len;
    assert(rate * w <= 0x10_0000u128 * 0xffff_ffffu128) by (nonlinear_arith)
        requires
            rate <= 1_000_000,
            w <= 0xffff_ffff,
    ;
    let rw = rate * w;
    let ts = audio_vec.trim_start as u128;
    let te = audio_vec.trim_end as u128;
    assert(ts * rw <= 0xffff_ffff_ffff_ffffu128 * (0x10_0000u128 * 0xffff_ffffu128)
        && te * rw <= 0xffff_ffff_ffff_ffffu128 * (0x10_0000u128 * 0xffff_ffffu128))
        by (nonlinear_arith)
        requires
            ts <= 0xffff_ffff_ffff_ffffu128,
            te <= 0xffff_ffff_ffff_ffffu128,
            rw <= 0x10_0000u128 * 0xffff_ffffu128,
    ;
    let start_bound = ts * rw;
    let end_bound = te * rw;
    let pos = ts + audio_vec.playback.shown_elapsed_micros() as u128;
    assert(pos * rw <= 0x2_0000_0000_0000_0000u128 * (0x10_0000u128 * 0xffff_ffffu128))
        by (nonlinear_arith)
        requires
            pos <= 0x2_0000_0000_0000_0000u128,
            rw <= 0x10_0000u128 * 0xffff_ffffu128,
    ;
    let is_active = audio_vec.playback.is_active;
    let head = (pos * rw + scale - 1) / scale;
    proof {
        assert((pos as int) * rate * w == pos * rw) by (nonlinear_arith)
            requires
                rw == rate * w,
        ;
        assert(ts * rate * w == start_bound && te * rate * w == end_bound) by (nonlinear_arith)
            requires
                rw == rate * w,
                start_bound == ts * rw,
                end_bound == te * rw,
        ;
        reveal_strlit("[");
        reveal_strlit("#");
        reveal_strlit(" ");
    }
    let mut status = String::from_str("[");
    let mut i: u64 = 0;
    while i < width
        invariant
            i <= width <= MAX_WIDTH,
            a == *audio_vec,
            a.wf(),
            len == a.audio_data@.len(),
            rate == a.sample_rate,
            scale == (MICROS_PER_SECOND as int) * len,
            scale <= 0xffff_ffff_ffff_ffffu128,
            start_bound == a.trim_start * rate * width,
            end_bound == a.trim_end * rate * width,
            is_active == a.playback.is_active,
            head == head_cell(play_position(a), width as int, rate as int, len as int),
            status@ == "["@ + cells(a, width as int, i as nat),
        decreases width - i,
    {
        assert(i as u128 * scale <= 0xffff_ffffu128 * 0xffff_ffff_ffff_ffffu128) by (nonlinear_arith)
            requires
                i <= 0xffff_ffff,
                scale <= 0xffff_ffff_ffff_ffffu128,
        ;
        let at = i as u128 * scale;
        if at >= start_bound && at <= end_bound {
            if is_active && head == i as u128 {
                let highlight = color_terminal("#", &TerminalColor(Color(255, 165, 0), Color(255, 165, 0)));
                status.append(highlight.as_str());
            } else {
                status.append("#");
            }
        } else {
            status.append(" ");
        }
        assert(status@ =~= "["@ + cells(a, width as int, (i + 1) as nat));
        i = i + 1;
    }
    status.append("]");
    status.append("\n");
    push_hundredths(&mut status, pos / 10_000);
    status.append("/");
    push_hundredths(&mut status, len * 100 / rate);
    assert(status@ =~= status_text(a, width as nat));
    status
}

/// The first `n` cells of a full, stopped window are all fill glyphs.
proof fn lemma_full_window_cells<S: Copy>(a: AudioVec<S>, width: nat, n: nat)
    requires
        a.wf(),
        a.trim_start == 0,
        a.trim_end == a.duration(),
        !a.playback.is_active,
        n <= width,
    ensures
        cells(a, width as int, n) == Seq::new(n, |k: int| '#'),
    decreases n,
{
    reveal_strlit("#");
    if n > 0 {
        lemma_full_window_cells(a, width, (n - 1) as nat);
        let i = n - 1;
        let len = a.audio_data@.len() as int;
        let rate = a.sample_rate as int;
        let m = MICROS_PER_SECOND as int;
        let d = a.duration();
        assert(d * rate >= len * m) by (nonlinear_arith)
            requires
                d == (len * m + rate - 1) / rate,
                rate > 0,
        ;
        assert(i * (m * len) <= d * rate * width) by (nonlinear_arith)
            requires
                d * rate >= len * m,
                0 <= i < width,
                len >= 0,
                m > 0,
        ;
        assert(i * (m * len) >= 0 * rate * width) by (nonlinear_arith)
            requires
                i >= 0,
                len >= 0,
                m > 0,
        ;
        assert(cells(a, width as int, n) =~= Seq::new(n, |k: int| '#'));
    }
}

/// With the trim window spanning the whole buffer and playback stopped,
/// the row is `[`, `width` fill glyphs and `]`: `width + 2` characters.
pub proof fn lemma_full_window_row<S: Copy>(a: AudioVec<S>, width: nat)
    requires
        a.wf(),
        a.trim_start == 0,
        a.trim_end == a.duration(),
        !a.playback.is_active,
    ensures
        bar_text(a, width) == seq!['['] + Seq::new(width, |k: int| '#') + seq![']'],
        bar_text(a, width).len() == width + 2,
{
    reveal_strlit("[");
    reveal_strlit("]");
    lemma_full_window_cells(a, width, width);
    assert(bar_text(a, width) =~= seq!['['] + Seq::new(width, |k: int| '#') + seq![']']);
}

} // verus!
