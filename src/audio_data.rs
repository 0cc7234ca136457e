//! The loaded audio: interleaved stereo samples, their rate, the trim window
//! marked over them and the state of playback.
use vstd::prelude::*;
use vstd::slice::{slice_subrange, slice_to_vec};

use crate::timing::{
    duration_from_len, duration_micros, index_from_micros, lemma_index_even_and_bounded,
    raw_index, sample_index, MICROS_PER_SECOND,
};

verus! {

/// Number of interleaved channels in every buffer.
pub const CHANNELS: u64 = 2;

/// Highest accepted sample rate. Time is counted in whole microseconds, so
/// above one sample per microsecond not every sample could be addressed.
pub const MAX_SAMPLE_RATE: u64 = 1_000_000;

/// Why a decoded source cannot become a buffer.
#[derive(Debug, Clone, Copy, PartialEq, Eq)]
pub enum LoadError {
    /// The source decoded to no samples at all.
    EmptySource,
    /// The sample count is odd, so the last frame lacks its right channel.
    UnpairedSample,
    /// The rate is zero or above `MAX_SAMPLE_RATE`.
    BadSampleRate,
    /// The buffer is too long for its duration to fit in microseconds.
    TooLong,
}

/// The trim window does not select a valid range of the buffer: its start
/// lies after its end, or its end lies beyond the buffer.
#[derive(Debug, Clone, Copy, PartialEq, Eq)]
pub struct TrimOutOfRange {
    pub start_index: u128,
    pub end_index: u128,
    pub len: usize,
}

/// Whether playback runs, and the elapsed time last reported by the device.
#[derive(Debug, Clone, Copy, PartialEq, Eq)]
pub struct PlaybackState {
    pub is_active: bool,
    /// Microseconds since the most recent play, as polled from the device.
    pub device_elapsed: u64,
}

impl PlaybackState {
    /// Elapsed time that the display uses: the device's report while
    /// playing, nothing while stopped.
    pub open spec fn shown_elapsed(&self) -> int {
        if self.is_active {
            self.device_elapsed as int
        } else {
            0
        }
    }

    pub fn new() -> (r: Self)
        ensures
            !r.is_active,
            r.device_elapsed == 0,
    {
        PlaybackState { is_active: false, device_elapsed: 0 }
    }

    pub fn shown_elapsed_micros(&self) -> (r: u64)
        ensures
            r == self.shown_elapsed(),
    {
        if self.is_active {
            self.device_elapsed
        } else {
            0
        }
    }
}

/// A loaded buffer of interleaved stereo samples with its trim window.
pub struct AudioVec<S> {
    pub audio_data: Vec<S>,
    /// Start of the trim window, in microseconds.
    pub trim_start: u64,
    /// End of the trim window, in microseconds.
    pub trim_end: u64,
    /// Interleaved samples per second.
    pub sample_rate: u64,
    pub playback: PlaybackState,
    pub filepath: String,
}

impl<S: Copy> AudioVec<S> {
    /// A buffer that can be measured and sliced: non-empty, whole frames,
    /// a usable rate, and a duration that fits in microseconds.
    pub open spec fn wf(&self) -> bool {
        &&& self.audio_data@.len() > 0
        &&& self.audio_data@.len() % 2 == 0
        &&& self.audio_data@.len() * (MICROS_PER_SECOND as int) <= u64::MAX
        &&& 0 < self.sample_rate <= MAX_SAMPLE_RATE
    }

    /// Exact duration in microseconds, rounded up.
    pub open spec fn duration(&self) -> int {
        duration_micros(self.audio_data@.len() as int, self.sample_rate as int)
    }

    pub open spec fn start_index(&self) -> int {
        sample_index(self.trim_start as int, self.sample_rate as int)
    }

    pub open spec fn end_index(&self) -> int {
        sample_index(self.trim_end as int, self.sample_rate as int)
    }

    /// The trim window selects a range of the buffer.
    pub open spec fn trim_in_range(&self) -> bool {
        self.start_index() <= self.end_index() <= self.audio_data@.len()
    }

    /// The samples that the trim window selects.
    pub open spec fn trimmed(&self) -> Seq<S> {
        self.audio_data@.subrange(self.start_index(), self.end_index())
    }

    /// The error that an out-of-range trim window reports.
    pub open spec fn trim_error(&self) -> TrimOutOfRange {
        TrimOutOfRange {
            start_index: self.start_index() as u128,
            end_index: self.end_index() as u128,
            len: self.audio_data@.len() as usize,
        }
    }

    /// Builds a buffer from decoded samples; the trim window spans the whole
    /// buffer and playback is stopped.
    pub fn new(audio_data: Vec<S>, sample_rate: u64, filepath: String) -> (r: Result<
        Self,
        LoadError,
    >)
        ensures
            audio_data@.len() == 0 ==> r == Err::<Self, LoadError>(LoadError::EmptySource),
            audio_data@.len() > 0 && audio_data@.len() % 2 == 1 ==> r == Err::<Self, LoadError>(
                LoadError::UnpairedSample,
            ),
            audio_data@.len() > 0 && audio_data@.len() % 2 == 0 && (sample_rate == 0
                || sample_rate > MAX_SAMPLE_RATE) ==> r == Err::<Self, LoadError>(
                LoadError::BadSampleRate,
            ),
            audio_data@.len() > 0 && audio_data@.len() % 2 == 0 && 0 < sample_rate
                <= MAX_SAMPLE_RATE && audio_data@.len() * (MICROS_PER_SECOND as int) > u64::MAX
                ==> r == Err::<Self, LoadError>(LoadError::TooLong),
            r is Ok <==> {
                &&& audio_data@.len() > 0
                &&& audio_data@.len() % 2 == 0
                &&& 0 < sample_rate <= MAX_SAMPLE_RATE
                &&& audio_data@.len() * (MICROS_PER_SECOND as int) <= u64::MAX
            },
            r matches Ok(a) ==> {
                &&& a.wf()
                &&& a.audio_data@ == audio_data@
                &&& a.sample_rate == sample_rate
                &&& a.filepath@ == filepath@
                &&& a.trim_start == 0
                &&& a.trim_end == a.duration()
                &&& !a.playback.is_active
                &&& a.playback.device_elapsed == 0
            },
    {
        let len = audio_data.len();
        if len == 0 {
            return Err(LoadError::EmptySource);
        }
        if len % 2 == 1 {
            return Err(LoadError::UnpairedSample);
        }
        if sample_rate == 0 || sample_rate > MAX_SAMPLE_RATE {
            return Err(LoadError::BadSampleRate);
        }
        if len as u128 > (u64::MAX / MICROS_PER_SECOND) as u128 {
            return Err(LoadError::TooLong);
        }
        let trim_end = duration_from_len(len as u64, sample_rate);
        Ok(AudioVec {
            audio_data,
            trim_start: 0,
            trim_end,
            sample_rate,
            playback: PlaybackState::new(),
            filepath,
        })
    }

    /// Length of the whole buffer in microseconds, rounded up.
    pub fn get_duration(&self) -> (r: u64)
        requires
            self.wf(),
        ensures
            r == self.duration(),
    {
        duration_from_len(self.audio_data.len() as u64, self.sample_rate)
    }

    /// Length of the trimmed range in microseconds, rounded up.
    pub fn get_trim_duration(&self) -> (r: Result<u64, TrimOutOfRange>)
        requires
            self.wf(),
        ensures
            self.trim_in_range() ==> r == Ok::<u64, TrimOutOfRange>(
                duration_micros(self.end_index() - self.start_index(), self.sample_rate as int)
                    as u64,
            ),
            !self.trim_in_range() ==> r == Err::<u64, TrimOutOfRange>(self.trim_error()),
    {
        match self.get_audio_slice() {
            Ok(slice) => Ok(duration_from_len(slice.len() as u64, self.sample_rate)),
            Err(e) => Err(e),
        }
    }

    /// Channel-aligned sample index of a time in this buffer.
    pub fn get_index_from_second(&self, micros: u64) -> (r: u128)
        ensures
            r == sample_index(micros as int, self.sample_rate as int),
            r % 2 == 0,
            r <= raw_index(micros as int, self.sample_rate as int),
    {
        index_from_micros(micros, self.sample_rate)
    }

    /// The samples inside the trim window, or why there are none.
    pub fn get_audio_slice(&self) -> (r: Result<&[S], TrimOutOfRange>)
        ensures
            self.trim_in_range() ==> (r matches Ok(s) && s@ == self.trimmed()),
            !self.trim_in_range() ==> r == Err::<&[S], TrimOutOfRange>(self.trim_error()),
    {
        let start_index = self.get_index_from_second(self.trim_start);
        let end_index = self.get_index_from_second(self.trim_end);
        let len = self.audio_data.len();
        if start_index > end_index || end_index > len as u128 {
            return Err(TrimOutOfRange { start_index, end_index, len });
        }
        Ok(slice_subrange(self.audio_data.as_slice(), start_index as usize, end_index as usize))
    }

    /// Starts playback of the trimmed range: returns the samples to hand to
    /// the device, which replace whatever it was playing. On an out-of-range
    /// trim window nothing changes.
    pub fn play_audio(&mut self) -> (r: Result<Vec<S>, TrimOutOfRange>)
        ensures
            old(self).trim_in_range() ==> (r matches Ok(v) && v@ == old(self).trimmed()),
            !old(self).trim_in_range() ==> r == Err::<Vec<S>, TrimOutOfRange>(
                old(self).trim_error(),
            ),
            r is Ok ==> final(self).playback == (PlaybackState {
                is_active: true,
                device_elapsed: 0,
            }),
            r is Err ==> final(self).playback == old(self).playback,
            final(self).audio_data@ == old(self).audio_data@,
            final(self).trim_start == old(self).trim_start,
            final(self).trim_end == old(self).trim_end,
            final(self).sample_rate == old(self).sample_rate,
            final(self).filepath == old(self).filepath,
    {
        let samples = match self.get_audio_slice() {
            Ok(slice) => slice_to_vec(slice),
            Err(e) => {
                return Err(e);
            },
        };
        self.playback = PlaybackState { is_active: true, device_elapsed: 0 };
        Ok(samples)
    }

    /// Elapsed time last reported by the playback device, in microseconds.
    pub fn get_play_position(&self) -> (r: u64)
        ensures
            r == self.playback.device_elapsed,
    {
        self.playback.device_elapsed
    }

    /// Records the elapsed time that the playback device reports.
    pub fn set_play_position(&mut self, micros: u64)
        ensures
            final(self).playback.device_elapsed == micros,
            final(self).playback.is_active == old(self).playback.is_active,
            final(self).audio_data@ == old(self).audio_data@,
            final(self).trim_start == old(self).trim_start,
            final(self).trim_end == old(self).trim_end,
            final(self).sample_rate == old(self).sample_rate,
            final(self).filepath == old(self).filepath,
    {
        self.playback.device_elapsed = micros;
    }

    /// Stops playback; stopping while stopped changes nothing.
    pub fn stop_audio(&mut self)
        ensures
            !final(self).playback.is_active,
            final(self).playback.device_elapsed == old(self).playback.device_elapsed,
            final(self).audio_data@ == old(self).audio_data@,
            final(self).trim_start == old(self).trim_start,
            final(self).trim_end == old(self).trim_end,
            final(self).sample_rate == old(self).sample_rate,
            final(self).filepath == old(self).filepath,
    {
        self.playback.is_active = false;
    }

    pub fn is_playing(&self) -> (r: bool)
        ensures
            r == self.playback.is_active,
    {
        self.playback.is_active
    }

    pub fn get_trim_start(&self) -> (r: u64)
        ensures
            r == self.trim_start,
    {
        self.trim_start
    }

    pub fn get_trim_end(&self) -> (r: u64)
        ensures
            r == self.trim_end,
    {
        self.trim_end
    }

    /// Moves the start of the trim window; it is checked only when used.
    pub fn set_trim_start(&mut self, micros: u64)
        ensures
            final(self).trim_start == micros,
            final(self).trim_end == old(self).trim_end,
            final(self).audio_data@ == old(self).audio_data@,
            final(self).sample_rate == old(self).sample_rate,
            final(self).playback == old(self).playback,
            final(self).filepath == old(self).filepath,
    {
        self.trim_start = micros;
    }

    /// Moves the end of the trim window; it is checked only when used.
    pub fn set_trim_end(&mut self, micros: u64)
        ensures
            final(self).trim_end == micros,
            final(self).trim_start == old(self).trim_start,
            final(self).audio_data@ == old(self).audio_data@,
            final(self).sample_rate == old(self).sample_rate,
            final(self).playback == old(self).playback,
            final(self).filepath == old(self).filepath,
    {
        self.trim_end = micros;
    }

    pub fn get_path(&self) -> (r: &String)
        ensures
            r@ == self.filepath@,
    {
        &self.filepath
    }

    /// Frames per second of each channel, the rate an encoder is given.
    pub fn channel_rate(&self) -> (r: u64)
        ensures
            r == self.sample_rate / CHANNELS,
    {
        self.sample_rate / CHANNELS
    }
}

/// Trimming from zero to the full duration selects the whole buffer,
/// unchanged.
pub proof fn lemma_full_trim_is_identity<S: Copy>(a: AudioVec<S>)
    requires
        a.wf(),
        a.trim_start == 0,
        a.trim_end == a.duration(),
    ensures
        a.trim_in_range(),
        a.trimmed() == a.audio_data@,
{
    let len = a.audio_data@.len() as int;
    let rate = a.sample_rate as int;
    let m = MICROS_PER_SECOND as int;
    let d = a.duration();
    assert(0 * rate == 0);
    assert(d * rate >= len * m && d * rate < len * m + rate) by (nonlinear_arith)
        requires
            d == (len * m + rate - 1) / rate,
            rate > 0,
    ;
    assert((d * rate) / m == len) by (nonlinear_arith)
        requires
            d * rate >= len * m,
            d * rate < len * m + rate,
            rate <= m,
            m > 0,
    ;
    assert(a.audio_data@.subrange(0, len) =~= a.audio_data@);
}

/// A trim window whose start lies after its end by at least two samples'
/// worth of time (`(start - end) * rate >= 2 * 10^6`, such as a start at
/// ten seconds and an end at five) is out of range, so slicing and playing
/// it report `TrimOutOfRange`.
pub proof fn lemma_reversed_trim_rejected<S: Copy>(a: AudioVec<S>)
    requires
        a.wf(),
        (a.trim_start - a.trim_end) * a.sample_rate >= 2 * (MICROS_PER_SECOND as int),
    ensures
        !a.trim_in_range(),
        a.start_index() > a.end_index(),
{
    let rate = a.sample_rate as int;
    let m = MICROS_PER_SECOND as int;
    let s = a.trim_start as int;
    let e = a.trim_end as int;
    assert((s * rate) / m >= (e * rate) / m + 2) by (nonlinear_arith)
        requires
            (s - e) * rate >= 2 * m,
            m > 0,
    ;
    lemma_index_even_and_bounded(a.trim_start as nat, a.sample_rate as nat);
    lemma_index_even_and_bounded(a.trim_end as nat, a.sample_rate as nat);
}

} // verus!
