//! The flight recorder: one telemetry channel per stream (flight, physics,
//! weather), all under a directory named after the local time at which the
//! recording began.

use crate::telemetry::{batch_url, Batch, Channel};
use vstd::prelude::*;

verus! {

/// Records per batch file of each telemetry stream.
pub const CHUNK_SIZE: usize = 128 * 1024 * 1024;

/// The strftime pattern of the recording directory's time stamp: the local
/// date and time to the minute, such as "2025-07-08T1307".
pub open spec fn minute_pattern() -> Seq<char> {
    seq!['%', 'Y', '-', '%', 'm', '-', '%', 'd', 'T', '%', 'H', '%', 'M']
}

/// `c` is a decimal digit.
pub open spec fn is_digit(c: char) -> bool {
    '0' <= c && c <= '9'
}

/// `s` has the form that `minute_pattern` renders: a year of at least four
/// characters (digits, with a sign before years outside 0..=9999), then
/// `-MM-DDTHHMM`; no character of it is a '/'.
pub open spec fn is_minute_stamp(s: Seq<char>) -> bool {
    let n = s.len() as int;
    &&& n >= 15
    &&& forall|i: int| 0 <= i < n ==> s[i] != '/'
    &&& s[n - 11] == '-'
    &&& is_digit(s[n - 10])
    &&& is_digit(s[n - 9])
    &&& s[n - 8] == '-'
    &&& is_digit(s[n - 7])
    &&& is_digit(s[n - 6])
    &&& s[n - 5] == 'T'
    &&& is_digit(s[n - 4])
    &&& is_digit(s[n - 3])
    &&& is_digit(s[n - 2])
    &&& is_digit(s[n - 1])
}

/// Wraps `chrono::Local::now().format(pattern)`, rendered to a `String`, for
/// the one pattern the recorder uses. Per chrono's strftime table, `%Y` is the
/// year zero-padded to four digits (signed outside 0..=9999) and `%m`, `%d`,
/// `%H`, `%M` are two-digit numbers, so the result has the minute-stamp form.
/// Which date and time it holds is not stated: that comes from the clock and
/// the time zone.
#[verifier::external_body]
fn local_time_formatted(pattern: &str) -> (s: String)
    requires
        pattern@ == minute_pattern(),
    ensures
        is_minute_stamp(s@),
{
    chrono::Local::now().format(pattern).to_string()
}

/// The recording directory for the time stamp `stamp`: `tlm/<stamp>`.
pub open spec fn recording_dir(stamp: Seq<char>) -> Seq<char> {
    seq!['t', 'l', 'm', '/'] + stamp
}

/// `dir/flight`
pub open spec fn flight_base(dir: Seq<char>) -> Seq<char> {
    dir + seq!['/', 'f', 'l', 'i', 'g', 'h', 't']
}

/// `dir/physics`
pub open spec fn physics_base(dir: Seq<char>) -> Seq<char> {
    dir + seq!['/', 'p', 'h', 'y', 's', 'i', 'c', 's']
}

/// `dir/weather`
pub open spec fn weather_base(dir: Seq<char>) -> Seq<char> {
    dir + seq!['/', 'w', 'e', 'a', 't', 'h', 'e', 'r']
}

/// The three streams of a recording never write to the same file: whatever
/// their batch numbers, a flight, a physics and a weather batch file differ.
pub proof fn lemma_stream_files_distinct(dir: Seq<char>, i: nat, j: nat, k: nat)
    ensures
        batch_url(flight_base(dir), i) != batch_url(physics_base(dir), j),
        batch_url(flight_base(dir), i) != batch_url(weather_base(dir), k),
        batch_url(physics_base(dir), j) != batch_url(weather_base(dir), k),
{
    let at = dir.len() as int + 1;
    assert(batch_url(flight_base(dir), i)[at] == 'f');
    assert(batch_url(physics_base(dir), j)[at] == 'p');
    assert(batch_url(weather_base(dir), k)[at] == 'w');
}

/// Owns the flight, physics and weather telemetry channels of one recording.
pub struct FlightRecorder<F, P, W> {
    base_path: String,
    flight_tlm_channel: Channel<F>,
    physics_tlm_channel: Channel<P>,
    weather_tlm_channel: Channel<W>,
}

impl<F, P, W> FlightRecorder<F, P, W> {
    /// The recording directory.
    pub closed spec fn dir(&self) -> Seq<char> {
        self.base_path@
    }

    /// The flight telemetry channel.
    pub closed spec fn flight_channel(&self) -> Channel<F> {
        self.flight_tlm_channel
    }

    /// The physics telemetry channel.
    pub closed spec fn physics_channel(&self) -> Channel<P> {
        self.physics_tlm_channel
    }

    /// The weather telemetry channel.
    pub closed spec fn weather_channel(&self) -> Channel<W> {
        self.weather_tlm_channel
    }

    /// This recorder has just begun recording, in the directory for `stamp`:
    /// its three channels are empty, number their next batch zero, hold
    /// `CHUNK_SIZE` records per batch and name their files after
    /// `<dir>/flight`, `<dir>/physics` and `<dir>/weather`.
    pub open spec fn fresh(&self, stamp: Seq<char>) -> bool {
        &&& self.dir() == recording_dir(stamp)
        &&& self.flight_channel().queue() == Seq::<F>::empty()
        &&& self.physics_channel().queue() == Seq::<P>::empty()
        &&& self.weather_channel().queue() == Seq::<W>::empty()
        &&& self.flight_channel().next_index() == 0
        &&& self.physics_channel().next_index() == 0
        &&& self.weather_channel().next_index() == 0
        &&& self.flight_channel().batch_size() == CHUNK_SIZE
        &&& self.physics_channel().batch_size() == CHUNK_SIZE
        &&& self.weather_channel().batch_size() == CHUNK_SIZE
        &&& self.flight_channel().base_url() == flight_base(self.dir())
        &&& self.physics_channel().base_url() == physics_base(self.dir())
        &&& self.weather_channel().base_url() == weather_base(self.dir())
    }

    /// A recorder that records under the directory named after the local
    /// time, to the minute.
    pub fn new() -> (recorder: Self)
        ensures
            exists|stamp: Seq<char>| is_minute_stamp(stamp) && #[trigger] recorder.fresh(stamp),
    {
        let pattern = "%Y-%m-%dT%H%M";
        proof {
            reveal_strlit("%Y-%m-%dT%H%M");
        }
        assert(pattern@ =~= minute_pattern());
        let stamp = local_time_formatted(pattern);
        let recorder = Self::with_stamp(stamp.as_str());
        assert(recorder.fresh(stamp@));
        recorder
    }

    /// A recorder that records under the directory named after `stamp`.
    pub fn with_stamp(stamp: &str) -> (recorder: Self)
        ensures
            recorder.fresh(stamp@),
    {
        proof {
            reveal_strlit("tlm/");
            reveal_strlit("/flight");
            reveal_strlit("/physics");
            reveal_strlit("/weather");
        }
        let mut base_path = String::new();
        base_path.append("tlm/");
        base_path.append(stamp);
        let mut flight_tag = base_path.clone();
        flight_tag.append("/flight");
        let mut physics_tag = base_path.clone();
        physics_tag.append("/physics");
        let mut weather_tag = base_path.clone();
        weather_tag.append("/weather");
        assert(base_path@ =~= recording_dir(stamp@));
        assert(flight_tag@ =~= flight_base(base_path@));
        assert(physics_tag@ =~= physics_base(base_path@));
        assert(weather_tag@ =~= weather_base(base_path@));
        FlightRecorder {
            base_path,
            flight_tlm_channel: Channel::new(flight_tag, CHUNK_SIZE),
            physics_tlm_channel: Channel::new(physics_tag, CHUNK_SIZE),
            weather_tlm_channel: Channel::new(weather_tag, CHUNK_SIZE),
        }
    }

    /// The recording directory, which the batch files go in.
    pub fn base_path(&self) -> (path: &str)
        ensures
            path@ == self.dir(),
    {
        self.base_path.as_str()
    }

    /// Writes a flight record; returns the batch that it completed, if any.
    pub fn log_flight_data(&mut self, tlm: F) -> (flushed: Option<Batch<F>>)
        ensures
            old(self).flight_channel().wrote(tlm, final(self).flight_channel(), flushed),
            final(self).physics_channel() == old(self).physics_channel(),
            final(self).weather_channel() == old(self).weather_channel(),
            final(self).dir() == old(self).dir(),
    {
        self.flight_tlm_channel.write(tlm)
    }

    /// Writes a physics record; returns the batch that it completed, if any.
    pub fn log_physics_data(&mut self, tlm: P) -> (flushed: Option<Batch<P>>)
        ensures
            old(self).physics_channel().wrote(tlm, final(self).physics_channel(), flushed),
            final(self).flight_channel() == old(self).flight_channel(),
            final(self).weather_channel() == old(self).weather_channel(),
            final(self).dir() == old(self).dir(),
    {
        self.physics_tlm_channel.write(tlm)
    }

    /// Writes a weather record; returns the batch that it completed, if any.
    pub fn log_weather_data(&mut self, tlm: W) -> (flushed: Option<Batch<W>>)
        ensures
            old(self).weather_channel().wrote(tlm, final(self).weather_channel(), flushed),
            final(self).flight_channel() == old(self).flight_channel(),
            final(self).physics_channel() == old(self).physics_channel(),
            final(self).dir() == old(self).dir(),
    {
        self.weather_tlm_channel.write(tlm)
    }

    /// Closes the three channels, in the order flight, physics, weather, and
    /// returns the last batch of each (if it had records left).
    pub fn shutdown(&mut self) -> (flushed: (Option<Batch<F>>, Option<Batch<P>>, Option<Batch<W>>))
        ensures
            old(self).flight_channel().closed_into(final(self).flight_channel(), flushed.0),
            old(self).physics_channel().closed_into(final(self).physics_channel(), flushed.1),
            old(self).weather_channel().closed_into(final(self).weather_channel(), flushed.2),
            final(self).dir() == old(self).dir(),
    {
        let flight = self.flight_tlm_channel.close();
        let physics = self.physics_tlm_channel.close();
        let weather = self.weather_tlm_channel.close();
        (flight, physics, weather)
    }
}

} // verus!
