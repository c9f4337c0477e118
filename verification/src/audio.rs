//! The recorder: what it keeps of the microphone's input, and what it streams on.
use crate::wav::{
    encode_wav, every_nth, first_channel, fits_wav, mono_wav, sample_bytes, sample_bytes_append,
    samples_to_bytes, WavSpec,
};
use tokio::sync::mpsc::UnboundedSender;
use vstd::prelude::*;

verus! {

/// The sending half of an unbounded channel of `tokio`.
#[verifier::external_type_specification]
#[verifier::external_body]
#[verifier::reject_recursive_types(T)]
pub struct ExUnboundedSender<T>(tokio::sync::mpsc::UnboundedSender<T>);

/// The chunks that have been handed to this sender, the oldest first, each with whether the
/// channel took it.
pub uninterp spec fn send_log(sender: UnboundedSender<Vec<u8>>) -> Seq<(Seq<u8>, bool)>;

/// Hands a chunk to `UnboundedSender::send`, and tells whether the channel took it.
///
/// The channel takes it exactly if the receiving half is still open, which nothing here decides;
/// what it takes it delivers in the order of sending.
#[verifier::external_body]
fn send_chunk(sender: &mut UnboundedSender<Vec<u8>>, chunk: Vec<u8>) -> (ok: bool)
    ensures
        send_log(*final(sender)) == send_log(*old(sender)).push((chunk@, ok)),
{
    sender.send(chunk).is_ok()
}

/// The number of samples in a tenth of a second, rounded to the nearest, and at least one.
pub open spec fn tenth_of_second(sample_rate: u32) -> int {
    let n = (sample_rate + 5) / 10;
    if n > 0 {
        n
    } else {
        1
    }
}

/// The `i`th chunk of `n` samples, as bytes.
pub open spec fn chunk_at(samples: Seq<i16>, n: int, i: int) -> Seq<u8> {
    sample_bytes(samples.subrange(i * n, i * n + n))
}

/// The sending of `samples` in whole chunks of `n`, of which the channel takes the first `taken`
/// and refuses the next, if there is a next: none is handed over after a refusal.
pub open spec fn sending(samples: Seq<i16>, n: int, taken: int) -> Seq<(Seq<u8>, bool)> {
    let whole = samples.len() as int / n;
    Seq::new(
        (if taken < whole {
            taken + 1
        } else {
            whole
        }) as nat,
        |i: int| (chunk_at(samples, n, i), i < taken),
    )
}

/// What is pending after `samples` were sent in whole chunks of `n`, of which the channel took
/// the first `taken`: the rest, or nothing after a refusal.
pub open spec fn rest_after(samples: Seq<i16>, n: int, taken: int) -> Seq<i16> {
    if taken == samples.len() as int / n {
        samples.skip(taken * n)
    } else {
        Seq::empty()
    }
}

/// Streams what is recorded in chunks of a tenth of a second.
pub struct LiveStreamSink {
    pub sender: UnboundedSender<Vec<u8>>,
    pub pending_samples: Vec<i16>,
    pub chunk_samples: usize,
}

impl LiveStreamSink {
    /// Fewer samples are pending than a chunk holds.
    pub open spec fn wf(self) -> bool {
        self.pending_samples@.len() < self.chunk_samples
    }

    /// A sink with nothing pending.
    pub fn new(sender: UnboundedSender<Vec<u8>>, sample_rate: u32) -> (r: LiveStreamSink)
        ensures
            r.wf(),
            r.sender == sender,
            r.pending_samples@.len() == 0,
            r.chunk_samples == tenth_of_second(sample_rate),
    {
        let rounded: u64 = (sample_rate as u64 + 5) / 10;
        let chunk_samples: usize = if rounded > 0 {
            rounded as usize
        } else {
            1
        };
        LiveStreamSink { sender, pending_samples: Vec::new(), chunk_samples }
    }

    /// Streams further samples, as many as fill whole chunks, and keeps the rest.
    ///
    /// Returns the number of chunks that the channel took. Once it refuses one, whatever was
    /// pending is dropped.
    pub fn push_live_stream_samples(&mut self, samples: &Vec<i16>) -> (taken: usize)
        requires
            old(self).wf(),
        ensures
            final(self).wf(),
            final(self).chunk_samples == old(self).chunk_samples,
            ({
                let all = old(self).pending_samples@ + samples@;
                let n = old(self).chunk_samples as int;
                &&& 0 <= taken <= all.len() as int / n
                &&& send_log(final(self).sender) == send_log(old(self).sender) + sending(
                    all,
                    n,
                    taken as int,
                )
                &&& final(self).pending_samples@ == rest_after(all, n, taken as int)
            }),
    {
        let ghost all = self.pending_samples@ + samples@;
        let n: usize = self.chunk_samples;
        let mut i: usize = 0;
        while i < samples.len()
            invariant
                0 <= i <= samples@.len(),
                self.chunk_samples == n,
                self.pending_samples@ == old(self).pending_samples@ + samples@.take(i as int),
                self.sender == old(self).sender,
            decreases samples@.len() - i,
        {
            self.pending_samples.push(samples[i]);
            assert(samples@.take(i + 1) =~= samples@.take(i as int).push(samples@[i as int]));
            assert(self.pending_samples@ =~= old(self).pending_samples@ + samples@.take(i + 1));
            i = i + 1;
        }
        assert(samples@.take(i as int) =~= samples@);
        assert(all.len() == self.pending_samples.len());
        let ghost whole = all.len() as int / n as int;
        let mut taken: usize = 0;
        let mut open: bool = true;
        let ghost sent = Seq::<(Seq<u8>, bool)>::empty();
        assert(all.skip(0) =~= all);
        while open && self.pending_samples.len() >= n
            invariant
                n > 0,
                self.chunk_samples == n,
                0 <= taken * n <= all.len() <= usize::MAX,
                send_log(self.sender) == send_log(old(self).sender) + sent,
                whole == all.len() as int / n as int,
                forall|i: int|
                    0 <= i < sent.len() ==> #[trigger] sent[i] == (
                        chunk_at(all, n as int, i),
                        i < taken,
                    ),
                open ==> self.pending_samples@ == all.skip(taken * n) && sent.len() == taken,
                !open ==> self.pending_samples@.len() == 0 && (taken as int) < whole && sent.len()
                    == taken + 1,
            decreases self.pending_samples@.len(),
        {
            let ghost t = taken as int;
            let mut rest: Vec<i16> = self.pending_samples.split_off(n);
            std::mem::swap(&mut self.pending_samples, &mut rest);
            let chunk: Vec<u8> = samples_to_bytes(&rest);
            let ghost handed = chunk@;
            proof {
                lemma_chunk_count(all.len() as int, n as int, t);
                assert(rest@ =~= all.subrange(t * n, t * n + n));
                assert(self.pending_samples@ =~= all.skip((t + 1) * n));
            }
            open = send_chunk(&mut self.sender, chunk);
            proof {
                assert((send_log(old(self).sender) + sent).push((handed, open)) =~= send_log(
                    old(self).sender,
                ) + sent.push((handed, open)));
                sent = sent.push((handed, open));
            }
            if open {
                taken = taken + 1;
            } else {
                self.pending_samples.clear();
            }
        }
        proof {
            if open {
                lemma_chunk_total(all.len() as int, n as int, taken as int);
            }
            assert(sent =~= sending(all, n as int, taken as int));
            assert(self.pending_samples@ =~= rest_after(all, n as int, taken as int));
        }
        taken
    }

    /// Streams what is pending, if anything is, and leaves nothing pending.
    ///
    /// Returns whether the channel took it.
    pub fn flush_live_stream_sink(&mut self) -> (taken: bool)
        requires
            old(self).wf(),
        ensures
            final(self).wf(),
            final(self).chunk_samples == old(self).chunk_samples,
            final(self).pending_samples@.len() == 0,
            old(self).pending_samples@.len() == 0 ==> !taken && final(self).sender == old(
                self,
            ).sender,
            old(self).pending_samples@.len() > 0 ==> send_log(final(self).sender) == send_log(
                old(self).sender,
            ).push((sample_bytes(old(self).pending_samples@), taken)),
    {
        if self.pending_samples.len() == 0 {
            return false;
        }
        let last: Vec<u8> = samples_to_bytes(&self.pending_samples);
        let taken: bool = send_chunk(&mut self.sender, last);
        self.pending_samples.clear();
        taken
    }
}

proof fn lemma_chunk_total(len: int, n: int, t: int)
    requires
        n > 0,
        0 <= t * n <= len,
        len - t * n < n,
    ensures
        t == len / n,
{
    assert(t == len / n) by (nonlinear_arith)
        requires
            n > 0,
            0 <= t * n <= len,
            len - t * n < n,
    ;
}

proof fn lemma_chunk_count(len: int, n: int, t: int)
    requires
        n > 0,
        t >= 0,
        t * n + n <= len,
    ensures
        t < len / n,
        t < len,
        (t + 1) * n == t * n + n,
        forall|i: int| 0 <= i <= t ==> 0 <= #[trigger] (i * n) && i * n + n <= len,
{
    assert(t < len && t < len / n && (t + 1) * n == t * n + n) by (nonlinear_arith)
        requires
            n > 0,
            t >= 0,
            t * n + n <= len,
    ;
    assert forall|i: int| 0 <= i <= t implies 0 <= #[trigger] (i * n) && i * n + n <= len by {
        assert(0 <= i * n <= t * n) by (nonlinear_arith)
            requires
                n > 0,
                0 <= i <= t,
        ;
    }
}

/// A chunk lasts a tenth of a second to the nearest sample, and at least one sample.
pub proof fn chunks_last_a_tenth_of_a_second(sample_rate: u32)
    ensures
        tenth_of_second(sample_rate) >= 1,
        sample_rate >= 5 ==> 10 * tenth_of_second(sample_rate) - 5 <= sample_rate < 10
            * tenth_of_second(sample_rate) + 5,
        sample_rate < 5 ==> tenth_of_second(sample_rate) == 1,
{
}

/// What is handed over are whole chunks in turn, of `n` samples each, up to the first that the
/// channel refuses; what stays pending is less than a chunk, and nothing after a refusal.
pub proof fn chunks_are_handed_over_in_turn(samples: Seq<i16>, n: int, taken: int, i: int)
    requires
        n > 0,
        0 <= taken,
        taken * n <= samples.len(),
        0 <= i,
    ensures
        ({
            let log = sending(samples, n, taken);
            let rest = rest_after(samples, n, taken);
            let more = taken * n + n <= samples.len();
            &&& log.len() == (if more {
                taken + 1
            } else {
                taken
            })
            &&& i < log.len() ==> log[i].1 == (i < taken) && log[i].0 == sample_bytes(
                samples.subrange(i * n, i * n + n),
            )
            &&& more ==> rest.len() == 0
            &&& !more ==> rest == samples.skip(taken * n) && rest.len() < n
        }),
{
    let m = samples.len() as int;
    let whole = m / n;
    assert(taken <= whole && (taken < whole <==> taken * n + n <= m)) by (nonlinear_arith)
        requires
            n > 0,
            0 <= taken,
            taken * n <= m,
            whole == m / n,
    ;
}

/// The bytes that the channel took, in order.
pub open spec fn delivered(log: Seq<(Seq<u8>, bool)>) -> Seq<u8>
    decreases log.len(),
{
    if log.len() == 0 {
        Seq::empty()
    } else if log.last().1 {
        delivered(log.drop_last()) + log.last().0
    } else {
        delivered(log.drop_last())
    }
}

proof fn lemma_delivered_append(a: Seq<(Seq<u8>, bool)>, b: Seq<(Seq<u8>, bool)>)
    ensures
        delivered(a + b) == delivered(a) + delivered(b),
    decreases b.len(),
{
    if b.len() == 0 {
        assert(a + b =~= a);
        assert(delivered(a) + delivered(b) =~= delivered(a));
    } else {
        lemma_delivered_append(a, b.drop_last());
        assert((a + b).drop_last() =~= a + b.drop_last());
        if b.last().1 {
            assert(delivered(a) + delivered(b) =~= delivered(a) + delivered(b.drop_last())
                + b.last().0);
        }
    }
}

proof fn lemma_delivered_chunks(samples: Seq<i16>, n: int, k: int, log: Seq<(Seq<u8>, bool)>)
    requires
        n > 0,
        k >= 0,
        k * n <= samples.len(),
        log.len() == k,
        forall|i: int| 0 <= i < k ==> #[trigger] log[i] == (chunk_at(samples, n, i), true),
    ensures
        0 <= k * n,
        delivered(log) == sample_bytes(samples.take(k * n)),
    decreases k,
{
    if k == 0 {
        assert(k * n == 0) by (nonlinear_arith)
            requires
                k == 0,
        ;
        assert(delivered(log) =~= sample_bytes(samples.take(k * n)));
    } else {
        let j = k - 1;
        assert(k * n == j * n + n && 0 <= j * n) by (nonlinear_arith)
            requires
                n > 0,
                k == j + 1,
                j >= 0,
        ;
        lemma_delivered_chunks(samples, n, j, log.drop_last());
        let last = samples.subrange(j * n, j * n + n);
        assert(samples.take(j * n) + last =~= samples.take(k * n));
        sample_bytes_append(samples.take(j * n), last);
        assert(log.last() == (chunk_at(samples, n, j), true));
    }
}

/// The live stream loses nothing, adds nothing and keeps the order: as long as the channel takes
/// every chunk, what was delivered and what is pending are the bytes of all samples pushed so far.
pub proof fn stream_carries_all_samples(
    log: Seq<(Seq<u8>, bool)>,
    pending: Seq<i16>,
    samples: Seq<i16>,
    n: int,
)
    requires
        n > 0,
    ensures
        ({
            let all = pending + samples;
            let whole = all.len() as int / n;
            delivered(log + sending(all, n, whole)) + sample_bytes(rest_after(all, n, whole))
                == delivered(log) + sample_bytes(pending) + sample_bytes(samples)
        }),
{
    let all = pending + samples;
    let k = all.len() as int / n;
    assert(0 <= k && 0 <= k * n <= all.len()) by (nonlinear_arith)
        requires
            n > 0,
            k == all.len() as int / n,
    ;
    lemma_delivered_append(log, sending(all, n, k));
    lemma_delivered_chunks(all, n, k, sending(all, n, k));
    assert(all.take(k * n) + all.skip(k * n) =~= all);
    sample_bytes_append(all.take(k * n), all.skip(k * n));
    sample_bytes_append(pending, samples);
    assert(delivered(log) + sample_bytes(all.take(k * n)) + sample_bytes(all.skip(k * n))
        =~= delivered(log) + (sample_bytes(all.take(k * n)) + sample_bytes(all.skip(k * n))));
    assert(delivered(log) + sample_bytes(pending) + sample_bytes(samples) =~= delivered(log) + (
    sample_bytes(pending) + sample_bytes(samples)));
}

/// The live stream keeps up with the recording: where what was delivered and what is pending are
/// the bytes of the recording, they still are after more input, as long as the channel takes every
/// chunk.
pub proof fn stream_keeps_up_with_recording(
    log: Seq<(Seq<u8>, bool)>,
    pending: Seq<i16>,
    recorded: Seq<i16>,
    mono: Seq<i16>,
    n: int,
)
    requires
        n > 0,
        delivered(log) + sample_bytes(pending) == sample_bytes(recorded),
    ensures
        ({
            let all = pending + mono;
            let whole = all.len() as int / n;
            delivered(log + sending(all, n, whole)) + sample_bytes(rest_after(all, n, whole))
                == sample_bytes(recorded + mono)
        }),
{
    stream_carries_all_samples(log, pending, mono, n);
    sample_bytes_append(recorded, mono);
}

/// Several parts of samples, one after the other.
pub open spec fn all_samples(parts: Seq<Seq<i16>>) -> Seq<i16>
    decreases parts.len(),
{
    if parts.len() == 0 {
        Seq::empty()
    } else {
        all_samples(parts.drop_last()) + parts.last()
    }
}

/// What a sink that began empty has handed over and what it has pending, after several parts were
/// pushed and the channel took every chunk.
pub open spec fn after_pushes(log: Seq<(Seq<u8>, bool)>, parts: Seq<Seq<i16>>, n: int) -> (
    Seq<(Seq<u8>, bool)>,
    Seq<i16>,
)
    decreases parts.len(),
{
    if parts.len() == 0 {
        (log, Seq::empty())
    } else {
        let (before, pending) = after_pushes(log, parts.drop_last(), n);
        let all = pending + parts.last();
        let whole = all.len() as int / n;
        (before + sending(all, n, whole), rest_after(all, n, whole))
    }
}

/// However the samples are parted, the whole stream carries them all, in order: what several
/// pushes and a flush deliver are the bytes of all samples pushed.
pub proof fn pushes_and_flush_carry_all_samples(
    log: Seq<(Seq<u8>, bool)>,
    parts: Seq<Seq<i16>>,
    n: int,
)
    requires
        n > 0,
    ensures
        ({
            let (after, pending) = after_pushes(log, parts, n);
            &&& delivered(after) + sample_bytes(pending) == delivered(log) + sample_bytes(
                all_samples(parts),
            )
            &&& delivered(after.push((sample_bytes(pending), true))) == delivered(log)
                + sample_bytes(all_samples(parts))
        }),
    decreases parts.len(),
{
    let (after, pending) = after_pushes(log, parts, n);
    if parts.len() == 0 {
        assert(sample_bytes(pending) =~= sample_bytes(all_samples(parts)));
    } else {
        let init = parts.drop_last();
        let (before, held) = after_pushes(log, init, n);
        pushes_and_flush_carry_all_samples(log, init, n);
        stream_carries_all_samples(before, held, parts.last(), n);
        sample_bytes_append(all_samples(init), parts.last());
        assert(delivered(log) + sample_bytes(all_samples(init)) + sample_bytes(parts.last())
            =~= delivered(log) + (sample_bytes(all_samples(init)) + sample_bytes(parts.last())));
    }
    flush_completes_the_stream(after, pending);
}

/// A flush that the channel takes delivers what was pending.
pub proof fn flush_completes_the_stream(log: Seq<(Seq<u8>, bool)>, pending: Seq<i16>)
    ensures
        delivered(log.push((sample_bytes(pending), true))) == delivered(log) + sample_bytes(
            pending,
        ),
{
    assert(log.push((sample_bytes(pending), true)).drop_last() =~= log);
}

/// A range of input configurations that a device offers.
#[derive(Debug, PartialEq, Eq, Structural, Clone, Copy)]
pub struct InputConfig {
    pub channels: u16,
    pub min_sample_rate: u32,
    pub max_sample_rate: u32,
}

impl InputConfig {
    /// At most two channels, and the wanted rate in range.
    pub open spec fn suits(self, rate: u32) -> bool {
        &&& self.channels <= 2
        &&& self.min_sample_rate <= rate <= self.max_sample_rate
    }
}

/// The place of the first configuration that can record at the wanted rate.
pub fn select_config(configs: &Vec<InputConfig>, rate: u32) -> (r: Option<usize>)
    ensures
        match r {
            Some(i) => {
                &&& i < configs@.len()
                &&& configs@[i as int].suits(rate)
                &&& forall|j: int| 0 <= j < i ==> !(#[trigger] configs@[j]).suits(rate)
            },
            None => !any_suits(configs@, rate),
        },
{
    let mut i: usize = 0;
    while i < configs.len()
        invariant
            0 <= i <= configs@.len(),
            forall|j: int| 0 <= j < i ==> !(#[trigger] configs@[j]).suits(rate),
        decreases configs@.len() - i,
    {
        let c: InputConfig = configs[i];
        if c.channels <= 2 && c.min_sample_rate <= rate && rate <= c.max_sample_rate {
            return Some(i);
        }
        i = i + 1;
    }
    None
}

/// A configuration suits a rate exactly if it has no more than two channels and the rate lies
/// between its lowest and its highest, both included.
pub proof fn suitable_configurations(c: InputConfig, rate: u32)
    ensures
        c.channels > 2 ==> !c.suits(rate),
        rate < c.min_sample_rate ==> !c.suits(rate),
        rate > c.max_sample_rate ==> !c.suits(rate),
        c.suits(rate) || c.channels > 2 || rate < c.min_sample_rate || rate > c.max_sample_rate,
{
}

/// Some configuration can record at the wanted rate.
pub open spec fn any_suits(configs: Seq<InputConfig>, rate: u32) -> bool {
    exists|j: int| 0 <= j < configs.len() && (#[trigger] configs[j]).suits(rate)
}

/// The rate at which a device records: the preferred one if one of its configurations can, else
/// that of its default configuration.
pub fn recording_rate(configs: &Vec<InputConfig>, preferred: u32, default_rate: u32) -> (r: u32)
    ensures
        r == (if any_suits(configs@, preferred) {
            preferred
        } else {
            default_rate
        }),
        r == preferred || r == default_rate,
        r != preferred ==> forall|j: int|
            0 <= j < configs@.len() ==> (#[trigger] configs@[j]).channels > 2
                || configs@[j].min_sample_rate > preferred || configs@[j].max_sample_rate
                < preferred,
        r != default_rate ==> exists|j: int|
            0 <= j < configs@.len() && (#[trigger] configs@[j]).channels <= 2
                && configs@[j].min_sample_rate <= preferred <= configs@[j].max_sample_rate,
{
    match select_config(configs, preferred) {
        Some(_) => preferred,
        None => default_rate,
    }
}

/// The distance of a sample from silence.
pub open spec fn loudness(x: i16) -> int {
    if x < 0 {
        -x
    } else {
        x as int
    }
}

/// `p` is the loudness of the loudest sample, or zero without samples.
pub open spec fn is_peak(samples: Seq<i16>, p: int) -> bool {
    &&& p >= 0
    &&& forall|i: int| 0 <= i < samples.len() ==> loudness(#[trigger] samples[i]) <= p
    &&& p > 0 ==> exists|i: int| 0 <= i < samples.len() && loudness(#[trigger] samples[i]) == p
}

/// The peak bounds every sample both ways, and one sample, or its opposite, reaches it.
pub proof fn peak_is_reached(samples: Seq<i16>, p: int)
    requires
        is_peak(samples, p),
    ensures
        forall|i: int| 0 <= i < samples.len() ==> -p <= #[trigger] samples[i] <= p,
        samples.len() > 0 ==> exists|i: int|
            0 <= i < samples.len() && (#[trigger] samples[i] == p || samples[i] == -p),
        samples.len() == 0 ==> p == 0,
{
    assert forall|i: int| 0 <= i < samples.len() implies -p <= #[trigger] samples[i] <= p by {
        assert(loudness(samples[i]) <= p);
    }
    if samples.len() > 0 && p == 0 {
        assert(samples[0] == p);
    }
}

/// The loudness of the loudest sample, or zero without samples.
pub fn peak(samples: &Vec<i16>) -> (r: u16)
    ensures
        is_peak(samples@, r as int),
{
    let mut r: u16 = 0;
    let mut i: usize = 0;
    while i < samples.len()
        invariant
            0 <= i <= samples@.len(),
            is_peak(samples@.take(i as int), r as int),
        decreases samples@.len() - i,
    {
        let ghost prefix = samples@.take(i as int);
        let x: i16 = samples[i];
        let a: u16 = if x < 0 {
            (0 - x as i32) as u16
        } else {
            x as u16
        };
        let ghost next = samples@.take(i + 1);
        assert(forall|j: int| 0 <= j < i ==> #[trigger] next[j] == prefix[j]);
        assert(next[i as int] == x);
        proof {
            if r > 0 {
                let j = choose|j: int| 0 <= j < prefix.len() && loudness(#[trigger] prefix[j]) == r;
                assert(loudness(next[j]) == r);
            }
        }
        if a > r {
            r = a;
        }
        i = i + 1;
    }
    assert(samples@.take(i as int) =~= samples@);
    r
}

/// What is left when a recording is stopped.
pub struct StoppedRecording {
    /// The recording as a WAV file, or why there is none.
    pub wav: Result<Vec<u8>, String>,
    /// The live stream that was closed, if there was one.
    pub sink: Option<LiveStreamSink>,
}

/// The recorder.
pub struct AudioRecorder {
    pub buffer: Vec<i16>,
    pub spec: Option<WavSpec>,
    pub input_level: u32,
    pub preferred_sample_rate_hz: u32,
    pub live_stream_sink: Option<LiveStreamSink>,
}

impl AudioRecorder {
    /// The live stream, if there is one, is well-formed.
    pub open spec fn wf(self) -> bool {
        self.live_stream_sink is Some ==> self.live_stream_sink->0.wf()
    }

    /// The recording, if there is one, can be written as a WAV file.
    pub open spec fn encodable(self) -> bool {
        self.spec is Some ==> self.spec->0.is_mono() && fits_wav(self.buffer@)
    }

    /// A recorder that has not recorded anything.
    pub fn new(preferred_sample_rate_hz: u32) -> (r: AudioRecorder)
        ensures
            r.wf(),
            r.buffer@.len() == 0,
            r.spec is None,
            r.input_level == 0,
            r.preferred_sample_rate_hz == preferred_sample_rate_hz,
            r.live_stream_sink is None,
    {
        AudioRecorder {
            buffer: Vec::new(),
            spec: None,
            input_level: 0,
            preferred_sample_rate_hz,
            live_stream_sink: None,
        }
    }

    /// Drops what was recorded and streamed before, ahead of opening a device.
    pub fn prepare(&mut self)
        ensures
            final(self).wf(),
            final(self).buffer@.len() == 0,
            final(self).input_level == 0,
            final(self).live_stream_sink is None,
            final(self).spec == old(self).spec,
            final(self).preferred_sample_rate_hz == old(self).preferred_sample_rate_hz,
    {
        self.buffer.clear();
        self.input_level = 0;
        self.live_stream_sink = None;
    }

    /// Takes note of the rate at which the opened device records, and streams to `audio_sender`.
    ///
    /// Whatever the device has, one channel of 16-bit samples is kept.
    pub fn start_streaming(
        &mut self,
        audio_sender: UnboundedSender<Vec<u8>>,
        sample_rate: u32,
    )
        ensures
            final(self).wf(),
            final(self).spec == Some(WavSpec { channels: 1, sample_rate, bits_per_sample: 16 }),
            final(self).live_stream_sink is Some,
            final(self).live_stream_sink->0.sender == audio_sender,
            final(self).live_stream_sink->0.pending_samples@.len() == 0,
            final(self).live_stream_sink->0.chunk_samples == tenth_of_second(sample_rate),
            final(self).buffer == old(self).buffer,
            final(self).input_level == old(self).input_level,
            final(self).preferred_sample_rate_hz == old(self).preferred_sample_rate_hz,
    {
        self.spec = Some(WavSpec { channels: 1, sample_rate, bits_per_sample: 16 });
        self.live_stream_sink = Some(LiveStreamSink::new(audio_sender, sample_rate));
    }

    /// Sets the rate to ask devices for.
    pub fn set_preferred_sample_rate_hz(&mut self, preferred_sample_rate_hz: u32)
        ensures
            *final(self) == (AudioRecorder { preferred_sample_rate_hz, ..*old(self) }),
    {
        self.preferred_sample_rate_hz = preferred_sample_rate_hz;
    }

    /// The rate of the recording, while there is one.
    pub fn sample_rate_hz(&self) -> (r: Option<u32>)
        ensures
            match self.spec {
                Some(spec) => r == Some(spec.sample_rate),
                None => r is None,
            },
    {
        match &self.spec {
            Some(spec) => Some(spec.sample_rate),
            None => None,
        }
    }

    /// Records and streams the first channel of some input, and returns its peak.
    pub fn write_input_data(&mut self, input: &Vec<i16>, channels: u16) -> (r: u16)
        requires
            old(self).wf(),
            channels > 0 || input@.len() == 0,
        ensures
            final(self).wf(),
            final(self).spec == old(self).spec,
            final(self).input_level == old(self).input_level,
            final(self).preferred_sample_rate_hz == old(self).preferred_sample_rate_hz,
            ({
                let mono = every_nth(input@, channels as int);
                &&& final(self).buffer@ == old(self).buffer@ + mono
                &&& is_peak(mono, r as int)
                &&& match (old(self).live_stream_sink, final(self).live_stream_sink) {
                    (Some(before), Some(after)) => {
                        let all = before.pending_samples@ + mono;
                        let n = before.chunk_samples as int;
                        &&& after.chunk_samples == before.chunk_samples
                        &&& exists|taken: int|
                            {
                                &&& 0 <= taken <= all.len() as int / n
                                &&& send_log(after.sender) == send_log(before.sender)
                                    + #[trigger] sending(all, n, taken)
                                &&& after.pending_samples@ == rest_after(all, n, taken)
                            }
                    },
                    (None, None) => true,
                    _ => false,
                }
            }),
    {
        let mut mono: Vec<i16> = first_channel(input, channels);
        let r: u16 = peak(&mono);
        let ghost m = mono@;
        let mut sink: Option<LiveStreamSink> = self.live_stream_sink.take();
        if let Some(s) = &mut sink {
            let taken: usize = s.push_live_stream_samples(&mono);
            proof {
                let before = old(self).live_stream_sink->0;
                let all = before.pending_samples@ + m;
                let n = before.chunk_samples as int;
                assert(send_log(s.sender) == send_log(before.sender) + sending(
                    all,
                    n,
                    taken as int,
                ));
            }
        }
        self.live_stream_sink = sink;
        self.buffer.append(&mut mono);
        r
    }

    /// Stops: closes the live stream after sending what is pending, and encodes the recording.
    pub fn stop(&mut self) -> (r: StoppedRecording)
        requires
            old(self).wf(),
            old(self).encodable(),
        ensures
            final(self).wf(),
            final(self).live_stream_sink is None,
            final(self).spec is None,
            final(self).buffer == old(self).buffer,
            final(self).preferred_sample_rate_hz == old(self).preferred_sample_rate_hz,
            match (old(self).live_stream_sink, r.sink) {
                (Some(before), Some(after)) => {
                    let rest = sample_bytes(before.pending_samples@);
                    &&& after.pending_samples@.len() == 0
                    &&& before.pending_samples@.len() == 0 ==> after.sender == before.sender
                    &&& before.pending_samples@.len() > 0 ==> exists|taken: bool|
                        send_log(after.sender) == #[trigger] send_log(before.sender).push(
                            (rest, taken),
                        )
                },
                (None, None) => true,
                _ => false,
            },
            match old(self).spec {
                Some(spec) => {
                    &&& r.wav matches Ok(b) && b@ == mono_wav(spec.sample_rate, old(self).buffer@)
                    &&& final(self).input_level == 0
                },
                None => {
                    &&& r.wav matches Err(e) && e@
                        == "Recorder is not active. Start recording first."@
                    &&& final(self).input_level == old(self).input_level
                },
            },
    {
        let mut sink: Option<LiveStreamSink> = self.live_stream_sink.take();
        if let Some(s) = &mut sink {
            s.flush_live_stream_sink();
        }
        match self.spec.take() {
            Some(spec) => {
                self.input_level = 0;
                StoppedRecording { wav: encode_wav(spec, &self.buffer), sink }
            },
            None => StoppedRecording {
                wav: Err("Recorder is not active. Start recording first.".to_owned()),
                sink,
            },
        }
    }
}

} // verus!
