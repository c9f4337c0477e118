//! Samples as bytes, and recordings as WAV files.
use vstd::prelude::*;

verus! {

/// The bit pattern of a sample, as a number.
pub open spec fn sample_bits(x: i16) -> int {
    if x < 0 {
        x + 0x10000
    } else {
        x as int
    }
}

/// The two low bytes of a number, the lower one first.
pub open spec fn le16(n: int) -> Seq<u8> {
    seq![(n % 256) as u8, (n / 256 % 256) as u8]
}

/// The four low bytes of a number, the lowest one first.
pub open spec fn le32(n: int) -> Seq<u8> {
    le16(n) + le16(n / 0x10000)
}

/// Samples as bytes, each sample with its low byte first.
pub open spec fn sample_bytes(samples: Seq<i16>) -> Seq<u8> {
    Seq::new(samples.len() * 2, |i: int| le16(sample_bits(samples[i / 2]))[i % 2])
}

/// The sample with the given low and high byte.
pub open spec fn sample_of(low: u8, high: u8) -> i16 {
    let n = high * 256 + low;
    if n >= 0x8000 {
        (n - 0x10000) as i16
    } else {
        n as i16
    }
}

/// The samples that bytes stand for; an odd byte at the end stands for none.
pub open spec fn byte_samples(bytes: Seq<u8>) -> Seq<i16> {
    Seq::new(bytes.len() / 2, |i: int| sample_of(bytes[2 * i], bytes[2 * i + 1]))
}

/// Writes samples as bytes, each sample with its low byte first.
pub fn samples_to_bytes(samples: &Vec<i16>) -> (r: Vec<u8>)
    ensures
        r@ == sample_bytes(samples@),
{
    let mut r: Vec<u8> = Vec::new();
    let mut i: usize = 0;
    while i < samples.len()
        invariant
            0 <= i <= samples@.len(),
            r@ == sample_bytes(samples@.take(i as int)),
        decreases samples@.len() - i,
    {
        let ghost before = r@;
        let x: i16 = samples[i];
        let bits: u16 = if x < 0 {
            (x as i32 + 0x10000) as u16
        } else {
            x as u16
        };
        r.push((bits % 256) as u8);
        r.push((bits / 256) as u8);
        assert(r@ =~= sample_bytes(samples@.take(i + 1))) by {
            assert forall|j: int| 0 <= j < r@.len() implies r@[j] == sample_bytes(
                samples@.take(i + 1),
            )[j] by {
                if j < before.len() {
                    assert(before[j] == sample_bytes(samples@.take(i as int))[j]);
                }
            }
        }
        i = i + 1;
    }
    assert(samples@.take(i as int) =~= samples@);
    r
}

/// Reads samples from bytes; an odd byte at the end is dropped.
pub fn bytes_to_samples(bytes: &[u8]) -> (r: Vec<i16>)
    ensures
        r@ == byte_samples(bytes@),
{
    let mut r: Vec<i16> = Vec::new();
    let n: usize = bytes.len() / 2;
    let mut i: usize = 0;
    while i < n
        invariant
            n == bytes.len() / 2,
            0 <= i <= n,
            r@ == byte_samples(bytes@).take(i as int),
        decreases n - i,
    {
        let bits: i32 = bytes[2 * i + 1] as i32 * 256 + bytes[2 * i] as i32;
        let x: i16 = if bits >= 0x8000 {
            (bits - 0x10000) as i16
        } else {
            bits as i16
        };
        r.push(x);
        assert(byte_samples(bytes@).take(i + 1) =~= byte_samples(bytes@).take(i as int).push(x));
        i = i + 1;
    }
    assert(byte_samples(bytes@).take(i as int) =~= byte_samples(bytes@));
    r
}

/// Low bytes come first: the bytes of a number, weighed by 256 for each place, make the number
/// again, as far as it fits in them.
pub proof fn low_bytes_come_first(n: int)
    requires
        n >= 0,
    ensures
        le16(n).len() == 2,
        le32(n).len() == 4,
        n < 0x10000 ==> le16(n)[0] + le16(n)[1] * 0x100 == n,
        n < 0x1_0000_0000 ==> le32(n)[0] + le32(n)[1] * 0x100 + le32(n)[2] * 0x10000 + le32(n)[3]
            * 0x1000000 == n,
{
    assert(le32(n)[0] == le16(n)[0]);
    assert(le32(n)[1] == le16(n)[1]);
    assert(le32(n)[2] == le16(n / 0x10000)[0]);
    assert(le32(n)[3] == le16(n / 0x10000)[1]);
}

/// Each sample is two bytes, the low one first, which count a negative sample from 65536 down.
pub proof fn samples_are_two_bytes(samples: Seq<i16>, i: int)
    requires
        0 <= i < samples.len(),
    ensures
        sample_bytes(samples).len() == 2 * samples.len(),
        sample_bytes(samples)[2 * i] + sample_bytes(samples)[2 * i + 1] * 0x100 == (if samples[i]
            < 0 {
            samples[i] + 65536
        } else {
            samples[i] as int
        }),
{
    assert((2 * i) / 2 == i && (2 * i) % 2 == 0);
    assert((2 * i + 1) / 2 == i && (2 * i + 1) % 2 == 1);
}

/// Two bytes are one sample, the low one first, where 32768 and above count down from 65536; an
/// odd byte is none.
pub proof fn two_bytes_are_a_sample(bytes: Seq<u8>, i: int)
    requires
        0 <= i,
        2 * i + 1 < bytes.len(),
    ensures
        2 * byte_samples(bytes).len() <= bytes.len() < 2 * byte_samples(bytes).len() + 2,
        ({
            let n = bytes[2 * i] + bytes[2 * i + 1] * 0x100;
            byte_samples(bytes)[i] == (if n < 32768 {
                n
            } else {
                n - 65536
            })
        }),
{
}

/// Reading gives back the samples that were written.
pub proof fn samples_survive_bytes(samples: Seq<i16>)
    ensures
        byte_samples(sample_bytes(samples)) == samples,
{
    let b = sample_bytes(samples);
    assert forall|i: int| 0 <= i < samples.len() implies #[trigger] byte_samples(b)[i]
        == samples[i] by {
        assert((2 * i) / 2 == i && (2 * i) % 2 == 0);
        assert((2 * i + 1) / 2 == i && (2 * i + 1) % 2 == 1);
    }
    assert(byte_samples(b) =~= samples);
}

/// Writing gives back the bytes that were read, if they are even in number.
pub proof fn bytes_survive_samples(bytes: Seq<u8>)
    requires
        bytes.len() % 2 == 0,
    ensures
        sample_bytes(byte_samples(bytes)) == bytes,
{
    let s = byte_samples(bytes);
    assert forall|i: int| 0 <= i < bytes.len() implies #[trigger] sample_bytes(s)[i]
        == bytes[i] by {
        let k = i / 2;
        assert(0 <= k < s.len());
        assert(s[k] == sample_of(bytes[2 * k], bytes[2 * k + 1]));
        assert(i == 2 * k || i == 2 * k + 1);
    }
    assert(sample_bytes(s) =~= bytes);
}

/// Writing samples one part after the other is writing them all at once.
pub proof fn sample_bytes_append(a: Seq<i16>, b: Seq<i16>)
    ensures
        sample_bytes(a + b) == sample_bytes(a) + sample_bytes(b),
{
    assert forall|i: int| 0 <= i < (a.len() + b.len()) * 2 implies #[trigger] sample_bytes(a + b)[i]
        == (sample_bytes(a) + sample_bytes(b))[i] by {
        if i >= a.len() * 2 {
            assert((i - a.len() * 2) / 2 == i / 2 - a.len());
            assert((i - a.len() * 2) % 2 == i % 2);
        }
    }
    assert(sample_bytes(a + b) =~= sample_bytes(a) + sample_bytes(b));
}

/// The properties of a recording.
#[derive(Debug, PartialEq, Eq, Structural, Clone, Copy)]
pub struct WavSpec {
    pub channels: u16,
    pub sample_rate: u32,
    pub bits_per_sample: u16,
}

impl WavSpec {
    /// One channel of 16-bit samples at a rate that a WAV header can hold.
    pub open spec fn is_mono(self) -> bool {
        &&& self.channels == 1
        &&& self.bits_per_sample == 16
        &&& 0 < self.sample_rate <= u32::MAX / 2
    }
}

/// The samples fit into a WAV file, whose sizes are 32-bit numbers.
pub open spec fn fits_wav(samples: Seq<i16>) -> bool {
    samples.len() * 2 + 36 <= u32::MAX
}

/// The header of a mono WAV file of 16-bit samples at `rate`, before `size` bytes of samples.
pub open spec fn wav_header(rate: int, size: int) -> Seq<u8> {
    // "RIFF" and the size of what follows, "WAVE"
    seq![0x52u8, 0x49, 0x46, 0x46] + le32(size + 36) + seq![0x57u8, 0x41, 0x56, 0x45]
    // "fmt " and its size, then PCM, one channel, the rate in samples and in bytes, the bytes
    // and bits of a sample
     + seq![0x66u8, 0x6d, 0x74, 0x20] + le32(16) + le16(1) + le16(1) + le32(rate) + le32(rate * 2)
        + le16(2) + le16(16)
    // "data" and its size
     + seq![0x64u8, 0x61, 0x74, 0x61] + le32(size)
}

/// The mono WAV file that holds `samples` at `rate`.
pub open spec fn mono_wav(rate: u32, samples: Seq<i16>) -> Seq<u8> {
    wav_header(rate as int, samples.len() as int * 2) + sample_bytes(samples)
}

/// The file is a header of 44 bytes and the samples. The header gives the sizes of what follows,
/// the rate and the rate in bytes, and one channel of two bytes and 16 bits a sample.
pub proof fn wav_header_describes_the_file(rate: u32, samples: Seq<i16>)
    requires
        rate <= u32::MAX / 2,
        fits_wav(samples),
    ensures
        ({
            let f = mono_wav(rate, samples);
            let n16 = |i: int| f[i] + f[i + 1] * 0x100;
            let n32 = |i: int| f[i] + f[i + 1] * 0x100 + f[i + 2] * 0x10000 + f[i + 3] * 0x1000000;
            &&& f.len() == 44 + 2 * samples.len()
            &&& f[0] == 0x52 && f[1] == 0x49 && f[2] == 0x46 && f[3] == 0x46
            &&& n32(4) == f.len() - 8
            &&& f[8] == 0x57 && f[9] == 0x41 && f[10] == 0x56 && f[11] == 0x45
            &&& f[12] == 0x66 && f[13] == 0x6d && f[14] == 0x74 && f[15] == 0x20
            &&& n32(16) == 16
            &&& n16(20) == 1 && n16(22) == 1
            &&& n32(24) == rate
            &&& n32(28) == 2 * rate
            &&& n16(32) == 2 && n16(34) == 16
            &&& f[36] == 0x64 && f[37] == 0x61 && f[38] == 0x74 && f[39] == 0x61
            &&& n32(40) == f.len() - 44
            &&& f.skip(44) == sample_bytes(samples)
        }),
{
    let size = samples.len() as int * 2;
    let h = wav_header(rate as int, size);
    let f = mono_wav(rate, samples);
    low_bytes_come_first(size + 36);
    low_bytes_come_first(16);
    low_bytes_come_first(1);
    low_bytes_come_first(2);
    low_bytes_come_first(rate as int);
    low_bytes_come_first(rate * 2);
    low_bytes_come_first(size);
    assert(h.len() == 44);
    assert(h.subrange(4, 8) =~= le32(size + 36));
    assert(h.subrange(16, 20) =~= le32(16));
    assert(h.subrange(20, 22) =~= le16(1));
    assert(h.subrange(22, 24) =~= le16(1));
    assert(h.subrange(24, 28) =~= le32(rate as int));
    assert(h.subrange(28, 32) =~= le32(rate * 2));
    assert(h.subrange(32, 34) =~= le16(2));
    assert(h.subrange(34, 36) =~= le16(16));
    assert(h.subrange(40, 44) =~= le32(size));
    assert forall|i: int, k: int| 0 <= i && 0 <= k && i + k < 44 implies #[trigger] f[i + k]
        == h[i + k] by {}
    assert(f[4] == h.subrange(4, 8)[0] && f[5] == h.subrange(4, 8)[1] && f[6] == h.subrange(
        4,
        8,
    )[2] && f[7] == h.subrange(4, 8)[3]);
    assert(f[16] == h.subrange(16, 20)[0] && f[17] == h.subrange(16, 20)[1] && f[18]
        == h.subrange(16, 20)[2] && f[19] == h.subrange(16, 20)[3]);
    assert(f[20] == h.subrange(20, 22)[0] && f[21] == h.subrange(20, 22)[1]);
    assert(f[22] == h.subrange(22, 24)[0] && f[23] == h.subrange(22, 24)[1]);
    assert(f[24] == h.subrange(24, 28)[0] && f[25] == h.subrange(24, 28)[1] && f[26]
        == h.subrange(24, 28)[2] && f[27] == h.subrange(24, 28)[3]);
    assert(f[28] == h.subrange(28, 32)[0] && f[29] == h.subrange(28, 32)[1] && f[30]
        == h.subrange(28, 32)[2] && f[31] == h.subrange(28, 32)[3]);
    assert(f[32] == h.subrange(32, 34)[0] && f[33] == h.subrange(32, 34)[1]);
    assert(f[34] == h.subrange(34, 36)[0] && f[35] == h.subrange(34, 36)[1]);
    assert(f[40] == h.subrange(40, 44)[0] && f[41] == h.subrange(40, 44)[1] && f[42]
        == h.subrange(40, 44)[2] && f[43] == h.subrange(40, 44)[3]);
    assert(f.skip(44) =~= sample_bytes(samples));
}

/// Writes samples with `hound::WavWriter`: a writer on an in-memory cursor is opened with `spec`,
/// each sample is written in turn, and the file is finalized.
///
/// For one channel of 16-bit integers the file is the plain PCM layout: a header of 44 bytes and
/// the samples with the low byte first. No step fails then, as the cursor grows without limit.
/// The rate must not be zero, and the byte rate and the file size must fit in 32 bits: the writer
/// divides by the one and adds up the others without a check.
#[verifier::external_body]
fn write_with_hound(spec: WavSpec, samples: &Vec<i16>) -> (r: Result<Vec<u8>, String>)
    requires
        spec.is_mono(),
        fits_wav(samples@),
    ensures
        r is Ok,
        r->Ok_0@ == mono_wav(spec.sample_rate, samples@),
{
    let spec = hound::WavSpec {
        channels: spec.channels,
        sample_rate: spec.sample_rate,
        bits_per_sample: spec.bits_per_sample,
        sample_format: hound::SampleFormat::Int,
    };
    let mut cursor = std::io::Cursor::new(Vec::new());
    let mut writer = hound::WavWriter::new(&mut cursor, spec).map_err(|e| e.to_string())?;
    for &sample in samples {
        writer.write_sample(sample).map_err(|e| e.to_string())?;
    }
    writer.finalize().map_err(|e| e.to_string())?;
    Ok(cursor.into_inner())
}

/// Encodes a recording as a WAV file.
pub fn encode_wav(spec: WavSpec, samples: &Vec<i16>) -> (r: Result<Vec<u8>, String>)
    requires
        spec.is_mono(),
        fits_wav(samples@),
    ensures
        r matches Ok(b) && b@ == mono_wav(spec.sample_rate, samples@),
{
    write_with_hound(spec, samples)
}

/// What a WAV file holds.
#[derive(Debug)]
pub struct WavFile {
    pub channels: u16,
    pub sample_rate: u32,
    /// The samples are floating-point numbers.
    pub float: bool,
    /// The samples of all channels in turn, up to the first that is not a 16-bit integer.
    pub samples: Vec<i16>,
}

impl WavFile {
    /// The number of channels, the sample rate, whether the samples are floating-point numbers,
    /// and the samples.
    pub open spec fn contents(self) -> (u16, u32, bool, Seq<i16>) {
        (self.channels, self.sample_rate, self.float, self.samples@)
    }
}

/// What `hound` reads from a WAV file: the number of channels, the sample rate, whether the
/// samples are floating-point numbers, and the samples that can be read as 16-bit integers; or
/// the text of its error.
pub uninterp spec fn wav_contents(bytes: Seq<u8>) -> Result<(u16, u32, bool, Seq<i16>), Seq<char>>;

/// Reads a WAV file with `hound::WavReader`: the header, then the samples as 16-bit integers up
/// to the first that is none. A sample after that one is none either: the reader has run out of
/// bytes, or the whole file is of another kind. The header may announce far more samples than
/// there are, so those that cannot be read are not collected.
///
/// The reader refuses a file without channels. From a file laid out as `mono_wav` says it reads
/// back the rate and the samples.
#[verifier::external_body]
fn read_with_hound(bytes: &[u8]) -> (r: Result<WavFile, String>)
    ensures
        r is Ok <==> wav_contents(bytes@) is Ok,
        r is Ok ==> wav_contents(bytes@)->Ok_0 == r->Ok_0.contents(),
        r is Err ==> wav_contents(bytes@)->Err_0 == r->Err_0@,
        r is Ok ==> r->Ok_0.channels > 0,
        forall|rate: u32, samples: Seq<i16>|
            0 < rate <= u32::MAX / 2 && fits_wav(samples) && bytes@ == #[trigger] mono_wav(
                rate,
                samples,
            ) ==> r is Ok && r->Ok_0.contents() == (1u16, rate, false, samples),
{
    let cursor = std::io::Cursor::new(bytes);
    let mut reader = hound::WavReader::new(cursor).map_err(|e| e.to_string())?;
    let spec = reader.spec();
    Ok(WavFile {
        channels: spec.channels,
        sample_rate: spec.sample_rate,
        float: spec.sample_format == hound::SampleFormat::Float,
        samples: reader.samples::<i16>().map_while(|s| s.ok()).collect(),
    })
}

/// The first of every `n` elements; none for `n` zero.
pub open spec fn every_nth<T>(s: Seq<T>, n: int) -> Seq<T> {
    if n <= 0 {
        Seq::empty()
    } else {
        Seq::new(((s.len() + n - 1) / n) as nat, |i: int| s[i * n])
    }
}

/// Takes the first channel of interleaved samples.
pub fn first_channel<T: Copy>(input: &Vec<T>, channels: u16) -> (r: Vec<T>)
    requires
        channels > 0 || input@.len() == 0,
    ensures
        r@ == every_nth(input@, channels as int),
{
    let mut r: Vec<T> = Vec::new();
    if channels == 0 {
        return r;
    }
    let n: usize = channels as usize;
    let mut i: usize = 0;
    proof {
        lemma_nth_len(0, n as int);
    }
    while i < input.len()
        invariant
            n == channels > 0,
            0 <= i <= input@.len(),
            r@ == every_nth(input@.take(i as int), n as int),
        decreases input@.len() - i,
    {
        let ghost before = r@;
        proof {
            lemma_nth_len(i as int, n as int);
        }
        if i % n == 0 {
            r.push(input[i]);
        }
        assert(r@ =~= every_nth(input@.take(i + 1), n as int)) by {
            assert forall|j: int| 0 <= j < r@.len() implies r@[j] == every_nth(
                input@.take(i + 1),
                n as int,
            )[j] by {
                if j < before.len() {
                    assert(before[j] == every_nth(input@.take(i as int), n as int)[j]);
                    lemma_nth_index(i as int, n as int, j);
                } else {
                    assert(j == i as int / n as int);
                    vstd::arithmetic::div_mod::lemma_fundamental_div_mod(i as int, n as int);
                    vstd::arithmetic::mul::lemma_mul_is_commutative(i as int / n as int, n as int);
                }
            }
        }
        i = i + 1;
    }
    assert(input@.take(i as int) =~= input@);
    r
}

/// One more element adds one to every `n`th if it stands at a multiple of `n`.
proof fn lemma_nth_len(i: int, n: int)
    requires
        i >= 0,
        n > 0,
    ensures
        (n - 1) / n == 0,
        i % n == 0 ==> (i + n - 1) / n == i / n && (i + n) / n == i / n + 1,
        i % n != 0 ==> (i + n) / n == (i + n - 1) / n,
{
    let q = i / n;
    let m = i % n;
    assert(i == n * q + m && 0 <= m < n) by (nonlinear_arith)
        requires
            n > 0,
            q == i / n,
            m == i % n,
    ;
    assert((n - 1) / n == 0) by (nonlinear_arith)
        requires
            n > 0,
    ;
    assert((i + n) / n == q + 1) by (nonlinear_arith)
        requires
            n > 0,
            i == n * q + m,
            0 <= m < n,
    ;
    if m == 0 {
        assert((i + n - 1) / n == q) by (nonlinear_arith)
            requires
                n > 0,
                i == n * q,
        ;
    } else {
        assert((i + n - 1) / n == q + 1) by (nonlinear_arith)
            requires
                n > 0,
                i == n * q + m,
                0 < m < n,
        ;
    }
}

proof fn lemma_nth_index(len: int, n: int, j: int)
    requires
        n > 0,
        0 <= j < (len + n - 1) / n,
    ensures
        0 <= j * n < len,
{
    assert(0 <= j * n < len) by (nonlinear_arith)
        requires
            n > 0,
            0 <= j < (len + n - 1) / n,
    ;
}

/// The first channel has one sample for each group of samples, a shorter one at the end included,
/// and that is the first of the group.
pub proof fn first_channel_has_one_of_each_group<T>(s: Seq<T>, n: int, i: int)
    requires
        n > 0,
        i >= 0,
    ensures
        i < every_nth(s, n).len() <==> i * n < s.len(),
        i * n < s.len() ==> every_nth(s, n)[i] == s[i * n],
        n == 1 ==> every_nth(s, n) == s,
{
    let m = s.len() as int;
    assert(i < (m + n - 1) / n <==> i * n < m) by (nonlinear_arith)
        requires
            n > 0,
            i >= 0,
            m >= 0,
    ;
    if n == 1 {
        assert((m + 1 - 1) / 1 == m);
        assert(every_nth(s, 1) =~= s);
    }
}

/// The audio of a WAV file, as far as it is made of integers.
#[derive(Debug)]
pub enum MonoAudio {
    /// The first channel.
    Samples { sample_rate: u32, samples: Vec<i16> },
    /// The samples are floating-point numbers and have not been read.
    Float { sample_rate: u32, channels: u16 },
}

/// Picks the first channel of what was read from a WAV file.
pub fn mono_audio(file: WavFile) -> (r: MonoAudio)
    requires
        file.channels > 0,
    ensures
        match r {
            MonoAudio::Samples { sample_rate, samples } => {
                &&& !file.float
                &&& sample_rate == file.sample_rate
                &&& samples@ == every_nth(file.samples@, file.channels as int)
            },
            MonoAudio::Float { sample_rate, channels } => {
                &&& file.float
                &&& sample_rate == file.sample_rate
                &&& channels == file.channels
            },
        },
{
    if file.float {
        MonoAudio::Float { sample_rate: file.sample_rate, channels: file.channels }
    } else {
        MonoAudio::Samples {
            sample_rate: file.sample_rate,
            samples: first_channel(&file.samples, file.channels),
        }
    }
}

/// Reads the first channel of a WAV file.
///
/// A file written by `encode_wav` gives back its rate and its samples.
pub fn decode_wav(bytes: &[u8]) -> (r: Result<MonoAudio, String>)
    ensures
        match (wav_contents(bytes@), r) {
            (Ok((channels, rate, float, all)), Ok(MonoAudio::Samples { sample_rate, samples })) => {
                &&& !float
                &&& sample_rate == rate
                &&& samples@ == every_nth(all, channels as int)
            },
            (Ok((channels, rate, float, _)), Ok(MonoAudio::Float { sample_rate, channels: c })) => {
                &&& float
                &&& sample_rate == rate
                &&& c == channels
            },
            (Err(text), Err(e)) => e@ == text,
            _ => false,
        },
        forall|rate: u32, samples: Seq<i16>|
            0 < rate <= u32::MAX / 2 && fits_wav(samples) && bytes@ == #[trigger] mono_wav(
                rate,
                samples,
            ) ==> (r matches Ok(MonoAudio::Samples { sample_rate, samples: s }) && sample_rate
                == rate && s@ == samples),
{
    match read_with_hound(bytes) {
        Ok(file) => {
            proof {
                assert(every_nth(file.samples@, 1) =~= file.samples@) by {
                    assert((file.samples@.len() + 1 - 1) / 1 == file.samples@.len());
                }
            }
            Ok(mono_audio(file))
        },
        Err(e) => Err(e),
    }
}

} // verus!
