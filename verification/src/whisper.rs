//! Live transcription: cutting the audio into segments at silences, and cleaning up what the
//! model says about each.
use crate::text::{
    is_white, is_word, join_words, joined, joining_adds_single_spaces, split_words, texts, trim,
    trimmed, white_space_parts_words, words, words_are_words, words_before_white,
    words_of_continued, words_of_joined,
};
use crate::typing::{grown_transcript_is_completed, new_words};
use vstd::prelude::*;

verus! {

/// The sample rate that the model needs.
pub const WHISPER_SAMPLE_RATE: u32 = 16_000;

/// The window over which loudness is measured: 100 ms.
pub const RMS_WINDOW_SAMPLES: usize = 1_600;

/// A silence this long ends a segment: 500 ms.
pub const SILENCE_TRIGGER_SAMPLES: usize = 8_000;

/// A segment shorter than this is noise: 250 ms.
pub const MIN_SEGMENT_SAMPLES: usize = 4_000;

/// A segment is cut at this length: 28 s.
pub const MAX_SEGMENT_SAMPLES: usize = 448_000;

/// The number of windows before the first loud one.
pub open spec fn quiet_windows(loud: Seq<bool>) -> int
    decreases loud.len(),
{
    if loud.len() == 0 || loud[0] {
        0
    } else {
        1 + quiet_windows(loud.drop_first())
    }
}

/// Where the silence at the end of `len` samples begins. The flags say of each whole window, the
/// last one first, whether it is loud.
pub open spec fn silence_start(len: int, loud: Seq<bool>) -> int {
    len - quiet_windows(loud) * RMS_WINDOW_SAMPLES
}

/// Where speech is taken to end in `len` samples: where the silence at the end begins, but not
/// before the shortest segment.
pub open spec fn speech_end(len: int, loud: Seq<bool>) -> int {
    let end = silence_start(len, loud);
    if len < MIN_SEGMENT_SAMPLES {
        len
    } else if end < MIN_SEGMENT_SAMPLES {
        MIN_SEGMENT_SAMPLES as int
    } else {
        end
    }
}

/// The segment in a buffer: what comes before the silence at the end, of which no more than the
/// longest segment is kept, the latest part; none if that is shorter than the shortest segment.
pub open spec fn segment_in<T>(buf: Seq<T>, loud: Seq<bool>) -> Option<Seq<T>> {
    let end = silence_start(buf.len() as int, loud);
    if end < MIN_SEGMENT_SAMPLES {
        None
    } else if end > MAX_SEGMENT_SAMPLES {
        Some(buf.subrange(end - MAX_SEGMENT_SAMPLES, end))
    } else {
        Some(buf.take(end))
    }
}

proof fn lemma_quiet_windows(loud: Seq<bool>, k: int)
    requires
        0 <= k <= loud.len(),
        forall|i: int| 0 <= i < k ==> !#[trigger] loud[i],
    ensures
        quiet_windows(loud) == k + quiet_windows(loud.skip(k)),
    decreases k,
{
    if k == 0 {
        assert(loud.skip(0) =~= loud);
    } else {
        let t = loud.drop_first();
        assert(!loud[0]);
        assert forall|i: int| 0 <= i < k - 1 implies !#[trigger] t[i] by {
            assert(t[i] == loud[i + 1]);
        }
        lemma_quiet_windows(t, k - 1);
        assert(t.skip(k - 1) =~= loud.skip(k));
    }
}

/// Finds where the silence at the end begins, walking back over the quiet windows.
fn find_silence(len: usize, loud: &Vec<bool>) -> (r: usize)
    requires
        loud@.len() == len as int / RMS_WINDOW_SAMPLES as int,
    ensures
        r == silence_start(len as int, loud@),
        r <= len,
{
    let mut end: usize = len;
    let mut k: usize = 0;
    while k < loud.len() && !loud[k]
        invariant
            loud@.len() == len as int / RMS_WINDOW_SAMPLES as int,
            0 <= k <= loud@.len(),
            end == len - k * RMS_WINDOW_SAMPLES,
            forall|i: int| 0 <= i < k ==> !#[trigger] loud@[i],
        decreases loud@.len() - k,
    {
        end = end - RMS_WINDOW_SAMPLES;
        k = k + 1;
    }
    proof {
        lemma_quiet_windows(loud@, k as int);
    }
    end
}

/// Finds where speech is taken to end: where the silence at the end begins, but not before the
/// shortest segment.
pub fn trailing_speech_end(len: usize, loud: &Vec<bool>) -> (r: usize)
    requires
        loud@.len() == len as int / RMS_WINDOW_SAMPLES as int,
    ensures
        r == speech_end(len as int, loud@),
        r <= len,
{
    let mut r: usize = find_silence(len, loud);
    if r < MIN_SEGMENT_SAMPLES {
        r = MIN_SEGMENT_SAMPLES;
    }
    if r > len {
        r = len;
    }
    r
}

/// Cutting off the end never makes a segment that was long enough too short, and cuts off
/// nothing but quiet windows.
pub proof fn trimming_cuts_only_silence(len: int, loud: Seq<bool>)
    requires
        loud.len() == len / RMS_WINDOW_SAMPLES as int,
        len >= 0,
    ensures
        0 <= speech_end(len, loud) <= len,
        speech_end(len, loud) >= MIN_SEGMENT_SAMPLES <==> len >= MIN_SEGMENT_SAMPLES,
        len - speech_end(len, loud) <= quiet_windows(loud) * RMS_WINDOW_SAMPLES,
        forall|i: int| 0 <= i < quiet_windows(loud) ==> !#[trigger] loud[i],
{
    lemma_quiet_bound(loud);
}

proof fn lemma_quiet_bound(loud: Seq<bool>)
    ensures
        0 <= quiet_windows(loud) <= loud.len(),
        forall|i: int| 0 <= i < quiet_windows(loud) ==> !#[trigger] loud[i],
    decreases loud.len(),
{
    if loud.len() > 0 && !loud[0] {
        let rest = loud.drop_first();
        lemma_quiet_bound(rest);
        assert forall|i: int| 0 <= i < quiet_windows(loud) implies !#[trigger] loud[i] by {
            if i > 0 {
                assert(rest[i - 1] == loud[i]);
            }
        }
    }
}

/// Where the last `k` windows of 1600 samples are quiet and the one before them, if there is one,
/// is loud, the segment ends before those `k`: it is what comes before, of which at most the latest
/// 448000 samples are kept, and none if that is fewer than 4000.
pub proof fn segments_end_at_the_last_loud_window<T>(buf: Seq<T>, loud: Seq<bool>, k: int)
    requires
        loud.len() == buf.len() as int / 1600,
        0 <= k <= loud.len(),
        forall|i: int| 0 <= i < k ==> !#[trigger] loud[i],
        k < loud.len() ==> loud[k],
    ensures
        ({
            let end = buf.len() - 1600 * k;
            &&& end < 4000 ==> segment_in(buf, loud) is None
            &&& 4000 <= end <= 448000 ==> segment_in(buf, loud) == Some(buf.subrange(0, end))
            &&& end > 448000 ==> segment_in(buf, loud) == Some(buf.subrange(end - 448000, end))
            &&& silence_start(buf.len() as int, loud) == end
            &&& buf.len() >= 4000 && end >= 4000 ==> speech_end(buf.len() as int, loud) == end
            &&& buf.len() >= 4000 && end < 4000 ==> speech_end(buf.len() as int, loud) == 4000
            &&& buf.len() < 4000 ==> speech_end(buf.len() as int, loud) == buf.len()
        }),
{
    lemma_quiet_windows(loud, k);
    if k < loud.len() {
        assert(loud.skip(k)[0] == loud[k]);
    }
    assert(quiet_windows(loud) == k);
}

/// A token that the model makes up for sounds without speech, such as `[BLANK_AUDIO]`.
pub open spec fn is_noise(w: Seq<char>) -> bool {
    &&& w.len() > 0
    &&& (w[0] == '[' && w.last() == ']') || (w[0] == '(' && w.last() == ')')
}

/// The words that are not noise, in order.
pub open spec fn spoken(ws: Seq<Seq<char>>) -> Seq<Seq<char>>
    decreases ws.len(),
{
    if ws.len() == 0 {
        Seq::empty()
    } else if is_noise(ws.last()) {
        spoken(ws.drop_last())
    } else {
        spoken(ws.drop_last()).push(ws.last())
    }
}

/// What is left of a text without its noise.
pub open spec fn cleaned(text: Seq<char>) -> Seq<char> {
    joined(spoken(words(text)))
}

/// Tells whether a token is noise.
fn check_noise(token: &String) -> (r: bool)
    ensures
        r == is_noise(token@),
{
    let chars: Vec<char> = crate::text::chars_of(token.as_str());
    let n: usize = chars.len();
    if n == 0 {
        return false;
    }
    let a: char = chars[0];
    let b: char = chars[n - 1];
    (a == '[' && b == ']') || (a == '(' && b == ')')
}

/// Strips the noise from what the model said.
pub fn clean_whisper_output(text: &str) -> (r: String)
    ensures
        r@ == cleaned(text@),
{
    let tokens: Vec<String> = split_words(text);
    let mut kept: Vec<String> = Vec::new();
    let mut i: usize = 0;
    while i < tokens.len()
        invariant
            0 <= i <= tokens@.len(),
            texts(tokens@) == words(text@),
            texts(kept@) == spoken(texts(tokens@).take(i as int)),
        decreases tokens@.len() - i,
    {
        let ghost next = texts(tokens@).take(i + 1);
        let ghost before = texts(kept@);
        assert(next.drop_last() =~= texts(tokens@).take(i as int));
        assert(next.last() == tokens@[i as int]@);
        if !check_noise(&tokens[i]) {
            kept.push(tokens[i].clone());
            assert(texts(kept@) =~= before.push(tokens@[i as int]@));
        }
        i = i + 1;
    }
    assert(texts(tokens@).take(i as int) =~= texts(tokens@));
    join_words(&kept)
}

proof fn lemma_spoken(ws: Seq<Seq<char>>)
    ensures
        forall|i: int|
            0 <= i < spoken(ws).len() ==> !is_noise(#[trigger] spoken(ws)[i]) && ws.contains(
                spoken(ws)[i],
            ),
    decreases ws.len(),
{
    if ws.len() > 0 {
        let init = ws.drop_last();
        lemma_spoken(init);
        assert forall|i: int| 0 <= i < spoken(ws).len() implies !is_noise(#[trigger] spoken(ws)[i])
            && ws.contains(spoken(ws)[i]) by {
            if i < spoken(init).len() {
                assert(spoken(ws)[i] == spoken(init)[i]);
                let j = choose|j: int| 0 <= j < init.len() && init[j] == spoken(init)[i];
                assert(ws[j] == spoken(ws)[i]);
            } else {
                assert(ws[ws.len() - 1] == spoken(ws)[i]);
            }
        }
    }
}

proof fn lemma_spoken_of_quiet(ws: Seq<Seq<char>>)
    requires
        forall|i: int| 0 <= i < ws.len() ==> !is_noise(#[trigger] ws[i]),
    ensures
        spoken(ws) == ws,
    decreases ws.len(),
{
    if ws.len() > 0 {
        let init = ws.drop_last();
        assert forall|i: int| 0 <= i < init.len() implies !is_noise(#[trigger] init[i]) by {
            assert(init[i] == ws[i]);
        }
        lemma_spoken_of_quiet(init);
        assert(!is_noise(ws[ws.len() - 1]));
        assert(init.push(ws.last()) =~= ws);
    }
}

/// A word is dropped exactly if it stands in square brackets or in round ones, and each word is
/// judged by itself.
pub proof fn only_bracketed_words_are_dropped(a: Seq<Seq<char>>, w: Seq<char>, b: Seq<Seq<char>>)
    requires
        w.len() > 0,
    ensures
        spoken(Seq::empty()).len() == 0,
        spoken(a + b) == spoken(a) + spoken(b),
        (w[0] == '[' && w[w.len() - 1] == ']') || (w[0] == '(' && w[w.len() - 1] == ')') ==> spoken(
            seq![w],
        ).len() == 0,
        !(w[0] == '[' && w[w.len() - 1] == ']') && !(w[0] == '(' && w[w.len() - 1] == ')')
            ==> spoken(seq![w]) == seq![w],
    decreases b.len(),
{
    let one = seq![w];
    assert(one.drop_last() =~= Seq::<Seq<char>>::empty());
    assert(spoken(one.drop_last()).len() == 0);
    assert(one.last() == w);
    if !is_noise(w) {
        assert(spoken(one) =~= one);
    }
    if b.len() == 0 {
        assert(a + b =~= a);
        assert(spoken(a) + spoken(b) =~= spoken(a));
    } else {
        only_bracketed_words_are_dropped(a, w, b.drop_last());
        assert((a + b).drop_last() =~= a + b.drop_last());
        assert((a + b).last() == b.last());
        assert(spoken(a + b) =~= spoken(a) + spoken(b));
    }
}

/// A text is cleaned part by part: across white space, what is left of the whole is what is left
/// of each side, with one space between them if neither side is left empty.
pub proof fn cleaning_goes_by_parts(a: Seq<char>, c: char, b: Seq<char>)
    requires
        is_white(c),
    ensures
        words(cleaned(a.push(c) + b)) == words(cleaned(a)) + words(cleaned(b)),
        cleaned(b).len() == 0 ==> cleaned(a.push(c) + b) == cleaned(a),
        cleaned(a).len() == 0 ==> cleaned(a.push(c) + b) == cleaned(b),
        cleaned(a).len() > 0 && cleaned(b).len() > 0 ==> cleaned(a.push(c) + b) == cleaned(a)
            + seq![' '] + cleaned(b),
{
    let s = a.push(c) + b;
    white_space_parts_words(a, c, b);
    only_bracketed_words_are_dropped(words(a), seq!['x'], words(b));
    cleaning_leaves_the_spoken_words(s);
    cleaning_leaves_the_spoken_words(a);
    cleaning_leaves_the_spoken_words(b);
    let x = spoken(words(a));
    let y = spoken(words(b));
    joining_adds_single_spaces(x, y);
    if cleaned(a).len() == 0 {
        assert(cleaned(a) =~= Seq::<char>::empty());
        assert(x.len() == 0);
        assert(x + y =~= y);
    }
    if cleaned(b).len() == 0 {
        assert(cleaned(b) =~= Seq::<char>::empty());
        assert(y.len() == 0);
        assert(x + y =~= x);
    }
    if x.len() == 0 {
        assert(cleaned(a).len() == 0);
    }
    if y.len() == 0 {
        assert(cleaned(b).len() == 0);
    }
}

/// The words of a cleaned text are the words of the text that are not noise.
pub proof fn cleaning_leaves_the_spoken_words(text: Seq<char>)
    ensures
        words(cleaned(text)) == spoken(words(text)),
        forall|i: int|
            0 <= i < words(cleaned(text)).len() ==> !is_noise(#[trigger] words(cleaned(text))[i]),
{
    let ws = words(text);
    words_are_words(text);
    lemma_spoken(ws);
    assert forall|i: int| 0 <= i < spoken(ws).len() implies is_word(#[trigger] spoken(ws)[i]) by {
        let j = choose|j: int| 0 <= j < ws.len() && ws[j] == spoken(ws)[i];
        assert(is_word(ws[j]));
    }
    words_of_joined(spoken(ws));
}

/// Cleaning a cleaned text changes nothing.
pub proof fn cleaning_is_idempotent(text: Seq<char>)
    ensures
        cleaned(cleaned(text)) == cleaned(text),
{
    cleaning_leaves_the_spoken_words(text);
    lemma_spoken_of_quiet(words(cleaned(text)));
}

/// The texts without the white space at their ends, those left empty dropped.
pub open spec fn trimmed_parts(parts: Seq<Seq<char>>) -> Seq<Seq<char>>
    decreases parts.len(),
{
    if parts.len() == 0 {
        Seq::empty()
    } else if trimmed(parts.last()).len() == 0 {
        trimmed_parts(parts.drop_last())
    } else {
        trimmed_parts(parts.drop_last()).push(trimmed(parts.last()))
    }
}

/// Each text is kept without the white space at its ends, and is dropped exactly if nothing is
/// left of it; each is judged by itself.
pub proof fn blank_parts_are_dropped(a: Seq<Seq<char>>, t: Seq<char>, b: Seq<Seq<char>>)
    ensures
        trimmed_parts(Seq::empty()).len() == 0,
        trimmed_parts(a + b) == trimmed_parts(a) + trimmed_parts(b),
        trimmed(t).len() == 0 ==> trimmed_parts(seq![t]).len() == 0,
        trimmed(t).len() > 0 ==> trimmed_parts(seq![t]) == seq![trimmed(t)],
    decreases b.len(),
{
    let one = seq![t];
    assert(one.drop_last() =~= Seq::<Seq<char>>::empty());
    assert(trimmed_parts(one.drop_last()).len() == 0);
    assert(one.last() == t);
    if trimmed(t).len() > 0 {
        assert(trimmed_parts(one) =~= seq![trimmed(t)]);
    }
    if b.len() == 0 {
        assert(a + b =~= a);
        assert(trimmed_parts(a) + trimmed_parts(b) =~= trimmed_parts(a));
    } else {
        blank_parts_are_dropped(a, t, b.drop_last());
        assert((a + b).drop_last() =~= a + b.drop_last());
        assert((a + b).last() == b.last());
        assert(trimmed_parts(a + b) =~= trimmed_parts(a) + trimmed_parts(b));
    }
}

/// Puts together the segments of text that the model found in one piece of audio.
pub fn join_segments(segments: &Vec<String>) -> (r: String)
    ensures
        r@ == joined(trimmed_parts(texts(segments@))),
{
    let mut kept: Vec<String> = Vec::new();
    let mut i: usize = 0;
    while i < segments.len()
        invariant
            0 <= i <= segments@.len(),
            texts(kept@) == trimmed_parts(texts(segments@).take(i as int)),
        decreases segments@.len() - i,
    {
        let ghost next = texts(segments@).take(i + 1);
        let ghost before = texts(kept@);
        assert(next.drop_last() =~= texts(segments@).take(i as int));
        assert(next.last() == segments@[i as int]@);
        let part: String = trim(segments[i].as_str());
        if !part.as_str().is_empty() {
            let ghost p = part@;
            kept.push(part);
            assert(texts(kept@) =~= before.push(p));
        }
        i = i + 1;
    }
    assert(texts(segments@).take(i as int) =~= texts(segments@));
    join_words(&kept)
}

/// A part of a sequence.
fn part<T: Copy>(v: &Vec<T>, from: usize, to: usize) -> (r: Vec<T>)
    requires
        from <= to <= v@.len(),
    ensures
        r@ == v@.subrange(from as int, to as int),
{
    let mut r: Vec<T> = Vec::new();
    let mut i: usize = from;
    while i < to
        invariant
            from <= i <= to <= v@.len(),
            r@ == v@.subrange(from as int, i as int),
        decreases to - i,
    {
        r.push(v[i]);
        assert(v@.subrange(from as int, i + 1) =~= v@.subrange(from as int, i as int).push(
            v@[i as int],
        ));
        i = i + 1;
    }
    r
}

/// The number of windows in `len` samples, a shorter one at the end included.
pub open spec fn window_count(len: nat) -> int {
    (len + RMS_WINDOW_SAMPLES - 1) / RMS_WINDOW_SAMPLES as int
}

/// The `i`th window of some samples; the last one may be shorter.
pub open spec fn window_at<T>(s: Seq<T>, i: int) -> Seq<T> {
    let end = i * RMS_WINDOW_SAMPLES + RMS_WINDOW_SAMPLES;
    s.subrange(
        i * RMS_WINDOW_SAMPLES,
        if end < s.len() {
            end
        } else {
            s.len() as int
        },
    )
}

/// Cuts samples into windows, the last of which may be shorter.
pub fn split_windows<T: Copy>(samples: &Vec<T>) -> (r: Vec<Vec<T>>)
    ensures
        r@.len() == window_count(samples@.len()),
        forall|i: int| 0 <= i < r@.len() ==> (#[trigger] r@[i])@ == window_at(samples@, i),
{
    let mut r: Vec<Vec<T>> = Vec::new();
    let n: usize = samples.len();
    let mut at: usize = 0;
    while at < n
        invariant
            n == samples@.len(),
            0 <= at <= n,
            r@.len() == (at + RMS_WINDOW_SAMPLES - 1) / RMS_WINDOW_SAMPLES as int,
            at < n ==> at == r@.len() * RMS_WINDOW_SAMPLES,
            forall|i: int| 0 <= i < r@.len() ==> (#[trigger] r@[i])@ == window_at(samples@, i),
        decreases n - at,
    {
        let end: usize = if n - at > RMS_WINDOW_SAMPLES {
            at + RMS_WINDOW_SAMPLES
        } else {
            n
        };
        r.push(part(samples, at, end));
        at = end;
    }
    r
}

/// All windows but the last have 1600 samples, the last has between one and 1600, and together they
/// have as many as there are.
pub proof fn windows_are_full_but_the_last<T>(s: Seq<T>, i: int)
    requires
        0 <= i < window_count(s.len()),
    ensures
        i < window_count(s.len()) - 1 ==> window_at(s, i).len() == 1600,
        i == window_count(s.len()) - 1 ==> 1 <= window_at(s, i).len() <= 1600 && 1600 * i
            + window_at(s, i).len() == s.len(),
        forall|j: int|
            0 <= j < window_at(s, i).len() ==> #[trigger] window_at(s, i)[j] == s[1600 * i + j],
{
}

/// Every sample is in one window, in its place.
pub proof fn windows_hold_all_samples<T>(s: Seq<T>, j: int)
    requires
        0 <= j < s.len(),
    ensures
        0 <= j / RMS_WINDOW_SAMPLES as int,
        j / (RMS_WINDOW_SAMPLES as int) < window_count(s.len()),
        window_at(s, j / RMS_WINDOW_SAMPLES as int)[j % RMS_WINDOW_SAMPLES as int] == s[j],
{
}

/// Cuts audio into segments at silences and gathers what the model says about them.
pub struct Segmenter<T> {
    pub sample_buf: Vec<T>,
    pub consecutive_silence: usize,
    pub has_speech: bool,
    pub finalized: String,
}

impl<T: Copy> Segmenter<T> {
    /// The silence at the end is part of the buffer.
    pub open spec fn wf(self) -> bool {
        self.consecutive_silence <= self.sample_buf@.len()
    }

    /// There is speech in the buffer, and a silence or the length of the buffer ends the segment.
    pub open spec fn segment_due(self) -> bool {
        &&& self.has_speech
        &&& self.consecutive_silence >= SILENCE_TRIGGER_SAMPLES || self.sample_buf@.len()
            >= MAX_SEGMENT_SAMPLES
    }

    /// Nothing buffered and nothing said.
    pub fn new() -> (r: Segmenter<T>)
        ensures
            r.wf(),
            r.sample_buf@.len() == 0,
            r.consecutive_silence == 0,
            !r.has_speech,
            r.finalized@.len() == 0,
    {
        Segmenter {
            sample_buf: Vec::new(),
            consecutive_silence: 0,
            has_speech: false,
            finalized: String::new(),
        }
    }

    /// Adds a window of audio, loud or not, and tells whether a segment is due.
    pub fn push_window(&mut self, chunk: &Vec<T>, loud: bool) -> (due: bool)
        requires
            old(self).wf(),
        ensures
            final(self).wf(),
            due == final(self).segment_due(),
            final(self).sample_buf@ == old(self).sample_buf@ + chunk@,
            final(self).finalized == old(self).finalized,
            final(self).has_speech == (old(self).has_speech || loud),
            final(self).consecutive_silence == (if loud {
                0
            } else {
                old(self).consecutive_silence + chunk@.len()
            }),
    {
        let mut i: usize = 0;
        while i < chunk.len()
            invariant
                0 <= i <= chunk@.len(),
                self.sample_buf@ == old(self).sample_buf@ + chunk@.take(i as int),
                self.consecutive_silence == old(self).consecutive_silence,
                self.has_speech == old(self).has_speech,
                self.finalized == old(self).finalized,
            decreases chunk@.len() - i,
        {
            self.sample_buf.push(chunk[i]);
            assert(chunk@.take(i + 1) =~= chunk@.take(i as int).push(chunk@[i as int]));
            assert(self.sample_buf@ =~= old(self).sample_buf@ + chunk@.take(i + 1));
            i = i + 1;
        }
        assert(chunk@.take(i as int) =~= chunk@);
        let len: usize = self.sample_buf.len();
        if loud {
            self.consecutive_silence = 0;
            self.has_speech = true;
        } else {
            self.consecutive_silence = self.consecutive_silence + chunk.len();
        }
        self.has_speech && (self.consecutive_silence >= SILENCE_TRIGGER_SAMPLES || len
            >= MAX_SEGMENT_SAMPLES)
    }

    /// The whole windows of the buffer, the last one first.
    pub fn tail_windows(&self) -> (r: Vec<Vec<T>>)
        ensures
            r@.len() == self.sample_buf@.len() as int / RMS_WINDOW_SAMPLES as int,
            forall|k: int|
                0 <= k < r@.len() ==> (#[trigger] r@[k])@ == self.sample_buf@.subrange(
                    self.sample_buf@.len() - (k + 1) * RMS_WINDOW_SAMPLES,
                    self.sample_buf@.len() - k * RMS_WINDOW_SAMPLES,
                ),
    {
        let mut r: Vec<Vec<T>> = Vec::new();
        let len: usize = self.sample_buf.len();
        let mut end: usize = len;
        while end >= RMS_WINDOW_SAMPLES
            invariant
                len == self.sample_buf@.len(),
                end == len - r@.len() * RMS_WINDOW_SAMPLES,
                0 <= end <= len,
                forall|k: int|
                    0 <= k < r@.len() ==> (#[trigger] r@[k])@ == self.sample_buf@.subrange(
                        len - (k + 1) * RMS_WINDOW_SAMPLES,
                        len - k * RMS_WINDOW_SAMPLES,
                    ),
            decreases end,
        {
            r.push(part(&self.sample_buf, end - RMS_WINDOW_SAMPLES, end));
            end = end - RMS_WINDOW_SAMPLES;
        }
        r
    }

    /// The segment in the buffer.
    fn cut_segment(&self, loud: &Vec<bool>) -> (r: Option<Vec<T>>)
        requires
            loud@.len() == self.sample_buf@.len() as int / RMS_WINDOW_SAMPLES as int,
        ensures
            match r {
                Some(segment) => segment_in(self.sample_buf@, loud@) == Some(segment@),
                None => segment_in(self.sample_buf@, loud@) is None,
            },
            r matches Some(segment) ==> MIN_SEGMENT_SAMPLES <= segment@.len()
                <= MAX_SEGMENT_SAMPLES,
    {
        let end: usize = find_silence(self.sample_buf.len(), loud);
        if end < MIN_SEGMENT_SAMPLES {
            return None;
        }
        let from: usize = if end > MAX_SEGMENT_SAMPLES {
            end - MAX_SEGMENT_SAMPLES
        } else {
            0
        };
        Some(part(&self.sample_buf, from, end))
    }

    /// Ends the segment: hands out the audio up to the end of speech, if it is long enough, and
    /// starts over with an empty buffer.
    ///
    /// A noise burst is not long enough. Of more than the longest segment the latest part is
    /// handed out; what is left out is silence ahead of the speech, or less than a window.
    pub fn take_segment(&mut self, loud: &Vec<bool>) -> (r: Option<Vec<T>>)
        requires
            old(self).wf(),
            loud@.len() == old(self).sample_buf@.len() as int / RMS_WINDOW_SAMPLES as int,
        ensures
            final(self).wf(),
            final(self).sample_buf@.len() == 0,
            final(self).consecutive_silence == 0,
            !final(self).has_speech,
            final(self).finalized == old(self).finalized,
            match r {
                Some(segment) => segment_in(old(self).sample_buf@, loud@) == Some(segment@),
                None => segment_in(old(self).sample_buf@, loud@) is None,
            },
            r matches Some(segment) ==> MIN_SEGMENT_SAMPLES <= segment@.len()
                <= MAX_SEGMENT_SAMPLES,
    {
        let r: Option<Vec<T>> = self.cut_segment(loud);
        self.sample_buf.clear();
        self.consecutive_silence = 0;
        self.has_speech = false;
        r
    }

    /// The last segment, when no more audio comes: the audio up to the end of speech, if there
    /// is speech and it is long enough.
    pub fn last_segment(&self, loud: &Vec<bool>) -> (r: Option<Vec<T>>)
        requires
            self.wf(),
            loud@.len() == self.sample_buf@.len() as int / RMS_WINDOW_SAMPLES as int,
        ensures
            match r {
                Some(segment) => {
                    &&& self.has_speech
                    &&& segment_in(self.sample_buf@, loud@) == Some(segment@)
                },
                None => !self.has_speech || segment_in(self.sample_buf@, loud@) is None,
            },
            r matches Some(segment) ==> MIN_SEGMENT_SAMPLES <= segment@.len()
                <= MAX_SEGMENT_SAMPLES,
    {
        if self.has_speech {
            self.cut_segment(loud)
        } else {
            None
        }
    }

    /// Adds what the model said about a segment, and returns all that was said so far, if this
    /// added anything.
    pub fn add_text(&mut self, text: &str) -> (r: Option<String>)
        requires
            old(self).wf(),
        ensures
            final(self).wf(),
            final(self).sample_buf == old(self).sample_buf,
            final(self).consecutive_silence == old(self).consecutive_silence,
            final(self).has_speech == old(self).has_speech,
            final(self).finalized@ == said_after(old(self).finalized@, text@),
            r is Some <==> cleaned(text@).len() > 0,
            r matches Some(t) ==> t@ == final(self).finalized@,
    {
        let part: String = clean_whisper_output(text);
        if part.as_str().is_empty() {
            return None;
        }
        if !self.finalized.as_str().is_empty() {
            self.finalized.push(' ');
        } else {
            assert(self.finalized@ + part@ =~= part@);
        }
        self.finalized.append(part.as_str());
        Some(self.finalized.clone())
    }
}

/// All that was said, once `text` follows on `said`.
pub open spec fn said_after(said: Seq<char>, text: Seq<char>) -> Seq<char> {
    if cleaned(text).len() == 0 {
        said
    } else if said.len() == 0 {
        cleaned(text)
    } else {
        said.push(' ') + cleaned(text)
    }
}

/// A segment is due exactly if there is speech in the buffer and either the last 8000 samples or
/// more are silence, or the buffer holds 448000 or more.
pub proof fn segments_are_due<T: Copy>(s: Segmenter<T>)
    ensures
        !s.has_speech ==> !s.segment_due(),
        s.consecutive_silence < 8000 && s.sample_buf@.len() < 448000 ==> !s.segment_due(),
        s.has_speech && s.consecutive_silence >= 8000 ==> s.segment_due(),
        s.has_speech && s.sample_buf@.len() >= 448000 ==> s.segment_due(),
{
}

/// What was said before stays, and what is said now follows after one space; noise adds nothing.
pub proof fn said_text_only_grows(said: Seq<char>, text: Seq<char>)
    ensures
        cleaned(text).len() == 0 ==> said_after(said, text) == said,
        said.len() == 0 ==> said_after(said, text) == cleaned(text),
        said.len() > 0 && cleaned(text).len() > 0 ==> said_after(said, text) == said + seq![' ']
            + cleaned(text),
{
    if cleaned(text).len() == 0 {
        if said.len() == 0 {
            assert(said =~= cleaned(text));
        }
    } else if said.len() > 0 {
        assert(said.push(' ') + cleaned(text) =~= said + seq![' '] + cleaned(text));
    }
}

/// The model is given no segment that is longer than the cap or shorter than the minimum,
/// whatever the buffer holds.
pub proof fn segments_are_bounded<T>(buf: Seq<T>, loud: Seq<bool>)
    requires
        loud.len() == buf.len() as int / RMS_WINDOW_SAMPLES as int,
    ensures
        segment_in(buf, loud) matches Some(s) ==> MIN_SEGMENT_SAMPLES <= s.len()
            <= MAX_SEGMENT_SAMPLES,
{
    lemma_quiet_bound(loud);
}

/// Where the buffer already holds speech, the cap leaves out less than a window: the buffer is due
/// as soon as it reaches the cap.
pub proof fn cap_leaves_out_less_than_a_window<T: Copy>(
    s: Segmenter<T>,
    chunk: Seq<T>,
    loud: Seq<bool>,
)
    requires
        s.has_speech,
        !s.segment_due(),
        chunk.len() <= RMS_WINDOW_SAMPLES,
        loud.len() == (s.sample_buf@ + chunk).len() as int / RMS_WINDOW_SAMPLES as int,
    ensures
        silence_start((s.sample_buf@ + chunk).len() as int, loud) - MAX_SEGMENT_SAMPLES
            < RMS_WINDOW_SAMPLES,
{
    lemma_quiet_bound(loud);
}

/// A noise burst is skipped: where the sound before the silence at the end is shorter than the
/// minimum, there is no segment, however long the silence is.
pub proof fn noise_bursts_are_skipped<T>(buf: Seq<T>, loud: Seq<bool>, burst: int)
    requires
        loud.len() == buf.len() as int / RMS_WINDOW_SAMPLES as int,
        0 <= burst < MIN_SEGMENT_SAMPLES,
        buf.len() <= burst + quiet_windows(loud) * RMS_WINDOW_SAMPLES,
    ensures
        segment_in(buf, loud) is None,
{
}

/// Up to the cap a segment is all of the buffer but quiet windows at its end.
pub proof fn segments_lose_only_silence<T>(buf: Seq<T>, loud: Seq<bool>)
    requires
        loud.len() == buf.len() as int / RMS_WINDOW_SAMPLES as int,
        buf.len() <= MAX_SEGMENT_SAMPLES,
    ensures
        segment_in(buf, loud) matches Some(s) ==> s == buf.take(s.len() as int) && buf.len()
            - s.len() == quiet_windows(loud) * RMS_WINDOW_SAMPLES,
        forall|i: int| 0 <= i < quiet_windows(loud) ==> !#[trigger] loud[i],
{
    lemma_quiet_bound(loud);
}

/// What was said is the spoken words of all texts, in order.
pub proof fn said_words_accumulate(said: Seq<char>, text: Seq<char>)
    ensures
        words(said_after(said, text)) == words(said) + spoken(words(text)),
{
    let ws = words(text);
    let new = spoken(ws);
    words_are_words(text);
    lemma_spoken(ws);
    assert forall|i: int| 0 <= i < new.len() implies is_word(#[trigger] new[i]) by {
        let j = choose|j: int| 0 <= j < ws.len() && ws[j] == new[i];
        assert(is_word(ws[j]));
    }
    if cleaned(text).len() == 0 {
        words_of_joined(new);
        assert(new.len() == 0);
        assert(words(said) + new =~= words(said));
    } else if said.len() == 0 {
        words_of_joined(new);
        assert(words(said) + new =~= new);
    } else {
        words_before_white(said, ' ');
        words_of_continued(said.push(' '), new);
    }
}

/// Each update of a live transcription types exactly the words that it adds: where what was said
/// before is typed, what is said now is typed.
pub proof fn live_updates_type_each_word_once(said: Seq<char>, text: Seq<char>)
    ensures
        new_words(words(said), words(said_after(said, text))) == spoken(words(text)),
{
    said_words_accumulate(said, text);
    let before = words(said);
    let now = words(said_after(said, text));
    assert(now.take(before.len() as int) =~= before);
    grown_transcript_is_completed(before, now);
    let added = new_words(before, now);
    assert(added =~= (before + added).skip(before.len() as int));
    assert(spoken(words(text)) =~= now.skip(before.len() as int));
}

} // verus!
