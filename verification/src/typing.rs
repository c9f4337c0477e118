//! Which words of a transcript are still to be typed, and the key strokes that type them.
use crate::text::{
    encode_utf16, is_word, join_words, joined, split_words, texts, utf16, utf16_is_unique, words,
    words_are_words, words_before_white, words_of_joined,
};
use vstd::prelude::*;

verus! {

/// The last `k` words of `typed` are the first `k` words of `heard`.
pub open spec fn overlaps(typed: Seq<Seq<char>>, heard: Seq<Seq<char>>, k: int) -> bool {
    &&& 0 <= k <= typed.len()
    &&& k <= heard.len()
    &&& typed.skip(typed.len() - k) == heard.take(k)
}

/// `k` is the largest overlap of `typed` with `heard`.
pub open spec fn is_longest_overlap(
    typed: Seq<Seq<char>>,
    heard: Seq<Seq<char>>,
    k: int,
) -> bool {
    &&& overlaps(typed, heard, k)
    &&& forall|j: int| k < j ==> !#[trigger] overlaps(typed, heard, j)
}

/// The largest overlap of `typed` with `heard`.
pub open spec fn longest_overlap(typed: Seq<Seq<char>>, heard: Seq<Seq<char>>) -> int {
    choose|k: int| is_longest_overlap(typed, heard, k)
}

/// The words of `heard` that are to be typed after `typed`.
///
/// They are the words after the largest overlap. Without any overlap, a transcript that is
/// longer than what was typed continues it, and any other adds nothing.
pub open spec fn new_words(typed: Seq<Seq<char>>, heard: Seq<Seq<char>>) -> Seq<Seq<char>> {
    let k = longest_overlap(typed, heard);
    if k > 0 || typed.len() == 0 {
        heard.skip(k)
    } else if heard.len() > typed.len() {
        heard.skip(typed.len() as int)
    } else {
        Seq::empty()
    }
}

/// What has been typed on the screen for a list of words: each word and a space after it.
pub open spec fn screen_text(ws: Seq<Seq<char>>) -> Seq<char>
    decreases ws.len(),
{
    if ws.len() == 0 {
        Seq::empty()
    } else {
        screen_text(ws.drop_last()) + ws.last().push(' ')
    }
}

/// There is only one largest overlap.
pub proof fn longest_overlap_is_unique(typed: Seq<Seq<char>>, heard: Seq<Seq<char>>, k: int)
    requires
        is_longest_overlap(typed, heard, k),
    ensures
        longest_overlap(typed, heard) == k,
{
    let m = longest_overlap(typed, heard);
    assert(is_longest_overlap(typed, heard, m));
    assert(overlaps(typed, heard, k) && overlaps(typed, heard, m));
}

/// Looks for the largest overlap among those of at most `bound` words.
proof fn lemma_overlap_search(typed: Seq<Seq<char>>, heard: Seq<Seq<char>>, bound: int)
    requires
        forall|j: int| bound < j ==> !#[trigger] overlaps(typed, heard, j),
        bound >= 0,
    ensures
        is_longest_overlap(typed, heard, longest_overlap(typed, heard)),
        longest_overlap(typed, heard) <= bound,
    decreases bound,
{
    if overlaps(typed, heard, bound) {
        assert(is_longest_overlap(typed, heard, bound));
        longest_overlap_is_unique(typed, heard, bound);
    } else if bound == 0 {
        assert(typed.skip(typed.len() as int) =~= heard.take(0));
        assert(overlaps(typed, heard, 0));
    } else {
        lemma_overlap_search(typed, heard, bound - 1);
    }
}

/// There always is a largest overlap.
pub proof fn longest_overlap_exists(typed: Seq<Seq<char>>, heard: Seq<Seq<char>>)
    ensures
        is_longest_overlap(typed, heard, longest_overlap(typed, heard)),
{
    lemma_overlap_search(typed, heard, typed.len() as int);
}

/// Tells whether the last `k` words of `typed` are the first `k` words of `heard`.
fn check_overlap(typed: &Vec<String>, heard: &Vec<String>, k: usize) -> (r: bool)
    requires
        k <= typed@.len(),
        k <= heard@.len(),
    ensures
        r == overlaps(texts(typed@), texts(heard@), k as int),
{
    let ghost t = texts(typed@);
    let ghost h = texts(heard@);
    let base: usize = typed.len() - k;
    let mut i: usize = 0;
    while i < k
        invariant
            k <= typed@.len(),
            k <= heard@.len(),
            base + k == typed.len(),
            t == texts(typed@),
            h == texts(heard@),
            0 <= i <= k,
            forall|j: int| 0 <= j < i ==> #[trigger] h[j] == t[base + j],
        decreases k - i,
    {
        if typed[base + i] != heard[i] {
            assert(t.skip(base as int)[i as int] == t[base + i]);
            assert(h.take(k as int)[i as int] == h[i as int]);
            return false;
        }
        i = i + 1;
    }
    assert(t.skip(base as int) =~= h.take(k as int));
    true
}

/// Adds the new words of a transcript to those typed so far.
///
/// Returns the text to type for them, or nothing if there is no new word.
pub fn append_new_words(typed_words: &mut Vec<String>, transcript: &str) -> (r: Option<String>)
    ensures
        ({
            let added = new_words(texts(old(typed_words)@), words(transcript@));
            &&& texts(final(typed_words)@) == texts(old(typed_words)@) + added
            &&& r is Some <==> added.len() > 0
            &&& r matches Some(t) ==> t@ == joined(added).push(' ')
        }),
{
    let recognized: Vec<String> = split_words(transcript);
    let ghost typed = texts(typed_words@);
    let ghost heard = texts(recognized@);
    let n: usize = recognized.len();
    let mut overlap: usize = if typed_words.len() < n {
        typed_words.len()
    } else {
        n
    };
    while overlap > 0 && !check_overlap(typed_words, &recognized, overlap)
        invariant
            typed == texts(typed_words@),
            heard == texts(recognized@),
            overlap <= typed_words@.len(),
            overlap <= recognized@.len(),
            forall|j: int| overlap < j ==> !#[trigger] overlaps(typed, heard, j),
        decreases overlap,
    {
        overlap = overlap - 1;
    }
    proof {
        if overlap == 0 {
            assert(typed.skip(typed.len() as int) =~= heard.take(0));
        }
        assert(is_longest_overlap(typed, heard, overlap as int));
        longest_overlap_is_unique(typed, heard, overlap as int);
    }
    let from: usize = if overlap > 0 || typed_words.len() == 0 {
        overlap
    } else if n > typed_words.len() {
        typed_words.len()
    } else {
        n
    };
    let ghost added = new_words(typed, heard);
    assert(added =~= heard.skip(from as int));
    let mut fresh: Vec<String> = Vec::new();
    let mut i: usize = from;
    while i < n
        invariant
            n == recognized@.len(),
            heard == texts(recognized@),
            from <= i <= n,
            texts(fresh@) == heard.subrange(from as int, i as int),
            texts(typed_words@) == typed + texts(fresh@),
        decreases n - i,
    {
        let ghost before = texts(typed_words@);
        let ghost before_fresh = texts(fresh@);
        typed_words.push(recognized[i].clone());
        fresh.push(recognized[i].clone());
        assert(texts(typed_words@) =~= before.push(heard[i as int]));
        assert(texts(fresh@) =~= before_fresh.push(heard[i as int]));
        assert(texts(fresh@) =~= heard.subrange(from as int, i + 1));
        assert(texts(typed_words@) =~= typed + texts(fresh@));
        i = i + 1;
    }
    assert(texts(fresh@) =~= added);
    if from < n {
        let mut text: String = join_words(&fresh);
        text.push(' ');
        Some(text)
    } else {
        None
    }
}

proof fn lemma_screen_text_append(a: Seq<Seq<char>>, b: Seq<Seq<char>>)
    ensures
        screen_text(a + b) == screen_text(a) + screen_text(b),
    decreases b.len(),
{
    if b.len() == 0 {
        assert(a + b =~= a);
        assert(screen_text(a) + screen_text(b) =~= screen_text(a));
    } else {
        lemma_screen_text_append(a, b.drop_last());
        assert((a + b).drop_last() =~= a + b.drop_last());
        assert((a + b).last() == b.last());
        assert(screen_text(a) + screen_text(b) =~= screen_text(a) + screen_text(b.drop_last())
            + b.last().push(' '));
    }
}

proof fn lemma_screen_text_joined(ws: Seq<Seq<char>>)
    requires
        ws.len() > 0,
    ensures
        screen_text(ws) == joined(ws).push(' '),
    decreases ws.len(),
{
    if ws.len() == 1 {
        assert(screen_text(ws.drop_last()).len() == 0);
        assert(screen_text(ws) =~= joined(ws).push(' '));
    } else {
        lemma_screen_text_joined(ws.drop_last());
        assert(screen_text(ws) =~= joined(ws).push(' '));
    }
}

/// What is on the screen always spells the words counted as typed: the text typed for a
/// transcript is exactly what the new words add to it.
pub proof fn screen_follows_typed_words(typed: Seq<Seq<char>>, heard: Seq<Seq<char>>)
    ensures
        ({
            let added = new_words(typed, heard);
            screen_text(typed + added) == screen_text(typed) + (if added.len() > 0 {
                joined(added).push(' ')
            } else {
                Seq::empty()
            })
        }),
{
    let added = new_words(typed, heard);
    lemma_screen_text_append(typed, added);
    if added.len() > 0 {
        lemma_screen_text_joined(added);
    }
}

/// Where the last `k` words typed are the first `k` words heard, and no larger number has this
/// property, exactly the words heard after those are typed, however long both are; the words typed
/// afterwards end in all that was heard.
pub proof fn words_after_the_overlap_are_typed(
    typed: Seq<Seq<char>>,
    heard: Seq<Seq<char>>,
    k: int,
)
    requires
        0 < k <= typed.len(),
        k <= heard.len(),
        forall|i: int| 0 <= i < k ==> typed[typed.len() - k + i] == #[trigger] heard[i],
        forall|j: int|
            k < j <= typed.len() && j <= heard.len() ==> #[trigger] heard.take(j) != typed.skip(
                typed.len() - j,
            ),
    ensures
        new_words(typed, heard).len() == heard.len() - k,
        forall|i: int|
            0 <= i < heard.len() - k ==> #[trigger] new_words(typed, heard)[i] == heard[k + i],
        ({
            let after = typed + new_words(typed, heard);
            after.skip(after.len() - heard.len()) == heard
        }),
{
    assert(typed.skip(typed.len() - k) =~= heard.take(k));
    assert forall|j: int| k < j implies !#[trigger] overlaps(typed, heard, j) by {
        if j <= typed.len() && j <= heard.len() {
            assert(heard.take(j) != typed.skip(typed.len() - j));
        }
    }
    assert(is_longest_overlap(typed, heard, k));
    longest_overlap_is_unique(typed, heard, k);
    let after = typed + new_words(typed, heard);
    assert(after.skip(after.len() - heard.len()) =~= heard);
}

/// Where nothing was typed, all that is heard is typed. Where something was typed and no end of it
/// begins what is heard, the words heard beyond as many as were typed are typed, if there are any.
pub proof fn words_without_overlap(typed: Seq<Seq<char>>, heard: Seq<Seq<char>>)
    requires
        forall|j: int|
            0 < j <= typed.len() && j <= heard.len() ==> #[trigger] heard.take(j) != typed.skip(
                typed.len() - j,
            ),
    ensures
        typed.len() == 0 ==> new_words(typed, heard) == heard,
        0 < typed.len() < heard.len() ==> new_words(typed, heard) == heard.skip(
            typed.len() as int,
        ),
        0 < typed.len() && heard.len() <= typed.len() ==> new_words(typed, heard).len() == 0,
{
    assert(typed.skip(typed.len() as int) =~= heard.take(0));
    assert forall|j: int| 0 < j implies !#[trigger] overlaps(typed, heard, j) by {
        if j <= typed.len() && j <= heard.len() {
            assert(heard.take(j) != typed.skip(typed.len() - j));
        }
    }
    assert(is_longest_overlap(typed, heard, 0));
    longest_overlap_is_unique(typed, heard, 0);
    assert(heard.skip(0) =~= heard);
}

/// Whatever was typed before stays typed, and what is added is an end of what was heard.
pub proof fn typed_words_are_kept(typed: Seq<Seq<char>>, heard: Seq<Seq<char>>)
    ensures
        new_words(typed, heard).len() <= heard.len(),
        new_words(typed, heard) == heard.skip(heard.len() - new_words(typed, heard).len()),
{
    longest_overlap_exists(typed, heard);
    let n = new_words(typed, heard);
    assert(n =~= heard.skip(heard.len() - n.len()));
}

/// Only words are ever counted as typed.
pub proof fn typed_words_stay_words(typed: Seq<Seq<char>>, transcript: Seq<char>)
    requires
        forall|i: int| 0 <= i < typed.len() ==> is_word(#[trigger] typed[i]),
    ensures
        ({
            let after = typed + new_words(typed, words(transcript));
            forall|i: int| 0 <= i < after.len() ==> is_word(#[trigger] after[i])
        }),
{
    let heard = words(transcript);
    let added = new_words(typed, heard);
    let after = typed + added;
    words_are_words(transcript);
    longest_overlap_exists(typed, heard);
    assert forall|i: int| 0 <= i < after.len() implies is_word(#[trigger] after[i]) by {
        if i >= typed.len() {
            assert(added.len() > 0);
            let from = heard.len() - added.len();
            assert(after[i] == heard[from + i - typed.len()]);
        }
    }
}

/// What is on the screen reads as the words that are counted as typed.
pub proof fn screen_reads_as_typed(typed: Seq<Seq<char>>)
    requires
        forall|i: int| 0 <= i < typed.len() ==> is_word(#[trigger] typed[i]),
    ensures
        words(screen_text(typed)) == typed,
{
    if typed.len() == 0 {
        assert(words(screen_text(typed)) =~= typed);
    } else {
        lemma_screen_text_joined(typed);
        words_before_white(joined(typed), ' ');
        words_of_joined(typed);
    }
}

/// A transcript that was just typed adds nothing when it comes again, provided that it had
/// joined onto what was typed before, or had added nothing.
pub proof fn repeated_transcript_adds_nothing(typed: Seq<Seq<char>>, heard: Seq<Seq<char>>)
    requires
        longest_overlap(typed, heard) > 0 || typed.len() == 0 || new_words(typed, heard).len() == 0,
    ensures
        new_words(typed + new_words(typed, heard), heard).len() == 0,
{
    let added = new_words(typed, heard);
    let after = typed + added;
    if added.len() == 0 {
        assert(after =~= typed);
    } else {
        longest_overlap_exists(typed, heard);
        let k = longest_overlap(typed, heard);
        let n = heard.len() as int;
        assert(after.skip(after.len() - n) =~= heard.take(n)) by {
            assert forall|i: int| 0 <= i < n implies after.skip(after.len() - n)[i] == heard.take(
                n,
            )[i] by {
                if i < k {
                    assert(typed.skip(typed.len() - k)[i] == heard.take(k)[i]);
                }
            }
        }
        assert(is_longest_overlap(after, heard, n));
        longest_overlap_is_unique(after, heard, n);
    }
}

/// A transcript that continues what was typed is typed to its end, each word once.
pub proof fn grown_transcript_is_completed(typed: Seq<Seq<char>>, heard: Seq<Seq<char>>)
    requires
        typed.len() <= heard.len(),
        heard.take(typed.len() as int) == typed,
    ensures
        typed + new_words(typed, heard) == heard,
{
    let n = typed.len() as int;
    assert(typed.skip(0) =~= typed);
    assert(is_longest_overlap(typed, heard, n));
    longest_overlap_is_unique(typed, heard, n);
    assert(typed + heard.skip(n) =~= heard);
}

/// The words typed after several transcripts, one after the other.
pub open spec fn typed_after(typed: Seq<Seq<char>>, transcripts: Seq<Seq<char>>) -> Seq<Seq<char>>
    decreases transcripts.len(),
{
    if transcripts.len() == 0 {
        typed
    } else {
        let before = typed_after(typed, transcripts.drop_last());
        before + new_words(before, words(transcripts.last()))
    }
}

/// However many transcripts come, each continuing the one before it, what is typed in the end is
/// the last one, each word once.
pub proof fn growing_transcripts_type_each_word_once(transcripts: Seq<Seq<char>>)
    requires
        transcripts.len() > 0,
        forall|i: int|
            0 < i < transcripts.len() ==> words(transcripts[i - 1]).is_prefix_of(
                words(#[trigger] transcripts[i]),
            ),
    ensures
        typed_after(Seq::empty(), transcripts) == words(transcripts.last()),
    decreases transcripts.len(),
{
    let init = transcripts.drop_last();
    let heard = words(transcripts.last());
    let before = typed_after(Seq::empty(), init);
    if init.len() > 0 {
        assert forall|i: int| 0 < i < init.len() implies words(init[i - 1]).is_prefix_of(
            words(#[trigger] init[i]),
        ) by {
            assert(init[i] == transcripts[i]);
        }
        growing_transcripts_type_each_word_once(init);
        assert(words(transcripts[transcripts.len() - 2]).is_prefix_of(
            words(transcripts[transcripts.len() - 1]),
        ));
    }
    assert(heard.take(before.len() as int) =~= before);
    grown_transcript_is_completed(before, heard);
}

/// One keyboard input: a UTF-16 code unit whose key goes down or up.
#[derive(Debug, PartialEq, Eq, Structural, Clone, Copy)]
pub struct KeyInput {
    pub scan: u16,
    pub key_up: bool,
}

/// For each code unit in turn, its key going down and then up.
pub open spec fn strokes(units: Seq<u16>) -> Seq<KeyInput> {
    Seq::new(
        units.len() * 2,
        |i: int| KeyInput { scan: units[i / 2], key_up: i % 2 == 1 },
    )
}

/// Every key that goes down goes up right after, whatever the unit: the inputs are in pairs, one
/// pair for each unit in turn, and there are no others.
pub proof fn keys_go_down_and_up(units: Seq<u16>, i: int)
    requires
        0 <= i < units.len(),
    ensures
        strokes(units).len() == 2 * units.len(),
        strokes(units)[2 * i].scan == units[i],
        !strokes(units)[2 * i].key_up,
        strokes(units)[2 * i + 1].scan == units[i],
        strokes(units)[2 * i + 1].key_up,
        strokes(Seq::empty()).len() == 0,
{
    assert((2 * i) / 2 == i && (2 * i) % 2 == 0);
    assert((2 * i + 1) / 2 == i && (2 * i + 1) % 2 == 1);
}

/// The keyboard inputs that type a text: for each UTF-16 code unit, its key goes down and up.
pub fn paste_inputs(text: &str) -> (r: Vec<KeyInput>)
    ensures
        r@ == strokes(utf16(text@)),
        r@.len() == 2 * utf16(text@).len(),
        forall|i: int|
            0 <= i < utf16(text@).len() ==> {
                &&& r@[2 * i] == (KeyInput { scan: #[trigger] utf16(text@)[i], key_up: false })
                &&& r@[2 * i + 1] == (KeyInput { scan: utf16(text@)[i], key_up: true })
            },
{
    let units: Vec<u16> = encode_utf16(text);
    let mut r: Vec<KeyInput> = Vec::new();
    let mut i: usize = 0;
    while i < units.len()
        invariant
            0 <= i <= units@.len(),
            r@ == strokes(units@.take(i as int)),
        decreases units@.len() - i,
    {
        let ghost before = r@;
        r.push(KeyInput { scan: units[i], key_up: false });
        r.push(KeyInput { scan: units[i], key_up: true });
        assert(r@ =~= strokes(units@.take(i + 1))) by {
            assert forall|j: int| 0 <= j < r@.len() implies r@[j] == strokes(units@.take(i + 1))[j] by {
                if j < before.len() {
                    assert(before[j] == strokes(units@.take(i as int))[j]);
                }
            }
        }
        i = i + 1;
    }
    assert(units@.take(i as int) =~= units@);
    proof {
        assert forall|j: int| 0 <= j < units@.len() implies {
            &&& r@[2 * j] == (KeyInput { scan: #[trigger] units@[j], key_up: false })
            &&& r@[2 * j + 1] == (KeyInput { scan: units@[j], key_up: true })
        } by {
            keys_go_down_and_up(units@, j);
        }
    }
    r
}

/// No two texts are typed by the same keyboard inputs.
pub proof fn strokes_spell_one_text(s: Seq<char>, t: Seq<char>)
    requires
        strokes(utf16(s)) == strokes(utf16(t)),
    ensures
        s == t,
{
    let a = utf16(s);
    let b = utf16(t);
    assert(strokes(a).len() == a.len() * 2 && strokes(b).len() == b.len() * 2);
    assert forall|i: int| 0 <= i < a.len() implies a[i] == b[i] by {
        assert(strokes(a)[2 * i].scan == a[i]);
        assert(strokes(b)[2 * i].scan == b[i]);
    }
    assert(a =~= b);
    utf16_is_unique(s, t);
}

} // verus!
