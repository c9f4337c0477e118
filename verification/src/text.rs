//! Text helpers: white space, words, trimming, case and UTF-16.
use vstd::prelude::*;

verus! {

/// `String::push` appends one character to the end of the string.
pub assume_specification[ String::push ](s: &mut String, c: char)
    ensures
        final(s)@ == old(s)@.push(c),
;

/// The characters with the Unicode property `White_Space`.
pub open spec fn is_white(c: char) -> bool {
    let n = c as u32;
    ||| 9 <= n <= 13
    ||| n == 0x20
    ||| n == 0x85
    ||| n == 0xa0
    ||| n == 0x1680
    ||| 0x2000 <= n <= 0x200a
    ||| n == 0x2028
    ||| n == 0x2029
    ||| n == 0x202f
    ||| n == 0x205f
    ||| n == 0x3000
}

/// Tells whether a character is white space.
pub fn is_white_space(c: char) -> (r: bool)
    ensures
        r == is_white(c),
{
    let n: u32 = c as u32;
    (9 <= n && n <= 13) || n == 0x20 || n == 0x85 || n == 0xa0 || n == 0x1680 || (0x2000 <= n && n
        <= 0x200a) || n == 0x2028 || n == 0x2029 || n == 0x202f || n == 0x205f || n == 0x3000
}

/// The characters of a string, one by one.
pub fn chars_of(s: &str) -> (r: Vec<char>)
    ensures
        r@ == s@,
{
    let mut r: Vec<char> = Vec::new();
    for c in it: s.chars()
        invariant
            r@ == s@.take(it.index()),
            it.seq() == s@,
    {
        r.push(c);
        assert(s@.take(it.index() + 1) =~= s@.take(it.index()).push(c));
    }
    assert(s@.take(s@.len() as int) =~= s@);
    r
}

/// The string made of the characters `chars[from..to]`.
pub fn string_of(chars: &Vec<char>, from: usize, to: usize) -> (r: String)
    requires
        from <= to <= chars@.len(),
    ensures
        r@ == chars@.subrange(from as int, to as int),
{
    let mut r: String = String::new();
    let mut i: usize = from;
    while i < to
        invariant
            from <= i <= to <= chars@.len(),
            r@ == chars@.subrange(from as int, i as int),
        decreases to - i,
    {
        r.push(chars[i]);
        assert(chars@.subrange(from as int, i + 1) =~= chars@.subrange(from as int, i as int).push(
            chars@[i as int],
        ));
        i = i + 1;
    }
    r
}

/// The texts held by a list of strings.
pub open spec fn texts(v: Seq<String>) -> Seq<Seq<char>> {
    Seq::new(v.len(), |i: int| v[i]@)
}

/// Where the run of non-white characters at the end of `s` begins.
pub open spec fn word_start(s: Seq<char>) -> int
    decreases s.len(),
{
    if s.len() == 0 {
        0
    } else if is_white(s.last()) {
        s.len() as int
    } else {
        word_start(s.drop_last())
    }
}

/// The words of `s`: its maximal runs of characters that are not white space, in order.
pub open spec fn words(s: Seq<char>) -> Seq<Seq<char>>
    decreases s.len(),
{
    if s.len() == 0 {
        Seq::empty()
    } else if is_white(s.last()) {
        words(s.drop_last())
    } else {
        proof {
            lemma_word_start(s);
        }
        words(s.take(word_start(s))).push(s.skip(word_start(s)))
    }
}

/// Words written one after the other with a single space between neighbours.
pub open spec fn joined(ws: Seq<Seq<char>>) -> Seq<char>
    decreases ws.len(),
{
    if ws.len() == 0 {
        Seq::empty()
    } else if ws.len() == 1 {
        ws[0]
    } else {
        joined(ws.drop_last()).push(' ') + ws.last()
    }
}

/// A non-empty run of characters without white space.
pub open spec fn is_word(w: Seq<char>) -> bool {
    &&& w.len() > 0
    &&& forall|i: int| 0 <= i < w.len() ==> !is_white(#[trigger] w[i])
}

/// The run at the end of a text has no white space, and white space before it unless it is all of
/// the text.
pub proof fn lemma_word_start(s: Seq<char>)
    ensures
        0 <= word_start(s) <= s.len(),
        forall|i: int| word_start(s) <= i < s.len() ==> !is_white(#[trigger] s[i]),
        word_start(s) > 0 ==> is_white(s[word_start(s) - 1]),
        s.len() > 0 && !is_white(s.last()) ==> word_start(s) < s.len(),
    decreases s.len(),
{
    if s.len() > 0 && !is_white(s.last()) {
        let t = s.drop_last();
        lemma_word_start(t);
        assert forall|i: int| word_start(s) <= i < s.len() implies !is_white(#[trigger] s[i]) by {
            if i < t.len() {
                assert(t[i] == s[i]);
            }
        }
        if word_start(s) > 0 {
            assert(t[word_start(s) - 1] == s[word_start(s) - 1]);
        }
    }
}

/// Every word of a text is a non-empty run of characters without white space.
pub proof fn words_are_words(s: Seq<char>)
    ensures
        forall|i: int| 0 <= i < words(s).len() ==> is_word(#[trigger] words(s)[i]),
    decreases s.len(),
{
    if s.len() == 0 {
        assert(words(s).len() == 0);
    } else if is_white(s.last()) {
        words_are_words(s.drop_last());
        assert(words(s) == words(s.drop_last()));
    } else {
        lemma_word_start(s);
        let k = word_start(s);
        words_are_words(s.take(k));
        assert(is_word(s.skip(k)));
        assert(words(s) == words(s.take(k)).push(s.skip(k)));
        assert forall|i: int| 0 <= i < words(s).len() implies is_word(#[trigger] words(s)[i]) by {
            if i < words(s).len() - 1 {
                assert(words(s)[i] == words(s.take(k))[i]);
            }
        }
    }
}

/// The words of a string, as `str::split_whitespace` yields them.
pub fn split_words(s: &str) -> (r: Vec<String>)
    ensures
        texts(r@) == words(s@),
{
    let chars: Vec<char> = chars_of(s);
    let mut r: Vec<String> = Vec::new();
    let mut start: usize = 0;
    let mut i: usize = 0;
    assert(s@.take(0) =~= Seq::<char>::empty());
    while i < chars.len()
        invariant
            chars@ == s@,
            0 <= start <= i <= s@.len(),
            start == word_start(s@.take(i as int)),
            texts(r@) == words(s@.take(start as int)),
        decreases s@.len() - i,
    {
        let ghost next = s@.take(i + 1);
        assert(next.drop_last() =~= s@.take(i as int));
        assert(next.last() == s@[i as int]);
        if is_white_space(chars[i]) {
            proof {
                lemma_words_at(s@.take(i as int));
                assert(s@.take(i as int).take(start as int) =~= s@.take(start as int));
                assert(s@.take(i as int).skip(start as int) =~= s@.subrange(start as int, i as int));
            }
            if start < i {
                let w: String = string_of(&chars, start, i);
                let ghost before = texts(r@);
                r.push(w);
                assert(texts(r@) =~= before.push(w@));
            }
            start = i + 1;
        }
        i = i + 1;
    }
    proof {
        lemma_words_at(s@);
        assert(s@.take(i as int) =~= s@);
        assert(s@.skip(start as int) =~= s@.subrange(start as int, i as int));
    }
    if start < chars.len() {
        let w: String = string_of(&chars, start, chars.len());
        let ghost before = texts(r@);
        r.push(w);
        assert(texts(r@) =~= before.push(w@));
    }
    r
}

/// The words of a text are those before its last run, and that run if there is one.
proof fn lemma_words_at(s: Seq<char>)
    ensures
        word_start(s) < s.len() ==> words(s) == words(s.take(word_start(s))).push(
            s.skip(word_start(s)),
        ),
        word_start(s) == s.len() ==> words(s) == words(s.take(word_start(s))),
{
    lemma_word_start(s);
    assert(s.take(s.len() as int) =~= s);
}

/// Writes words one after the other with a single space between neighbours.
pub fn join_words(ws: &Vec<String>) -> (r: String)
    ensures
        r@ == joined(texts(ws@)),
{
    let mut r: String = String::new();
    let mut i: usize = 0;
    while i < ws.len()
        invariant
            0 <= i <= ws@.len(),
            r@ == joined(texts(ws@).take(i as int)),
        decreases ws@.len() - i,
    {
        let ghost next = texts(ws@).take(i + 1);
        assert(next.drop_last() =~= texts(ws@).take(i as int));
        assert(next.last() == ws@[i as int]@);
        if i > 0 {
            r.push(' ');
        } else {
            assert(next.len() == 1);
            assert(r@ + ws@[0]@ =~= ws@[0]@);
        }
        r.append(ws[i].as_str());
        i = i + 1;
    }
    assert(texts(ws@).take(i as int) =~= texts(ws@));
    r
}

/// White space at the end adds no word.
pub proof fn words_before_white(s: Seq<char>, c: char)
    requires
        is_white(c),
    ensures
        words(s.push(c)) == words(s),
        word_start(s.push(c)) == s.push(c).len(),
{
    assert(s.push(c).drop_last() =~= s);
}

proof fn lemma_word_start_append(s: Seq<char>, w: Seq<char>)
    requires
        word_start(s) == s.len(),
        forall|i: int| 0 <= i < w.len() ==> !is_white(#[trigger] w[i]),
    ensures
        word_start(s + w) == s.len(),
    decreases w.len(),
{
    if w.len() == 0 {
        assert(s + w =~= s);
    } else {
        let v = w.drop_last();
        assert forall|i: int| 0 <= i < v.len() implies !is_white(#[trigger] v[i]) by {
            assert(v[i] == w[i]);
        }
        lemma_word_start_append(s, v);
        assert((s + w).drop_last() =~= s + v);
        assert((s + w).last() == w[w.len() - 1]);
    }
}

/// A word appended after white space becomes the last word.
proof fn lemma_words_append(s: Seq<char>, w: Seq<char>)
    requires
        word_start(s) == s.len(),
        is_word(w),
    ensures
        words(s + w) == words(s).push(w),
{
    lemma_word_start_append(s, w);
    assert((s + w).take(s.len() as int) =~= s);
    assert((s + w).skip(s.len() as int) =~= w);
    assert((s + w).last() == w[w.len() - 1]);
}

/// Words written after white space, with single spaces between them, are read back after the
/// words before them.
pub proof fn words_of_continued(s: Seq<char>, ws: Seq<Seq<char>>)
    requires
        word_start(s) == s.len(),
        forall|i: int| 0 <= i < ws.len() ==> is_word(#[trigger] ws[i]),
    ensures
        words(s + joined(ws)) == words(s) + ws,
    decreases ws.len(),
{
    if ws.len() == 0 {
        assert(s + joined(ws) =~= s);
        assert(words(s) + ws =~= words(s));
    } else {
        let init = ws.drop_last();
        assert forall|i: int| 0 <= i < init.len() implies is_word(#[trigger] init[i]) by {
            assert(init[i] == ws[i]);
        }
        assert(is_word(ws[ws.len() - 1]));
        if ws.len() == 1 {
            lemma_words_append(s, ws[0]);
            assert(words(s).push(ws[0]) =~= words(s) + ws);
        } else {
            words_of_continued(s, init);
            let t = s + joined(init);
            words_before_white(t, ' ');
            lemma_words_append(t.push(' '), ws.last());
            assert(t.push(' ') + ws.last() =~= s + joined(ws));
            assert((words(s) + init).push(ws.last()) =~= words(s) + ws);
        }
    }
}

/// Splitting undoes joining: words written with single spaces between them are read back as
/// the same words.
pub proof fn words_of_joined(ws: Seq<Seq<char>>)
    requires
        forall|i: int| 0 <= i < ws.len() ==> is_word(#[trigger] ws[i]),
    ensures
        words(joined(ws)) == ws,
{
    let e = Seq::<char>::empty();
    words_of_continued(e, ws);
    assert(e + joined(ws) =~= joined(ws));
    assert(words(e) + ws =~= ws);
}

proof fn lemma_words_of_run(w: Seq<char>)
    requires
        is_word(w),
    ensures
        words(w) == seq![w],
{
    let e = Seq::<char>::empty();
    lemma_words_append(e, w);
    assert(e + w =~= w);
    assert(words(e).push(w) =~= seq![w]);
}

/// White space parts a text: the words of the whole are those before it and those after it, and a
/// run without white space is its own only word.
pub proof fn white_space_parts_words(a: Seq<char>, c: char, b: Seq<char>)
    requires
        is_white(c),
    ensures
        words(a.push(c) + b) == words(a) + words(b),
        words(Seq::empty()).len() == 0,
        b.len() > 0 && (forall|i: int| 0 <= i < b.len() ==> !is_white(#[trigger] b[i])) ==> words(b)
            == seq![b],
    decreases b.len(),
{
    let s = a.push(c);
    if b.len() > 0 && (forall|i: int| 0 <= i < b.len() ==> !is_white(#[trigger] b[i])) {
        lemma_words_of_run(b);
    }
    words_before_white(a, c);
    if b.len() == 0 {
        assert(s + b =~= s);
        assert(words(a) + words(b) =~= words(a));
    } else if is_white(b.last()) {
        assert((s + b).drop_last() =~= s + b.drop_last());
        white_space_parts_words(a, c, b.drop_last());
    } else {
        lemma_word_start(b);
        let k = word_start(b);
        let init = b.take(k);
        let w = b.skip(k);
        assert forall|i: int| 0 <= i < w.len() implies !is_white(#[trigger] w[i]) by {
            assert(w[i] == b[k + i]);
        }
        white_space_parts_words(a, c, init);
        assert(s + b =~= (s + init) + w);
        // The text before the last run ends in white space.
        let t = s + init;
        assert(is_white(t.last())) by {
            if k > 0 {
                assert(t.last() == b[k - 1]);
            } else {
                assert(t.last() == c);
            }
        }
        assert(word_start(t) == t.len());
        lemma_words_append(t, w);
        assert((words(a) + words(init)).push(w) =~= words(a) + words(init).push(w));
    }
}

/// Joining puts one space between neighbours, and nothing else: two lists joined are joined with
/// a space between them.
pub proof fn joining_adds_single_spaces(a: Seq<Seq<char>>, b: Seq<Seq<char>>)
    ensures
        joined(Seq::empty()).len() == 0,
        a.len() == 1 ==> joined(a) == a[0],
        a.len() > 0 && b.len() > 0 ==> joined(a + b) == joined(a) + seq![' '] + joined(b),
    decreases b.len(),
{
    if a.len() > 0 && b.len() == 1 {
        assert((a + b).drop_last() =~= a);
        assert(joined(a + b) =~= joined(a) + seq![' '] + joined(b));
    } else if a.len() > 0 && b.len() > 1 {
        joining_adds_single_spaces(a, b.drop_last());
        assert((a + b).drop_last() =~= a + b.drop_last());
        assert(joined(a + b) =~= joined(a) + seq![' '] + joined(b));
    }
}

/// `s` without the white space at its start.
pub open spec fn trimmed_start(s: Seq<char>) -> Seq<char>
    decreases s.len(),
{
    if s.len() > 0 && is_white(s[0]) {
        trimmed_start(s.drop_first())
    } else {
        s
    }
}

/// `s` without the white space at its end.
pub open spec fn trimmed_end(s: Seq<char>) -> Seq<char>
    decreases s.len(),
{
    if s.len() > 0 && is_white(s.last()) {
        trimmed_end(s.drop_last())
    } else {
        s
    }
}

/// `s` without the white space at either end.
pub open spec fn trimmed(s: Seq<char>) -> Seq<char> {
    trimmed_end(trimmed_start(s))
}

proof fn lemma_trimmed_start(s: Seq<char>)
    ensures
        trimmed_start(s).len() > 0 ==> !is_white(trimmed_start(s)[0]),
    decreases s.len(),
{
    if s.len() > 0 && is_white(s[0]) {
        lemma_trimmed_start(s.drop_first());
    }
}

proof fn lemma_trimmed_end(s: Seq<char>)
    ensures
        trimmed_end(s).len() > 0 ==> !is_white(trimmed_end(s).last()) && trimmed_end(s)[0] == s[0]
            && s.len() > 0,
    decreases s.len(),
{
    if s.len() > 0 && is_white(s.last()) {
        lemma_trimmed_end(s.drop_last());
    }
}

/// Trimming a trimmed text changes nothing.
pub proof fn trimming_is_idempotent(s: Seq<char>)
    ensures
        trimmed(trimmed(s)) == trimmed(s),
{
    lemma_trimmed_start(s);
    lemma_trimmed_end(trimmed_start(s));
}

proof fn lemma_start_cut(s: Seq<char>) -> (k: int)
    ensures
        0 <= k <= s.len(),
        trimmed_start(s) == s.skip(k),
        forall|i: int| 0 <= i < k ==> is_white(#[trigger] s[i]),
    decreases s.len(),
{
    if s.len() > 0 && is_white(s[0]) {
        let rest = s.drop_first();
        let k = lemma_start_cut(rest);
        assert(rest.skip(k) =~= s.skip(k + 1));
        assert forall|i: int| 0 <= i < k + 1 implies is_white(#[trigger] s[i]) by {
            if i > 0 {
                assert(rest[i - 1] == s[i]);
            }
        }
        k + 1
    } else {
        assert(s.skip(0) =~= s);
        0
    }
}

proof fn lemma_end_cut(s: Seq<char>) -> (k: int)
    ensures
        0 <= k <= s.len(),
        trimmed_end(s) == s.take(k),
        forall|i: int| k <= i < s.len() ==> is_white(#[trigger] s[i]),
    decreases s.len(),
{
    if s.len() > 0 && is_white(s.last()) {
        let init = s.drop_last();
        let k = lemma_end_cut(init);
        assert(init.take(k) =~= s.take(k));
        assert forall|i: int| k <= i < s.len() implies is_white(#[trigger] s[i]) by {
            if i < init.len() {
                assert(init[i] == s[i]);
            }
        }
        k
    } else {
        assert(s.take(s.len() as int) =~= s);
        s.len() as int
    }
}

/// Trimming takes away white space at the ends and nothing else: the text is what is left, with
/// white space around it, and what is left neither begins nor ends with white space.
pub proof fn trimming_takes_only_outer_white_space(s: Seq<char>)
    ensures
        exists|i: int, j: int|
            {
                &&& 0 <= i <= j <= s.len()
                &&& trimmed(s) == #[trigger] s.subrange(i, j)
                &&& forall|k: int| 0 <= k < i || j <= k < s.len() ==> is_white(#[trigger] s[k])
            },
        trimmed(s).len() > 0 ==> !is_white(trimmed(s)[0]) && !is_white(
            trimmed(s)[trimmed(s).len() - 1],
        ),
{
    lemma_trimmed_start(s);
    lemma_trimmed_end(trimmed_start(s));
    let i = lemma_start_cut(s);
    let t = trimmed_start(s);
    let k = lemma_end_cut(t);
    let j = i + k;
    assert(trimmed(s) =~= s.subrange(i, j));
    assert forall|m: int| 0 <= m < i || j <= m < s.len() implies is_white(#[trigger] s[m]) by {
        if m >= j {
            assert(t[m - i] == s[m]);
        }
    }
}

/// There is nothing but white space.
pub open spec fn all_white(s: Seq<char>) -> bool {
    forall|i: int| 0 <= i < s.len() ==> is_white(#[trigger] s[i])
}

proof fn lemma_white_before(a: Seq<char>, s: Seq<char>)
    requires
        all_white(a),
    ensures
        trimmed_start(a + s) == trimmed_start(s),
    decreases a.len(),
{
    if a.len() == 0 {
        assert(a + s =~= s);
    } else {
        let rest = a.drop_first();
        assert(is_white(a[0]));
        assert forall|i: int| 0 <= i < rest.len() implies is_white(#[trigger] rest[i]) by {
            assert(rest[i] == a[i + 1]);
        }
        lemma_white_before(rest, s);
        assert((a + s).drop_first() =~= rest + s);
    }
}

proof fn lemma_white_after(s: Seq<char>, b: Seq<char>)
    requires
        all_white(b),
    ensures
        trimmed_end(s + b) == trimmed_end(s),
    decreases b.len(),
{
    if b.len() == 0 {
        assert(s + b =~= s);
    } else {
        let init = b.drop_last();
        assert(is_white(b[b.len() - 1]));
        assert forall|i: int| 0 <= i < init.len() implies is_white(#[trigger] init[i]) by {
            assert(init[i] == b[i]);
        }
        lemma_white_after(s, init);
        assert((s + b).drop_last() =~= s + init);
    }
}

proof fn lemma_trimmed_start_append(s: Seq<char>, b: Seq<char>)
    ensures
        trimmed_start(s).len() > 0 ==> trimmed_start(s + b) == trimmed_start(s) + b,
        trimmed_start(s).len() == 0 ==> all_white(s),
    decreases s.len(),
{
    if s.len() > 0 && is_white(s[0]) {
        let rest = s.drop_first();
        lemma_trimmed_start_append(rest, b);
        assert((s + b).drop_first() =~= rest + b);
        if trimmed_start(s).len() == 0 {
            assert forall|i: int| 0 <= i < s.len() implies is_white(#[trigger] s[i]) by {
                if i > 0 {
                    assert(rest[i - 1] == s[i]);
                }
            }
        }
    }
}

/// White space around a text makes no difference to what is left after trimming.
pub proof fn outer_white_space_is_trimmed(a: Seq<char>, s: Seq<char>, b: Seq<char>)
    requires
        all_white(a),
        all_white(b),
    ensures
        trimmed(a + s + b) == trimmed(s),
{
    assert(a + s + b =~= a + (s + b));
    lemma_white_before(a, s + b);
    lemma_trimmed_start_append(s, b);
    if trimmed_start(s).len() > 0 {
        lemma_white_after(trimmed_start(s), b);
    } else {
        let e = Seq::<char>::empty();
        lemma_white_before(s, b);
        lemma_white_before(b, e);
        assert(b + e =~= b);
        assert(trimmed_start(s) =~= e);
    }
}

/// A string without the white space at either end, as `str::trim` gives it.
pub fn trim(s: &str) -> (r: String)
    ensures
        r@ == trimmed(s@),
{
    let chars: Vec<char> = chars_of(s);
    let n: usize = chars.len();
    let mut from: usize = 0;
    assert(s@.subrange(0, n as int) =~= s@);
    while from < n && is_white_space(chars[from])
        invariant
            chars@ == s@,
            0 <= from <= n == s@.len(),
            trimmed_start(s@) == trimmed_start(s@.subrange(from as int, n as int)),
        decreases n - from,
    {
        assert(s@.subrange(from as int, n as int).drop_first() =~= s@.subrange(
            from + 1,
            n as int,
        ));
        from = from + 1;
    }
    let mut to: usize = n;
    while from < to && is_white_space(chars[to - 1])
        invariant
            chars@ == s@,
            0 <= from <= to <= n == s@.len(),
            trimmed(s@) == trimmed_end(s@.subrange(from as int, to as int)),
        decreases to - from,
    {
        assert(s@.subrange(from as int, to as int).drop_last() =~= s@.subrange(
            from as int,
            to - 1,
        ));
        assert(s@.subrange(from as int, to as int).last() == s@[to - 1]);
        to = to - 1;
    }
    string_of(&chars, from, to)
}

/// The lower-case form of an ASCII letter; any other character itself.
pub open spec fn ascii_lower(c: char) -> char {
    if 'A' <= c <= 'Z' {
        ((c as u8) + 32) as u8 as char
    } else {
        c
    }
}

/// The capital letters A to Z become the letters that stand 32 places after them; nothing else
/// changes.
pub proof fn only_capital_letters_are_lowered(c: char)
    ensures
        65 <= c as u32 <= 90 ==> ascii_lower(c) as u32 == c as u32 + 32,
        !(65 <= c as u32 <= 90) ==> ascii_lower(c) == c,
{
}

/// A string with its ASCII letters in lower case, as `str::to_ascii_lowercase` gives it.
pub fn to_lower(s: &str) -> (r: String)
    ensures
        r@ == s@.map_values(|c: char| ascii_lower(c)),
        r@.len() == s@.len(),
        forall|i: int|
            0 <= i < s@.len() ==> (if 65 <= s@[i] as u32 <= 90 {
                #[trigger] r@[i] as u32 == s@[i] as u32 + 32
            } else {
                r@[i] == s@[i]
            }),
{
    let chars: Vec<char> = chars_of(s);
    let mut r: String = String::new();
    let mut i: usize = 0;
    while i < chars.len()
        invariant
            chars@ == s@,
            0 <= i <= s@.len(),
            r@ == s@.take(i as int).map_values(|c: char| ascii_lower(c)),
        decreases s@.len() - i,
    {
        let c: char = chars[i];
        let d: char = if 'A' <= c && c <= 'Z' {
            (c as u8 + 32) as char
        } else {
            c
        };
        r.push(d);
        assert(s@.take(i + 1).map_values(|c: char| ascii_lower(c)) =~= s@.take(
            i as int,
        ).map_values(|c: char| ascii_lower(c)).push(d));
        i = i + 1;
    }
    assert(s@.take(i as int) =~= s@);
    r
}

/// `b` in place of `a`; any other character itself.
pub open spec fn swapped(c: char, a: char, b: char) -> char {
    if c == a {
        b
    } else {
        c
    }
}

/// A string with every character `a` replaced by `b`.
pub fn replace_char(s: &str, a: char, b: char) -> (r: String)
    ensures
        r@ == s@.map_values(|c: char| swapped(c, a, b)),
        r@.len() == s@.len(),
        forall|i: int|
            0 <= i < s@.len() ==> #[trigger] r@[i] == (if s@[i] == a {
                b
            } else {
                s@[i]
            }),
{
    let chars: Vec<char> = chars_of(s);
    let mut r: String = String::new();
    let mut i: usize = 0;
    while i < chars.len()
        invariant
            chars@ == s@,
            0 <= i <= s@.len(),
            r@ == s@.take(i as int).map_values(|c: char| swapped(c, a, b)),
        decreases s@.len() - i,
    {
        let c: char = chars[i];
        let d: char = if c == a {
            b
        } else {
            c
        };
        r.push(d);
        assert(s@.take(i + 1).map_values(|c: char| swapped(c, a, b)) =~= s@.take(
            i as int,
        ).map_values(|c: char| swapped(c, a, b)).push(d));
        i = i + 1;
    }
    assert(s@.take(i as int) =~= s@);
    r
}

/// Tells whether two strings hold the same text.
pub fn same_text(a: &str, b: &str) -> (r: bool)
    ensures
        r == (a@ == b@),
{
    a.to_owned() == b.to_owned()
}

/// The UTF-16 code units of one character: itself, or a surrogate pair above U+FFFF.
pub open spec fn utf16_units(c: char) -> Seq<u16> {
    let n = c as u32 as int;
    if n < 0x10000 {
        seq![n as u16]
    } else {
        seq![(0xd800 + (n - 0x10000) / 0x400) as u16, (0xdc00 + (n - 0x10000) % 0x400) as u16]
    }
}

/// The UTF-16 form of a text.
pub open spec fn utf16(s: Seq<char>) -> Seq<u16>
    decreases s.len(),
{
    if s.len() == 0 {
        Seq::empty()
    } else {
        utf16(s.drop_last()) + utf16_units(s.last())
    }
}

/// The last unit of a pair lies in a range that no single unit lies in, the units tell the number
/// of the character, and the number tells the character.
proof fn lemma_utf16_units(c: char, d: char)
    ensures
        c as u32 == d as u32 ==> c == d,
        ({
            let u = utf16_units(c);
            let n = c as u32;
            &&& u.len() == 1 || u.len() == 2
            &&& u.len() == 1 ==> n == u[0] && !(0xdc00 <= u[0] < 0xe000)
            &&& u.len() == 2 ==> n == 0x10000 + (u[0] - 0xd800) * 0x400 + (u[1] - 0xdc00) && 0xdc00
                <= u[1] < 0xe000
        }),
{
    let n = c as u32;
    assert(n <= 0xd7ff || 0xe000 <= n <= 0x10ffff);
}

/// UTF-16 goes character by character: a character below U+10000 is one unit of its own number,
/// and any other is two, a high surrogate with the upper ten bits above U+10000 and a low one with
/// the lower ten.
pub proof fn utf16_goes_by_characters(s: Seq<char>, c: char, t: Seq<char>)
    ensures
        utf16(Seq::empty()).len() == 0,
        utf16(s + t) == utf16(s) + utf16(t),
        ({
            let u = utf16(seq![c]);
            let n = c as u32;
            &&& n < 0x10000 ==> u.len() == 1 && u[0] == n
            &&& n >= 0x10000 ==> u.len() == 2 && 0xd800 <= u[0] < 0xdc00 && 0xdc00 <= u[1] < 0xe000
                && n == 0x10000 + (u[0] - 0xd800) * 0x400 + (u[1] - 0xdc00)
        }),
    decreases t.len(),
{
    lemma_utf16_units(c, c);
    assert(c as u32 <= 0x10ffff);
    let one = seq![c];
    assert(one.drop_last() =~= Seq::<char>::empty());
    assert(utf16(one.drop_last()).len() == 0);
    assert(utf16(one) =~= utf16_units(c));
    if t.len() == 0 {
        assert(s + t =~= s);
        assert(utf16(s) + utf16(t) =~= utf16(s));
    } else {
        utf16_goes_by_characters(s, c, t.drop_last());
        assert((s + t).drop_last() =~= s + t.drop_last());
        assert(utf16(s + t) =~= utf16(s) + utf16(t));
    }
}

/// Two texts with the same UTF-16 form are the same.
pub proof fn utf16_is_unique(s: Seq<char>, t: Seq<char>)
    requires
        utf16(s) == utf16(t),
    ensures
        s == t,
    decreases s.len(),
{
    if s.len() == 0 || t.len() == 0 {
        if s.len() > 0 {
            assert(utf16(s).len() > 0);
        }
        if t.len() > 0 {
            assert(utf16(t).len() > 0);
        }
        assert(s =~= t);
    } else {
        let u = utf16(s);
        let a = utf16_units(s.last());
        let b = utf16_units(t.last());
        let n = u.len() as int;
        lemma_utf16_units(s.last(), t.last());
        lemma_utf16_units(t.last(), s.last());
        assert(u[n - 1] == a[a.len() - 1]);
        assert(u[n - 1] == b[b.len() - 1]);
        assert(a.len() == b.len());
        if a.len() == 2 {
            assert(u[n - 2] == a[0]);
            assert(u[n - 2] == b[0]);
        }
        assert(s.last() as u32 == t.last() as u32);
        assert(u.take(n - a.len()) =~= utf16(s.drop_last()));
        assert(u.take(n - a.len()) =~= utf16(t.drop_last()));
        utf16_is_unique(s.drop_last(), t.drop_last());
        assert(s.drop_last().push(s.last()) =~= s);
        assert(t.drop_last().push(t.last()) =~= t);
    }
}

/// The UTF-16 code units of a string, as `str::encode_utf16` yields them.
pub fn encode_utf16(s: &str) -> (r: Vec<u16>)
    ensures
        r@ == utf16(s@),
{
    let chars: Vec<char> = chars_of(s);
    let mut r: Vec<u16> = Vec::new();
    let mut i: usize = 0;
    while i < chars.len()
        invariant
            chars@ == s@,
            0 <= i <= s@.len(),
            r@ == utf16(s@.take(i as int)),
        decreases s@.len() - i,
    {
        let ghost before = r@;
        let n: u32 = chars[i] as u32;
        if n < 0x10000 {
            r.push(n as u16);
        } else {
            r.push((0xd800 + (n - 0x10000) / 0x400) as u16);
            r.push((0xdc00 + (n - 0x10000) % 0x400) as u16);
        }
        assert(r@ =~= before + utf16_units(s@[i as int]));
        assert(s@.take(i + 1).drop_last() =~= s@.take(i as int));
        i = i + 1;
    }
    assert(s@.take(i as int) =~= s@);
    r
}

} // verus!
