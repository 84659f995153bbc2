//! Byte-level helpers for protocol text.
use vstd::prelude::*;
use vstd::utf8::*;
use vstd::string::StringSliceAdditionalSpecFns;

verus! {

/// The byte that separates the words of a message.
pub const SPACE: u8 = 0x20;

/// Length of the longest prefix of `s` in which `stop` does not occur.
pub open spec fn run_len(s: Seq<u8>, stop: u8) -> nat
    decreases s.len(),
{
    if s.len() == 0 || s[0] == stop {
        0
    } else {
        1 + run_len(s.drop_first(), stop)
    }
}

/// `run_len` marks the first occurrence of `stop`, or the end of `s`.
pub proof fn lemma_run_len(s: Seq<u8>, stop: u8)
    ensures
        run_len(s, stop) <= s.len(),
        forall|i: int| 0 <= i < run_len(s, stop) ==> s[i] != stop,
        run_len(s, stop) < s.len() ==> s[run_len(s, stop) as int] == stop,
    decreases s.len(),
{
    if s.len() == 0 || s[0] == stop {
    } else {
        let rest = s.drop_first();
        lemma_run_len(rest, stop);
        assert forall|i: int| 0 <= i < run_len(s, stop) implies s[i] != stop by {
            if i > 0 {
                assert(s[i] == rest[i - 1]);
            }
        }
        if run_len(s, stop) < s.len() {
            assert(s[run_len(s, stop) as int] == rest[run_len(rest, stop) as int]);
        }
    }
}

/// Any index that bounds a `stop`-free prefix and sits on a `stop` (or on the
/// end of `s`) is the run length.
pub proof fn lemma_run_len_is(s: Seq<u8>, stop: u8, n: int)
    requires
        0 <= n <= s.len(),
        forall|i: int| 0 <= i < n ==> s[i] != stop,
        n < s.len() ==> s[n] == stop,
    ensures
        run_len(s, stop) == n,
    decreases s.len(),
{
    if s.len() == 0 || s[0] == stop {
    } else {
        let rest = s.drop_first();
        assert forall|i: int| 0 <= i < n - 1 implies rest[i] != stop by {
            assert(rest[i] == s[i + 1]);
        }
        lemma_run_len_is(rest, stop, n - 1);
    }
}

/// A stretch of a byte string, from `start` up to `end`.
#[derive(Clone, Copy, Debug, PartialEq, Eq, Structural)]
pub struct Span {
    pub start: usize,
    pub end: usize,
}

impl Span {
    /// The bytes of `s` that the span covers.
    pub open spec fn of(self, s: Seq<u8>) -> Seq<u8> {
        s.subrange(self.start as int, self.end as int)
    }

    /// The span lies in `s`, is not empty, and a space or an end of `s`
    /// stands on either side of it.
    pub open spec fn bounds_word(self, s: Seq<u8>) -> bool {
        &&& self.start < self.end <= s.len()
        &&& (self.start == 0 || s[self.start - 1] == SPACE)
        &&& (self.end == s.len() || s[self.end as int] == SPACE)
    }
}

/// The words of `s`: its maximal runs of bytes other than spaces, in order.
pub open spec fn words(s: Seq<u8>) -> Seq<Seq<u8>>
    decreases s.len(),
{
    if s.len() == 0 {
        Seq::empty()
    } else if s[0] == SPACE {
        words(s.drop_first())
    } else {
        let n = run_len(s, SPACE) as int;
        proof {
            lemma_run_len(s, SPACE);
        }
        seq![s.take(n)] + words(s.skip(n))
    }
}

/// `head`, a space, then `tail`.
pub open spec fn spaced(head: Seq<u8>, tail: Seq<u8>) -> Seq<u8> {
    head + seq![SPACE] + tail
}

/// `w` is not empty and holds no space.
pub open spec fn is_word(w: Seq<u8>) -> bool {
    w.len() > 0 && !w.contains(SPACE)
}

/// A word alone is the one word of itself.
pub proof fn lemma_words_single(w: Seq<u8>)
    requires
        is_word(w),
    ensures
        words(w) == seq![w],
{
    lemma_run_len_is(w, SPACE, w.len() as int);
    assert(w.take(w.len() as int) == w);
    assert(w.skip(w.len() as int) == Seq::<u8>::empty());
    assert(words(Seq::<u8>::empty()) == Seq::<Seq<u8>>::empty());
    assert(seq![w] + Seq::<Seq<u8>>::empty() == seq![w]);
}

/// The words of a word, a space and a text are the word, then the words of
/// the text.
pub proof fn lemma_words_spaced(head: Seq<u8>, tail: Seq<u8>)
    requires
        is_word(head),
    ensures
        words(spaced(head, tail)) == seq![head] + words(tail),
{
    let s = spaced(head, tail);
    let n = head.len() as int;
    lemma_run_len_is(s, SPACE, n);
    assert(s.take(n) == head);
    let rest = s.skip(n);
    assert(rest[0] == SPACE);
    assert(rest.drop_first() == tail);
    assert(words(rest) == words(tail));
}

/// The bytes that `spans` cover in `s`, span by span.
pub open spec fn spans_of(s: Seq<u8>, spans: Seq<Span>) -> Seq<Seq<u8>> {
    Seq::new(spans.len(), |k: int| spans[k].of(s))
}

/// Finds the words of `s`. Each span that comes back covers one word, in the
/// order in which the words stand in `s`.
pub fn split_words(s: &[u8]) -> (spans: Vec<Span>)
    ensures
        spans_of(s@, spans@) == words(s@),
        forall|k: int| 0 <= k < spans@.len() ==> (#[trigger] spans@[k]).bounds_word(s@),
{
    let mut spans: Vec<Span> = Vec::new();
    let mut i: usize = 0;
    assert(s@.skip(0) == s@);
    while i < s.len()
        invariant
            i <= s.len(),
            words(s@) == spans_of(s@, spans@) + words(s@.skip(i as int)),
            forall|k: int| 0 <= k < spans@.len() ==> (#[trigger] spans@[k]).bounds_word(s@),
            i == 0 || i == s.len() || s@[i - 1] == SPACE || s@[i as int] == SPACE,
        decreases s.len() - i,
    {
        let ghost rest = s@.skip(i as int);
        if s[i] == SPACE {
            assert(rest.drop_first() == s@.skip(i + 1));
            i += 1;
        } else {
            let start: usize = i;
            while i < s.len() && s[i] != SPACE
                invariant
                    start <= i <= s.len(),
                    forall|k: int| start <= k < i ==> s@[k] != SPACE,
                decreases s.len() - i,
            {
                i += 1;
            }
            let span = Span { start, end: i };
            proof {
                let n = i - start;
                lemma_run_len_is(rest, SPACE, n);
                assert(rest.take(n) == span.of(s@));
                assert(rest.skip(n) == s@.skip(i as int));
                assert(spans_of(s@, spans@.push(span)) == spans_of(s@, spans@) + seq![span.of(s@)]);
            }
            spans.push(span);
        }
    }
    assert(spans_of(s@, spans@) + Seq::<Seq<u8>>::empty() == spans_of(s@, spans@));
    spans
}

/// Appends the bytes of `src` to `out`.
pub fn push_bytes(out: &mut Vec<u8>, src: &[u8])
    ensures
        final(out)@ == old(out)@ + src@,
{
    let mut i: usize = 0;
    while i < src.len()
        invariant
            i <= src.len(),
            out@ == old(out)@ + src@.take(i as int),
        decreases src.len() - i,
    {
        out.push(src[i]);
        i += 1;
    }
    assert(src@.take(src.len() as int) == src@);
}

/// Tells whether `span` covers exactly the bytes `word` in `s`.
pub fn span_is(s: &[u8], span: Span, word: &[u8]) -> (r: bool)
    requires
        span.start <= span.end <= s.len(),
    ensures
        r == (span.of(s@) == word@),
{
    if span.end - span.start != word.len() {
        return false;
    }
    let mut i: usize = 0;
    while i < word.len()
        invariant
            i <= word.len(),
            span.start <= span.end <= s.len(),
            span.end - span.start == word.len(),
            forall|k: int| 0 <= k < i ==> s@[span.start + k] == word@[k],
        decreases word.len() - i,
    {
        if s[span.start + i] != word[i] {
            assert(span.of(s@)[i as int] != word@[i as int]);
            return false;
        }
        i += 1;
    }
    assert(span.of(s@) =~= word@);
    true
}

/// In the UTF-8 encoding of one character, a byte below `0x80` is the whole
/// encoding and is the character's own number.
proof fn lemma_ascii_byte_in_scalar(scalar: u32, k: int)
    requires
        is_scalar(scalar),
        0 <= k < encode_scalar(scalar).len(),
        encode_scalar(scalar)[k] < 0x80,
    ensures
        encode_scalar(scalar)[k] == scalar,
{
    let lead2 = ((scalar >> 6) & 0x1F) as u8;
    let lead3 = ((scalar >> 12) & 0x0F) as u8;
    let lead4 = ((scalar >> 18) & 0x7) as u8;
    let last = (scalar & 0x3F) as u8;
    let second_last = ((scalar >> 6) & 0x3F) as u8;
    let third_last = ((scalar >> 12) & 0x3F) as u8;
    assert(scalar <= 0x7F ==> (scalar & 0x7F) as u8 == scalar) by (bit_vector);
    assert(0xC0u8 | lead2 >= 0x80) by (bit_vector);
    assert(0xE0u8 | lead3 >= 0x80) by (bit_vector);
    assert(0xF0u8 | lead4 >= 0x80) by (bit_vector);
    assert(0x80u8 | last >= 0x80) by (bit_vector);
    assert(0x80u8 | second_last >= 0x80) by (bit_vector);
    assert(0x80u8 | third_last >= 0x80) by (bit_vector);
}

/// A byte below `0x80` stands in the UTF-8 encoding of a text only where the
/// text holds the character of that number: no longer encoding holds such a
/// byte.
pub proof fn lemma_ascii_byte_in_utf8(chars: Seq<char>, b: u8)
    requires
        b < 0x80,
        encode_utf8(chars).contains(b),
    ensures
        chars.contains(b as char),
    decreases chars.len(),
{
    let bytes = encode_utf8(chars);
    let i = choose|i: int| 0 <= i < bytes.len() && bytes[i] == b;
    if chars.len() > 0 {
        let first = encode_scalar(chars[0] as u32);
        let rest = chars.drop_first();
        if i < first.len() {
            char_is_scalar(chars[0]);
            assert(first[i] == b);
            lemma_ascii_byte_in_scalar(chars[0] as u32, i);
            char_u32_cast(chars[0], b as u32);
            assert(chars[0] == b as char);
        } else {
            assert(encode_utf8(rest)[i - first.len()] == b);
            lemma_ascii_byte_in_utf8(rest, b);
            let j = choose|j: int| 0 <= j < rest.len() && rest[j] == b as char;
            assert(chars[j + 1] == b as char);
        }
    }
}

/// Bytes below `0x80` are well-formed UTF-8.
pub proof fn lemma_ascii_is_utf8(bytes: Seq<u8>)
    requires
        forall|i: int| 0 <= i < bytes.len() ==> bytes[i] < 0x80,
    ensures
        valid_utf8(bytes),
{
    assert(bytes.subrange(0, 0) == Seq::<u8>::empty());
    assert(partial_valid_utf8(bytes, 0));
    partial_valid_utf8_extend_ascii_block(bytes, 0, bytes.len() as int);
    assert(bytes.subrange(0, bytes.len() as int) == bytes);
}

/// A word of well-formed UTF-8 is well-formed UTF-8: a space never stands
/// inside the encoding of a character.
pub proof fn lemma_word_is_utf8(s: Seq<u8>, span: Span)
    requires
        valid_utf8(s),
        span.bounds_word(s),
    ensures
        valid_utf8(span.of(s)),
{
    let a = span.start as int;
    let b = span.end as int;
    if b < s.len() {
        is_char_boundary_iff_not_is_continuation_byte(s, b);
    } else {
        is_char_boundary_start_end_of_seq(s);
    }
    valid_utf8_split(s, b);
    let head = s.subrange(0, b);
    if a == 0 {
        assert(span.of(s) == head);
    } else {
        assert(head[a - 1] == SPACE);
        is_char_boundary_iff_not_is_continuation_byte(head, a - 1);
        valid_utf8_split(head, a - 1);
        let tail = head.subrange(a - 1, b);
        assert(tail[0] == SPACE);
        assert(pop_first_scalar(tail) == span.of(s));
    }
}

/// The word that `span` covers in `text`, as a string of its own.
pub fn word_string(text: &str, span: Span) -> (r: String)
    requires
        span.bounds_word(text.spec_bytes()),
    ensures
        encode_utf8(r@) == span.of(text.spec_bytes()),
{
    let s = text.as_bytes();
    let mut bytes: Vec<u8> = Vec::new();
    let mut i: usize = span.start;
    while i < span.end
        invariant
            span.start <= i <= span.end <= s.len(),
            bytes@ == s@.subrange(span.start as int, i as int),
        decreases span.end - i,
    {
        bytes.push(s[i]);
        i += 1;
    }
    proof {
        encode_utf8_valid_utf8(text@);
        lemma_word_is_utf8(s@, span);
        decode_utf8_encode_utf8(bytes@);
    }
    match string_from_utf8(bytes) {
        Some(word) => word,
        None => unreached(),
    }
}

/// `String::from_utf8` of std, with the error dropped: the bytes become a
/// string exactly when they are well-formed UTF-8, and the string then holds
/// the characters that the bytes encode.
#[verifier::external_body]
pub(crate) fn string_from_utf8(bytes: Vec<u8>) -> (r: Option<String>)
    ensures
        r is Some <==> valid_utf8(bytes@),
        r matches Some(s) ==> s@ == decode_utf8(bytes@),
{
    String::from_utf8(bytes).ok()
}

} // verus!
