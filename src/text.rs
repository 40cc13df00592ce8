use vstd::prelude::*;
use vstd::string::StrSliceExecFns;
use vstd::utf8::{encode_utf8, encode_scalar, valid_utf8, decode_utf8, char_is_scalar};
use std::cmp::Ordering;

use crate::error::Error;
use crate::error::ErrorType;

verus! {

/// How many bytes the UTF-8 encoding of `c` takes.
pub open spec fn char_width(c: char) -> nat {
    if c as u32 <= 0x7f {
        1
    } else if c as u32 <= 0x7ff {
        2
    } else if c as u32 <= 0xffff {
        3
    } else {
        4
    }
}

/// How many bytes the UTF-8 encoding of `s` takes.
pub open spec fn utf8_len(s: Seq<char>) -> nat
    decreases s.len(),
{
    if s.len() == 0 {
        0
    } else {
        char_width(s[0]) + utf8_len(s.drop_first())
    }
}

/// How many leading chars of `s` end within the first `bytes` bytes of its encoding.
pub open spec fn chars_within(s: Seq<char>, bytes: int) -> nat
    decreases s.len(),
{
    if s.len() == 0 {
        0
    } else if char_width(s[0]) <= bytes {
        1 + chars_within(s.drop_first(), bytes - char_width(s[0]))
    } else {
        0
    }
}

/// Lexicographic order of char sequences, by code point.
pub open spec fn compare_chars(a: Seq<char>, b: Seq<char>) -> Ordering
    decreases a.len(),
{
    if a.len() == 0 {
        if b.len() == 0 {
            Ordering::Equal
        } else {
            Ordering::Less
        }
    } else if b.len() == 0 {
        Ordering::Greater
    } else if (a[0] as u32) < (b[0] as u32) {
        Ordering::Less
    } else if (a[0] as u32) > (b[0] as u32) {
        Ordering::Greater
    } else {
        compare_chars(a.drop_first(), b.drop_first())
    }
}

proof fn lemma_utf8_len_concat(a: Seq<char>, b: Seq<char>)
    ensures
        utf8_len(a + b) == utf8_len(a) + utf8_len(b),
    decreases a.len(),
{
    if a.len() > 0 {
        assert((a + b).drop_first() =~= a.drop_first() + b);
        lemma_utf8_len_concat(a.drop_first(), b);
    } else {
        assert(a + b =~= b);
    }
}

proof fn lemma_utf8_len_push(a: Seq<char>, c: char)
    ensures
        utf8_len(a.push(c)) == utf8_len(a) + char_width(c),
{
    lemma_utf8_len_concat(a, seq![c]);
    assert(a.push(c) =~= a + seq![c]);
    assert(seq![c].drop_first() =~= Seq::<char>::empty());
    assert(utf8_len(Seq::<char>::empty()) == 0);
    assert(utf8_len(seq![c]) == char_width(c) + utf8_len(seq![c].drop_first()));
}

proof fn lemma_utf8_len_encode(s: Seq<char>)
    ensures
        utf8_len(s) == encode_utf8(s).len(),
    decreases s.len(),
{
    if s.len() > 0 {
        let c = s[0];
        char_is_scalar(c);
        assert(encode_scalar(c as u32).len() == char_width(c));
        lemma_utf8_len_encode(s.drop_first());
    }
}

/// The UTF-8 width of one char.
fn char_utf8_width(c: char) -> (r: usize)
    ensures
        r == char_width(c),
{
    let v = c as u32;
    if v <= 0x7f {
        1
    } else if v <= 0x7ff {
        2
    } else if v <= 0xffff {
        3
    } else {
        4
    }
}

/// Relies on `String::from_iter` over chars: the string holds the chars in order.
#[verifier::external_body]
pub(crate) fn string_from_chars(chars: &Vec<char>) -> (r: String)
    ensures
        r@ == chars@,
{
    chars.iter().collect()
}

/// Relies on `String::from_utf8`: it succeeds exactly on valid UTF-8, and the
/// string holds the chars that the bytes encode.
#[verifier::external_body]
fn string_from_utf8(bytes: Vec<u8>) -> (r: Option<String>)
    ensures
        r is Some <==> valid_utf8(bytes@),
        r matches Some(s) ==> s@ == decode_utf8(bytes@),
{
    String::from_utf8(bytes).ok()
}

/// An iterator over the chars of a text.
pub struct TextCharIterator {
    chars: Vec<char>,
    index: usize,
}

impl TextCharIterator {
    /// The chars not yet returned.
    pub closed spec fn remaining(&self) -> Seq<char> {
        self.chars@.subrange(self.index as int, self.chars@.len() as int)
    }

    pub closed spec fn wf(&self) -> bool {
        self.index <= self.chars@.len()
    }

    fn new(chars: Vec<char>) -> (r: TextCharIterator)
        ensures
            r.wf(),
            r.remaining() == chars@,
    {
        let r = TextCharIterator { chars, index: 0 };
        assert(r.chars@.subrange(0, r.chars@.len() as int) =~= r.chars@);
        r
    }

    /// The next char, if any is left.
    pub fn next(&mut self) -> (r: Option<char>)
        requires
            old(self).wf(),
        ensures
            final(self).wf(),
            old(self).remaining().len() == 0 ==> r is None && final(self).remaining() == old(self).remaining(),
            old(self).remaining().len() > 0 ==> r == Some(old(self).remaining()[0]) && final(self).remaining() == old(self).remaining().drop_first(),
    {
        if self.index < self.chars.len() {
            let c = self.chars[self.index];
            self.index = self.index + 1;
            assert(self.remaining() =~= old(self).remaining().drop_first());
            Some(c)
        } else {
            None
        }
    }
}

/// An immutable Unicode text.
#[derive(Clone, Debug, Hash)]
pub struct Text {
    chars: Vec<char>,
    utf8_length: usize,
}

impl View for Text {
    type V = Seq<char>;

    closed spec fn view(&self) -> Seq<char> {
        self.chars@
    }
}

impl PartialEq for Text {
    fn eq(&self, other: &Text) -> (r: bool)
        ensures
            r == (self@ == other@),
    {
        if self.chars.len() != other.chars.len() {
            return false;
        }
        let mut i: usize = 0;
        while i < self.chars.len()
            invariant
                self.chars@.len() == other.chars@.len(),
                i <= self.chars@.len(),
                forall|k: int| 0 <= k < i ==> self.chars@[k] == other.chars@[k],
            decreases self.chars@.len() - i,
        {
            if self.chars[i] != other.chars[i] {
                return false;
            }
            i = i + 1;
        }
        assert(self.chars@ =~= other.chars@);
        true
    }
}

impl vstd::std_specs::cmp::PartialEqSpecImpl for Text {
    open spec fn obeys_eq_spec() -> bool {
        true
    }

    open spec fn eq_spec(&self, other: &Text) -> bool {
        self@ == other@
    }
}

impl Eq for Text {

}

impl PartialOrd for Text {
    fn partial_cmp(&self, other: &Text) -> (r: Option<Ordering>)
        ensures
            r == Some(compare_chars(self@, other@)),
    {
        Some(self.compare(other))
    }
}

impl vstd::std_specs::cmp::PartialOrdSpecImpl for Text {
    open spec fn obeys_partial_cmp_spec() -> bool {
        true
    }

    open spec fn partial_cmp_spec(&self, other: &Text) -> Option<Ordering> {
        Some(compare_chars(self@, other@))
    }
}

impl Text {
    pub closed spec fn wf(&self) -> bool {
        self.utf8_length == utf8_len(self.chars@)
    }

    fn from_char_vec(chars: Vec<char>, utf8_length: usize) -> (r: Text)
        requires
            utf8_length == utf8_len(chars@),
        ensures
            r.wf(),
            r@ == chars@,
    {
        Text { chars, utf8_length }
    }

    /// The text of `string`.
    pub fn new(string: &str) -> (r: Text)
        requires
            utf8_len(string@) <= usize::MAX,
        ensures
            r.wf(),
            r@ == string@,
    {
        let n = string.unicode_len();
        let mut chars: Vec<char> = Vec::new();
        let mut i: usize = 0;
        while i < n
            invariant
                n == string@.len(),
                i <= n,
                chars@ == string@.take(i as int),
            decreases n - i,
        {
            chars.push(string.get_char(i));
            i = i + 1;
            assert(chars@ =~= string@.take(i as int));
        }
        assert(chars@ =~= string@);
        proof {
            lemma_utf8_len_encode(string@);
        }
        Text::from_char_vec(chars, string.len())
    }

    /// The text that `utf8` encodes; `TypeNotMatch` when it is not valid UTF-8.
    pub fn from_utf8(utf8: Vec<u8>) -> (r: Result<Text, Error>)
        ensures
            r is Ok <==> valid_utf8(utf8@),
            r matches Ok(t) ==> t.wf() && t@ == decode_utf8(utf8@),
            r matches Err(e) ==> e.error_type == ErrorType::TypeNotMatch,
    {
        let ghost bytes = utf8@;
        let byte_count = utf8.len();
        assert(bytes.len() == byte_count);
        match string_from_utf8(utf8) {
            Some(s) => {
                proof {
                    vstd::utf8::decode_utf8_encode_utf8(bytes);
                    lemma_utf8_len_encode(s@);
                }
                Ok(Text::new(s.as_str()))
            },
            None => Err(Error::new(ErrorType::TypeNotMatch, "Invalid UTF-8 text")),
        }
    }

    /// The text of `chars`, in order.
    pub fn from_chars(chars: Vec<char>) -> (r: Text)
        requires
            utf8_len(chars@) <= usize::MAX,
        ensures
            r.wf(),
            r@ == chars@,
    {
        let mut length: usize = 0;
        let mut i: usize = 0;
        while i < chars.len()
            invariant
                i <= chars@.len(),
                utf8_len(chars@) <= usize::MAX,
                length == utf8_len(chars@.take(i as int)),
            decreases chars@.len() - i,
        {
            proof {
                lemma_utf8_len_push(chars@.take(i as int), chars@[i as int]);
                assert(chars@.take(i as int).push(chars@[i as int]) =~= chars@.take(i as int + 1));
                lemma_utf8_len_concat(chars@.take(i as int + 1), chars@.skip(i as int + 1));
                assert(chars@.take(i as int + 1) + chars@.skip(i as int + 1) =~= chars@);
            }
            length = length + char_utf8_width(chars[i]);
            i = i + 1;
        }
        assert(chars@.take(i as int) =~= chars@);
        Text::from_char_vec(chars, length)
    }

    /// `pattern` repeated `repeat` times.
    pub fn repeat(pattern: &Text, repeat: usize) -> (r: Text)
        requires
            pattern.wf(),
            utf8_len(pattern@) * repeat <= usize::MAX,
        ensures
            r.wf(),
            r@.len() == pattern@.len() * repeat,
            forall|k: int| 0 <= k < r@.len() ==> r@[k] == pattern@[k % pattern@.len() as int],
    {
        let mut chars: Vec<char> = Vec::new();
        let mut length: usize = 0;
        let mut i: usize = 0;
        let n = pattern.chars.len();
        while i < repeat
            invariant
                i <= repeat,
                n == pattern@.len(),
                pattern.wf(),
                utf8_len(pattern@) * repeat <= usize::MAX,
                chars@.len() == n * i,
                forall|k: int| 0 <= k < chars@.len() ==> chars@[k] == pattern@[k % n as int],
                length == utf8_len(chars@),
                length == utf8_len(pattern@) * i,
            decreases repeat - i,
        {
            proof {
                assert(utf8_len(pattern@) * (i + 1) <= utf8_len(pattern@) * repeat) by (nonlinear_arith)
                    requires
                        i + 1 <= repeat,
                ;
                assert(n * (i + 1) == n * i + n) by (nonlinear_arith);
                assert(utf8_len(pattern@) * (i + 1) == utf8_len(pattern@) * i + utf8_len(pattern@))
                    by (nonlinear_arith);
            }
            let ghost before = chars@;
            let mut j: usize = 0;
            while j < n
                invariant
                    j <= n,
                    n == pattern@.len(),
                    before.len() == n * i,
                    chars@.len() == n * i + j,
                    chars@.take(before.len() as int) == before,
                    forall|k: int| 0 <= k < j ==> chars@[n * i + k] == pattern@[k],
                decreases n - j,
            {
                chars.push(pattern.chars[j]);
                j = j + 1;
                assert(chars@.take(before.len() as int) =~= before);
            }
            proof {
                assert(chars@ =~= before + pattern@);
                lemma_utf8_len_concat(before, pattern@);
                assert forall|k: int| 0 <= k < chars@.len() implies chars@[k] == pattern@[k % n as int] by {
                    if k < n * i {
                        assert(chars@[k] == before[k]);
                    } else {
                        let d = k - n * i;
                        assert(0 <= d < n);
                        assert(k == n * i + d);
                        vstd::arithmetic::div_mod::lemma_fundamental_div_mod_converse(
                            k,
                            n as int,
                            i as int,
                            d,
                        );
                    }
                }
            }
            length = length + pattern.utf8_length;
            i = i + 1;
        }
        proof {
            assert(n * repeat == pattern@.len() * repeat);
        }
        Text::from_char_vec(chars, length)
    }

    /// The texts of `slices`, one after another.
    pub fn concatentate(slices: Vec<Text>) -> (r: Text)
        requires
            forall|k: int| 0 <= k < slices@.len() ==> slices@[k].wf(),
            utf8_len(joined(slices@)) <= usize::MAX,
        ensures
            r.wf(),
            r@ == joined(slices@),
    {
        let mut chars: Vec<char> = Vec::new();
        let mut length: usize = 0;
        let mut i: usize = 0;
        while i < slices.len()
            invariant
                i <= slices@.len(),
                forall|k: int| 0 <= k < slices@.len() ==> slices@[k].wf(),
                utf8_len(joined(slices@)) <= usize::MAX,
                chars@ == joined(slices@.take(i as int)),
                length == utf8_len(chars@),
            decreases slices@.len() - i,
        {
            proof {
                assert(slices@.take(i as int + 1).drop_last() =~= slices@.take(i as int));
                lemma_joined_prefix(slices@, i as int + 1);
                lemma_utf8_len_concat(joined(slices@.take(i as int + 1)), joined(slices@.skip(i as int + 1)));
                lemma_utf8_len_concat(chars@, slices@[i as int]@);
            }
            let ghost before = chars@;
            let piece = &slices[i];
            let mut j: usize = 0;
            while j < piece.chars.len()
                invariant
                    j <= piece.chars@.len(),
                    chars@ == before + piece.chars@.take(j as int),
                decreases piece.chars@.len() - j,
            {
                chars.push(piece.chars[j]);
                j = j + 1;
                assert(chars@ =~= before + piece.chars@.take(j as int));
            }
            assert(piece.chars@.take(j as int) =~= piece.chars@);
            length = length + piece.utf8_length;
            i = i + 1;
        }
        assert(slices@.take(i as int) =~= slices@);
        Text::from_char_vec(chars, length)
    }

    /// The text as a `String`.
    pub fn to_string(&self) -> (r: String)
        ensures
            r@ == self@,
    {
        string_from_chars(&self.chars)
    }

    /// The UTF-8 encoding of the text.
    pub fn as_utf8(&self) -> (r: Vec<u8>)
        ensures
            r@ == encode_utf8(self@),
    {
        let s = self.to_string();
        s.as_str().as_bytes_vec()
    }

    /// The chars of the text, in order.
    pub fn as_chars(&self) -> (r: Vec<char>)
        ensures
            r@ == self@,
    {
        let mut chars: Vec<char> = Vec::new();
        let mut i: usize = 0;
        while i < self.chars.len()
            invariant
                i <= self.chars@.len(),
                chars@ == self.chars@.take(i as int),
            decreases self.chars@.len() - i,
        {
            chars.push(self.chars[i]);
            i = i + 1;
            assert(chars@ =~= self.chars@.take(i as int));
        }
        assert(chars@ =~= self.chars@);
        chars
    }

    /// An iterator over the chars of the text.
    pub fn iterate_chars(&self) -> (r: TextCharIterator)
        ensures
            r.wf(),
            r.remaining() == self@,
    {
        TextCharIterator::new(self.as_chars())
    }

    /// The char at `index`, if the text has that many.
    pub fn get_char_at(&self, index: usize) -> (r: Option<char>)
        ensures
            index < self@.len() ==> r == Some(self@[index as int]),
            index >= self@.len() ==> r is None,
    {
        if index < self.chars.len() {
            Some(self.chars[index])
        } else {
            None
        }
    }

    pub fn is_empty(&self) -> (r: bool)
        requires
            self.wf(),
        ensures
            r == (self@.len() == 0),
    {
        proof {
            lemma_utf8_len_positive(self.chars@);
        }
        self.utf8_length == 0
    }

    /// The length of the UTF-8 encoding, in bytes.
    pub fn get_utf8_length(&self) -> (r: usize)
        requires
            self.wf(),
        ensures
            r == utf8_len(self@),
            r == encode_utf8(self@).len(),
    {
        proof {
            lemma_utf8_len_encode(self.chars@);
        }
        self.utf8_length
    }

    /// The number of chars.
    pub fn get_chars_count(&self) -> (r: usize)
        ensures
            r == self@.len(),
    {
        self.chars.len()
    }

    /// The chars that lie within UTF-8 byte offsets `[utf8_from, utf8_to)`. An offset
    /// inside a char's encoding counts as the start of that char.
    pub fn slice(&self, utf8_from: usize, utf8_to: usize) -> (r: Text)
        requires
            self.wf(),
            utf8_from <= utf8_to,
        ensures
            r.wf(),
            r@ == self@.subrange(
                chars_within(self@, utf8_from as int) as int,
                chars_within(self@, utf8_to as int) as int,
            ),
    {
        let start = self.chars_within_bytes(utf8_from);
        let end = self.chars_within_bytes(utf8_to);
        proof {
            lemma_chars_within_monotone(self.chars@, utf8_from as int, utf8_to as int);
            lemma_utf8_len_concat(self.chars@.take(start as int), self.chars@.skip(start as int));
            assert(self.chars@.take(start as int) + self.chars@.skip(start as int) =~= self.chars@);
            let mid = self.chars@.skip(start as int);
            lemma_utf8_len_concat(mid.take(end - start), mid.skip(end - start));
            assert(mid.take(end - start) + mid.skip(end - start) =~= mid);
            assert(self.chars@.subrange(start as int, end as int) =~= mid.take(end - start));
        }
        let mut chars: Vec<char> = Vec::new();
        let mut length: usize = 0;
        let mut i: usize = start;
        while i < end
            invariant
                start <= i <= end,
                end <= self.chars@.len(),
                self.wf(),
                utf8_len(self.chars@.subrange(start as int, end as int)) <= utf8_len(self.chars@),
                chars@ == self.chars@.subrange(start as int, i as int),
                length == utf8_len(chars@),
            decreases end - i,
        {
            proof {
                lemma_utf8_len_push(chars@, self.chars@[i as int]);
                assert(chars@.push(self.chars@[i as int]) =~= self.chars@.subrange(start as int, i + 1));
                let whole = self.chars@.subrange(start as int, end as int);
                lemma_utf8_len_concat(whole.take(i + 1 - start), whole.skip(i + 1 - start));
                assert(whole.take(i + 1 - start) + whole.skip(i + 1 - start) =~= whole);
                assert(whole.take(i + 1 - start) =~= self.chars@.subrange(start as int, i + 1));
            }
            chars.push(self.chars[i]);
            length = length + char_utf8_width(self.chars[i]);
            i = i + 1;
        }
        Text::from_char_vec(chars, length)
    }

    /// How many leading chars end within the first `bytes` bytes of the encoding.
    fn chars_within_bytes(&self, bytes: usize) -> (r: usize)
        ensures
            r == chars_within(self@, bytes as int),
            r <= self@.len(),
    {
        let mut i: usize = 0;
        let mut left: usize = bytes;
        proof {
            assert(self.chars@.subrange(0, self.chars@.len() as int) =~= self.chars@);
        }
        while i < self.chars.len() && char_utf8_width(self.chars[i]) <= left
            invariant
                i <= self.chars@.len(),
                chars_within(self.chars@, bytes as int) == i + chars_within(
                    self.chars@.subrange(i as int, self.chars@.len() as int),
                    left as int,
                ),
            decreases self.chars@.len() - i,
        {
            let w = char_utf8_width(self.chars[i]);
            proof {
                let rest = self.chars@.subrange(i as int, self.chars@.len() as int);
                assert(rest.drop_first() =~= self.chars@.subrange(i + 1, self.chars@.len() as int));
            }
            left = left - w;
            i = i + 1;
        }
        proof {
            lemma_chars_within_bound(self.chars@, bytes as int);
        }
        i
    }

    fn compare(&self, other: &Text) -> (r: Ordering)
        ensures
            r == compare_chars(self@, other@),
    {
        let mut i: usize = 0;
        assert(self.chars@.skip(0) =~= self.chars@);
        assert(other.chars@.skip(0) =~= other.chars@);
        while i < self.chars.len() && i < other.chars.len()
            invariant
                i <= self.chars@.len(),
                i <= other.chars@.len(),
                compare_chars(self.chars@, other.chars@) == compare_chars(
                    self.chars@.skip(i as int),
                    other.chars@.skip(i as int),
                ),
            decreases self.chars@.len() - i,
        {
            let a = self.chars[i] as u32;
            let b = other.chars[i] as u32;
            if a < b {
                return Ordering::Less;
            }
            if a > b {
                return Ordering::Greater;
            }
            assert(self.chars@.skip(i as int).drop_first() =~= self.chars@.skip(i + 1));
            assert(other.chars@.skip(i as int).drop_first() =~= other.chars@.skip(i + 1));
            i = i + 1;
        }
        if i < self.chars.len() {
            Ordering::Greater
        } else if i < other.chars.len() {
            Ordering::Less
        } else {
            Ordering::Equal
        }
    }
}

/// The chars of `texts`, one text after another.
pub open spec fn joined(texts: Seq<Text>) -> Seq<char>
    decreases texts.len(),
{
    if texts.len() == 0 {
        Seq::empty()
    } else {
        joined(texts.drop_last()) + texts.last()@
    }
}

proof fn lemma_joined_prefix(texts: Seq<Text>, i: int)
    requires
        0 < i <= texts.len(),
    ensures
        joined(texts.take(i)) == joined(texts.take(i - 1)) + texts[i - 1]@,
        joined(texts) == joined(texts.take(i)) + joined(texts.skip(i)),
    decreases texts.len(),
{
    assert(texts.take(i).drop_last() =~= texts.take(i - 1));
    lemma_joined_split(texts, i);
}

proof fn lemma_joined_split(texts: Seq<Text>, i: int)
    requires
        0 <= i <= texts.len(),
    ensures
        joined(texts) == joined(texts.take(i)) + joined(texts.skip(i)),
    decreases texts.len(),
{
    if i == texts.len() {
        assert(texts.take(i) =~= texts);
        assert(texts.skip(i) =~= Seq::<Text>::empty());
        assert(joined(texts) + Seq::<char>::empty() =~= joined(texts));
    } else {
        lemma_joined_split(texts.drop_last(), i);
        assert(texts.drop_last().take(i) =~= texts.take(i));
        assert(texts.skip(i).drop_last() =~= texts.drop_last().skip(i));
        assert(texts.skip(i).last() == texts.last());
        assert(joined(texts.take(i)) + joined(texts.skip(i)) =~= joined(texts.take(i)) + joined(
            texts.drop_last().skip(i),
        ) + texts.last()@);
    }
}

proof fn lemma_utf8_len_positive(s: Seq<char>)
    ensures
        utf8_len(s) == 0 <==> s.len() == 0,
{
}

proof fn lemma_chars_within_bound(s: Seq<char>, bytes: int)
    ensures
        chars_within(s, bytes) <= s.len(),
    decreases s.len(),
{
    if s.len() > 0 {
        lemma_chars_within_bound(s.drop_first(), bytes - char_width(s[0]));
    }
}

proof fn lemma_chars_within_monotone(s: Seq<char>, a: int, b: int)
    requires
        a <= b,
    ensures
        chars_within(s, a) <= chars_within(s, b),
    decreases s.len(),
{
    if s.len() > 0 {
        lemma_chars_within_monotone(s.drop_first(), a - char_width(s[0]), b - char_width(s[0]));
    }
}

} // verus!
