//! Text measured in characters and in UTF-8 bytes.
//!
//! A string is modelled by its sequence of characters. Byte offsets are related to that
//! sequence by [`whole_chars`]: the number of characters that fit into a number of bytes.
use vstd::prelude::*;
use vstd::utf8::*;

verus! {

/// The number of bytes of a character's UTF-8 encoding.
pub open spec fn char_width(c: char) -> nat {
    if c as u32 <= 0x7f {
        1
    } else if c as u32 <= 0x7ff {
        2
    } else if c as u32 <= 0xffff {
        3
    } else {
        4
    }
}

/// The number of bytes of a text's UTF-8 encoding.
pub open spec fn byte_len(s: Seq<char>) -> nat {
    encode_utf8(s).len()
}

/// The number of leading characters of `s` whose encodings fit together into `max` bytes.
pub open spec fn whole_chars(s: Seq<char>, max: int) -> nat
    decreases s.len(),
{
    if s.len() == 0 || max < char_width(s[0]) {
        0
    } else {
        1 + whole_chars(s.drop_first(), max - char_width(s[0]))
    }
}

/// The longest prefix of `s` that takes up no more than `max` bytes.
pub open spec fn byte_prefix(s: Seq<char>, max: int) -> Seq<char> {
    s.take(whole_chars(s, max) as int)
}

/// Whether byte `offset` of `s` lies between two characters, or at either end.
pub open spec fn at_boundary(s: Seq<char>, offset: int) -> bool {
    byte_len(byte_prefix(s, offset)) == offset
}

/// What follows byte `offset` of `s`, starting with the first whole character.
pub open spec fn byte_suffix(s: Seq<char>, offset: int) -> Seq<char> {
    if at_boundary(s, offset) || whole_chars(s, offset) == s.len() {
        s.skip(whole_chars(s, offset) as int)
    } else {
        s.skip(whole_chars(s, offset) as int + 1)
    }
}

pub proof fn lemma_scalar_width(c: char)
    ensures
        encode_scalar(c as u32).len() == char_width(c),
        1 <= char_width(c) <= 4,
{
}

/// The byte length of a text grows by each character's width.
pub proof fn lemma_byte_len_unfold(s: Seq<char>)
    requires
        s.len() > 0,
    ensures
        byte_len(s) == char_width(s[0]) + byte_len(s.drop_first()),
{
    lemma_scalar_width(s[0]);
}

pub proof fn lemma_byte_len_empty()
    ensures
        byte_len(Seq::<char>::empty()) == 0,
{
}

/// Encoding distributes over concatenation.
pub proof fn lemma_encode_concat(a: Seq<char>, b: Seq<char>)
    ensures
        encode_utf8(a + b) == encode_utf8(a) + encode_utf8(b),
        byte_len(a + b) == byte_len(a) + byte_len(b),
    decreases a.len(),
{
    if a.len() == 0 {
        assert(a + b =~= b);
        assert(encode_utf8(a) + encode_utf8(b) =~= encode_utf8(b));
    } else {
        lemma_encode_concat(a.drop_first(), b);
        assert((a + b).drop_first() =~= a.drop_first() + b);
        assert(encode_utf8(a + b) =~= encode_utf8(a) + encode_utf8(b));
    }
}

pub proof fn lemma_byte_len_push(s: Seq<char>, c: char)
    ensures
        byte_len(s.push(c)) == byte_len(s) + char_width(c),
{
    assert(s.push(c) =~= s + seq![c]);
    lemma_encode_concat(s, seq![c]);
    lemma_byte_len_unfold(seq![c]);
    assert(seq![c].drop_first() =~= Seq::<char>::empty());
}

/// A text has at least as many bytes as characters, and at most four times as many.
pub proof fn lemma_byte_len_bounds(s: Seq<char>)
    ensures
        s.len() <= byte_len(s) <= 4 * s.len(),
    decreases s.len(),
{
    if s.len() > 0 {
        lemma_byte_len_unfold(s);
        lemma_byte_len_bounds(s.drop_first());
        lemma_scalar_width(s[0]);
    }
}

/// Prefixes are ordered by their byte lengths.
pub proof fn lemma_take_monotone(s: Seq<char>, i: int, j: int)
    requires
        0 <= i <= j <= s.len(),
    ensures
        byte_len(s.take(i)) + (j - i) <= byte_len(s.take(j)),
{
    let middle = s.subrange(i, j);
    assert(s.take(j) =~= s.take(i) + middle);
    lemma_encode_concat(s.take(i), middle);
    lemma_byte_len_bounds(middle);
}

/// `whole_chars` counts the longest prefix that fits.
pub proof fn lemma_whole_chars(s: Seq<char>, max: int)
    ensures
        whole_chars(s, max) <= s.len(),
        max >= 0 ==> byte_len(byte_prefix(s, max)) <= max,
        max < 0 ==> whole_chars(s, max) == 0,
        forall|k: int| 0 <= k <= s.len() && #[trigger] byte_len(s.take(k)) <= max ==> k <= whole_chars(s, max),
    decreases s.len(),
{
    lemma_byte_len_empty();
    if s.len() == 0 || max < char_width(s[0]) {
        assert(byte_prefix(s, max) =~= Seq::<char>::empty());
        assert forall|k: int| 0 <= k <= s.len() && #[trigger] byte_len(s.take(k)) <= max implies k <= 0 by {
            if k > 0 {
                lemma_byte_len_unfold(s.take(k));
            }
        }
    } else {
        let rest = s.drop_first();
        let left = max - char_width(s[0]);
        lemma_whole_chars(rest, left);
        let n = whole_chars(s, max) as int;
        assert(s.take(n).drop_first() =~= rest.take(n - 1));
        lemma_byte_len_unfold(s.take(n));
        assert forall|k: int| 0 <= k <= s.len() && #[trigger] byte_len(s.take(k)) <= max implies k <= n by {
            if k > 0 {
                lemma_byte_len_unfold(s.take(k));
                assert(s.take(k).drop_first() =~= rest.take(k - 1));
                assert(byte_len(rest.take(k - 1)) <= left);
            }
        }
    }
}

/// Whole-character prefixes are found again from their byte length.
pub proof fn lemma_whole_chars_of_prefix(s: Seq<char>, k: int)
    requires
        0 <= k <= s.len(),
    ensures
        whole_chars(s, byte_len(s.take(k)) as int) == k,
        at_boundary(s, byte_len(s.take(k)) as int),
{
    let max = byte_len(s.take(k)) as int;
    lemma_whole_chars(s, max);
    let n = whole_chars(s, max) as int;
    assert(k <= n);
    lemma_take_monotone(s, k, n);
}

pub proof fn lemma_whole_chars_monotone(s: Seq<char>, a: int, b: int)
    requires
        a <= b,
    ensures
        whole_chars(s, a) <= whole_chars(s, b),
{
    lemma_whole_chars(s, a);
    lemma_whole_chars(s, b);
    if a >= 0 {
        assert(byte_len(s.take(whole_chars(s, a) as int)) <= b);
    }
}

/// All of a text fits into its own byte length.
pub proof fn lemma_whole_chars_all(s: Seq<char>, max: int)
    requires
        byte_len(s) <= max,
    ensures
        whole_chars(s, max) == s.len(),
        byte_prefix(s, max) == s,
{
    lemma_whole_chars(s, max);
    assert(s.take(s.len() as int) =~= s);
    assert(byte_len(s.take(s.len() as int)) <= max);
}

/// The library's boundaries are those of the encoded bytes.
pub proof fn lemma_boundary(s: Seq<char>, offset: int)
    ensures
        is_char_boundary(encode_utf8(s), offset) <==> at_boundary(s, offset),
    decreases s.len(),
{
    let bytes = encode_utf8(s);
    encode_utf8_valid_utf8(s);
    lemma_byte_len_empty();
    lemma_whole_chars(s, offset);
    if offset == 0 {
        assert(byte_prefix(s, 0) =~= Seq::<char>::empty()) by {
            if s.len() > 0 {
                lemma_scalar_width(s[0]);
            }
        }
    } else if offset < 0 {
    } else if s.len() == 0 {
        assert(byte_prefix(s, offset) =~= Seq::<char>::empty());
    } else {
        let rest = s.drop_first();
        let w = char_width(s[0]) as int;
        lemma_scalar_width(s[0]);
        encode_utf8_first_scalar(s);
        assert(pop_first_scalar(bytes) =~= encode_utf8(rest));
        lemma_boundary(rest, offset - w);
        encode_utf8_valid_utf8(rest);
        if bytes.len() < offset {
            lemma_take_monotone(s, whole_chars(s, offset) as int, s.len() as int);
            assert(s.take(s.len() as int) =~= s);
        } else if offset < w {
            assert(byte_prefix(s, offset) =~= Seq::<char>::empty());
            assert(!is_char_boundary(encode_utf8(rest), offset - w));
        } else {
            let n = whole_chars(s, offset) as int;
            assert(s.take(n).drop_first() =~= rest.take(n - 1));
            lemma_byte_len_unfold(s.take(n));
        }
    }
}

/// Two texts with the same encoding are the same.
pub proof fn lemma_encode_injective(a: Seq<char>, b: Seq<char>)
    requires
        encode_utf8(a) == encode_utf8(b),
    ensures
        a == b,
{
    encode_utf8_decode_utf8(a);
    encode_utf8_decode_utf8(b);
}

/// The byte length of a text.
pub fn byte_count(s: &str) -> (n: usize)
    ensures
        n == byte_len(s@),
{
    s.as_bytes().len()
}

/// Whether `offset` lies on a character boundary of `s`.
pub fn on_boundary(s: &str, offset: usize) -> (yes: bool)
    ensures
        yes == at_boundary(s@, offset as int),
{
    proof {
        lemma_boundary(s@, offset as int);
    }
    s.is_char_boundary(offset)
}

/// Splits a text at a character boundary.
pub fn split_text(s: &str, offset: usize) -> (parts: (&str, &str))
    requires
        at_boundary(s@, offset as int),
    ensures
        parts.0@ == byte_prefix(s@, offset as int),
        parts.1@ == s@.skip(whole_chars(s@, offset as int) as int),
{
    let ghost k = whole_chars(s@, offset as int) as int;
    proof {
        lemma_boundary(s@, offset as int);
        lemma_whole_chars(s@, offset as int);
    }
    let parts = s.split_at(offset);
    proof {
        assert(s@ =~= s@.take(k) + s@.skip(k));
        lemma_encode_concat(s@.take(k), s@.skip(k));
        assert(encode_utf8(parts.0@) =~= encode_utf8(s@.take(k)));
        assert(encode_utf8(parts.1@) =~= encode_utf8(s@.skip(k)));
        lemma_encode_injective(parts.0@, s@.take(k));
        lemma_encode_injective(parts.1@, s@.skip(k));
    }
    parts
}

/// The last character boundary at or before `max`.
pub fn floor_boundary(s: &str, max: usize) -> (end: usize)
    ensures
        end == byte_len(byte_prefix(s@, max as int)),
        end <= max,
        end <= byte_len(s@),
        at_boundary(s@, end as int),
        whole_chars(s@, end as int) == whole_chars(s@, max as int),
{
    let len: usize = byte_count(s);
    let mut end: usize = if len < max { len } else { max };
    let ghost best = byte_len(byte_prefix(s@, max as int)) as int;
    proof {
        lemma_whole_chars(s@, max as int);
        lemma_take_monotone(s@, whole_chars(s@, max as int) as int, s@.len() as int);
        assert(s@.take(s@.len() as int) =~= s@);
        lemma_whole_chars_of_prefix(s@, whole_chars(s@, max as int) as int);
    }
    while !on_boundary(s, end)
        invariant
            best <= end <= max,
            end <= byte_len(s@),
            at_boundary(s@, best),
            0 <= best,
        decreases end,
    {
        end = end - 1;
    }
    proof {
        lemma_whole_chars_monotone(s@, end as int, max as int);
        lemma_whole_chars(s@, end as int);
        lemma_whole_chars(s@, max as int);
        lemma_take_monotone(s@, whole_chars(s@, end as int) as int, whole_chars(s@, max as int) as int);
    }
    end
}

/// The first character boundary at or after `min`, for an offset within the text.
pub fn ceil_boundary(s: &str, min: usize) -> (start: usize)
    requires
        min <= byte_len(s@),
    ensures
        min <= start <= byte_len(s@),
        at_boundary(s@, start as int),
        s@.skip(whole_chars(s@, start as int) as int) == byte_suffix(s@, min as int),
        forall|k: int| 0 <= k <= s@.len() && #[trigger] byte_len(s@.take(k)) >= min ==> byte_len(s@.take(k)) >= start,
{
    let len: usize = byte_count(s);
    let mut start: usize = min;
    let ghost n = whole_chars(s@, min as int) as int;
    let ghost m = if at_boundary(s@, min as int) || n == s@.len() { n } else { n + 1 };
    let ghost best = byte_len(s@.take(m)) as int;
    proof {
        lemma_whole_chars(s@, min as int);
        assert(s@.take(s@.len() as int) =~= s@);
        if n == s@.len() {
            assert(byte_prefix(s@, min as int) =~= s@);
        } else if !at_boundary(s@, min as int) {
            assert(best > min);
        }
        lemma_whole_chars_of_prefix(s@, m);
        lemma_take_monotone(s@, m, s@.len() as int);
    }
    while !on_boundary(s, start)
        invariant
            min <= start <= best <= len,
            len == byte_len(s@),
            at_boundary(s@, best),
        decreases best - start,
    {
        start = start + 1;
    }
    proof {
        let k = whole_chars(s@, start as int) as int;
        lemma_whole_chars(s@, start as int);
        assert(byte_len(s@.take(k)) == start);
        if k < m {
            assert(m == n + 1 || k < n);
            lemma_take_monotone(s@, k, n);
            lemma_whole_chars_of_prefix(s@, n);
            assert(byte_len(s@.take(n)) <= min);
            assert(start <= min);
            assert(at_boundary(s@, min as int));
        }
        if k > m {
            lemma_take_monotone(s@, m, k);
        }
        assert(k == m);
        assert forall|j: int| 0 <= j <= s@.len() && #[trigger] byte_len(s@.take(j)) >= min implies byte_len(
            s@.take(j),
        ) >= start by {
            if j < m {
                lemma_take_monotone(s@, j, m);
                if m == n + 1 {
                    lemma_take_monotone(s@, j, n);
                }
            } else {
                lemma_take_monotone(s@, m, j);
            }
        }
    }
    start
}

/// Keeps the longest prefix of `value` that fits into `max_bytes`.
pub fn truncate_utf8_bytes(value: &str, max_bytes: usize) -> (kept: String)
    ensures
        kept@ == byte_prefix(value@, max_bytes as int),
{
    let end: usize = floor_boundary(value, max_bytes);
    split_text(value, end).0.to_string()
}

/// Whether every character of `s` is ASCII.
pub open spec fn all_ascii(s: Seq<char>) -> bool {
    forall|i: int| 0 <= i < s.len() ==> (#[trigger] s[i]) as u32 <= 0x7f
}

/// An ASCII text takes up one byte per character.
pub proof fn lemma_ascii_byte_len(s: Seq<char>)
    requires
        all_ascii(s),
    ensures
        byte_len(s) == s.len(),
    decreases s.len(),
{
    if s.len() > 0 {
        lemma_byte_len_unfold(s);
        assert(s[0] as u32 <= 0x7f);
        assert(all_ascii(s.drop_first())) by {
            assert forall|i: int| 0 <= i < s.drop_first().len() implies (#[trigger] s.drop_first()[i]) as u32 <= 0x7f by {
                assert(s.drop_first()[i] == s[i + 1]);
            }
        }
        lemma_ascii_byte_len(s.drop_first());
    }
}

/// The Unicode `White_Space` property.
pub open spec fn is_space(c: char) -> bool {
    let u = c as u32;
    ||| 0x9 <= u <= 0xd
    ||| u == 0x20
    ||| u == 0x85
    ||| u == 0xa0
    ||| u == 0x1680
    ||| 0x2000 <= u <= 0x200a
    ||| u == 0x2028
    ||| u == 0x2029
    ||| u == 0x202f
    ||| u == 0x205f
    ||| u == 0x3000
}

/// Whether a text holds nothing but white space.
pub open spec fn blank(s: Seq<char>) -> bool {
    forall|i: int| 0 <= i < s.len() ==> is_space(#[trigger] s[i])
}

/// A text without its leading white space.
pub open spec fn trimmed_start(s: Seq<char>) -> Seq<char>
    decreases s.len(),
{
    if s.len() > 0 && is_space(s[0]) {
        trimmed_start(s.drop_first())
    } else {
        s
    }
}

/// A text without its trailing white space.
pub open spec fn trimmed_end(s: Seq<char>) -> Seq<char>
    decreases s.len(),
{
    if s.len() > 0 && is_space(s.last()) {
        trimmed_end(s.drop_last())
    } else {
        s
    }
}

/// A text without its surrounding white space.
pub open spec fn trimmed(s: Seq<char>) -> Seq<char> {
    trimmed_end(trimmed_start(s))
}

/// A text is blank exactly when trimming leaves nothing of it.
pub proof fn law_blank_trims_to_nothing(s: Seq<char>)
    ensures
        blank(s) <==> trimmed(s).len() == 0,
{
    lemma_trimmed_start(s);
    lemma_trimmed_end(trimmed_start(s));
}

proof fn lemma_trimmed_start(s: Seq<char>)
    ensures
        trimmed_start(s).len() <= s.len(),
        trimmed_start(s) == s.skip(s.len() - trimmed_start(s).len()),
        trimmed_start(s).len() > 0 ==> !is_space(trimmed_start(s)[0]),
        trimmed_start(s).len() == 0 <==> blank(s),
        forall|i: int| 0 <= i < s.len() - trimmed_start(s).len() ==> is_space(#[trigger] s[i]),
    decreases s.len(),
{
    if s.len() > 0 && is_space(s[0]) {
        let rest = s.drop_first();
        lemma_trimmed_start(rest);
        assert(rest.skip(rest.len() - trimmed_start(rest).len()) =~= s.skip(s.len() - trimmed_start(s).len()));
        assert forall|i: int| 0 <= i < s.len() - trimmed_start(s).len() implies is_space(#[trigger] s[i]) by {
            if i > 0 {
                assert(s[i] == rest[i - 1]);
            }
        }
        if trimmed_start(s).len() == 0 {
            assert(blank(s));
        }
        if blank(s) {
            assert forall|i: int| 0 <= i < rest.len() implies is_space(#[trigger] rest[i]) by {
                assert(rest[i] == s[i + 1]);
            }
        }
    } else {
        assert(s.skip(0) =~= s);
    }
}

proof fn lemma_trimmed_end(s: Seq<char>)
    ensures
        trimmed_end(s).len() <= s.len(),
        trimmed_end(s) == s.take(trimmed_end(s).len() as int),
        trimmed_end(s).len() > 0 ==> !is_space(trimmed_end(s).last()),
        trimmed_end(s).len() == 0 <==> blank(s),
        forall|i: int| trimmed_end(s).len() <= i < s.len() ==> is_space(#[trigger] s[i]),
    decreases s.len(),
{
    if s.len() > 0 && is_space(s.last()) {
        let rest = s.drop_last();
        lemma_trimmed_end(rest);
        assert forall|i: int| trimmed_end(s).len() <= i < s.len() implies is_space(#[trigger] s[i]) by {
            if i < rest.len() {
                assert(s[i] == rest[i]);
            }
        }
        assert(rest.take(trimmed_end(rest).len() as int) =~= s.take(trimmed_end(s).len() as int));
        if blank(rest) {
            assert forall|i: int| 0 <= i < s.len() implies is_space(#[trigger] s[i]) by {
                if i < rest.len() {
                    assert(s[i] == rest[i]);
                }
            }
        }
        if blank(s) {
            assert forall|i: int| 0 <= i < rest.len() implies is_space(#[trigger] rest[i]) by {
                assert(rest[i] == s[i]);
            }
        }
    } else {
        assert(s.take(s.len() as int) =~= s);
        if s.len() > 0 {
            assert(s[s.len() - 1] == s.last());
        }
    }
}

/// Whether a character has the `White_Space` property.
pub fn is_white_space(c: char) -> (yes: bool)
    ensures
        yes == is_space(c),
{
    let u: u32 = c as u32;
    (0x9 <= u && u <= 0xd) || u == 0x20 || u == 0x85 || u == 0xa0 || u == 0x1680 || (0x2000 <= u && u <= 0x200a)
        || u == 0x2028 || u == 0x2029 || u == 0x202f || u == 0x205f || u == 0x3000
}

/// The characters of a text.
pub fn chars_of(s: &str) -> (chars: Vec<char>)
    ensures
        chars@ == s@,
{
    let mut chars: Vec<char> = Vec::new();
    for c in it: s.chars()
        invariant
            it.seq() == s@,
            chars@ == s@.take(it.index()),
    {
        chars.push(c);
        assert(s@.take(it.index() as int + 1) =~= s@.take(it.index() as int).push(c));
    }
    assert(s@.take(s@.len() as int) =~= s@);
    chars
}

/// Whether a text holds nothing but white space.
pub fn is_blank(s: &str) -> (yes: bool)
    ensures
        yes == blank(s@),
{
    let chars: Vec<char> = chars_of(s);
    let mut i: usize = 0;
    while i < chars.len()
        invariant
            i <= chars.len(),
            chars@ == s@,
            forall|j: int| 0 <= j < i ==> is_space(#[trigger] s@[j]),
        decreases chars.len() - i,
    {
        if !is_white_space(chars[i]) {
            assert(!is_space(s@[i as int]));
            return false;
        }
        i = i + 1;
    }
    true
}

/// A text without its surrounding white space.
pub fn trim_text(s: &str) -> (kept: String)
    ensures
        kept@ == trimmed(s@),
{
    let chars: Vec<char> = chars_of(s);
    let mut start: usize = 0;
    proof {
        lemma_trimmed_start(s@);
        lemma_trimmed_end(trimmed_start(s@));
        assert(s@.skip(0) =~= s@);
    }
    while start < chars.len() && is_white_space(chars[start])
        invariant
            start <= chars.len(),
            chars@ == s@,
            trimmed_start(s@.skip(start as int)) == trimmed_start(s@),
        decreases chars.len() - start,
    {
        assert(s@.skip(start as int).drop_first() =~= s@.skip(start as int + 1));
        start = start + 1;
    }
    assert(trimmed_start(s@) == s@.skip(start as int));
    let mut end: usize = chars.len();
    assert(s@.subrange(start as int, end as int) =~= s@.skip(start as int));
    while end > start && is_white_space(chars[end - 1])
        invariant
            start <= end <= chars.len(),
            chars@ == s@,
            trimmed_end(s@.subrange(start as int, end as int)) == trimmed(s@),
        decreases end,
    {
        assert(s@.subrange(start as int, end as int).drop_last() =~= s@.subrange(start as int, end as int - 1));
        end = end - 1;
    }
    s.substring_char(start, end).to_string()
}

/// The first `max` characters of a text.
pub fn take_chars(s: &str, max: usize) -> (kept: String)
    ensures
        kept@ == s@.take(if max < s@.len() { max as int } else { s@.len() as int }),
{
    let len: usize = s.unicode_len();
    s.substring_char(0, if max < len { max } else { len }).to_string()
}

/// The last `max` characters of a text.
pub fn last_chars(s: &str, max: usize) -> (kept: String)
    ensures
        kept@ == s@.skip(if max < s@.len() { s@.len() - max } else { 0 }),
{
    let len: usize = s.unicode_len();
    let kept = s.substring_char(if max < len { len - max } else { 0 }, len).to_string();
    assert(kept@ =~= s@.skip(if max < s@.len() { s@.len() - max } else { 0 }));
    kept
}

/// Whether two texts are the same.
pub fn same_text(a: &str, b: &str) -> (yes: bool)
    ensures
        yes == (a@ == b@),
{
    let x: &[u8] = a.as_bytes();
    let y: &[u8] = b.as_bytes();
    if x.len() != y.len() {
        return false;
    }
    let mut i: usize = 0;
    while i < x.len()
        invariant
            x@ == encode_utf8(a@),
            y@ == encode_utf8(b@),
            x@.len() == y@.len(),
            i <= x@.len(),
            forall|j: int| 0 <= j < i ==> x@[j] == y@[j],
        decreases x@.len() - i,
    {
        if x[i] != y[i] {
            assert(x@[i as int] != y@[i as int]);
            return false;
        }
        i = i + 1;
    }
    proof {
        assert(x@ =~= y@);
        lemma_encode_injective(a@, b@);
    }
    true
}

/// The character of a decimal digit.
pub open spec fn digit(d: nat) -> char {
    (48 + d) as char
}

/// The decimal numeral of a natural number.
pub open spec fn decimal(n: nat) -> Seq<char>
    decreases n,
{
    if n < 10 {
        seq![digit(n)]
    } else {
        decimal(n / 10).push(digit(n % 10))
    }
}

/// The decimal numeral of an integer.
pub open spec fn signed_decimal(n: int) -> Seq<char> {
    if n < 0 {
        seq!['-'] + decimal((-n) as nat)
    } else {
        decimal(n as nat)
    }
}

/// The powers of ten.
pub open spec fn ten_to(k: nat) -> nat
    decreases k,
{
    if k == 0 {
        1
    } else {
        10 * ten_to((k - 1) as nat)
    }
}

/// A number below `ten_to(k)` is written with at most `k` ASCII digits.
pub proof fn lemma_decimal_len(n: nat, k: nat)
    requires
        k >= 1,
        n < ten_to(k),
    ensures
        1 <= decimal(n).len() <= k,
        all_ascii(decimal(n)),
    decreases k,
{
    if n >= 10 {
        reveal_with_fuel(ten_to, 2);
        assert(k >= 2);
        lemma_decimal_len(n / 10, (k - 1) as nat);
    }
}

proof fn lemma_decimal_ascii(n: nat)
    ensures
        all_ascii(decimal(n)),
        decimal(n).len() >= 1,
    decreases n,
{
    if n >= 10 {
        lemma_decimal_ascii(n / 10);
    }
}

fn digit_text(d: u128) -> (text: &'static str)
    requires
        d < 10,
    ensures
        text@ == seq![digit(d as nat)],
{
    proof {
        reveal_strlit("0");
        reveal_strlit("1");
        reveal_strlit("2");
        reveal_strlit("3");
        reveal_strlit("4");
        reveal_strlit("5");
        reveal_strlit("6");
        reveal_strlit("7");
        reveal_strlit("8");
        reveal_strlit("9");
    }
    let text: &'static str = if d == 0 {
        "0"
    } else if d == 1 {
        "1"
    } else if d == 2 {
        "2"
    } else if d == 3 {
        "3"
    } else if d == 4 {
        "4"
    } else if d == 5 {
        "5"
    } else if d == 6 {
        "6"
    } else if d == 7 {
        "7"
    } else if d == 8 {
        "8"
    } else {
        "9"
    };
    assert(text@ =~= seq![digit(d as nat)]);
    text
}

/// Appends the decimal numeral of `n`.
pub fn append_decimal(out: &mut String, n: u128)
    ensures
        final(out)@ == old(out)@ + decimal(n as nat),
    decreases n,
{
    let ghost before = out@;
    if n >= 10 {
        append_decimal(out, n / 10);
    }
    out.append(digit_text(n % 10));
    assert(out@ =~= before + decimal(n as nat));
}

/// Appends the decimal numeral of `n`, with its sign where it is negative.
pub fn append_signed_decimal(out: &mut String, n: i128)
    ensures
        final(out)@ == old(out)@ + signed_decimal(n as int),
{
    let ghost before = out@;
    if n < 0 {
        proof {
            reveal_strlit("-");
        }
        out.append("-");
        let below: i128 = -(n + 1);
        append_decimal(out, below as u128 + 1);
        assert("-"@ =~= seq!['-']);
        assert(out@ =~= before + (seq!['-'] + decimal((-n) as nat)));
    } else {
        append_decimal(out, n as u128);
    }
}

/// Trimming takes white space away from both ends and nothing else: what is left neither begins nor
/// ends with white space.
pub proof fn law_trimming_takes_white_space_alone(s: Seq<char>)
    ensures
        exists|lead: Seq<char>, trail: Seq<char>|
            s == #[trigger] (lead + trimmed(s) + trail) && blank(lead) && blank(trail),
        trimmed(s).len() > 0 ==> !is_space(trimmed(s)[0]) && !is_space(trimmed(s).last()),
{
    let t = trimmed_start(s);
    let kept = trimmed(s);
    lemma_trimmed_start(s);
    lemma_trimmed_end(t);
    let lead = s.take(s.len() - t.len());
    let trail = t.skip(kept.len() as int);
    assert(lead + kept + trail =~= s);
    assert(blank(lead));
    assert(blank(trail));
}

/// The number that a text of decimal digits stands for.
pub open spec fn number_of_digits(digits: Seq<char>) -> nat
    decreases digits.len(),
{
    if digits.len() == 0 {
        0
    } else {
        number_of_digits(digits.drop_last()) * 10 + (digits.last() as u32 - 48) as nat
    }
}

/// A number is written in decimal digits that stand for it, without a leading zero.
pub proof fn law_a_number_reads_back(n: nat)
    ensures
        number_of_digits(decimal(n)) == n,
        forall|i: int| 0 <= i < decimal(n).len() ==> '0' <= #[trigger] decimal(n)[i] <= '9',
        decimal(n).len() >= 1,
        n > 0 ==> decimal(n)[0] != '0',
    decreases n,
{
    let d = digit(n % 10);
    assert(d as u32 == 48 + n % 10);
    if n < 10 {
        assert(decimal(n) =~= seq![d]);
        assert(decimal(n).drop_last() =~= Seq::<char>::empty());
        assert(number_of_digits(Seq::<char>::empty()) == 0);
    } else {
        law_a_number_reads_back(n / 10);
        assert(decimal(n).drop_last() =~= decimal(n / 10));
        assert(decimal(n).last() == d);
    }
}

/// The longest start of a text that fits into so many bytes: it is a start, it fits, and with one more
/// character it would not.
pub proof fn law_a_prefix_is_the_longest_that_fits(s: Seq<char>, max: int)
    requires
        max >= 0,
    ensures
        byte_prefix(s, max).len() <= s.len(),
        byte_prefix(s, max) == s.take(byte_prefix(s, max).len() as int),
        encode_utf8(byte_prefix(s, max)).len() <= max,
        byte_prefix(s, max).len() < s.len() ==> encode_utf8(s.take(byte_prefix(s, max).len() as int + 1)).len() > max,
{
    lemma_whole_chars(s, max);
    let n = whole_chars(s, max) as int;
    if n < s.len() && byte_len(s.take(n + 1)) <= max {
        assert(n + 1 <= whole_chars(s, max));
    }
}

} // verus!
