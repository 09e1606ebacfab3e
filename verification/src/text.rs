//! Helpers on bytes and text that the parsers share.

use vstd::prelude::*;
use vstd::utf8::{decode_utf8, encode_utf8, encode_utf8_decode_utf8, valid_utf8};

verus! {

/// Whether two runs of bytes are the same.
pub fn bytes_eq(a: &[u8], b: &[u8]) -> (r: bool)
    ensures
        r == (a@ == b@),
{
    if a.len() != b.len() {
        return false;
    }
    let mut i: usize = 0;
    while i < a.len()
        invariant
            i <= a.len(),
            a.len() == b.len(),
            a@.subrange(0, i as int) == b@.subrange(0, i as int),
        decreases a.len() - i,
    {
        if a[i] != b[i] {
            return false;
        }
        assert(a@.subrange(0, i + 1) =~= a@.subrange(0, i as int).push(a@[i as int]));
        assert(b@.subrange(0, i + 1) =~= b@.subrange(0, i as int).push(b@[i as int]));
        i = i + 1;
    }
    assert(a@ =~= a@.subrange(0, i as int));
    assert(b@ =~= b@.subrange(0, i as int));
    true
}

/// Two texts with the same UTF-8 bytes are the same text.
pub proof fn lemma_same_bytes_same_text(a: Seq<char>, b: Seq<char>)
    requires
        encode_utf8(a) == encode_utf8(b),
    ensures
        a == b,
{
    encode_utf8_decode_utf8(a);
    encode_utf8_decode_utf8(b);
}

/// Whether two texts are the same.
pub fn str_eq(a: &str, b: &str) -> (r: bool)
    ensures
        r == (a@ == b@),
{
    let r = bytes_eq(a.as_bytes(), b.as_bytes());
    proof {
        if r {
            lemma_same_bytes_same_text(a@, b@);
        }
    }
    r
}

/// The text that `String::from_utf8_lossy` makes of bytes: the text they
/// encode where they are valid UTF-8, and else that text with a replacement
/// character for each invalid run.
pub uninterp spec fn utf8_lossy(bytes: Seq<u8>) -> Seq<char>;

/// `String::from_utf8_lossy`, made an owned string. Valid UTF-8 is decoded
/// as it stands.
#[verifier::external_body]
pub(crate) fn lossy_string(bytes: &[u8]) -> (r: String)
    ensures
        r@ == utf8_lossy(bytes@),
        valid_utf8(bytes@) ==> r@ == decode_utf8(bytes@),
{
    String::from_utf8_lossy(bytes).into_owned()
}

/// `std::str::from_utf8`: the text that bytes encode, where they are valid
/// UTF-8.
#[verifier::external_body]
pub(crate) fn str_from_utf8(bytes: &[u8]) -> (r: Option<&str>)
    ensures
        r is Some <==> valid_utf8(bytes@),
        r is Some ==> r.unwrap()@ == decode_utf8(bytes@),
{
    std::str::from_utf8(bytes).ok()
}

/// `str::contains` with a text as the pattern: whether `needle` stands
/// somewhere in `hay`.
#[verifier::external_body]
pub(crate) fn text_contains(hay: &str, needle: &str) -> (r: bool)
    ensures
        r == (first_occurrence(hay@, needle@, 0) is Some),
{
    hay.contains(needle)
}

/// `String::from_iter` over characters: the string that holds exactly the
/// given characters, in their order.
#[verifier::external_body]
pub(crate) fn string_from_chars(chars: &[char]) -> (r: String)
    ensures
        r@ == chars@,
{
    String::from_iter(chars.iter())
}

/// The text that `str::to_lowercase` makes of a text.
pub uninterp spec fn lowercase(text: Seq<char>) -> Seq<char>;

/// `str::to_lowercase`: the text in lower case, as Unicode defines it.
#[verifier::external_body]
pub(crate) fn to_lowercase(s: &str) -> (r: String)
    ensures
        r@ == lowercase(s@),
{
    s.to_lowercase()
}

/// The characters of a text.
pub fn chars_of(s: &str) -> (r: Vec<char>)
    ensures
        r@ == s@,
{
    let mut v: Vec<char> = Vec::new();
    for c in it: s.chars()
        invariant
            v@ == it.seq().subrange(0, it.index() as int),
            it.seq() == s@,
    {
        v.push(c);
    }
    assert(v@ =~= s@);
    v
}

/// The first position at or after `from` at which the byte `b` stands in
/// `s`, or the length of `s` where it stands nowhere.
pub open spec fn spec_find_byte(s: Seq<u8>, from: int, b: u8) -> int
    decreases s.len() - from,
{
    if from < 0 || from >= s.len() {
        s.len() as int
    } else if s[from] == b {
        from
    } else {
        spec_find_byte(s, from + 1, b)
    }
}

/// The first position at or after `from` at which `a` or `b` stands in `s`,
/// or the length of `s`.
pub open spec fn spec_find_either(s: Seq<u8>, from: int, a: u8, b: u8) -> int
    decreases s.len() - from,
{
    if from < 0 || from >= s.len() {
        s.len() as int
    } else if s[from] == a || s[from] == b {
        from
    } else {
        spec_find_either(s, from + 1, a, b)
    }
}

/// Where the first `a` or `b` at or after `from` stands.
pub proof fn lemma_find_either(s: Seq<u8>, from: int, a: u8, b: u8)
    requires
        0 <= from <= s.len(),
    ensures
        from <= spec_find_either(s, from, a, b) <= s.len(),
        spec_find_either(s, from, a, b) < s.len() ==> s[spec_find_either(s, from, a, b)] == a
            || s[spec_find_either(s, from, a, b)] == b,
        forall|k: int| from <= k < spec_find_either(s, from, a, b) ==> s[k] != a && s[k] != b,
    decreases s.len() - from,
{
    if from < s.len() && !(s[from] == a || s[from] == b) {
        lemma_find_either(s, from + 1, a, b);
    }
}

/// Finding one byte is finding either of two equal bytes.
pub proof fn lemma_find_byte_is_find_either(s: Seq<u8>, from: int, b: u8)
    requires
        0 <= from <= s.len(),
    ensures
        spec_find_byte(s, from, b) == spec_find_either(s, from, b, b),
    decreases s.len() - from,
{
    if from < s.len() && s[from] != b {
        lemma_find_byte_is_find_either(s, from + 1, b);
    }
}

/// The first position at or after `from` at which `a` or `b` stands.
pub fn find_either(s: &[u8], from: usize, a: u8, b: u8) -> (end: usize)
    requires
        from <= s.len(),
    ensures
        end == spec_find_either(s@, from as int, a, b),
        from <= end <= s.len(),
{
    let mut i: usize = from;
    while i < s.len() && s[i] != a && s[i] != b
        invariant
            from <= i <= s.len(),
            spec_find_either(s@, from as int, a, b) == spec_find_either(s@, i as int, a, b),
        decreases s.len() - i,
    {
        i = i + 1;
    }
    i
}

/// The first position at or after `from` at which `b` stands.
pub fn find_byte(s: &[u8], from: usize, b: u8) -> (end: usize)
    requires
        from <= s.len(),
    ensures
        end == spec_find_byte(s@, from as int, b),
        from <= end <= s.len(),
{
    proof {
        lemma_find_byte_is_find_either(s@, from as int, b);
    }
    find_either(s, from, b, b)
}

/// The first position at or after `from` at which the bytes `a` and `b`
/// stand one after the other in `s`, or the length of `s`.
pub open spec fn spec_find_pair(s: Seq<u8>, from: int, a: u8, b: u8) -> int
    decreases s.len() - from,
{
    if from < 0 || from + 1 >= s.len() {
        s.len() as int
    } else if s[from] == a && s[from + 1] == b {
        from
    } else {
        spec_find_pair(s, from + 1, a, b)
    }
}

/// The first position at or after `from` at which `a` and `b` stand one
/// after the other.
pub fn find_pair(s: &[u8], from: usize, a: u8, b: u8) -> (end: usize)
    requires
        from <= s.len(),
    ensures
        end == spec_find_pair(s@, from as int, a, b),
        from <= end <= s.len(),
        end < s.len() ==> end + 2 <= s.len(),
{
    if s.len() < 2 {
        return s.len();
    }
    let mut i: usize = from;
    while i < s.len() - 1
        invariant
            from <= i <= s.len(),
            s.len() >= 2,
            spec_find_pair(s@, from as int, a, b) == spec_find_pair(s@, i as int, a, b),
        decreases s.len() - i,
    {
        if s[i] == a && s[i + 1] == b {
            return i;
        }
        i = i + 1;
    }
    s.len()
}

/// The length in bytes of the white-space character whose UTF-8 encoding
/// begins at position `i` of `s`, or 0 where none begins there. White space
/// is what Unicode calls so: U+0009 to U+000D, U+0020, U+0085, U+00A0,
/// U+1680, U+2000 to U+200A, U+2028, U+2029, U+202F, U+205F and U+3000.
pub open spec fn whitespace_len(s: Seq<u8>, i: int) -> int {
    if i < 0 || i >= s.len() {
        0
    } else if s[i] == 0x20 || (0x09 <= s[i] <= 0x0d) {
        1
    } else if i + 1 < s.len() && s[i] == 0xc2 && (s[i + 1] == 0x85 || s[i + 1] == 0xa0) {
        2
    } else if i + 2 < s.len() && s[i] == 0xe1 && s[i + 1] == 0x9a && s[i + 2] == 0x80 {
        3
    } else if i + 2 < s.len() && s[i] == 0xe2 && s[i + 1] == 0x80 && ((0x80 <= s[i + 2] <= 0x8a)
        || s[i + 2] == 0xa8 || s[i + 2] == 0xa9 || s[i + 2] == 0xaf) {
        3
    } else if i + 2 < s.len() && s[i] == 0xe2 && s[i + 1] == 0x81 && s[i + 2] == 0x9f {
        3
    } else if i + 2 < s.len() && s[i] == 0xe3 && s[i + 1] == 0x80 && s[i + 2] == 0x80 {
        3
    } else {
        0
    }
}

/// The position of the first byte at or after `from` that begins no
/// white-space character.
pub open spec fn spec_skip_whitespace(s: Seq<u8>, from: int) -> int
    decreases s.len() - from,
{
    if whitespace_len(s, from) > 0 {
        spec_skip_whitespace(s, from + whitespace_len(s, from))
    } else {
        from
    }
}

/// The length in bytes of the white-space character that begins at `i`.
pub fn whitespace_at(s: &[u8], i: usize) -> (n: usize)
    ensures
        n == whitespace_len(s@, i as int),
        i + n <= s.len() || n == 0,
{
    if i >= s.len() {
        return 0;
    }
    let b0: u8 = s[i];
    if b0 == 0x20 || (0x09 <= b0 && b0 <= 0x0d) {
        return 1;
    }
    let rest: usize = s.len() - i;
    if rest >= 2 && b0 == 0xc2 && (s[i + 1] == 0x85 || s[i + 1] == 0xa0) {
        return 2;
    }
    if rest >= 3 {
        let b1: u8 = s[i + 1];
        let b2: u8 = s[i + 2];
        if b0 == 0xe1 && b1 == 0x9a && b2 == 0x80 {
            return 3;
        }
        if b0 == 0xe2 && b1 == 0x80 && ((0x80 <= b2 && b2 <= 0x8a) || b2 == 0xa8 || b2 == 0xa9
            || b2 == 0xaf) {
            return 3;
        }
        if b0 == 0xe2 && b1 == 0x81 && b2 == 0x9f {
            return 3;
        }
        if b0 == 0xe3 && b1 == 0x80 && b2 == 0x80 {
            return 3;
        }
    }
    0
}

/// The position of the first byte of `s` that begins no white-space
/// character: where `str::trim_start` lets a text begin.
pub fn skip_whitespace(s: &[u8]) -> (r: usize)
    ensures
        r == spec_skip_whitespace(s@, 0),
        r <= s.len(),
{
    let mut i: usize = 0;
    loop
        invariant
            i <= s.len(),
            spec_skip_whitespace(s@, 0) == spec_skip_whitespace(s@, i as int),
        decreases s.len() - i,
    {
        let n = whitespace_at(s, i);
        if n == 0 {
            return i;
        }
        i = i + n;
    }
}

/// `pat` stands in `hay` at position `i`.
pub open spec fn occurs_at(hay: Seq<char>, pat: Seq<char>, i: int) -> bool {
    &&& 0 <= i
    &&& i + pat.len() <= hay.len()
    &&& hay.subrange(i, i + pat.len()) == pat
}

/// The first position at or after `from` at which `pat` stands in `hay`.
pub open spec fn first_occurrence(hay: Seq<char>, pat: Seq<char>, from: int) -> Option<int>
    decreases hay.len() - from,
{
    if from < 0 || from + pat.len() > hay.len() {
        None
    } else if occurs_at(hay, pat, from) {
        Some(from)
    } else if from < hay.len() {
        first_occurrence(hay, pat, from + 1)
    } else {
        None
    }
}

/// The last position before `end` at which the character `c` stands in `hay`.
pub open spec fn last_index_of(hay: Seq<char>, c: char, end: int) -> Option<int>
    decreases end,
{
    if end <= 0 || end > hay.len() {
        None
    } else if hay[end - 1] == c {
        Some(end - 1)
    } else {
        last_index_of(hay, c, end - 1)
    }
}

/// Whether `pat` stands in `hay` at position `i`.
pub fn matches_at(hay: &[char], pat: &[char], i: usize) -> (r: bool)
    ensures
        r == occurs_at(hay@, pat@, i as int),
{
    if pat.len() > hay.len() || i > hay.len() - pat.len() {
        return false;
    }
    let mut k: usize = 0;
    while k < pat.len()
        invariant
            k <= pat.len(),
            i + pat.len() <= hay.len(),
            hay@.subrange(i as int, i + k) == pat@.subrange(0, k as int),
        decreases pat.len() - k,
    {
        if hay[i + k] != pat[k] {
            assert(hay@.subrange(i as int, i + pat.len())[k as int] != pat@[k as int]);
            return false;
        }
        assert(hay@.subrange(i as int, i + k + 1) =~= hay@.subrange(i as int, i + k).push(
            hay@[i + k],
        ));
        assert(pat@.subrange(0, k + 1) =~= pat@.subrange(0, k as int).push(pat@[k as int]));
        k = k + 1;
    }
    assert(pat@.subrange(0, k as int) =~= pat@);
    true
}

/// The first position at which `pat` stands in `hay`.
pub fn find_chars(hay: &[char], pat: &[char]) -> (r: Option<usize>)
    ensures
        r is Some <==> first_occurrence(hay@, pat@, 0) is Some,
        r is Some ==> first_occurrence(hay@, pat@, 0) == Some(r.unwrap() as int),
        r is Some ==> occurs_at(hay@, pat@, r.unwrap() as int),
{
    if pat.len() > hay.len() {
        return None;
    }
    let last: usize = hay.len() - pat.len();
    let mut i: usize = 0;
    loop
        invariant
            i <= last,
            last == hay.len() - pat.len(),
            first_occurrence(hay@, pat@, 0) == first_occurrence(hay@, pat@, i as int),
        decreases last - i,
    {
        if matches_at(hay, pat, i) {
            return Some(i);
        }
        if i == last {
            assert(first_occurrence(hay@, pat@, i + 1) is None);
            return None;
        }
        i = i + 1;
    }
}

/// The last position at which the character `c` stands in `hay`.
pub fn rfind_char(hay: &[char], c: char) -> (r: Option<usize>)
    ensures
        r is Some <==> last_index_of(hay@, c, hay@.len() as int) is Some,
        r is Some ==> last_index_of(hay@, c, hay@.len() as int) == Some(r.unwrap() as int),
        r is Some ==> r.unwrap() < hay@.len(),
{
    let mut i: usize = hay.len();
    while i > 0
        invariant
            i <= hay.len(),
            last_index_of(hay@, c, hay@.len() as int) == last_index_of(hay@, c, i as int),
        decreases i,
    {
        if hay[i - 1] == c {
            return Some(i - 1);
        }
        i = i - 1;
    }
    None
}

/// Puts the characters of `s` behind those of `out`.
pub fn push_chars(out: &mut Vec<char>, s: &[char])
    ensures
        final(out)@ == old(out)@ + s@,
{
    let mut i: usize = 0;
    assert(old(out)@ + s@.subrange(0, 0) =~= old(out)@);
    while i < s.len()
        invariant
            i <= s.len(),
            out@ == old(out)@ + s@.subrange(0, i as int),
        decreases s.len() - i,
    {
        out.push(s[i]);
        assert(old(out)@ + s@.subrange(0, i + 1) =~= (old(out)@ + s@.subrange(0, i as int)).push(
            s@[i as int],
        ));
        i = i + 1;
    }
    assert(s@.subrange(0, i as int) =~= s@);
}

/// Whether two texts are the same.
pub fn chars_eq(a: &[char], b: &[char]) -> (r: bool)
    ensures
        r == (a@ == b@),
{
    if a.len() != b.len() {
        return false;
    }
    let r = matches_at(a, b, 0);
    assert(a@.subrange(0, a@.len() as int) =~= a@);
    r
}

/// Whether `hay` begins with `pat`.
pub fn starts_with(hay: &[char], pat: &[char]) -> (r: bool)
    ensures
        r == occurs_at(hay@, pat@, 0),
{
    matches_at(hay, pat, 0)
}

/// `pat` stands at the end of `hay`.
pub open spec fn spec_ends_with(hay: Seq<char>, pat: Seq<char>) -> bool {
    occurs_at(hay, pat, hay.len() - pat.len())
}

/// Whether `hay` ends with `pat`.
pub fn ends_with(hay: &[char], pat: &[char]) -> (r: bool)
    ensures
        r == spec_ends_with(hay@, pat@),
{
    if pat.len() > hay.len() {
        return false;
    }
    matches_at(hay, pat, hay.len() - pat.len())
}

/// `a` comes before `b` in the order of dictionaries over code points, which
/// is the order of strings.
pub open spec fn lex_less(a: Seq<char>, b: Seq<char>) -> bool
    decreases a.len(),
{
    if b.len() == 0 {
        false
    } else if a.len() == 0 {
        true
    } else if a[0] != b[0] {
        (a[0] as u32) < (b[0] as u32)
    } else {
        lex_less(a.drop_first(), b.drop_first())
    }
}

/// No text comes before itself.
pub proof fn lemma_lex_irreflexive(a: Seq<char>)
    ensures
        !lex_less(a, a),
    decreases a.len(),
{
    if a.len() > 0 {
        lemma_lex_irreflexive(a.drop_first());
    }
}

/// Of two different texts one comes before the other.
pub proof fn lemma_lex_total(a: Seq<char>, b: Seq<char>)
    ensures
        lex_less(a, b) || lex_less(b, a) || a == b,
    decreases a.len(),
{
    if a.len() > 0 && b.len() > 0 && a[0] == b[0] {
        lemma_lex_total(a.drop_first(), b.drop_first());
        if a.drop_first() == b.drop_first() {
            assert(a =~= seq![a[0]] + a.drop_first());
            assert(b =~= seq![b[0]] + b.drop_first());
        }
    } else if a.len() == 0 && b.len() == 0 {
        assert(a =~= b);
    } else if a.len() > 0 && b.len() > 0 {
        vstd::utf8::char_u32_cast(a[0], a[0] as u32);
        vstd::utf8::char_u32_cast(b[0], b[0] as u32);
    }
}

/// The order of texts is transitive.
pub proof fn lemma_lex_transitive(a: Seq<char>, b: Seq<char>, c: Seq<char>)
    requires
        lex_less(a, b),
        lex_less(b, c),
    ensures
        lex_less(a, c),
    decreases a.len(),
{
    if a.len() > 0 && a[0] == b[0] && b[0] == c[0] {
        lemma_lex_transitive(a.drop_first(), b.drop_first(), c.drop_first());
    }
}

/// Whether `a` comes before `b` in the order of strings.
pub fn chars_less(a: &[char], b: &[char]) -> (r: bool)
    ensures
        r == lex_less(a@, b@),
{
    let mut i: usize = 0;
    assert(a@.subrange(0, a@.len() as int) =~= a@);
    assert(b@.subrange(0, b@.len() as int) =~= b@);
    while i < a.len() && i < b.len()
        invariant
            i <= a.len(),
            i <= b.len(),
            lex_less(a@, b@) == lex_less(
                a@.subrange(i as int, a@.len() as int),
                b@.subrange(i as int, b@.len() as int),
            ),
        decreases a.len() - i,
    {
        let ghost ra = a@.subrange(i as int, a@.len() as int);
        let ghost rb = b@.subrange(i as int, b@.len() as int);
        assert(ra[0] == a@[i as int] && rb[0] == b@[i as int]);
        if a[i] != b[i] {
            return (a[i] as u32) < (b[i] as u32);
        }
        assert(ra.drop_first() =~= a@.subrange(i + 1, a@.len() as int));
        assert(rb.drop_first() =~= b@.subrange(i + 1, b@.len() as int));
        i = i + 1;
    }
    i < b.len()
}

/// The bytes of a text of ASCII characters, one for each character; `None`
/// for a text that holds another character.
pub open spec fn spec_ascii_bytes(chars: Seq<char>) -> Option<Seq<u8>> {
    if forall|i: int| 0 <= i < chars.len() ==> (#[trigger] chars[i] as u32) < 128 {
        Some(Seq::new(chars.len(), |i: int| chars[i] as u8))
    } else {
        None
    }
}

/// The bytes of a text of ASCII characters.
pub fn ascii_bytes(chars: &[char]) -> (r: Option<Vec<u8>>)
    ensures
        r is Some <==> spec_ascii_bytes(chars@) is Some,
        r is Some ==> r.unwrap()@ == spec_ascii_bytes(chars@).unwrap(),
{
    let mut bytes: Vec<u8> = Vec::new();
    let mut i: usize = 0;
    while i < chars.len()
        invariant
            i <= chars.len(),
            bytes@.len() == i,
            forall|j: int| 0 <= j < i ==> (#[trigger] chars@[j] as u32) < 128,
            forall|j: int| 0 <= j < i ==> #[trigger] bytes@[j] == chars@[j] as u8,
        decreases chars.len() - i,
    {
        let c: char = chars[i];
        if c as u32 >= 128 {
            return None;
        }
        bytes.push(c as u8);
        i = i + 1;
    }
    assert(bytes@ =~= spec_ascii_bytes(chars@).unwrap());
    Some(bytes)
}

/// The unsigned number of 32 bits that a text spells, as `str::parse`
/// reads it.
pub open spec fn spec_parse_u32_text(chars: Seq<char>) -> Option<u32> {
    match spec_ascii_bytes(chars) {
        Some(bytes) => spec_parse_u32(bytes),
        None => None,
    }
}

/// Reads an unsigned number of 32 bits from a text.
pub fn parse_u32_text(chars: &[char]) -> (r: Option<u32>)
    ensures
        r == spec_parse_u32_text(chars@),
{
    match ascii_bytes(chars) {
        Some(bytes) => parse_u32(bytes.as_slice()),
        None => None,
    }
}

/// The signed number of 64 bits that a text spells, as `str::parse` reads
/// it.
pub open spec fn spec_parse_i64_text(chars: Seq<char>) -> Option<i64> {
    match spec_ascii_bytes(chars) {
        Some(bytes) => spec_parse_i64(bytes),
        None => None,
    }
}

/// Reads a signed number of 64 bits from a text.
pub fn parse_i64_text(chars: &[char]) -> (r: Option<i64>)
    ensures
        r == spec_parse_i64_text(chars@),
{
    match ascii_bytes(chars) {
        Some(bytes) => parse_i64(bytes.as_slice()),
        None => None,
    }
}

/// The first position at or after `from` at which the character `c` stands
/// in `hay`, or the length of `hay`.
pub open spec fn spec_find_char(hay: Seq<char>, from: int, c: char) -> int
    decreases hay.len() - from,
{
    if from < 0 || from >= hay.len() {
        hay.len() as int
    } else if hay[from] == c {
        from
    } else {
        spec_find_char(hay, from + 1, c)
    }
}

/// The first position at or after `from` at which `c` stands in `hay`.
pub fn find_char(hay: &[char], from: usize, c: char) -> (r: usize)
    requires
        from <= hay.len(),
    ensures
        r == spec_find_char(hay@, from as int, c),
        from <= r <= hay.len(),
{
    let mut i: usize = from;
    while i < hay.len() && hay[i] != c
        invariant
            from <= i <= hay.len(),
            spec_find_char(hay@, from as int, c) == spec_find_char(hay@, i as int, c),
        decreases hay.len() - i,
    {
        i = i + 1;
    }
    i
}

/// The character of the digit `d`.
pub open spec fn digit_char(d: int) -> char {
    ((48 + d) as u8) as char
}

/// The digits of a natural number in base ten, without leading zeros.
pub open spec fn decimal_digits(n: nat) -> Seq<char>
    decreases n,
{
    if n < 10 {
        seq![digit_char(n as int)]
    } else {
        decimal_digits(n / 10).push(digit_char((n % 10) as int))
    }
}

/// An integer in base ten, with a minus sign where it is negative.
pub open spec fn decimal_text(v: int) -> Seq<char> {
    if v < 0 {
        seq!['-'] + decimal_digits((-v) as nat)
    } else {
        decimal_digits(v as nat)
    }
}

/// Writes a 32-bit integer in base ten.
pub fn decimal_chars(v: i32) -> (r: Vec<char>)
    ensures
        r@ == decimal_text(v as int),
{
    let negative: bool = v < 0;
    let magnitude: u64 = if negative {
        (-(v as i64)) as u64
    } else {
        v as u64
    };
    let mut rest: u64 = magnitude / 10;
    let mut reversed: Vec<char> = Vec::new();
    reversed.push(((48 + magnitude % 10) as u8) as char);
    assert(reversed@.reverse() =~= seq![digit_char((magnitude % 10) as int)]);
    while rest > 0
        invariant
            reversed@.len() > 0,
            decimal_digits(magnitude as nat) == (if rest > 0 {
                decimal_digits(rest as nat)
            } else {
                Seq::<char>::empty()
            }) + reversed@.reverse(),
        decreases rest,
    {
        let ghost before = reversed@;
        let d: char = ((48 + rest % 10) as u8) as char;
        reversed.push(d);
        assert(reversed@.reverse() =~= seq![d] + before.reverse());
        assert(decimal_digits((rest / 10) as nat).push(d) + before.reverse() =~= decimal_digits(
            (rest / 10) as nat,
        ) + (seq![d] + before.reverse()));
        rest = rest / 10;
    }
    let mut out: Vec<char> = Vec::new();
    if negative {
        out.push('-');
    }
    let ghost sign = out@;
    let mut i: usize = reversed.len();
    while i > 0
        invariant
            i <= reversed.len(),
            out@ == sign + reversed@.reverse().subrange(0, reversed.len() - i),
        decreases i,
    {
        i = i - 1;
        out.push(reversed[i]);
        assert(reversed@.reverse().subrange(0, reversed.len() - i) =~= reversed@.reverse().subrange(
            0,
            reversed.len() - i - 1,
        ).push(reversed@[i as int]));
    }
    assert(reversed@.reverse().subrange(0, reversed.len() as int) =~= reversed@.reverse());
    out
}

/// `b` is one of the ASCII digits `0` to `9`.
pub open spec fn is_digit(b: u8) -> bool {
    48 <= b <= 57
}

/// Every byte of `s` is an ASCII digit.
pub open spec fn all_digits(s: Seq<u8>) -> bool {
    forall|i: int| 0 <= i < s.len() ==> is_digit(#[trigger] s[i])
}

/// The number that a run of ASCII digits spells in base ten.
pub open spec fn digits_value(s: Seq<u8>) -> nat
    decreases s.len(),
{
    if s.len() == 0 {
        0
    } else {
        digits_value(s.drop_last()) * 10 + (s.last() - 48) as nat
    }
}

/// The integer that decimal text spells: an optional sign, then at least one
/// digit and nothing else. A minus sign is read only where `signed` is set;
/// a plus sign always.
pub open spec fn decimal_value(s: Seq<u8>, signed: bool) -> Option<int> {
    if s.len() > 0 && s[0] == 43 {
        let digits = s.subrange(1, s.len() as int);
        if digits.len() > 0 && all_digits(digits) {
            Some(digits_value(digits) as int)
        } else {
            None
        }
    } else if signed && s.len() > 0 && s[0] == 45 {
        let digits = s.subrange(1, s.len() as int);
        if digits.len() > 0 && all_digits(digits) {
            Some(-(digits_value(digits) as int))
        } else {
            None
        }
    } else if s.len() > 0 && all_digits(s) {
        Some(digits_value(s) as int)
    } else {
        None
    }
}

/// The value of decimal text where it lies between `min` and `max`.
pub open spec fn decimal_in_range(s: Seq<u8>, signed: bool, min: int, max: int) -> Option<int> {
    match decimal_value(s, signed) {
        Some(v) => if min <= v <= max {
            Some(v)
        } else {
            None
        },
        None => None,
    }
}

/// A longer run of digits does not spell a smaller number than its prefix.
pub proof fn lemma_digits_value_prefix(s: Seq<u8>, k: int)
    requires
        0 <= k <= s.len(),
    ensures
        digits_value(s.subrange(0, k)) <= digits_value(s),
    decreases s.len() - k,
{
    if k == s.len() {
        assert(s.subrange(0, k) =~= s);
    } else {
        lemma_digits_value_prefix(s.drop_last(), k);
        assert(s.drop_last().subrange(0, k) =~= s.subrange(0, k));
    }
}

/// Reads a run of digits that spells a number of at most `limit`.
fn parse_magnitude(digits: &[u8], limit: u64) -> (r: Option<u64>)
    ensures
        r is Some <==> digits@.len() > 0 && all_digits(digits@) && digits_value(digits@) <= limit,
        r is Some ==> r.unwrap() == digits_value(digits@),
{
    if digits.len() == 0 {
        return None;
    }
    let mut acc: u64 = 0;
    let mut i: usize = 0;
    while i < digits.len()
        invariant
            i <= digits.len(),
            all_digits(digits@.subrange(0, i as int)),
            acc == digits_value(digits@.subrange(0, i as int)),
            acc <= limit,
        decreases digits.len() - i,
    {
        let b: u8 = digits[i];
        if b < 48 || b > 57 {
            return None;
        }
        let d: u64 = (b - 48) as u64;
        proof {
            let next = digits@.subrange(0, i + 1);
            assert(next.drop_last() =~= digits@.subrange(0, i as int));
            assert(next.last() == b);
            assert(digits_value(next) == acc * 10 + d);
            lemma_digits_value_prefix(digits@, i + 1);
        }
        if d > limit || acc > (limit - d) / 10 {
            return None;
        }
        acc = acc * 10 + d;
        i = i + 1;
    }
    assert(digits@.subrange(0, i as int) =~= digits@);
    Some(acc)
}

/// What `parse_u64` reads from `s`.
pub open spec fn spec_parse_u64(s: Seq<u8>) -> Option<u64> {
    match decimal_in_range(s, false, 0 as int, u64::MAX as int) {
        Some(v) => Some(v as u64),
        None => None,
    }
}

/// Reads an unsigned decimal number of 64 bits, as `str::parse::<u64>` does.
pub fn parse_u64(s: &[u8]) -> (r: Option<u64>)
    ensures
        r == spec_parse_u64(s@),
{
    if s.len() > 0 && s[0] == 43 {
        parse_magnitude(&s[1..s.len()], u64::MAX)
    } else {
        parse_magnitude(s, u64::MAX)
    }
}

/// What `parse_u32` reads from `s`.
pub open spec fn spec_parse_u32(s: Seq<u8>) -> Option<u32> {
    match decimal_in_range(s, false, 0 as int, u32::MAX as int) {
        Some(v) => Some(v as u32),
        None => None,
    }
}

/// Reads an unsigned decimal number of 32 bits, as `str::parse::<u32>` does.
pub fn parse_u32(s: &[u8]) -> (r: Option<u32>)
    ensures
        r == spec_parse_u32(s@),
{
    let magnitude = if s.len() > 0 && s[0] == 43 {
        parse_magnitude(&s[1..s.len()], 0xffff_ffff)
    } else {
        parse_magnitude(s, 0xffff_ffff)
    };
    match magnitude {
        Some(v) => Some(v as u32),
        None => None,
    }
}

/// What `parse_i64` reads from `s`.
pub open spec fn spec_parse_i64(s: Seq<u8>) -> Option<i64> {
    match decimal_in_range(s, true, i64::MIN as int, i64::MAX as int) {
        Some(v) => Some(v as i64),
        None => None,
    }
}

/// Reads a signed decimal number of 64 bits, as `str::parse::<i64>` does.
pub fn parse_i64(s: &[u8]) -> (r: Option<i64>)
    ensures
        r == spec_parse_i64(s@),
{
    if s.len() > 0 && s[0] == 45 {
        match parse_magnitude(&s[1..s.len()], 0x8000_0000_0000_0000) {
            Some(v) => if v == 0x8000_0000_0000_0000 {
                Some(i64::MIN)
            } else {
                Some(-(v as i64))
            },
            None => None,
        }
    } else {
        let magnitude = if s.len() > 0 && s[0] == 43 {
            parse_magnitude(&s[1..s.len()], 0x7fff_ffff_ffff_ffff)
        } else {
            parse_magnitude(s, 0x7fff_ffff_ffff_ffff)
        };
        match magnitude {
            Some(v) => Some(v as i64),
            None => None,
        }
    }
}

/// What `parse_i32` reads from `s`.
pub open spec fn spec_parse_i32(s: Seq<u8>) -> Option<i32> {
    match decimal_in_range(s, true, i32::MIN as int, i32::MAX as int) {
        Some(v) => Some(v as i32),
        None => None,
    }
}

/// Reads a signed decimal number of 32 bits, as `str::parse::<i32>` does.
pub fn parse_i32(s: &[u8]) -> (r: Option<i32>)
    ensures
        r == spec_parse_i32(s@),
{
    if s.len() > 0 && s[0] == 45 {
        match parse_magnitude(&s[1..s.len()], 0x8000_0000) {
            Some(v) => Some((-(v as i64)) as i32),
            None => None,
        }
    } else {
        let magnitude = if s.len() > 0 && s[0] == 43 {
            parse_magnitude(&s[1..s.len()], 0x7fff_ffff)
        } else {
            parse_magnitude(s, 0x7fff_ffff)
        };
        match magnitude {
            Some(v) => Some(v as i32),
            None => None,
        }
    }
}

} // verus!
