//! Character-level helpers shared by the parsers: conversions between
//! bytes, characters and strings, and the character classes the parsers use.
use vstd::prelude::*;
use vstd::utf8::*;

verus! {

// ---------------------------------------------------------------------------
// Conversions
// ---------------------------------------------------------------------------

/// What `String::from_utf8_lossy` makes of a byte sequence: valid UTF-8 is
/// decoded, every invalid sequence becomes U+FFFD.
pub uninterp spec fn lossy_utf8(bytes: Seq<u8>) -> Seq<char>;

/// Calls `String::from_utf8_lossy`. Claimed: the result is `lossy_utf8` of
/// the bytes, and for valid UTF-8 it is the decoded text. How invalid
/// sequences are replaced is left to the name.
#[verifier::external_body]
pub fn utf8_lossy(bytes: &[u8]) -> (s: String)
    ensures
        s@ == lossy_utf8(bytes@),
        valid_utf8(bytes@) ==> s@ == decode_utf8(bytes@),
{
    String::from_utf8_lossy(bytes).into_owned()
}

/// Calls `std::str::from_utf8`. Claimed: it succeeds exactly on valid UTF-8,
/// and then yields the decoded text.
#[verifier::external_body]
pub fn utf8_str(bytes: &[u8]) -> (r: Option<&str>)
    ensures
        r is Some <==> valid_utf8(bytes@),
        r matches Some(s) ==> s@ == decode_utf8(bytes@),
{
    std::str::from_utf8(bytes).ok()
}

/// Calls `String::from_iter` over characters. Claimed: the string holds
/// exactly these characters, in order.
#[verifier::external_body]
pub fn string_from_chars(chars: &[char]) -> (s: String)
    ensures
        s@ == chars@,
{
    chars.iter().collect()
}

/// The characters of a string, in order.
pub fn chars_of(s: &str) -> (v: Vec<char>)
    ensures
        v@ == s@,
{
    let mut v: Vec<char> = Vec::new();
    for c in it: s.chars()
        invariant
            v@ == it.seq().take(it.index() as int),
            it.seq() == s@,
    {
        v.push(c);
    }
    v
}

/// Appends the characters of `s` to `out`.
pub fn push_str(out: &mut Vec<char>, s: &str)
    ensures
        final(out)@ == old(out)@ + s@,
{
    let cs = chars_of(s);
    let mut i: usize = 0;
    while i < cs.len()
        invariant
            i <= cs@.len(),
            cs@ == s@,
            out@ == old(out)@ + cs@.take(i as int),
        decreases cs@.len() - i,
    {
        out.push(cs[i]);
        i = i + 1;
        assert(out@ =~= old(out)@ + cs@.take(i as int));
    }
    assert(cs@.take(i as int) =~= cs@);
}

/// Appends every character of `src`.
pub fn push_chars(out: &mut Vec<char>, src: &[char])
    ensures
        final(out)@ == old(out)@ + src@,
{
    let mut i: usize = 0;
    while i < src.len()
        invariant
            i <= src@.len(),
            out@ == old(out)@ + src@.take(i as int),
        decreases src@.len() - i,
    {
        out.push(src[i]);
        i = i + 1;
        assert(out@ =~= old(out)@ + src@.take(i as int));
    }
    assert(src@.take(i as int) =~= src@);
}

/// Bytes read as characters one for one; this is what UTF-8 decoding gives
/// for ASCII text.
pub open spec fn latin1(bytes: Seq<u8>) -> Seq<char> {
    bytes.map_values(|b: u8| b as char)
}

/// Appends each byte as the character with that code point.
pub fn push_bytes_as_chars(out: &mut Vec<char>, bytes: &[u8])
    ensures
        final(out)@ == old(out)@ + latin1(bytes@),
{
    let mut i: usize = 0;
    while i < bytes.len()
        invariant
            i <= bytes@.len(),
            out@ == old(out)@ + latin1(bytes@.take(i as int)),
        decreases bytes@.len() - i,
    {
        out.push(bytes[i] as char);
        i = i + 1;
        assert(out@ =~= old(out)@ + latin1(bytes@.take(i as int)));
    }
    assert(bytes@.take(i as int) =~= bytes@);
}

// ---------------------------------------------------------------------------
// Character classes
// ---------------------------------------------------------------------------

/// Unicode general category Cc (what `char::is_control` tests).
pub open spec fn is_control_spec(c: char) -> bool {
    (c as u32) <= 0x1f || (0x7f <= (c as u32) && (c as u32) <= 0x9f)
}

/// Unicode White_Space (what `char::is_whitespace` tests).
pub open spec fn is_whitespace_spec(c: char) -> bool {
    let u = c as u32;
    (0x09 <= u && u <= 0x0d) || u == 0x20 || u == 0x85 || u == 0xa0 || u == 0x1680 || (0x2000
        <= u && u <= 0x200a) || u == 0x2028 || u == 0x2029 || u == 0x202f || u == 0x205f || u
        == 0x3000
}

/// `char::to_ascii_lowercase`: only `A`..=`Z` change.
pub open spec fn ascii_lower_spec(c: char) -> char {
    if 0x41 <= (c as u32) && (c as u32) <= 0x5a {
        ((c as u32) + 32) as char
    } else {
        c
    }
}

pub fn is_control(c: char) -> (r: bool)
    ensures
        r == is_control_spec(c),
{
    let u = c as u32;
    u <= 0x1f || (0x7f <= u && u <= 0x9f)
}

pub fn is_whitespace(c: char) -> (r: bool)
    ensures
        r == is_whitespace_spec(c),
{
    let u = c as u32;
    (0x09 <= u && u <= 0x0d) || u == 0x20 || u == 0x85 || u == 0xa0 || u == 0x1680 || (0x2000
        <= u && u <= 0x200a) || u == 0x2028 || u == 0x2029 || u == 0x202f || u == 0x205f || u
        == 0x3000
}

pub fn ascii_lower(c: char) -> (r: char)
    ensures
        r == ascii_lower_spec(c),
{
    let u = c as u32;
    if 0x41 <= u && u <= 0x5a {
        let l: u8 = (u + 32) as u8;
        l as char
    } else {
        c
    }
}

// ---------------------------------------------------------------------------
// Comparisons with literals
// ---------------------------------------------------------------------------

/// Whether the characters `m` are exactly `lit`.
pub fn eq_lit(m: &[char], lit: &str) -> (r: bool)
    ensures
        r == (m@ == lit@),
{
    let l = chars_of(lit);
    if l.len() != m.len() {
        return false;
    }
    let mut i: usize = 0;
    while i < l.len()
        invariant
            i <= l@.len(),
            l@ == lit@,
            l@.len() == m@.len(),
            forall|k: int| 0 <= k < i ==> m@[k] == l@[k],
        decreases l@.len() - i,
    {
        if m[i] != l[i] {
            return false;
        }
        i = i + 1;
    }
    assert(m@ =~= lit@);
    true
}

/// Whether `m` begins with `lit`.
pub fn starts_with_lit(m: &[char], lit: &str) -> (r: bool)
    ensures
        r == (lit@.len() <= m@.len() && m@.take(lit@.len() as int) == lit@),
{
    let l = chars_of(lit);
    if l.len() > m.len() {
        return false;
    }
    let mut i: usize = 0;
    while i < l.len()
        invariant
            i <= l@.len(),
            l@ == lit@,
            l@.len() <= m@.len(),
            forall|k: int| 0 <= k < i ==> m@[k] == l@[k],
        decreases l@.len() - i,
    {
        if m[i] != l[i] {
            assert(m@.take(l@.len() as int)[i as int] != lit@[i as int]);
            return false;
        }
        i = i + 1;
    }
    assert(m@.take(l@.len() as int) =~= lit@);
    true
}

} // verus!

verus! {

// ---------------------------------------------------------------------------
// Prefixes, separators and pieces
// ---------------------------------------------------------------------------

/// `s` begins with `p`.
pub open spec fn has_prefix(s: Seq<char>, p: Seq<char>) -> bool {
    p.len() <= s.len() && s.take(p.len() as int) == p
}

/// `str::strip_prefix` with a literal.
pub fn strip_prefix_lit(m: &[char], lit: &str) -> (r: Option<Vec<char>>)
    ensures
        match r {
            Some(rest) => has_prefix(m@, lit@) && rest@ == m@.skip(lit@.len() as int),
            None => !has_prefix(m@, lit@),
        },
{
    if starts_with_lit(m, lit) {
        let n = chars_of(lit).len();
        Some(slice_to_vec_from(m, n))
    } else {
        None
    }
}

/// The elements of `s` from index `k` on.
pub fn slice_to_vec_from(s: &[char], k: usize) -> (v: Vec<char>)
    requires
        k <= s@.len(),
    ensures
        v@ == s@.skip(k as int),
{
    let mut v: Vec<char> = Vec::new();
    let mut i: usize = k;
    while i < s.len()
        invariant
            k <= i <= s@.len(),
            v@ == s@.subrange(k as int, i as int),
        decreases s@.len() - i,
    {
        v.push(s[i]);
        i = i + 1;
        assert(v@ =~= s@.subrange(k as int, i as int));
    }
    assert(s@.subrange(k as int, i as int) =~= s@.skip(k as int));
    v
}

/// The elements of `s` before index `k`.
pub fn slice_to_vec_until(s: &[char], k: usize) -> (v: Vec<char>)
    requires
        k <= s@.len(),
    ensures
        v@ == s@.take(k as int),
{
    let mut v: Vec<char> = Vec::new();
    let mut i: usize = 0;
    while i < k
        invariant
            i <= k <= s@.len(),
            v@ == s@.take(i as int),
        decreases k - i,
    {
        v.push(s[i]);
        i = i + 1;
        assert(v@ =~= s@.take(i as int));
    }
    v
}

/// `k` is where `c` first occurs in `s`.
pub open spec fn is_first_index(s: Seq<char>, c: char, k: int) -> bool {
    0 <= k < s.len() && s[k] == c && forall|j: int| 0 <= j < k ==> s[j] != c
}

/// `k` is where `c` last occurs in `s`.
pub open spec fn is_last_index(s: Seq<char>, c: char, k: int) -> bool {
    0 <= k < s.len() && s[k] == c && forall|j: int| k < j < s.len() ==> s[j] != c
}

pub proof fn lemma_first_index_unique(s: Seq<char>, c: char, k1: int, k2: int)
    requires
        is_first_index(s, c, k1),
        is_first_index(s, c, k2),
    ensures
        k1 == k2,
{
    if k1 < k2 {
        assert(s[k1] != c);
    } else if k2 < k1 {
        assert(s[k2] != c);
    }
}

pub proof fn lemma_last_index_unique(s: Seq<char>, c: char, k1: int, k2: int)
    requires
        is_last_index(s, c, k1),
        is_last_index(s, c, k2),
    ensures
        k1 == k2,
{
    if k1 < k2 {
        assert(s[k2] != c);
    } else if k2 < k1 {
        assert(s[k1] != c);
    }
}

/// `str::split_once` on a character: the text before its first occurrence
/// and, if there is one, the text after it.
pub open spec fn split_once_spec(s: Seq<char>, c: char) -> (Seq<char>, Option<Seq<char>>) {
    if exists|k: int| is_first_index(s, c, k) {
        let k = choose|k: int| is_first_index(s, c, k);
        (s.take(k), Some(s.skip(k + 1)))
    } else {
        (s, None)
    }
}

/// `rsplit(c).next()`: the text after the last occurrence of `c`, or all of
/// `s` when there is none.
pub open spec fn after_last_spec(s: Seq<char>, c: char) -> Seq<char> {
    if exists|k: int| is_last_index(s, c, k) {
        let k = choose|k: int| is_last_index(s, c, k);
        s.skip(k + 1)
    } else {
        s
    }
}

pub fn split_once(s: &[char], c: char) -> (r: (Vec<char>, Option<Vec<char>>))
    ensures
        r.0@ == split_once_spec(s@, c).0,
        match r.1 {
            Some(v) => split_once_spec(s@, c).1 == Some(v@),
            None => split_once_spec(s@, c).1 is None,
        },
{
    let mut k: usize = 0;
    while k < s.len()
        invariant
            k <= s@.len(),
            forall|j: int| 0 <= j < k ==> s@[j] != c,
        decreases s@.len() - k,
    {
        if s[k] == c {
            proof {
                assert(is_first_index(s@, c, k as int));
                let kk = choose|kk: int| is_first_index(s@, c, kk);
                lemma_first_index_unique(s@, c, k as int, kk);
            }
            return (slice_to_vec_until(s, k), Some(slice_to_vec_from(s, k + 1)));
        }
        k = k + 1;
    }
    assert(!exists|kk: int| is_first_index(s@, c, kk));
    (slice_to_vec_from(s, 0), None)
}

pub fn after_last(s: &[char], c: char) -> (r: Vec<char>)
    ensures
        r@ == after_last_spec(s@, c),
{
    let mut k: usize = s.len();
    while k > 0
        invariant
            k <= s@.len(),
            forall|j: int| k <= j < s@.len() ==> s@[j] != c,
        decreases k,
    {
        if s[k - 1] == c {
            proof {
                assert(is_last_index(s@, c, k - 1));
                let kk = choose|kk: int| is_last_index(s@, c, kk);
                lemma_last_index_unique(s@, c, k - 1, kk);
            }
            return slice_to_vec_from(s, k);
        }
        k = k - 1;
    }
    assert(!exists|kk: int| is_last_index(s@, c, kk));
    assert(s@.skip(0) =~= s@);
    slice_to_vec_from(s, 0)
}

/// `str::split` on a character: the pieces between separators, in order;
/// always at least one piece.
pub open spec fn split_spec(s: Seq<char>, sep: char) -> Seq<Seq<char>>
    decreases s.len(),
{
    if s.len() == 0 {
        seq![Seq::empty()]
    } else {
        let r = split_spec(s.drop_last(), sep);
        if s.last() == sep {
            r.push(Seq::empty())
        } else {
            r.update(r.len() - 1, r.last().push(s.last()))
        }
    }
}

pub open spec fn pieces_view(v: Seq<Vec<char>>) -> Seq<Seq<char>> {
    v.map_values(|p: Vec<char>| p@)
}

pub fn split_chars(s: &[char], sep: char) -> (r: Vec<Vec<char>>)
    ensures
        pieces_view(r@) == split_spec(s@, sep),
{
    let mut pieces: Vec<Vec<char>> = Vec::new();
    let mut cur: Vec<char> = Vec::new();
    let mut i: usize = 0;
    assert(s@.take(0) =~= Seq::<char>::empty());
    assert(pieces_view(pieces@).push(cur@) =~= split_spec(s@.take(0), sep));
    while i < s.len()
        invariant
            i <= s@.len(),
            split_spec(s@.take(i as int), sep) == pieces_view(pieces@).push(cur@),
        decreases s@.len() - i,
    {
        let c = s[i];
        assert(s@.take(i as int + 1).drop_last() =~= s@.take(i as int));
        let ghost prev = pieces_view(pieces@);
        if c == sep {
            let done = cur;
            cur = Vec::new();
            pieces.push(done);
            assert(pieces_view(pieces@).push(cur@) =~= prev.push(done@).push(Seq::<char>::empty()));
        } else {
            let ghost old_cur = cur@;
            cur.push(c);
            assert(pieces_view(pieces@).push(cur@) =~= prev.push(old_cur).update(
                prev.len() as int,
                old_cur.push(c),
            ));
        }
        i = i + 1;
    }
    assert(s@.take(i as int) =~= s@);
    let ghost prev = pieces_view(pieces@);
    pieces.push(cur);
    assert(pieces_view(pieces@) =~= prev.push(cur@));
    pieces
}

} // verus!

verus! {

/// `needle` occurs somewhere in `hay`.
pub open spec fn contains_spec(hay: Seq<char>, needle: Seq<char>) -> bool {
    exists|i: int|
        0 <= i && i + needle.len() <= hay.len() && #[trigger] hay.subrange(i, i + needle.len())
            == needle
}

/// Whether the text `lit` occurs in `hay`.
pub fn contains_lit(hay: &[char], lit: &str) -> (r: bool)
    ensures
        r == contains_spec(hay@, lit@),
{
    let l = chars_of(lit);
    if l.len() > hay.len() {
        return false;
    }
    if l.len() == 0 {
        assert(hay@.subrange(0, 0 + lit@.len() as int) =~= lit@);
        return true;
    }
    let last = hay.len() - l.len();
    let mut i: usize = 0;
    assert(hay@.len() <= usize::MAX);
    while i <= last
        invariant
            l@ == lit@,
            0 < l@.len() <= hay@.len() <= usize::MAX,
            last == hay@.len() - l@.len(),
            i <= last + 1,
            forall|k: int| 0 <= k < i ==> #[trigger] hay@.subrange(k, k + l@.len()) != l@,
        decreases last + 1 - i,
    {
        let mut j: usize = 0;
        while j < l.len()
            invariant
                l@.len() <= hay@.len() <= usize::MAX,
                i <= last,
                last == hay@.len() - l@.len(),
                j <= l@.len(),
                forall|m: int| 0 <= m < j ==> hay@[i + m] == l@[m],
            ensures
                j <= l@.len(),
                forall|m: int| 0 <= m < j ==> hay@[i + m] == l@[m],
                j < l@.len() ==> hay@[i + j] != l@[j as int],
            decreases l@.len() - j,
        {
            if hay[i + j] != l[j] {
                break;
            }
            j = j + 1;
        }
        if j == l.len() {
            assert(hay@.subrange(i as int, i + l@.len()) =~= l@);
            return true;
        }
        assert(hay@.subrange(i as int, i + l@.len())[j as int] != l@[j as int]);
        i = i + 1;
    }
    false
}

} // verus!
