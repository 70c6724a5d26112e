//! Character-level text utilities shared by the parsers of this crate.
//!
//! Strings are handled through their character view (`Seq<char>`); the
//! functions here are the building blocks (trimming, splitting, prefix and
//! substring tests, decimal rendering) from which the parsers are assembled.
use vstd::prelude::*;
use vstd::utf8::{char_is_scalar, encode_scalar, encode_utf8};

verus! {

/// Collects the characters of a string slice into a vector.
pub fn chars_of(s: &str) -> (v: Vec<char>)
    ensures
        v@ == s@,
{
    let mut v: Vec<char> = Vec::new();
    for c in it: s.chars()
        invariant
            v@ == it.seq().take(it.index() as int),
            it.seq() == s@,
    {
        v.push(c);
    }
    v
}

/// `String::push`: appends one character to the string.
#[verifier::external_body]
pub(crate) fn push_char(s: &mut String, c: char)
    ensures
        final(s)@ == old(s)@.push(c),
{
    s.push(c);
}

/// Appends every character of `chars` to `s`.
pub fn push_chars(s: &mut String, chars: &[char])
    ensures
        final(s)@ == old(s)@ + chars@,
{
    let n = chars.len();
    let mut i: usize = 0;
    while i < n
        invariant
            n == chars@.len(),
            i <= n,
            s@ == old(s)@ + chars@.take(i as int),
        decreases n - i,
    {
        push_char(s, chars[i]);
        assert(chars@.take(i + 1) == chars@.take(i as int).push(chars@[i as int]));
        i = i + 1;
    }
    assert(chars@.take(n as int) == chars@);
}

/// Builds a `String` holding exactly the given characters.
pub fn string_from_chars(chars: &[char]) -> (s: String)
    ensures
        s@ == chars@,
{
    let mut s = String::new();
    push_chars(&mut s, chars);
    s
}

/// Appends the characters of `t` to `s`.
pub fn push_str(s: &mut String, t: &str)
    ensures
        final(s)@ == old(s)@ + t@,
{
    let v = chars_of(t);
    push_chars(s, v.as_slice());
}

/// Copies the characters `v[from..to]` into a new vector.
pub fn sub_chars(v: &[char], from: usize, to: usize) -> (r: Vec<char>)
    requires
        from <= to <= v@.len(),
    ensures
        r@ == v@.subrange(from as int, to as int),
{
    let mut r: Vec<char> = Vec::new();
    let mut i = from;
    while i < to
        invariant
            from <= i <= to,
            to <= v@.len(),
            r@ == v@.subrange(from as int, i as int),
        decreases to - i,
    {
        r.push(v[i]);
        i = i + 1;
    }
    r
}

/// Character-wise equality of two character slices.
pub fn chars_eq(a: &[char], b: &[char]) -> (r: bool)
    ensures
        r == (a@ == b@),
{
    if a.len() != b.len() {
        return false;
    }
    let n = a.len();
    let mut i: usize = 0;
    while i < n
        invariant
            n == a@.len(),
            n == b@.len(),
            i <= n,
            forall|k: int| 0 <= k < i ==> a@[k] == b@[k],
        decreases n - i,
    {
        if a[i] != b[i] {
            return false;
        }
        i = i + 1;
    }
    assert(a@ =~= b@);
    true
}

/// Whether `p` is a prefix of `s`.
pub open spec fn has_prefix(s: Seq<char>, p: Seq<char>) -> bool {
    p.len() <= s.len() && s.subrange(0, p.len() as int) == p
}

/// Tests whether `s` starts with `p`.
pub fn starts_with(s: &[char], p: &[char]) -> (r: bool)
    ensures
        r == has_prefix(s@, p@),
{
    if p.len() > s.len() {
        return false;
    }
    let n = p.len();
    let mut i: usize = 0;
    while i < n
        invariant
            n == p@.len(),
            n <= s@.len(),
            i <= n,
            forall|k: int| 0 <= k < i ==> s@[k] == p@[k],
        decreases n - i,
    {
        if s[i] != p[i] {
            return false;
        }
        i = i + 1;
    }
    assert(s@.subrange(0, n as int) =~= p@);
    true
}

/// `s` without the prefix `p`, when `s` starts with `p`.
pub fn strip_prefix(s: &[char], p: &str) -> (r: Option<Vec<char>>)
    ensures
        match r {
            Some(rest) => has_prefix(s@, p@) && rest@ == s@.skip(p@.len() as int),
            None => !has_prefix(s@, p@),
        },
{
    let pv = chars_of(p);
    if starts_with(s, pv.as_slice()) {
        let rest = sub_chars(s, pv.len(), s.len());
        assert(rest@ =~= s@.skip(p@.len() as int));
        Some(rest)
    } else {
        None
    }
}

/// A new `String` with the characters of `s`.
pub fn string_of(s: &str) -> (r: String)
    ensures
        r@ == s@,
{
    let mut r = String::new();
    push_str(&mut r, s);
    r
}

/// Position of the first `c` in `s` at or after `i`.
pub open spec fn index_of_from(s: Seq<char>, c: char, i: int) -> Option<int>
    decreases s.len() - i,
{
    if i < 0 || i >= s.len() {
        None
    } else if s[i] == c {
        Some(i)
    } else {
        index_of_from(s, c, i + 1)
    }
}

/// Position of the first `c` in `s`.
pub open spec fn index_of(s: Seq<char>, c: char) -> Option<int> {
    index_of_from(s, c, 0)
}

proof fn lemma_index_of_from(s: Seq<char>, c: char, i: int)
    requires
        0 <= i,
    ensures
        match index_of_from(s, c, i) {
            Some(p) => i <= p < s.len() && s[p] == c && forall|k: int| i <= k < p ==> s[k] != c,
            None => forall|k: int| i <= k < s.len() ==> s[k] != c,
        },
    decreases s.len() - i,
{
    if i < s.len() && s[i] != c {
        lemma_index_of_from(s, c, i + 1);
    }
}

/// What characterises the first position of `c`.
pub proof fn lemma_index_of(s: Seq<char>, c: char)
    ensures
        match index_of(s, c) {
            Some(p) => 0 <= p < s.len() && s[p] == c && forall|k: int| 0 <= k < p ==> s[k] != c,
            None => forall|k: int| 0 <= k < s.len() ==> s[k] != c,
        },
{
    lemma_index_of_from(s, c, 0);
}

/// Finds the first `c` in `s`.
pub fn find_char(s: &[char], c: char) -> (r: Option<usize>)
    ensures
        match r {
            Some(p) => index_of(s@, c) == Some(p as int) && p < s.len() && s@[p as int] == c,
            None => index_of(s@, c) is None,
        },
{
    proof {
        lemma_index_of(s@, c);
    }
    let mut i: usize = 0;
    while i < s.len()
        invariant
            i <= s@.len(),
            index_of_from(s@, c, i as int) == index_of(s@, c),
        decreases s@.len() - i,
    {
        if s[i] == c {
            return Some(i);
        }
        i = i + 1;
    }
    None
}

/// Whether `needle` occurs as a contiguous run inside `hay`.
pub open spec fn contains_run<T>(hay: Seq<T>, needle: Seq<T>) -> bool {
    exists|i: int| 0 <= i && i + needle.len() <= hay.len() && #[trigger] hay.subrange(i, i + needle.len()) == needle
}

/// Whether `needle` occurs in `hay` starting at position `i`.
pub open spec fn occurs_at<T>(hay: Seq<T>, needle: Seq<T>, i: int) -> bool {
    0 <= i && i + needle.len() <= hay.len() && forall|k: int| 0 <= k < needle.len() ==> #[trigger] hay[i + k] == needle[k]
}

proof fn occurs_at_subrange<T>(hay: Seq<T>, needle: Seq<T>, i: int)
    ensures
        occurs_at(hay, needle, i) <==> (0 <= i && i + needle.len() <= hay.len() && hay.subrange(i, i + needle.len()) == needle),
{
    if 0 <= i && i + needle.len() <= hay.len() && hay.subrange(i, i + needle.len()) == needle {
        assert forall|k: int| 0 <= k < needle.len() implies #[trigger] hay[i + k] == needle[k] by {
            assert(hay.subrange(i, i + needle.len())[k] == hay[i + k]);
        }
    }
    if occurs_at(hay, needle, i) {
        assert forall|k: int| 0 <= k < needle.len() implies hay.subrange(i, i + needle.len())[k] == needle[k] by {
            assert(hay[i + k] == needle[k]);
        }
        assert(hay.subrange(i, i + needle.len()) =~= needle);
    }
}

/// Tests whether the character run `needle` occurs inside `hay`.
pub fn contains_chars(hay: &[char], needle: &[char]) -> (r: bool)
    ensures
        r == contains_run(hay@, needle@),
{
    let n = hay.len();
    let m = needle.len();
    if m > n {
        assert forall|i: int| 0 <= i && i + m <= n implies #[trigger] hay@.subrange(i, i + needle@.len()) != needle@ by {}
        return false;
    }
    let mut i: usize = 0;
    while i <= n - m
        invariant
            n == hay@.len(),
            m == needle@.len(),
            m <= n,
            i <= n - m + 1,
            forall|j: int| 0 <= j < i ==> !occurs_at(hay@, needle@, j),
        decreases n - m + 1 - i,
    {
        let mut k: usize = 0;
        let mut matched = true;
        while k < m
            invariant
                n == hay@.len(),
                m == needle@.len(),
                i + m <= n,
                k <= m,
                matched ==> forall|q: int| 0 <= q < k ==> #[trigger] hay@[i + q] == needle@[q],
                !matched ==> !occurs_at(hay@, needle@, i as int),
            decreases m - k,
        {
            if matched && hay[i + k] != needle[k] {
                matched = false;
            }
            k = k + 1;
        }
        if matched {
            proof {
                occurs_at_subrange(hay@, needle@, i as int);
            }
            return true;
        }
        i = i + 1;
    }
    assert forall|j: int| 0 <= j && j + needle@.len() <= hay@.len() implies #[trigger] hay@.subrange(j, j + needle@.len()) != needle@ by {
        occurs_at_subrange(hay@, needle@, j);
    }
    false
}

/// Tests whether the byte run `needle` occurs inside `hay`.
pub fn contains_bytes(hay: &[u8], needle: &[u8]) -> (r: bool)
    ensures
        r == contains_run(hay@, needle@),
{
    let n = hay.len();
    let m = needle.len();
    if m > n {
        assert forall|i: int| 0 <= i && i + m <= n implies #[trigger] hay@.subrange(i, i + needle@.len()) != needle@ by {}
        return false;
    }
    let mut i: usize = 0;
    while i <= n - m
        invariant
            n == hay@.len(),
            m == needle@.len(),
            m <= n,
            i <= n - m + 1,
            forall|j: int| 0 <= j < i ==> !occurs_at(hay@, needle@, j),
        decreases n - m + 1 - i,
    {
        let mut k: usize = 0;
        let mut matched = true;
        while k < m
            invariant
                n == hay@.len(),
                m == needle@.len(),
                i + m <= n,
                k <= m,
                matched ==> forall|q: int| 0 <= q < k ==> #[trigger] hay@[i + q] == needle@[q],
                !matched ==> !occurs_at(hay@, needle@, i as int),
            decreases m - k,
        {
            if matched && hay[i + k] != needle[k] {
                matched = false;
            }
            k = k + 1;
        }
        if matched {
            proof {
                occurs_at_subrange(hay@, needle@, i as int);
            }
            return true;
        }
        i = i + 1;
    }
    assert forall|j: int| 0 <= j && j + needle@.len() <= hay@.len() implies #[trigger] hay@.subrange(j, j + needle@.len()) != needle@ by {
        occurs_at_subrange(hay@, needle@, j);
    }
    false
}


/// Unicode `White_Space` property (the definition used by `char::is_whitespace`
/// and `str::trim`).
pub open spec fn is_white_space(c: char) -> bool {
    let v = c as u32;
    ||| 0x09 <= v <= 0x0D
    ||| v == 0x20
    ||| v == 0x85
    ||| v == 0xA0
    ||| v == 0x1680
    ||| 0x2000 <= v <= 0x200A
    ||| v == 0x2028
    ||| v == 0x2029
    ||| v == 0x202F
    ||| v == 0x205F
    ||| v == 0x3000
}

/// Tests the Unicode `White_Space` property of a character.
pub fn white_space(c: char) -> (r: bool)
    ensures
        r == is_white_space(c),
{
    let v = c as u32;
    (0x09 <= v && v <= 0x0D) || v == 0x20 || v == 0x85 || v == 0xA0 || v == 0x1680 || (0x2000 <= v
        && v <= 0x200A) || v == 0x2028 || v == 0x2029 || v == 0x202F || v == 0x205F || v == 0x3000
}

/// Index of the first character at or after `i` that is not white space
/// (or the length of `s` when there is none).
pub open spec fn skip_white_from(s: Seq<char>, i: int) -> int
    decreases s.len() - i,
{
    if 0 <= i < s.len() && is_white_space(s[i]) {
        skip_white_from(s, i + 1)
    } else {
        i
    }
}

/// Index just after the last character before `j` that is not white space
/// (or 0 when there is none).
pub open spec fn back_white_from(s: Seq<char>, j: int) -> int
    decreases j,
{
    if 0 < j <= s.len() && is_white_space(s[j - 1]) {
        back_white_from(s, j - 1)
    } else {
        j
    }
}

/// Start of the trimmed part of `s`.
pub open spec fn trim_start(s: Seq<char>) -> int {
    skip_white_from(s, 0)
}

/// End of the trimmed part of `s`.
pub open spec fn trim_end(s: Seq<char>) -> int {
    let e = back_white_from(s, s.len() as int);
    if e < trim_start(s) { trim_start(s) } else { e }
}

/// `s` without its leading and trailing white space (what `str::trim` gives).
pub open spec fn trimmed(s: Seq<char>) -> Seq<char> {
    s.subrange(trim_start(s), trim_end(s))
}

proof fn lemma_skip_white(s: Seq<char>, i: int)
    requires
        0 <= i <= s.len(),
    ensures
        i <= skip_white_from(s, i) <= s.len(),
        forall|k: int| i <= k < skip_white_from(s, i) ==> is_white_space(#[trigger] s[k]),
        skip_white_from(s, i) < s.len() ==> !is_white_space(s[skip_white_from(s, i)]),
    decreases s.len() - i,
{
    if i < s.len() && is_white_space(s[i]) {
        lemma_skip_white(s, i + 1);
    }
}

proof fn lemma_back_white(s: Seq<char>, j: int)
    requires
        0 <= j <= s.len(),
    ensures
        0 <= back_white_from(s, j) <= j,
        forall|k: int| back_white_from(s, j) <= k < j ==> is_white_space(#[trigger] s[k]),
        back_white_from(s, j) > 0 ==> !is_white_space(s[back_white_from(s, j) - 1]),
    decreases j,
{
    if 0 < j && is_white_space(s[j - 1]) {
        lemma_back_white(s, j - 1);
    }
}

/// What characterises the trimmed part: everything cut away is white space and,
/// unless nothing is left, the kept part starts and ends with a character that
/// is not white space.
pub proof fn lemma_trim_bounds(s: Seq<char>)
    ensures
        0 <= trim_start(s) <= trim_end(s) <= s.len(),
        forall|k: int| 0 <= k < trim_start(s) ==> is_white_space(#[trigger] s[k]),
        forall|k: int| trim_end(s) <= k < s.len() ==> is_white_space(#[trigger] s[k]),
        trim_start(s) < trim_end(s) ==> !is_white_space(s[trim_start(s)]) && !is_white_space(
            s[trim_end(s) - 1],
        ),
{
    lemma_skip_white(s, 0);
    lemma_back_white(s, s.len() as int);
    let a = trim_start(s);
    let e = back_white_from(s, s.len() as int);
    if e < a {
        // every character is white space
        assert forall|k: int| a <= k < s.len() implies is_white_space(#[trigger] s[k]) by {
            assert(e <= k);
        }
        if a < s.len() {
            assert(is_white_space(s[a]));
        }
    }
}

/// Trimming is idempotent: trimming an already trimmed text changes nothing.
pub proof fn lemma_trim_idempotent(s: Seq<char>)
    ensures
        trimmed(trimmed(s)) == trimmed(s),
{
    lemma_trim_bounds(s);
    let t = trimmed(s);
    lemma_trim_bounds(t);
    if t.len() > 0 {
        assert(!is_white_space(t[0]));
        assert(!is_white_space(t[t.len() - 1]));
        assert(trim_start(t) == 0);
        assert(back_white_from(t, t.len() as int) == t.len());
    } else {
        assert(trimmed(t) =~= t);
    }
    assert(trimmed(t) =~= t);
}

/// Returns the characters of `s` without leading and trailing white space.
pub fn trim_chars(s: &[char]) -> (r: Vec<char>)
    ensures
        r@ == trimmed(s@),
{
    let n = s.len();
    let mut a: usize = 0;
    while a < n && white_space(s[a])
        invariant
            n == s@.len(),
            a <= n,
            skip_white_from(s@, a as int) == trim_start(s@),
        decreases n - a,
    {
        a = a + 1;
    }
    let mut e: usize = n;
    while e > 0 && white_space(s[e - 1])
        invariant
            n == s@.len(),
            e <= n,
            back_white_from(s@, e as int) == back_white_from(s@, n as int),
        decreases e,
    {
        e = e - 1;
    }
    if e < a {
        e = a;
    }
    sub_chars(s, a, e)
}

/// Splits `s` at every occurrence of `sep` (what `str::split` with a single
/// character separator gives, empty pieces included).
pub open spec fn split_on(s: Seq<char>, sep: char) -> Seq<Seq<char>>
    decreases s.len(),
{
    if s.len() == 0 {
        seq![Seq::<char>::empty()]
    } else {
        let prev = split_on(s.drop_last(), sep);
        if s.last() == sep {
            prev.push(Seq::<char>::empty())
        } else {
            prev.update(prev.len() - 1, prev.last().push(s.last()))
        }
    }
}

/// There is always at least one piece.
pub proof fn lemma_split_nonempty(s: Seq<char>, sep: char)
    ensures
        split_on(s, sep).len() >= 1,
    decreases s.len(),
{
    if s.len() > 0 {
        lemma_split_nonempty(s.drop_last(), sep);
    }
}

/// Splits `s` at every `sep`.
pub fn split_chars(s: &[char], sep: char) -> (r: Vec<Vec<char>>)
    ensures
        r@.len() == split_on(s@, sep).len(),
        forall|i: int| 0 <= i < r@.len() ==> #[trigger] r@[i]@ == split_on(s@, sep)[i],
{
    let n = s.len();
    let mut parts: Vec<Vec<char>> = Vec::new();
    let mut cur: Vec<char> = Vec::new();
    let mut i: usize = 0;
    while i < n
        invariant
            n == s@.len(),
            i <= n,
            split_on(s@.take(i as int), sep).len() == parts@.len() + 1,
            forall|k: int| 0 <= k < parts@.len() ==> #[trigger] parts@[k]@ == split_on(s@.take(i as int), sep)[k],
            cur@ == split_on(s@.take(i as int), sep).last(),
        decreases n - i,
    {
        let c = s[i];
        let ghost prev = split_on(s@.take(i as int), sep);
        assert(s@.take(i + 1).drop_last() =~= s@.take(i as int));
        assert(s@.take(i + 1).last() == c);
        if c == sep {
            parts.push(cur);
            cur = Vec::new();
        } else {
            cur.push(c);
        }
        i = i + 1;
    }
    assert(s@.take(n as int) =~= s@);
    parts.push(cur);
    parts
}

/// Number of bytes in the UTF-8 encoding of one character.
pub open spec fn utf8_width(c: char) -> nat {
    let v = c as u32;
    if v <= 0x7F {
        1
    } else if v <= 0x7FF {
        2
    } else if v <= 0xFFFF {
        3
    } else {
        4
    }
}

proof fn lemma_utf8_width(c: char)
    ensures
        encode_scalar(c as u32).len() == utf8_width(c),
{
    char_is_scalar(c);
}

/// The byte length of a text (what `str::len` counts) is the sum of the
/// widths of its characters.
pub proof fn lemma_utf8_len_push(s: Seq<char>, c: char)
    ensures
        encode_utf8(s.push(c)).len() == encode_utf8(s).len() + utf8_width(c),
    decreases s.len(),
{
    lemma_utf8_width(c);
    if s.len() == 0 {
        assert(s.push(c).drop_first() =~= Seq::<char>::empty());
        assert(encode_utf8(Seq::<char>::empty()).len() == 0);
        assert(s.push(c)[0] == c);
        assert(encode_utf8(s.push(c)) == encode_scalar(c as u32) + encode_utf8(s.push(c).drop_first()));
    } else {
        lemma_utf8_width(s[0]);
        lemma_utf8_len_push(s.drop_first(), c);
        assert(s.push(c).drop_first() =~= s.drop_first().push(c));
        assert(s.push(c)[0] == s[0]);
        assert(encode_utf8(s.push(c)) == encode_scalar(s[0] as u32) + encode_utf8(s.push(c).drop_first()));
        assert(encode_utf8(s) == encode_scalar(s[0] as u32) + encode_utf8(s.drop_first()));
    }
}

/// Tests whether the UTF-8 encoding of `s` is exactly `k` bytes long
/// (whether `str::len` of the text equals `k`).
pub fn utf8_len_is(s: &[char], k: usize) -> (r: bool)
    requires
        k <= usize::MAX - 5,
    ensures
        r == (encode_utf8(s@).len() == k),
{
    // `n` is the byte length so far, capped at `k + 1`
    let mut n: usize = 0;
    let mut i: usize = 0;
    while i < s.len()
        invariant
            i <= s@.len(),
            k <= usize::MAX - 5,
            n <= k + 1,
            n == k + 1 ==> encode_utf8(s@.take(i as int)).len() >= k + 1,
            n <= k ==> n == encode_utf8(s@.take(i as int)).len(),
        decreases s@.len() - i,
    {
        let c = s[i];
        let v = c as u32;
        let w: usize = if v <= 0x7F {
            1
        } else if v <= 0x7FF {
            2
        } else if v <= 0xFFFF {
            3
        } else {
            4
        };
        proof {
            lemma_utf8_len_push(s@.take(i as int), c);
            assert(s@.take(i + 1) =~= s@.take(i as int).push(c));
        }
        if n + w > k {
            n = k + 1;
        } else {
            n = n + w;
        }
        i = i + 1;
    }
    assert(s@.take(i as int) =~= s@);
    n == k
}

/// The decimal digit character for `d < 10`.
pub open spec fn digit_char(d: nat) -> char {
    if d == 0 { '0' }
    else if d == 1 { '1' }
    else if d == 2 { '2' }
    else if d == 3 { '3' }
    else if d == 4 { '4' }
    else if d == 5 { '5' }
    else if d == 6 { '6' }
    else if d == 7 { '7' }
    else if d == 8 { '8' }
    else { '9' }
}

/// Decimal rendering of a natural number, without leading zeros.
pub open spec fn decimal(n: nat) -> Seq<char>
    decreases n,
{
    if n < 10 {
        seq![digit_char(n)]
    } else {
        decimal(n / 10).push(digit_char(n % 10))
    }
}

fn digit(d: u64) -> (c: char)
    requires
        d < 10,
    ensures
        c == digit_char(d as nat),
{
    if d == 0 { '0' }
    else if d == 1 { '1' }
    else if d == 2 { '2' }
    else if d == 3 { '3' }
    else if d == 4 { '4' }
    else if d == 5 { '5' }
    else if d == 6 { '6' }
    else if d == 7 { '7' }
    else if d == 8 { '8' }
    else { '9' }
}

/// Appends the decimal rendering of `n` to `s` (what `format!("{}", n)` writes).
pub fn push_decimal(s: &mut String, n: u64)
    ensures
        final(s)@ == old(s)@ + decimal(n as nat),
    decreases n,
{
    if n >= 10 {
        push_decimal(s, n / 10);
    }
    push_char(s, digit(n % 10));
    assert(old(s)@ + decimal(n as nat) =~= s@);
}

/// Decimal rendering of a signed number (a `-` before the digits when negative).
pub open spec fn signed_decimal(n: int) -> Seq<char> {
    if n < 0 {
        seq!['-'] + decimal((-n) as nat)
    } else {
        decimal(n as nat)
    }
}

/// Appends the decimal rendering of a signed 32-bit number to `s`.
pub fn push_signed_decimal(s: &mut String, n: i32)
    ensures
        final(s)@ == old(s)@ + signed_decimal(n as int),
{
    if n < 0 {
        push_char(s, '-');
        let m: u64 = (0i64 - n as i64) as u64;
        push_decimal(s, m);
        assert(s@ =~= old(s)@ + signed_decimal(n as int));
    } else {
        push_decimal(s, n as u64);
    }
}

/// Lexicographic order of texts by code point (which is the byte order of
/// their UTF-8 encodings): `a` comes no later than `b`.
pub open spec fn lex_le(a: Seq<char>, b: Seq<char>) -> bool
    decreases a.len(),
{
    if a.len() == 0 {
        true
    } else if b.len() == 0 {
        false
    } else if (a[0] as u32) != (b[0] as u32) {
        (a[0] as u32) < (b[0] as u32)
    } else {
        lex_le(a.drop_first(), b.drop_first())
    }
}

/// Any two texts are ordered one way or the other.
pub proof fn lemma_lex_total(a: Seq<char>, b: Seq<char>)
    ensures
        lex_le(a, b) || lex_le(b, a),
    decreases a.len(),
{
    if a.len() > 0 && b.len() > 0 && (a[0] as u32) == (b[0] as u32) {
        lemma_lex_total(a.drop_first(), b.drop_first());
    }
}

/// The order is transitive.
pub proof fn lemma_lex_transitive(a: Seq<char>, b: Seq<char>, c: Seq<char>)
    requires
        lex_le(a, b),
        lex_le(b, c),
    ensures
        lex_le(a, c),
    decreases a.len(),
{
    if a.len() > 0 && b.len() > 0 && c.len() > 0 && (a[0] as u32) == (b[0] as u32) && (b[0] as u32) == (
        c[0] as u32) {
        lemma_lex_transitive(a.drop_first(), b.drop_first(), c.drop_first());
    }
}

proof fn lemma_lex_skip(a: Seq<char>, b: Seq<char>, k: int)
    requires
        0 <= k <= a.len(),
        k <= b.len(),
        forall|i: int| 0 <= i < k ==> (a[i] as u32) == (b[i] as u32),
    ensures
        lex_le(a, b) == lex_le(a.skip(k), b.skip(k)),
    decreases k,
{
    if k == 0 {
        assert(a.skip(0) =~= a);
        assert(b.skip(0) =~= b);
    } else {
        lemma_lex_skip(a.drop_first(), b.drop_first(), k - 1);
        assert(a.drop_first().skip(k - 1) =~= a.skip(k));
        assert(b.drop_first().skip(k - 1) =~= b.skip(k));
    }
}

/// Whether `a` comes no later than `b` in the lexicographic order.
pub fn chars_lex_le(a: &[char], b: &[char]) -> (r: bool)
    ensures
        r == lex_le(a@, b@),
{
    let mut k: usize = 0;
    while k < a.len() && k < b.len() && (a[k] as u32) == (b[k] as u32)
        invariant
            k <= a@.len(),
            k <= b@.len(),
            forall|i: int| 0 <= i < k ==> (a@[i] as u32) == (b@[i] as u32),
        decreases a@.len() - k,
    {
        k = k + 1;
    }
    proof {
        lemma_lex_skip(a@, b@, k as int);
    }
    if k == a.len() {
        true
    } else if k == b.len() {
        false
    } else {
        (a[k] as u32) < (b[k] as u32)
    }
}

/// Where two ordered texts first differ, the earlier one has the smaller code
/// point.
pub proof fn lemma_lex_le_first_difference(a: Seq<char>, b: Seq<char>, k: int)
    requires
        lex_le(a, b),
        0 <= k < a.len(),
        k < b.len(),
        forall|m: int| 0 <= m < k ==> (a[m] as u32) == (b[m] as u32),
        (a[k] as u32) != (b[k] as u32),
    ensures
        (a[k] as u32) < (b[k] as u32),
{
    lemma_lex_skip(a, b, k);
    assert(a.skip(k)[0] == a[k]);
    assert(b.skip(k)[0] == b[k]);
}

/// A text never comes before a proper prefix of itself.
pub proof fn lemma_lex_le_not_before_prefix(a: Seq<char>, b: Seq<char>)
    requires
        b.len() < a.len(),
        forall|m: int| 0 <= m < b.len() ==> (a[m] as u32) == (b[m] as u32),
    ensures
        !lex_le(a, b),
{
    lemma_lex_skip(a, b, b.len() as int);
    assert(b.skip(b.len() as int).len() == 0);
}

} // verus!
