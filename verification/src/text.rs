//! Character-level text helpers: whitespace trimming, word splitting,
//! case folding and substring search, all over `Seq<char>` models.
use vstd::prelude::*;

verus! {

// ---------------------------------------------------------------------
// Outside behaviour of std's char and str functions
// ---------------------------------------------------------------------

/// The ASCII characters that are whitespace: tab, line feed, vertical tab,
/// form feed, carriage return and space.
pub open spec fn ascii_whitespace(c: char) -> bool {
    c == '\t' || c == '\n' || c == '\x0B' || c == '\x0C' || c == '\r' || c == ' '
}

/// Whether `c` has the Unicode `White_Space` property (PropList.txt): the
/// ASCII whitespace, U+0085, U+00A0, U+1680, U+2000 to U+200A, U+2028,
/// U+2029, U+202F, U+205F and U+3000.
pub open spec fn spec_is_whitespace(c: char) -> bool {
    let u = c as u32;
    ||| ascii_whitespace(c)
    ||| u == 0x85 || u == 0xA0 || u == 0x1680
    ||| 0x2000 <= u <= 0x200A
    ||| u == 0x2028 || u == 0x2029 || u == 0x202F || u == 0x205F || u == 0x3000
}

/// `char::is_whitespace`: the Unicode `White_Space` property.
pub(crate) fn is_whitespace(c: char) -> (res: bool)
    ensures
        res == spec_is_whitespace(c),
{
    let u: u32 = c as u32;
    c == '\t' || c == '\n' || c == '\x0B' || c == '\x0C' || c == '\r' || c == ' ' || u == 0x85
        || u == 0xA0 || u == 0x1680 || (0x2000 <= u && u <= 0x200A) || u == 0x2028 || u == 0x2029
        || u == 0x202F || u == 0x205F || u == 0x3000
}

/// Whether every character of `s` is ASCII.
pub open spec fn all_ascii(s: Seq<char>) -> bool {
    forall|i: int| 0 <= i < s.len() ==> (s[i] as u32) < 128
}

/// What `str::to_lowercase` returns for a string with these characters.
pub uninterp spec fn spec_to_lowercase(s: Seq<char>) -> Seq<char>;

/// The lower-cased text: the ASCII lower-casing of all-ASCII text, what
/// `str::to_lowercase` gives otherwise.
pub open spec fn lowercased(s: Seq<char>) -> Seq<char> {
    if all_ascii(s) {
        ascii_lower(s)
    } else {
        spec_to_lowercase(s)
    }
}

/// Wraps `str::to_lowercase` (full Unicode lower-casing). Its result is
/// named; of text that is all ASCII it is the ASCII lower-casing, as the
/// Unicode lower-case mapping of an ASCII character is its ASCII one.
#[verifier::external_body]
pub(crate) fn to_lowercase(s: &str) -> (res: String)
    ensures
        res@ == spec_to_lowercase(s@),
        res@ == lowercased(s@),
{
    s.to_lowercase()
}

/// Wraps `String::push`: appends one character.
#[verifier::external_body]
pub(crate) fn push_char(s: &mut String, c: char)
    ensures
        final(s)@ == old(s)@.push(c),
{
    s.push(c)
}

// ---------------------------------------------------------------------
// Conversions
// ---------------------------------------------------------------------

/// The characters of `s`, in order.
pub fn chars_of(s: &str) -> (res: Vec<char>)
    ensures
        res@ == s@,
{
    let mut out: Vec<char> = Vec::new();
    for c in it: s.chars()
        invariant
            out@ == it.seq().take(it.index() as int),
            it.seq() == s@,
    {
        out.push(c);
    }
    out
}

/// Appends the characters of `t` to `s`.
pub fn push_str(s: &mut String, t: &str)
    ensures
        final(s)@ == old(s)@ + t@,
{
    s.append(t);
}

/// A `String` copy of a subrange of `v`.
pub fn string_of_range(v: &Vec<char>, from: usize, to: usize) -> (res: String)
    requires
        from <= to <= v.len(),
    ensures
        res@ == v@.subrange(from as int, to as int),
{
    let mut out = String::new();
    let mut i: usize = from;
    while i < to
        invariant
            from <= i <= to <= v.len(),
            out@ == v@.subrange(from as int, i as int),
        decreases to - i,
    {
        push_char(&mut out, v[i]);
        i += 1;
    }
    out
}

// ---------------------------------------------------------------------
// Trimming
// ---------------------------------------------------------------------

/// `s` without its leading whitespace.
pub open spec fn trim_start(s: Seq<char>) -> Seq<char>
    decreases s.len(),
{
    if s.len() > 0 && spec_is_whitespace(s[0]) {
        trim_start(s.drop_first())
    } else {
        s
    }
}

/// `s` without its trailing whitespace.
pub open spec fn trim_end(s: Seq<char>) -> Seq<char>
    decreases s.len(),
{
    if s.len() > 0 && spec_is_whitespace(s.last()) {
        trim_end(s.drop_last())
    } else {
        s
    }
}

/// `s` without leading and trailing whitespace (`str::trim`).
pub open spec fn spec_trim(s: Seq<char>) -> Seq<char> {
    trim_end(trim_start(s))
}

pub proof fn lemma_trim_start_shape(s: Seq<char>)
    ensures
        trim_start(s).len() <= s.len(),
        trim_start(s) == s.skip(s.len() - trim_start(s).len()),
        trim_start(s).len() > 0 ==> !spec_is_whitespace(trim_start(s)[0]),
        s.len() > 0 && spec_is_whitespace(s[0]) ==> trim_start(s).len() < s.len(),
    decreases s.len(),
{
    if s.len() > 0 && spec_is_whitespace(s[0]) {
        lemma_trim_start_shape(s.drop_first());
        let t = trim_start(s.drop_first());
        assert(s.drop_first().skip(s.drop_first().len() - t.len()) =~= s.skip(s.len() - t.len()));
    } else {
        assert(s.skip(0) =~= s);
    }
}

pub proof fn lemma_trim_end_shape(s: Seq<char>)
    ensures
        trim_end(s).len() <= s.len(),
        trim_end(s) == s.take(trim_end(s).len() as int),
        trim_end(s).len() > 0 ==> !spec_is_whitespace(trim_end(s).last()),
    decreases s.len(),
{
    if s.len() > 0 && spec_is_whitespace(s.last()) {
        lemma_trim_end_shape(s.drop_last());
        let t = trim_end(s.drop_last());
        assert(s.drop_last().take(t.len() as int) =~= s.take(t.len() as int));
    } else {
        assert(s.take(s.len() as int) =~= s);
    }
}

/// Trimming a trimmed string changes nothing.
pub proof fn lemma_trim_idempotent(s: Seq<char>)
    ensures
        spec_trim(spec_trim(s)) == spec_trim(s),
{
    let ts = trim_start(s);
    let u = trim_end(ts);
    lemma_trim_start_shape(s);
    lemma_trim_end_shape(ts);
    if u.len() > 0 {
        assert(u[0] == ts[0]);
        assert(trim_start(u) == u);
        assert(trim_end(u) == u);
    } else {
        assert(trim_start(u) == u);
        assert(trim_end(u) == u);
    }
}

/// A non-empty trimmed string starts and ends with non-whitespace.
pub proof fn lemma_trimmed_ends(s: Seq<char>)
    requires
        spec_trim(s) == s,
        s.len() > 0,
    ensures
        !spec_is_whitespace(s[0]),
        !spec_is_whitespace(s.last()),
{
    lemma_trim_start_shape(s);
    lemma_trim_end_shape(trim_start(s));
    let ts = trim_start(s);
    if spec_is_whitespace(s[0]) {
        assert(spec_trim(s).len() <= ts.len());
    }
    assert(ts.len() == s.len());
    assert(ts == s.skip(0));
    assert(s.skip(0) =~= s);
}

proof fn lemma_trim_start_skip(s: Seq<char>, i: int)
    requires
        0 <= i <= s.len(),
        forall|k: int| 0 <= k < i ==> spec_is_whitespace(#[trigger] s[k]),
    ensures
        trim_start(s) == trim_start(s.skip(i)),
    decreases i,
{
    if i > 0 {
        assert(s.drop_first() == s.skip(1));
        lemma_trim_start_skip(s.skip(1), i - 1);
        assert(s.skip(1).skip(i - 1) == s.skip(i));
    } else {
        assert(s.skip(0) == s);
    }
}

proof fn lemma_trim_end_take(s: Seq<char>, j: int)
    requires
        0 <= j <= s.len(),
        forall|k: int| j <= k < s.len() ==> spec_is_whitespace(#[trigger] s[k]),
    ensures
        trim_end(s) == trim_end(s.take(j)),
    decreases s.len() - j,
{
    if j < s.len() {
        assert(s.drop_last() == s.take(s.len() - 1));
        lemma_trim_end_take(s.take(s.len() - 1), j);
        assert(s.take(s.len() - 1).take(j) == s.take(j));
    } else {
        assert(s.take(j) == s);
    }
}

/// Bounds `[start, end)` of `v` with leading and trailing whitespace removed.
pub fn trim_bounds(v: &Vec<char>) -> (res: (usize, usize))
    ensures
        res.0 <= res.1 <= v.len(),
        v@.subrange(res.0 as int, res.1 as int) == spec_trim(v@),
{
    let mut i: usize = 0;
    while i < v.len() && is_whitespace(v[i])
        invariant
            i <= v.len(),
            forall|k: int| 0 <= k < i ==> spec_is_whitespace(#[trigger] v@[k]),
        decreases v.len() - i,
    {
        i += 1;
    }
    proof {
        lemma_trim_start_skip(v@, i as int);
        if i < v.len() {
            assert(!spec_is_whitespace(v@.skip(i as int)[0]));
        }
        assert(trim_start(v@.skip(i as int)) == v@.skip(i as int));
    }
    let mut j: usize = v.len();
    while j > i && is_whitespace(v[j - 1])
        invariant
            i <= j <= v.len(),
            forall|k: int| j <= k < v.len() ==> spec_is_whitespace(#[trigger] v@[k]),
        decreases j,
    {
        j -= 1;
    }
    proof {
        let t = v@.skip(i as int);
        assert forall|k: int| j - i <= k < t.len() implies spec_is_whitespace(#[trigger] t[k]) by {
            assert(t[k] == v@[k + i]);
        }
        lemma_trim_end_take(t, j - i);
        let u = t.take(j - i);
        assert(u == v@.subrange(i as int, j as int));
        if j > i {
            assert(!spec_is_whitespace(u.last()));
        }
        assert(trim_end(u) == u);
    }
    (i, j)
}

/// `str::trim`, as a `String`.
pub fn trim(s: &str) -> (res: String)
    ensures
        res@ == spec_trim(s@),
{
    let v = chars_of(s);
    let (a, b) = trim_bounds(&v);
    string_of_range(&v, a, b)
}

// ---------------------------------------------------------------------
// Words
// ---------------------------------------------------------------------

/// The longest prefix of `s` without whitespace.
pub open spec fn word_prefix(s: Seq<char>) -> Seq<char>
    decreases s.len(),
{
    if s.len() == 0 || spec_is_whitespace(s[0]) {
        Seq::empty()
    } else {
        seq![s[0]] + word_prefix(s.drop_first())
    }
}

pub proof fn lemma_word_prefix(s: Seq<char>)
    ensures
        word_prefix(s).len() <= s.len(),
        word_prefix(s) == s.take(word_prefix(s).len() as int),
        forall|k: int| 0 <= k < word_prefix(s).len() ==> !spec_is_whitespace(#[trigger] s[k]),
        word_prefix(s).len() < s.len() ==> spec_is_whitespace(s[word_prefix(s).len() as int]),
        s.len() > 0 && !spec_is_whitespace(s[0]) ==> word_prefix(s).len() >= 1,
    decreases s.len(),
{
    if s.len() > 0 && !spec_is_whitespace(s[0]) {
        lemma_word_prefix(s.drop_first());
        let w = word_prefix(s.drop_first());
        assert forall|k: int| 0 <= k < word_prefix(s).len() implies !spec_is_whitespace(#[trigger] s[k]) by {
            if k > 0 {
                assert(s[k] == s.drop_first()[k - 1]);
            }
        }
        assert(word_prefix(s) == s.take(w.len() as int + 1));
    }
}

/// The length of the word that `v` starts with.
pub fn word_end(v: &Vec<char>) -> (h: usize)
    ensures
        h <= v.len(),
        word_prefix(v@) == v@.take(h as int),
        h < v.len() ==> spec_is_whitespace(v@[h as int]),
{
    let mut i: usize = 0;
    while i < v.len() && !is_whitespace(v[i])
        invariant
            i <= v.len(),
            forall|k: int| 0 <= k < i ==> !spec_is_whitespace(#[trigger] v@[k]),
        decreases v.len() - i,
    {
        i += 1;
    }
    proof {
        lemma_word_prefix(v@);
        let n = word_prefix(v@).len();
        if n < i {
            assert(!spec_is_whitespace(v@[n as int]));
        }
        if i < n {
            assert(!spec_is_whitespace(v@[i as int]));
        }
        assert(n == i);
    }
    i
}

/// The whitespace-separated words of `s` (`str::split_whitespace`).
pub open spec fn spec_words(s: Seq<char>) -> Seq<Seq<char>>
    decreases s.len(),
{
    if s.len() == 0 {
        Seq::empty()
    } else if spec_is_whitespace(s[0]) {
        spec_words(s.drop_first())
    } else {
        let w = word_prefix(s);
        proof {
            lemma_word_prefix(s);
        }
        seq![w] + spec_words(s.skip(w.len() as int))
    }
}

proof fn lemma_words_skip_ws(s: Seq<char>, i: int, j: int)
    requires
        0 <= i <= j <= s.len(),
        forall|k: int| i <= k < j ==> spec_is_whitespace(#[trigger] s[k]),
    ensures
        spec_words(s.skip(i)) == spec_words(s.skip(j)),
    decreases j - i,
{
    if i < j {
        assert(s.skip(i).drop_first() == s.skip(i + 1));
        assert(s.skip(i)[0] == s[i]);
        lemma_words_skip_ws(s, i + 1, j);
    }
}

/// The words of `v` (split at whitespace), as strings.
pub fn split_words(v: &Vec<char>) -> (res: Vec<String>)
    ensures
        res@.len() == spec_words(v@).len(),
        forall|k: int| 0 <= k < res@.len() ==> #[trigger] res@[k]@ == spec_words(v@)[k],
{
    let mut out: Vec<String> = Vec::new();
    let ghost mut done: Seq<Seq<char>> = Seq::empty();
    let mut i: usize = 0;
    proof {
        assert(v@.skip(0) == v@);
    }
    while i < v.len()
        invariant
            i <= v.len(),
            out@.len() == done.len(),
            forall|k: int| 0 <= k < out@.len() ==> #[trigger] out@[k]@ == done[k],
            done + spec_words(v@.skip(i as int)) == spec_words(v@),
        decreases v.len() - i,
    {
        if is_whitespace(v[i]) {
            proof {
                lemma_words_skip_ws(v@, i as int, i + 1);
            }
            i += 1;
        } else {
            let start: usize = i;
            while i < v.len() && !is_whitespace(v[i])
                invariant
                    start <= i <= v.len(),
                    forall|k: int| start <= k < i ==> !spec_is_whitespace(#[trigger] v@[k]),
                decreases v.len() - i,
            {
                i += 1;
            }
            let w = string_of_range(v, start, i);
            proof {
                let s = v@.skip(start as int);
                lemma_word_prefix(s);
                let n = word_prefix(s).len();
                assert forall|k: int| 0 <= k < i - start implies !spec_is_whitespace(#[trigger] s[k]) by {
                    assert(s[k] == v@[k + start]);
                }
                if n < i - start {
                    assert(!spec_is_whitespace(s[n as int]));
                }
                if i < v.len() {
                    assert(s[i - start] == v@[i as int]);
                    if i - start < n {
                        assert(!spec_is_whitespace(s[i - start]));
                    }
                }
                assert(n == i - start);
                assert(word_prefix(s) == v@.subrange(start as int, i as int));
                assert(s.skip(n as int) == v@.skip(i as int));
                assert(spec_words(s) == seq![word_prefix(s)] + spec_words(v@.skip(i as int)));
                assert(done.push(word_prefix(s)) + spec_words(v@.skip(i as int)) == done + spec_words(s));
                done = done.push(word_prefix(s));
            }
            out.push(w);
        }
    }
    proof {
        assert(v@.skip(i as int).len() == 0);
        assert(done + Seq::<Seq<char>>::empty() == done);
    }
    out
}

/// Whether two strings hold the same characters (`str == str`).
pub fn str_eq(a: &str, b: &str) -> (res: bool)
    ensures
        res == (a@ == b@),
{
    let va = chars_of(a);
    let vb = chars_of(b);
    if va.len() != vb.len() {
        return false;
    }
    let mut i: usize = 0;
    while i < va.len()
        invariant
            i <= va.len() == vb.len(),
            va@ == a@,
            vb@ == b@,
            forall|k: int| 0 <= k < i ==> va@[k] == vb@[k],
        decreases va.len() - i,
    {
        if va[i] != vb[i] {
            proof {
                assert(va@[i as int] != vb@[i as int]);
                assert(va@ != vb@);
            }
            return false;
        }
        i += 1;
    }
    proof {
        assert(va@ =~= vb@);
    }
    true
}

/// A copy of `s` (`str::to_string`).
pub fn copy_str(s: &str) -> (res: String)
    ensures
        res@ == s@,
{
    let mut out = String::new();
    push_str(&mut out, s);
    proof {
        assert(Seq::<char>::empty() + s@ == s@);
    }
    out
}

/// A copy of every string of `v`.
pub fn clone_strings(v: &Vec<String>) -> (res: Vec<String>)
    ensures
        res@.len() == v@.len(),
        forall|k: int| 0 <= k < v@.len() ==> #[trigger] res@[k]@ == v@[k]@,
{
    let mut out: Vec<String> = Vec::new();
    let mut i: usize = 0;
    while i < v.len()
        invariant
            i <= v.len(),
            out@.len() == i,
            forall|k: int| 0 <= k < i ==> #[trigger] out@[k]@ == v@[k]@,
        decreases v.len() - i,
    {
        out.push(copy_str(v[i].as_str()));
        i += 1;
    }
    out
}

// ---------------------------------------------------------------------
// Case folding and search
// ---------------------------------------------------------------------

/// ASCII lower-casing of one character (`char::to_ascii_lowercase`).
pub open spec fn ascii_lower_char(c: char) -> char {
    if 'A' <= c && c <= 'Z' {
        ((c as u32) + 32) as char
    } else {
        c
    }
}

/// ASCII lower-casing of every character (`str::to_ascii_lowercase`).
pub open spec fn ascii_lower(s: Seq<char>) -> Seq<char> {
    s.map_values(|c: char| ascii_lower_char(c))
}

/// `str::to_ascii_lowercase`: upper-case ASCII letters become lower-case,
/// every other character stays.
pub fn to_ascii_lowercase(s: &str) -> (res: String)
    ensures
        res@ == ascii_lower(s@),
{
    let v = chars_of(s);
    let mut out = String::new();
    let mut i: usize = 0;
    while i < v.len()
        invariant
            i <= v.len(),
            v@ == s@,
            out@ == ascii_lower(v@.take(i as int)),
        decreases v.len() - i,
    {
        let c = v[i];
        let d = if 'A' <= c && c <= 'Z' {
            let x: u8 = c as u8;
            proof {
                let cu: u32 = c as u32;
                assert(cu < 256);
                assert((cu as u8) as u32 == cu) by (bit_vector)
                    requires
                        cu < 256,
                ;
            }
            let y: u8 = x + 32;
            y as char
        } else {
            c
        };
        proof {
            assert(v@.take(i + 1) == v@.take(i as int).push(c));
            assert(d == ascii_lower_char(c));
        }
        push_char(&mut out, d);
        i += 1;
    }
    proof {
        assert(v@.take(v.len() as int) == v@);
    }
    out
}

/// Whether `needle` occurs in `hay` as a contiguous run (`str::contains`).
pub open spec fn spec_contains(hay: Seq<char>, needle: Seq<char>) -> bool {
    exists|i: int|
        0 <= i && i + needle.len() <= hay.len() && #[trigger] hay.subrange(i, i + needle.len())
            == needle
}

/// Whether `needle` occurs at position `at` of `hay`.
fn occurs_at(hay: &Vec<char>, needle: &Vec<char>, at: usize) -> (res: bool)
    requires
        at + needle.len() <= hay.len(),
    ensures
        res == (hay@.subrange(at as int, at + needle.len()) == needle@),
{
    let mut k: usize = 0;
    while k < needle.len()
        invariant
            k <= needle.len(),
            at + needle.len() <= hay.len(),
            forall|m: int| 0 <= m < k ==> hay@[at + m] == needle@[m],
        decreases needle.len() - k,
    {
        if hay[at + k] != needle[k] {
            proof {
                assert(hay@.subrange(at as int, at + needle.len())[k as int] != needle@[k as int]);
            }
            return false;
        }
        k += 1;
    }
    proof {
        assert(hay@.subrange(at as int, at + needle.len()) =~= needle@);
    }
    true
}

/// Substring search over character vectors.
pub fn contains_chars(hay: &Vec<char>, needle: &Vec<char>) -> (res: bool)
    ensures
        res == spec_contains(hay@, needle@),
{
    if needle.len() > hay.len() {
        return false;
    }
    let last: usize = hay.len() - needle.len();
    let mut i: usize = 0;
    loop
        invariant
            i <= last,
            last + needle.len() == hay.len(),
            forall|j: int|
                0 <= j < i ==> #[trigger] hay@.subrange(j, j + needle.len()) != needle@,
        decreases last - i,
    {
        if occurs_at(hay, needle, i) {
            return true;
        }
        if i == last {
            return false;
        }
        i += 1;
    }
}

} // verus!
