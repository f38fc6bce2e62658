//! Text as sequences of characters: trimming, splitting, searching and decimal numbers.
//!
//! The functions work on character slices; [`chars_of`] and [`string_of`] move between those
//! and `str`/`String`.
use vstd::prelude::*;
use vstd::slice::slice_subrange;
use vstd::slice::slice_to_vec;

verus! {

/// `String::push` appends one character to the end of the string.
pub assume_specification[ String::push ](s: &mut String, c: char)
    ensures
        final(s)@ == old(s)@.push(c),
;

/// The bytes of a process or of a file read as text, each maximal ill-formed part
/// replaced by U+FFFD.
pub uninterp spec fn utf8_lossy(bytes: Seq<u8>) -> Seq<char>;

/// `String::from_utf8_lossy`, as an owned string. Well-formed UTF-8 is decoded unchanged; what
/// stands for ill-formed bytes is left to the name.
#[verifier::external_body]
pub(crate) fn text_from_utf8_lossy(bytes: &[u8]) -> (r: String)
    ensures
        r@ == utf8_lossy(bytes@),
        vstd::utf8::valid_utf8(bytes@) ==> r@ == vstd::utf8::decode_utf8(bytes@),
{
    String::from_utf8_lossy(bytes).into_owned()
}

/// The bytes of a process or of a file read as text.
pub fn lossy_text(bytes: &[u8]) -> (r: String)
    ensures
        r@ == utf8_lossy(bytes@),
        vstd::utf8::valid_utf8(bytes@) ==> r@ == vstd::utf8::decode_utf8(bytes@),
{
    text_from_utf8_lossy(bytes)
}

/// A set of characters used to trim or to split.
#[derive(Debug, Clone, Copy, PartialEq, Eq)]
pub enum Class {
    /// Unicode white space.
    Space,
    /// White space or a comma.
    SpaceOrComma,
    /// Everything but the ASCII digits.
    NotDigit,
    /// The double quote.
    Quote,
    /// The underscore.
    Underscore,
    /// The newline.
    Newline,
    /// The slash.
    Slash,
    /// The colon.
    Colon,
    /// A colon or a comma.
    ColonOrComma,
    /// A comma or a semicolon.
    CommaOrSemicolon,
    /// A tab or a vertical bar.
    TabOrBar,
}

/// Unicode `White_Space`.
pub open spec fn is_space(c: char) -> bool {
    let n = c as u32;
    ||| 0x9 <= n <= 0xd
    ||| n == 0x20
    ||| n == 0x85
    ||| n == 0xa0
    ||| n == 0x1680
    ||| 0x2000 <= n <= 0x200a
    ||| n == 0x2028
    ||| n == 0x2029
    ||| n == 0x202f
    ||| n == 0x205f
    ||| n == 0x3000
}

/// `0` to `9`.
pub open spec fn is_digit(c: char) -> bool {
    '0' <= c <= '9'
}

/// An ASCII letter or digit.
pub open spec fn is_alphanumeric(c: char) -> bool {
    is_digit(c) || 'a' <= c <= 'z' || 'A' <= c <= 'Z'
}

/// Whether `c` is white space.
pub fn space(c: char) -> (r: bool)
    ensures
        r == is_space(c),
{
    let n: u32 = c as u32;
    (0x9 <= n && n <= 0xd) || n == 0x20 || n == 0x85 || n == 0xa0 || n == 0x1680 || (0x2000 <= n
        && n <= 0x200a) || n == 0x2028 || n == 0x2029 || n == 0x202f || n == 0x205f || n == 0x3000
}

/// Whether `c` is an ASCII digit.
pub fn digit(c: char) -> (r: bool)
    ensures
        r == is_digit(c),
{
    '0' <= c && c <= '9'
}

/// Whether `c` is an ASCII letter or digit.
pub fn alphanumeric(c: char) -> (r: bool)
    ensures
        r == is_alphanumeric(c),
{
    digit(c) || ('a' <= c && c <= 'z') || ('A' <= c && c <= 'Z')
}

impl Class {
    /// Membership.
    pub open spec fn has(self, c: char) -> bool {
        match self {
            Class::Space => is_space(c),
            Class::SpaceOrComma => is_space(c) || c == ',',
            Class::NotDigit => !is_digit(c),
            Class::Quote => c == '"',
            Class::Underscore => c == '_',
            Class::Newline => c == '\n',
            Class::Slash => c == '/',
            Class::Colon => c == ':',
            Class::ColonOrComma => c == ':' || c == ',',
            Class::CommaOrSemicolon => c == ',' || c == ';',
            Class::TabOrBar => c == '\t' || c == '|',
        }
    }

    /// Whether `c` belongs to the class.
    pub fn contains(self, c: char) -> (r: bool)
        ensures
            r == self.has(c),
    {
        match self {
            Class::Space => space(c),
            Class::SpaceOrComma => space(c) || c == ',',
            Class::NotDigit => !digit(c),
            Class::Quote => c == '"',
            Class::Underscore => c == '_',
            Class::Newline => c == '\n',
            Class::Slash => c == '/',
            Class::Colon => c == ':',
            Class::ColonOrComma => c == ':' || c == ',',
            Class::CommaOrSemicolon => c == ',' || c == ';',
            Class::TabOrBar => c == '\t' || c == '|',
        }
    }
}

/// The texts held by a list of strings.
pub open spec fn strings(v: Seq<String>) -> Seq<Seq<char>> {
    Seq::new(v.len(), |i: int| v[i]@)
}

/// The texts held by a list of character vectors.
pub open spec fn texts(v: Seq<Vec<char>>) -> Seq<Seq<char>> {
    Seq::new(v.len(), |i: int| v[i]@)
}

/// The text of an optional string.
pub open spec fn opt_text(o: Option<String>) -> Option<Seq<char>> {
    match o {
        Some(s) => Some(s@),
        None => None,
    }
}

/// The text of an optional string slice.
pub open spec fn opt_str(o: Option<&str>) -> Option<Seq<char>> {
    match o {
        Some(s) => Some(s@),
        None => None,
    }
}

/// The characters of `s`.
pub fn chars_of(s: &str) -> (r: Vec<char>)
    ensures
        r@ == s@,
{
    let mut out: Vec<char> = Vec::new();
    for c in it: s.chars()
        invariant
            out@ == it.seq().take(it.index() as int),
            it.seq() == s@,
    {
        out.push(c);
    }
    out
}

/// The string made of `s`.
pub fn string_of(s: &[char]) -> (r: String)
    ensures
        r@ == s@,
{
    let mut out = String::new();
    for i in 0..s.len()
        invariant
            out@ == s@.take(i as int),
    {
        out.push(s[i]);
    }
    out
}

/// One string for each character vector.
pub fn strings_of(v: &Vec<Vec<char>>) -> (r: Vec<String>)
    ensures
        strings(r@) == texts(v@),
{
    let mut out: Vec<String> = Vec::new();
    for i in 0..v.len()
        invariant
            out@.len() == i,
            forall|j: int| 0 <= j < i ==> #[trigger] out@[j]@ == v@[j]@,
    {
        out.push(string_of(&v[i]));
    }
    out
}

/// A copy of an optional string slice.
pub fn owned(s: Option<&str>) -> (r: Option<String>)
    ensures
        opt_text(r) == opt_str(s),
{
    match s {
        Some(s) => Some(s.to_owned()),
        None => None,
    }
}

/// The borrowed form of an optional string.
pub fn borrowed(s: &Option<String>) -> (r: Option<&str>)
    ensures
        opt_str(r) == opt_text(*s),
{
    match s {
        Some(s) => Some(s.as_str()),
        None => None,
    }
}

/// Whether two texts are the same.
pub fn same(a: &[char], b: &[char]) -> (r: bool)
    ensures
        r == (a@ == b@),
{
    if a.len() != b.len() {
        return false;
    }
    for i in 0..a.len()
        invariant
            a@.len() == b@.len(),
            a@.take(i as int) == b@.take(i as int),
    {
        if a[i] != b[i] {
            return false;
        }
    }
    assert(a@ == a@.take(a@.len() as int));
    assert(b@ == b@.take(b@.len() as int));
    true
}

/// Whether two string slices hold the same text.
pub fn same_str(a: &str, b: &str) -> (r: bool)
    ensures
        r == (a@ == b@),
{
    same(&chars_of(a), &chars_of(b))
}

/// `s` without the characters of `k` that it starts with.
pub open spec fn trim_start_by(s: Seq<char>, k: Class) -> Seq<char>
    decreases s.len(),
{
    if s.len() > 0 && k.has(s[0]) {
        trim_start_by(s.drop_first(), k)
    } else {
        s
    }
}

/// `s` without the characters of `k` that it ends with.
pub open spec fn trim_end_by(s: Seq<char>, k: Class) -> Seq<char>
    decreases s.len(),
{
    if s.len() > 0 && k.has(s.last()) {
        trim_end_by(s.drop_last(), k)
    } else {
        s
    }
}

/// `s` without the characters of `k` at both ends.
pub open spec fn trim_by(s: Seq<char>, k: Class) -> Seq<char> {
    trim_end_by(trim_start_by(s, k), k)
}

/// `s` without the white space at both ends.
pub open spec fn trim(s: Seq<char>) -> Seq<char> {
    trim_by(s, Class::Space)
}

/// Trims the start.
pub fn trimmed_start_by(s: &[char], k: Class) -> (r: &[char])
    ensures
        r@ == trim_start_by(s@, k),
{
    let mut i: usize = 0;
    assert(s@.skip(0) == s@);
    while i < s.len() && k.contains(s[i])
        invariant
            i <= s@.len(),
            trim_start_by(s@, k) == trim_start_by(s@.skip(i as int), k),
        decreases s@.len() - i,
    {
        assert(s@.skip(i as int).drop_first() == s@.skip(i + 1));
        i += 1;
    }
    assert(s@.skip(i as int) == s@.subrange(i as int, s@.len() as int));
    slice_subrange(s, i, s.len())
}

/// Trims the end.
pub fn trimmed_end_by(s: &[char], k: Class) -> (r: &[char])
    ensures
        r@ == trim_end_by(s@, k),
{
    let mut n: usize = s.len();
    assert(s@.take(n as int) == s@);
    while n > 0 && k.contains(s[n - 1])
        invariant
            n <= s@.len(),
            trim_end_by(s@, k) == trim_end_by(s@.take(n as int), k),
        decreases n,
    {
        assert(s@.take(n as int).drop_last() == s@.take(n - 1));
        n -= 1;
    }
    assert(s@.take(n as int) == s@.subrange(0, n as int));
    slice_subrange(s, 0, n)
}

/// Trims both ends.
pub fn trimmed_by(s: &[char], k: Class) -> (r: &[char])
    ensures
        r@ == trim_by(s@, k),
{
    trimmed_end_by(trimmed_start_by(s, k), k)
}

/// Trims the white space at both ends.
pub fn trimmed(s: &[char]) -> (r: &[char])
    ensures
        r@ == trim(s@),
{
    trimmed_by(s, Class::Space)
}

/// Trims the white space at both ends of a string slice.
pub fn trimmed_str(s: &str) -> (r: String)
    ensures
        r@ == trim(s@),
{
    string_of(trimmed(&chars_of(s)))
}

/// A value that is blank counts as missing; another is trimmed.
pub open spec fn nonblank(value: Option<Seq<char>>) -> Option<Seq<char>> {
    match value {
        Some(v) => if trim(v).len() == 0 {
            None
        } else {
            Some(trim(v))
        },
        None => None,
    }
}

/// The trimmed value, where there is one that is not blank.
pub fn nonempty(value: Option<&str>) -> (r: Option<String>)
    ensures
        opt_text(r) == nonblank(opt_str(value)),
{
    match value {
        Some(v) => {
            let t = trimmed_str(v);
            if t.as_str().is_empty() {
                None
            } else {
                Some(t)
            }
        },
        None => None,
    }
}

/// The pieces of `s` between the characters of `k`: one more than there are such characters.
pub open spec fn split_by(s: Seq<char>, k: Class) -> Seq<Seq<char>>
    decreases s.len(),
{
    if s.len() == 0 {
        seq![Seq::empty()]
    } else {
        let before = split_by(s.drop_last(), k);
        if k.has(s.last()) {
            before.push(Seq::empty())
        } else {
            before.drop_last().push(before.last().push(s.last()))
        }
    }
}

/// A split has at least one piece.
pub proof fn lemma_split_nonempty(s: Seq<char>, k: Class)
    ensures
        split_by(s, k).len() >= 1,
    decreases s.len(),
{
    if s.len() > 0 {
        lemma_split_nonempty(s.drop_last(), k);
    }
}

/// Splits at every character of `k`.
pub fn split(s: &[char], k: Class) -> (r: Vec<Vec<char>>)
    ensures
        texts(r@) == split_by(s@, k),
        r@.len() >= 1,
{
    let mut done: Vec<Vec<char>> = Vec::new();
    let mut cur: Vec<char> = Vec::new();
    proof {
        assert(texts(done@).push(cur@) == split_by(s@.take(0), k));
    }
    for i in 0..s.len()
        invariant
            texts(done@).push(cur@) == split_by(s@.take(i as int), k),
    {
        let c = s[i];
        let ghost pieces = texts(done@);
        let ghost piece = cur@;
        proof {
            assert(s@.take(i + 1).drop_last() == s@.take(i as int));
            assert(s@.take(i + 1).last() == c);
            assert(pieces.push(piece).drop_last() == pieces);
        }
        if k.contains(c) {
            done.push(cur);
            cur = Vec::new();
            assert(texts(done@) == pieces.push(piece));
        } else {
            cur.push(c);
        }
    }
    assert(s@.take(s@.len() as int) == s@);
    let ghost pieces = texts(done@);
    let ghost piece = cur@;
    done.push(cur);
    assert(texts(done@) == pieces.push(piece));
    done
}

/// The texts that are not empty, in order.
pub open spec fn nonempty_texts(parts: Seq<Seq<char>>) -> Seq<Seq<char>>
    decreases parts.len(),
{
    if parts.len() == 0 {
        Seq::empty()
    } else if parts.last().len() == 0 {
        nonempty_texts(parts.drop_last())
    } else {
        nonempty_texts(parts.drop_last()).push(parts.last())
    }
}

/// The trimmed forms of the texts that are not blank, in order.
pub open spec fn nonblank_texts(parts: Seq<Seq<char>>) -> Seq<Seq<char>>
    decreases parts.len(),
{
    if parts.len() == 0 {
        Seq::empty()
    } else if trim(parts.last()).len() == 0 {
        nonblank_texts(parts.drop_last())
    } else {
        nonblank_texts(parts.drop_last()).push(trim(parts.last()))
    }
}

/// The words of `s`: its maximal parts without white space.
pub open spec fn words(s: Seq<char>) -> Seq<Seq<char>> {
    nonempty_texts(split_by(s, Class::Space))
}

/// Keeps the texts that are not empty.
pub fn keep_nonempty(parts: &Vec<Vec<char>>) -> (r: Vec<Vec<char>>)
    ensures
        texts(r@) == nonempty_texts(texts(parts@)),
{
    let mut out: Vec<Vec<char>> = Vec::new();
    let ghost all = texts(parts@);
    for i in 0..parts.len()
        invariant
            all == texts(parts@),
            texts(out@) == nonempty_texts(all.take(i as int)),
    {
        let ghost before = texts(out@);
        proof {
            assert(all.take(i + 1).drop_last() == all.take(i as int));
        }
        if parts[i].len() > 0 {
            out.push(slice_to_vec(&parts[i]));
            assert(texts(out@) == before.push(all[i as int]));
        }
    }
    assert(all.take(all.len() as int) == all);
    out
}

/// Keeps the texts that are not blank, trimmed.
pub fn keep_nonblank(parts: &Vec<Vec<char>>) -> (r: Vec<Vec<char>>)
    ensures
        texts(r@) == nonblank_texts(texts(parts@)),
{
    let mut out: Vec<Vec<char>> = Vec::new();
    let ghost all = texts(parts@);
    for i in 0..parts.len()
        invariant
            all == texts(parts@),
            texts(out@) == nonblank_texts(all.take(i as int)),
    {
        let ghost before = texts(out@);
        proof {
            assert(all.take(i + 1).drop_last() == all.take(i as int));
        }
        let t = trimmed(&parts[i]);
        if t.len() > 0 {
            out.push(slice_to_vec(t));
            assert(texts(out@) == before.push(trim(all[i as int])));
        }
    }
    assert(all.take(all.len() as int) == all);
    out
}

/// Splits into words.
pub fn split_words(s: &[char]) -> (r: Vec<Vec<char>>)
    ensures
        texts(r@) == words(s@),
{
    keep_nonempty(&split(s, Class::Space))
}

/// Whether `pat` stands in `s` at position `i`.
pub open spec fn occurs_at(s: Seq<char>, pat: Seq<char>, i: int) -> bool {
    0 <= i && i + pat.len() <= s.len() && s.subrange(i, i + pat.len()) == pat
}

/// The first position from `i` on at which `pat` stands in `s`.
pub open spec fn find_from(s: Seq<char>, pat: Seq<char>, i: int) -> Option<int>
    decreases s.len() + 1 - i,
{
    if i < 0 || i + pat.len() > s.len() {
        None
    } else if occurs_at(s, pat, i) {
        Some(i)
    } else {
        find_from(s, pat, i + 1)
    }
}

/// The first position at which `pat` stands in `s`.
pub open spec fn find_text(s: Seq<char>, pat: Seq<char>) -> Option<int> {
    find_from(s, pat, 0)
}

/// Whether `pat` stands somewhere in `s`.
pub open spec fn contains_text(s: Seq<char>, pat: Seq<char>) -> bool {
    find_text(s, pat) is Some
}

/// `find_from` gives the least position at which `pat` stands, and none only where there is none.
pub proof fn lemma_find(s: Seq<char>, pat: Seq<char>, i: int)
    requires
        0 <= i,
    ensures
        match find_from(s, pat, i) {
            Some(k) => i <= k && occurs_at(s, pat, k) && (forall|j: int|
                i <= j < k ==> !#[trigger] occurs_at(s, pat, j)),
            None => forall|j: int| i <= j ==> !#[trigger] occurs_at(s, pat, j),
        },
    decreases s.len() + 1 - i,
{
    if i + pat.len() > s.len() {
    } else if occurs_at(s, pat, i) {
    } else {
        lemma_find(s, pat, i + 1);
    }
}

/// Whether `pat` stands in `s` at `i`.
fn stands_at(s: &[char], pat: &[char], i: usize) -> (r: bool)
    requires
        i + pat@.len() <= s@.len(),
    ensures
        r == occurs_at(s@, pat@, i as int),
{
    let n: usize = s.len();
    let end: usize = i + pat.len();
    same(slice_subrange(s, i, end), pat)
}

/// The first position of `pat` in `s`.
pub fn find(s: &[char], pat: &[char]) -> (r: Option<usize>)
    ensures
        match r {
            Some(i) => find_text(s@, pat@) == Some(i as int) && i + pat@.len() <= s@.len(),
            None => find_text(s@, pat@) is None,
        },
{
    if pat.len() > s.len() {
        return None;
    }
    let last: usize = s.len() - pat.len();
    for i in 0..last
        invariant
            last == s@.len() - pat@.len(),
            find_text(s@, pat@) == find_from(s@, pat@, i as int),
    {
        if stands_at(s, pat, i) {
            return Some(i);
        }
    }
    if stands_at(s, pat, last) {
        Some(last)
    } else {
        assert(find_from(s@, pat@, last + 1) is None);
        None
    }
}

/// Whether `pat` stands somewhere in `s`.
pub fn contains(s: &[char], pat: &[char]) -> (r: bool)
    ensures
        r == contains_text(s@, pat@),
{
    find(s, pat).is_some()
}

/// Whether `s` starts with `pat`.
pub open spec fn has_prefix(s: Seq<char>, pat: Seq<char>) -> bool {
    pat.len() <= s.len() && s.take(pat.len() as int) == pat
}

/// Whether `s` ends with `pat`.
pub open spec fn has_suffix(s: Seq<char>, pat: Seq<char>) -> bool {
    pat.len() <= s.len() && s.skip(s.len() - pat.len()) == pat
}

/// Whether `s` starts with `pat`.
pub fn starts_with(s: &[char], pat: &[char]) -> (r: bool)
    ensures
        r == has_prefix(s@, pat@),
{
    if pat.len() > s.len() {
        return false;
    }
    assert(s@.take(pat@.len() as int) == s@.subrange(0, pat@.len() as int));
    same(slice_subrange(s, 0, pat.len()), pat)
}

/// Whether `s` ends with `pat`.
pub fn ends_with(s: &[char], pat: &[char]) -> (r: bool)
    ensures
        r == has_suffix(s@, pat@),
{
    if pat.len() > s.len() {
        return false;
    }
    let from: usize = s.len() - pat.len();
    assert(s@.skip(from as int) == s@.subrange(from as int, s@.len() as int));
    same(slice_subrange(s, from, s.len()), pat)
}

/// What follows `pat` where `s` starts with it.
pub open spec fn without_prefix(s: Seq<char>, pat: Seq<char>) -> Option<Seq<char>> {
    if has_prefix(s, pat) {
        Some(s.skip(pat.len() as int))
    } else {
        None
    }
}

/// What follows `pat` where `s` starts with it.
pub fn strip_prefix<'a>(s: &'a [char], pat: &[char]) -> (r: Option<&'a [char]>)
    ensures
        match r {
            Some(rest) => without_prefix(s@, pat@) == Some(rest@),
            None => without_prefix(s@, pat@) is None,
        },
{
    if starts_with(s, pat) {
        assert(s@.skip(pat@.len() as int) == s@.subrange(pat@.len() as int, s@.len() as int));
        Some(slice_subrange(s, pat.len(), s.len()))
    } else {
        None
    }
}

/// Whether the first character of `s` is `c`.
pub open spec fn begins(s: Seq<char>, c: char) -> bool {
    s.len() > 0 && s[0] == c
}

/// Whether the first character of `s` is `c`.
pub fn begins_with(s: &[char], c: char) -> (r: bool)
    ensures
        r == begins(s@, c),
{
    s.len() > 0 && s[0] == c
}

/// Whether `c` occurs in `s`.
pub fn has_char(s: &[char], c: char) -> (r: bool)
    ensures
        r == s@.contains(c),
{
    for i in 0..s.len()
        invariant
            forall|j: int| 0 <= j < i ==> s@[j] != c,
    {
        if s[i] == c {
            assert(s@[i as int] == c);
            return true;
        }
    }
    false
}

/// Whether every character of `s` is an ASCII digit.
pub open spec fn all_digits(s: Seq<char>) -> bool {
    forall|i: int| 0 <= i < s.len() ==> is_digit(#[trigger] s[i])
}

/// Whether every character of `s` is an ASCII digit.
pub fn only_digits(s: &[char]) -> (r: bool)
    ensures
        r == all_digits(s@),
{
    for i in 0..s.len()
        invariant
            forall|j: int| 0 <= j < i ==> is_digit(#[trigger] s@[j]),
    {
        if !digit(s[i]) {
            return false;
        }
    }
    true
}

/// The pieces of `s` between the occurrences of `pat`, found from left to right.
pub open spec fn split_at_text(s: Seq<char>, pat: Seq<char>) -> Seq<Seq<char>>
    decreases s.len(),
    when pat.len() > 0
{
    match find_text(s, pat) {
        Some(i) => if 0 <= i && i + pat.len() <= s.len() {
            seq![s.take(i)] + split_at_text(s.skip(i + pat.len()), pat)
        } else {
            seq![s]
        },
        None => seq![s],
    }
}

/// Splits at every occurrence of `pat`.
pub fn split_text(s: &[char], pat: &[char]) -> (r: Vec<Vec<char>>)
    requires
        pat@.len() > 0,
    ensures
        texts(r@) == split_at_text(s@, pat@),
{
    let mut out: Vec<Vec<char>> = Vec::new();
    let mut rest: &[char] = s;
    assert(texts(out@) + split_at_text(rest@, pat@) == split_at_text(s@, pat@));
    loop
        invariant
            pat@.len() > 0,
            texts(out@) + split_at_text(rest@, pat@) == split_at_text(s@, pat@),
        decreases rest@.len(),
    {
        let ghost before = texts(out@);
        match find(rest, pat) {
            Some(i) => {
                let piece = slice_subrange(rest, 0, i);
                let n: usize = rest.len();
                let tail = slice_subrange(rest, i + pat.len(), n);
                proof {
                    assert(piece@ == rest@.take(i as int));
                    assert(tail@ == rest@.skip(i + pat@.len()));
                    assert(before + (seq![piece@] + split_at_text(tail@, pat@)) == before.push(
                        piece@,
                    ) + split_at_text(tail@, pat@));
                }
                out.push(slice_to_vec(piece));
                assert(texts(out@) == before.push(piece@));
                rest = tail;
            },
            None => {
                out.push(slice_to_vec(rest));
                assert(texts(out@) == before + seq![rest@]);
                return out;
            },
        }
    }
}

/// What stands before the first occurrence of `pat`, or all of `s`.
pub open spec fn before_text(s: Seq<char>, pat: Seq<char>) -> Seq<char> {
    match find_text(s, pat) {
        Some(i) => s.take(i),
        None => s,
    }
}

/// What stands before the first occurrence of `pat`, or all of `s`.
pub fn before<'a>(s: &'a [char], pat: &[char]) -> (r: &'a [char])
    ensures
        r@ == before_text(s@, pat@),
{
    match find(s, pat) {
        Some(i) => {
            assert(s@.take(i as int) == s@.subrange(0, i as int));
            slice_subrange(s, 0, i)
        },
        None => s,
    }
}

/// A line without the carriage return that it may end with.
pub open spec fn without_cr(s: Seq<char>) -> Seq<char> {
    if s.len() > 0 && s.last() == '\r' {
        s.drop_last()
    } else {
        s
    }
}

/// The lines of a text: every piece that a newline ends, without the line ending, and the
/// rest where it is not empty.
pub open spec fn lines_of(s: Seq<char>) -> Seq<Seq<char>> {
    let parts = split_by(s, Class::Newline);
    let ended = Seq::new((parts.len() - 1) as nat, |i: int| without_cr(parts[i]));
    if parts.last().len() == 0 {
        ended
    } else {
        ended.push(parts.last())
    }
}

/// Splits into lines.
pub fn lines(s: &[char]) -> (r: Vec<Vec<char>>)
    ensures
        texts(r@) == lines_of(s@),
{
    let parts = split(s, Class::Newline);
    let mut out: Vec<Vec<char>> = Vec::new();
    let n: usize = parts.len() - 1;
    let ghost all = texts(parts@);
    for i in 0..n
        invariant
            n == parts@.len() - 1,
            all == texts(parts@),
            out@.len() == i,
            forall|j: int| 0 <= j < i ==> #[trigger] out@[j]@ == without_cr(all[j]),
    {
        let part = &parts[i];
        assert(all[i as int] == part@);
        if part.len() > 0 && part[part.len() - 1] == '\r' {
            let line = slice_subrange(part, 0, part.len() - 1);
            assert(line@ == part@.drop_last());
            out.push(slice_to_vec(line));
        } else {
            out.push(slice_to_vec(part));
        }
    }
    assert(all.last() == parts@[n as int]@);
    let ghost ended = texts(out@);
    if parts[n].len() > 0 {
        out.push(slice_to_vec(&parts[n]));
        assert(texts(out@) == ended.push(all.last()));
    }
    out
}

/// The ASCII lower case of a character.
pub open spec fn lower_char(c: char) -> char {
    if 'A' <= c <= 'Z' {
        (c as u8 + 32) as char
    } else {
        c
    }
}

/// The ASCII lower case of a text.
pub open spec fn lower_text(s: Seq<char>) -> Seq<char> {
    Seq::new(s.len(), |i: int| lower_char(s[i]))
}

/// Whether two texts differ at most in the case of ASCII letters.
pub open spec fn same_but_case(a: Seq<char>, b: Seq<char>) -> bool {
    lower_text(a) == lower_text(b)
}

/// The ASCII lower case of a character.
fn lower1(c: char) -> (r: char)
    ensures
        r == lower_char(c),
{
    if 'A' <= c && c <= 'Z' {
        (c as u8 + 32) as char
    } else {
        c
    }
}

/// The ASCII lower case of a text.
pub fn lower(s: &[char]) -> (r: Vec<char>)
    ensures
        r@ == lower_text(s@),
{
    let mut out: Vec<char> = Vec::new();
    for i in 0..s.len()
        invariant
            out@ == lower_text(s@).take(i as int),
    {
        out.push(lower1(s[i]));
    }
    out
}

/// Whether two texts differ at most in the case of ASCII letters.
pub fn same_ignoring_case(a: &[char], b: &[char]) -> (r: bool)
    ensures
        r == same_but_case(a@, b@),
{
    same(&lower(a), &lower(b))
}

/// The digit of a number below ten.
pub open spec fn digit_char(n: int) -> char {
    ('0' as u8 + n) as char
}

/// A number in decimal.
pub open spec fn decimal(n: nat) -> Seq<char>
    decreases n,
{
    if n < 10 {
        seq![digit_char(n as int)]
    } else {
        decimal(n / 10).push(digit_char((n % 10) as int))
    }
}

/// The number that a text of digits stands for.
pub open spec fn decimal_value(s: Seq<char>) -> nat
    decreases s.len(),
{
    if s.len() == 0 {
        0
    } else {
        decimal_value(s.drop_last()) * 10 + (s.last() as u32 - '0' as u32) as nat
    }
}

/// What a number is written as is read back as that number.
pub proof fn decimal_reads_back(n: nat)
    ensures
        decimal_value(decimal(n)) == n,
        decimal(n).len() >= 1,
        all_digits(decimal(n)),
    decreases n,
{
    if n < 10 {
        reveal_with_fuel(decimal_value, 2);
        assert(decimal(n).drop_last() == Seq::<char>::empty());
    } else {
        decimal_reads_back(n / 10);
        assert(decimal(n).drop_last() == decimal(n / 10));
    }
}

/// Writes a number in decimal.
pub fn write_decimal(n: u64) -> (r: String)
    ensures
        r@ == decimal(n as nat),
    decreases n,
{
    let d: char = (48u8 + (n % 10) as u8) as char;
    if n < 10 {
        let mut out = String::new();
        out.push(d);
        assert(out@ == seq![d]);
        out
    } else {
        let mut out = write_decimal(n / 10);
        out.push(d);
        out
    }
}

/// The digits of an unsigned number, which may follow a plus sign.
pub open spec fn unsigned_digits(s: Seq<char>) -> Seq<char> {
    if s.len() > 1 && s[0] == '+' {
        s.drop_first()
    } else {
        s
    }
}

/// The `u32` that a text stands for: one digit at least, nothing but digits after an
/// optional plus sign, and no more than `u32` holds.
pub open spec fn u32_of(s: Seq<char>) -> Option<u32> {
    let d = unsigned_digits(s);
    if d.len() > 0 && all_digits(d) && decimal_value(d) <= u32::MAX {
        Some(decimal_value(d) as u32)
    } else {
        None
    }
}

/// More digits stand for no smaller number.
proof fn lemma_value_grows(s: Seq<char>, i: int)
    requires
        0 <= i <= s.len(),
    ensures
        decimal_value(s.take(i)) <= decimal_value(s),
    decreases s.len() - i,
{
    if i == s.len() {
        assert(s.take(i) == s);
    } else {
        lemma_value_grows(s, i + 1);
        assert(s.take(i + 1).drop_last() == s.take(i));
    }
}

/// Reads a `u32`.
pub fn parse_u32(s: &[char]) -> (r: Option<u32>)
    ensures
        r == u32_of(s@),
{
    let d: &[char] = if s.len() > 1 && s[0] == '+' {
        assert(s@.drop_first() == s@.subrange(1, s@.len() as int));
        slice_subrange(s, 1, s.len())
    } else {
        s
    };
    if d.len() == 0 {
        return None;
    }
    let mut value: u64 = 0;
    for i in 0..d.len()
        invariant
            d@ == unsigned_digits(s@),
            d@.len() > 0,
            value <= u32::MAX,
            value == decimal_value(d@.take(i as int)),
            forall|j: int| 0 <= j < i ==> is_digit(#[trigger] d@[j]),
    {
        if !digit(d[i]) {
            return None;
        }
        assert(d@.take(i + 1).drop_last() == d@.take(i as int));
        value = value * 10 + (d[i] as u32 - '0' as u32) as u64;
        if value > u32::MAX as u64 {
            proof {
                lemma_value_grows(d@, i + 1);
            }
            return None;
        }
    }
    assert(d@.take(d@.len() as int) == d@);
    Some(value as u32)
}

/// The first line that is not blank, trimmed; empty where there is none.
pub open spec fn first_line_of(s: Seq<char>) -> Seq<char> {
    let kept = nonblank_texts(lines_of(s));
    if kept.len() > 0 {
        kept[0]
    } else {
        Seq::empty()
    }
}

/// The first line that is not blank, trimmed; empty where there is none.
pub fn first_line(s: &str) -> (r: String)
    ensures
        r@ == first_line_of(s@),
{
    let kept = keep_nonblank(&lines(&chars_of(s)));
    if kept.len() > 0 {
        assert(texts(kept@)[0] == kept@[0]@);
        string_of(&kept[0])
    } else {
        String::new()
    }
}

/// The texts one after another, with `sep` between each two.
pub open spec fn joined(parts: Seq<Seq<char>>, sep: Seq<char>) -> Seq<char>
    decreases parts.len(),
{
    if parts.len() == 0 {
        Seq::empty()
    } else if parts.len() == 1 {
        parts[0]
    } else {
        joined(parts.drop_last(), sep) + sep + parts.last()
    }
}

/// One string after another.
pub fn two(a: &str, b: &str) -> (r: String)
    ensures
        r@ == a@ + b@,
{
    let mut out = a.to_owned();
    out.append(b);
    out
}

/// Three strings, one after another.
pub fn three(a: &str, b: &str, c: &str) -> (r: String)
    ensures
        r@ == a@ + b@ + c@,
{
    let mut out = a.to_owned();
    out.append(b);
    out.append(c);
    out
}

/// Joins strings.
pub fn join(parts: &Vec<String>, sep: &str) -> (r: String)
    ensures
        r@ == joined(strings(parts@), sep@),
{
    let mut out = String::new();
    let ghost all = strings(parts@);
    for i in 0..parts.len()
        invariant
            all == strings(parts@),
            out@ == joined(all.take(i as int), sep@),
    {
        proof {
            assert(all.take(i + 1).drop_last() == all.take(i as int));
        }
        if i > 0 {
            out.append(sep);
        }
        out.append(parts[i].as_str());
    }
    assert(all.take(all.len() as int) == all);
    out
}

/// Text without the space around it starts and ends with no space.
pub proof fn lemma_trim_ends(s: Seq<char>, k: Class)
    ensures
        trim_start_by(s, k).len() > 0 ==> !k.has(trim_start_by(s, k)[0]),
        trim_end_by(s, k).len() > 0 ==> !k.has(trim_end_by(s, k).last()),
        trim_end_by(s, k).len() <= s.len(),
        trim_end_by(s, k) == s.take(trim_end_by(s, k).len() as int),
    decreases s.len(),
{
    if s.len() > 0 {
        lemma_trim_ends(s.drop_first(), k);
        lemma_trim_ends(s.drop_last(), k);
        if k.has(s.last()) {
            let t = trim_end_by(s, k);
            assert(s.drop_last().take(t.len() as int) == s.take(t.len() as int));
        } else {
            assert(s.take(s.len() as int) == s);
        }
    } else {
        assert(s.take(0) == s);
    }
}

/// Trimming a trimmed text changes nothing.
pub proof fn trim_is_stable(s: Seq<char>)
    ensures
        trim(trim(s)) == trim(s),
{
    let a = trim_start_by(s, Class::Space);
    let t = trim(s);
    lemma_trim_ends(s, Class::Space);
    lemma_trim_ends(a, Class::Space);
    if t.len() > 0 {
        assert(t[0] == a[0]);
        assert(trim_start_by(t, Class::Space) == t);
        assert(trim_end_by(t, Class::Space) == t);
    }
}

/// Whether a text is made of white space alone.
pub open spec fn blank(s: Seq<char>) -> bool {
    forall|i: int| 0 <= i < s.len() ==> is_space(#[trigger] s[i])
}

proof fn lemma_trim_start_cut(s: Seq<char>) -> (n: int)
    ensures
        0 <= n <= s.len(),
        trim_start_by(s, Class::Space) == s.skip(n),
        blank(s.take(n)),
        n < s.len() ==> !is_space(s[n]),
    decreases s.len(),
{
    if s.len() > 0 && is_space(s[0]) {
        let m = lemma_trim_start_cut(s.drop_first());
        assert(s.drop_first().skip(m) == s.skip(m + 1));
        assert forall|i: int| 0 <= i < m + 1 implies is_space(#[trigger] s.take(m + 1)[i]) by {
            if i > 0 {
                assert(s.take(m + 1)[i] == s.drop_first().take(m)[i - 1]);
            }
        }
        m + 1
    } else {
        assert(s.skip(0) == s);
        0
    }
}

proof fn lemma_trim_end_cut(s: Seq<char>) -> (n: int)
    ensures
        0 <= n <= s.len(),
        trim_end_by(s, Class::Space) == s.take(n),
        blank(s.skip(n)),
        n > 0 ==> !is_space(s[n - 1]),
    decreases s.len(),
{
    if s.len() > 0 && is_space(s.last()) {
        let m = lemma_trim_end_cut(s.drop_last());
        assert(s.drop_last().take(m) == s.take(m));
        assert forall|i: int| 0 <= i < s.len() - m implies is_space(#[trigger] s.skip(m)[i]) by {
            if i < s.len() - m - 1 {
                assert(s.skip(m)[i] == s.drop_last().skip(m)[i]);
            }
        }
        m
    } else {
        assert(s.take(s.len() as int) == s);
        s.len() as int
    }
}

/// Trimming takes the white space off both ends and nothing else: what is left is a stretch of the
/// text with white space alone before and after it, and starts and ends with none.
pub proof fn trimming_drops_only_spaces(s: Seq<char>) -> (cut: (int, int))
    ensures
        0 <= cut.0 <= cut.1 <= s.len(),
        trim(s) == s.subrange(cut.0, cut.1),
        blank(s.take(cut.0)),
        blank(s.skip(cut.1)),
        trim(s).len() > 0 ==> !is_space(trim(s)[0]) && !is_space(trim(s).last()),
        trim(s).len() == 0 <==> blank(s),
{
    let a = lemma_trim_start_cut(s);
    let t = s.skip(a);
    let b = lemma_trim_end_cut(t);
    assert(t.take(b) == s.subrange(a, a + b));
    assert(t.skip(b) == s.skip(a + b));
    if b == 0 {
        assert forall|i: int| 0 <= i < s.len() implies is_space(#[trigger] s[i]) by {
            if i < a {
                assert(s.take(a)[i] == s[i]);
            } else {
                assert(t.skip(b)[i - a] == s[i]);
            }
        }
    } else {
        assert(!is_space(s[a + b - 1]));
        assert(t[0] == s[a]);
    }
    (a, a + b)
}

/// A text that starts and ends with no white space is its own trimmed text; and white space put
/// around a text makes no difference to it.
pub proof fn trimming_ignores_spaces_around(before: Seq<char>, s: Seq<char>, after: Seq<char>)
    requires
        blank(before),
        blank(after),
        s.len() > 0,
        !is_space(s[0]),
        !is_space(s.last()),
    ensures
        trim(before + s + after) == s,
        nonblank(Some(before + s + after)) == Some(s),
{
    let whole = before + s + after;
    let cut = trimming_drops_only_spaces(whole);
    assert(whole[before.len() as int] == s[0]);
    assert(whole[before.len() + s.len() - 1] == s.last());
    if cut.0 > before.len() {
        assert(whole.take(cut.0)[before.len() as int] == s[0]);
    }
    if cut.1 < before.len() + s.len() {
        assert(whole.skip(cut.1)[before.len() + s.len() - 1 - cut.1] == s.last());
    }
    assert(!blank(whole)) by {
        assert(!is_space(whole[before.len() as int]));
    }
    if cut.0 < before.len() {
        assert(trim(whole)[0] == whole[cut.0]);
        assert(whole[cut.0] == before[cut.0]);
    }
    if cut.1 > before.len() + s.len() {
        assert(trim(whole).last() == whole[cut.1 - 1]);
        assert(whole[cut.1 - 1] == after[cut.1 - 1 - before.len() - s.len()]);
    }
    assert(whole.subrange(cut.0, cut.1) == s);
}

/// A value is there where it is not blank, and is then its trimmed text.
pub proof fn blank_values_are_none(value: Option<Seq<char>>)
    ensures
        nonblank(value) is None <==> value is None || blank(value->0),
        nonblank(value) is Some ==> nonblank(value)->0 == trim(value->0),
{
    if value is Some {
        let cut = trimming_drops_only_spaces(value->0);
    }
}

proof fn lemma_joined_push(parts: Seq<Seq<char>>, last: Seq<char>, sep: Seq<char>)
    requires
        parts.len() > 0,
    ensures
        joined(parts.push(last), sep) == joined(parts, sep) + sep + last,
{
    assert(parts.push(last).drop_last() == parts);
}

/// Splitting loses nothing: the parts joined by the separator are the text again, and no part holds
/// a separator.
pub proof fn splitting_loses_nothing(s: Seq<char>, k: Class, sep: char)
    requires
        forall|c: char| #[trigger] k.has(c) <==> c == sep,
    ensures
        split_by(s, k).len() >= 1,
        joined(split_by(s, k), seq![sep]) == s,
        forall|i: int|
            0 <= i < split_by(s, k).len() ==> !(#[trigger] split_by(s, k)[i]).contains(sep),
    decreases s.len(),
{
    let parts = split_by(s, k);
    if s.len() == 0 {
        assert(parts =~= seq![Seq::<char>::empty()]);
        assert(parts[0].len() == 0);
        assert(joined(parts, seq![sep]) == parts[0]);
        assert(s =~= Seq::empty());
    } else {
        let before = split_by(s.drop_last(), k);
        splitting_loses_nothing(s.drop_last(), k, sep);
        assert(k.has(s.last()) <==> s.last() == sep);
        if s.last() == sep {
            assert(parts == before.push(Seq::empty()));
            lemma_joined_push(before, Seq::empty(), seq![sep]);
            assert(joined(parts, seq![sep]) =~= s.drop_last() + seq![sep]);
            assert(s.drop_last() + seq![sep] =~= s);
            assert(!parts.last().contains(sep));
        } else {
            let longer = before.last().push(s.last());
            assert(parts == before.drop_last().push(longer));
            assert(!longer.contains(sep)) by {
                assert forall|j: int| 0 <= j < longer.len() implies longer[j] != sep by {
                    if j < before.last().len() {
                        assert(before.last()[j] == longer[j]);
                        assert(before.last().contains(longer[j]));
                        assert(!before[before.len() - 1].contains(sep));
                    }
                }
            }
            if before.len() == 1 {
                assert(parts =~= seq![longer]);
                assert(joined(parts, seq![sep]) == longer);
                assert(joined(before, seq![sep]) == before[0]);
                assert(longer =~= s.drop_last().push(s.last()));
                assert(s.drop_last().push(s.last()) =~= s);
            } else {
                lemma_joined_push(before.drop_last(), longer, seq![sep]);
                assert(joined(before, seq![sep]) == joined(before.drop_last(), seq![sep]) + seq![
                    sep,
                ] + before.last());
                assert(joined(parts, seq![sep]) =~= s.drop_last().push(s.last()));
                assert(s.drop_last().push(s.last()) =~= s);
            }
            assert forall|i: int| 0 <= i < parts.len() implies !(#[trigger] parts[i]).contains(
                sep,
            ) by {
                if i < before.len() - 1 {
                    assert(parts[i] == before[i]);
                }
            }
        }
    }
}

/// A number reads back from its digits, with a plus sign before them or not; a text with anything
/// else in it is no number.
pub proof fn numbers_read_back(n: u32, s: Seq<char>)
    ensures
        u32_of(decimal(n as nat)) == Some(n),
        u32_of(seq!['+'] + decimal(n as nat)) == Some(n),
        u32_of(s) is Some ==> s.len() > 0 && forall|i: int|
            1 <= i < s.len() ==> '0' <= #[trigger] s[i] <= '9',
        u32_of(s) is Some ==> s[0] == '+' || '0' <= s[0] <= '9',
{
    decimal_reads_back(n as nat);
    let d = decimal(n as nat);
    assert(is_digit(d[0]));
    assert((seq!['+'] + d).drop_first() == d);
    if u32_of(s) is Some {
        let u = unsigned_digits(s);
        assert(is_digit(u[0]));
        assert forall|i: int| 1 <= i < s.len() implies '0' <= #[trigger] s[i] <= '9' by {
            if u == s {
                assert(is_digit(u[i]));
            } else {
                assert(is_digit(u[i - 1]));
            }
        }
    }
}

/// Lowering a text changes its capital ASCII letters alone, to the small letters; texts are the same
/// but for case where that makes them equal.
pub proof fn lowering_keeps_the_rest(s: Seq<char>, i: int)
    requires
        0 <= i < s.len(),
    ensures
        lower_text(s).len() == s.len(),
        'A' <= s[i] <= 'Z' ==> lower_text(s)[i] as u32 == s[i] as u32 + 32,
        !('A' <= s[i] <= 'Z') ==> lower_text(s)[i] == s[i],
        same_but_case(s, lower_text(s)),
{
    assert(lower_text(lower_text(s)) =~= lower_text(s));
}

/// A prefix is what a text starts with, and the rest comes after it.
pub proof fn prefixes_and_rests(pat: Seq<char>, rest: Seq<char>, s: Seq<char>)
    ensures
        has_prefix(pat + rest, pat),
        without_prefix(pat + rest, pat) == Some(rest),
        has_suffix(rest + pat, pat),
        without_prefix(s, pat) is Some ==> s == pat + without_prefix(s, pat)->0,
        without_prefix(s, pat) is Some <==> has_prefix(s, pat),
{
    assert((pat + rest).take(pat.len() as int) =~= pat);
    assert((pat + rest).skip(pat.len() as int) =~= rest);
    assert((rest + pat).skip((rest + pat).len() - pat.len()) =~= pat);
    if has_prefix(s, pat) {
        assert(s =~= pat + s.skip(pat.len() as int));
    }
}

/// The part before the first separator comes first, and the parts of the rest behind it.
pub proof fn lemma_split_front(a: Seq<char>, sep: char, rest: Seq<char>, k: Class)
    requires
        k.has(sep),
        forall|i: int| 0 <= i < a.len() ==> !k.has(#[trigger] a[i]),
    ensures
        split_by(a.push(sep) + rest, k) == seq![a] + split_by(rest, k),
    decreases rest.len(),
{
    let s = a.push(sep) + rest;
    lemma_split_nonempty(rest, k);
    if rest.len() == 0 {
        assert(s =~= a.push(sep));
        assert(s.drop_last() =~= a);
        lemma_split_one(a, k);
        assert(split_by(s, k) =~= seq![a] + split_by(rest, k));
    } else {
        let front = rest.drop_last();
        assert(s.drop_last() =~= a.push(sep) + front);
        assert(s.last() == rest.last());
        lemma_split_front(a, sep, front, k);
        lemma_split_nonempty(front, k);
        let before = split_by(front, k);
        let all = seq![a] + before;
        assert(all.last() == before.last());
        assert(all.drop_last() =~= seq![a] + before.drop_last());
        assert(split_by(s, k) =~= seq![a] + split_by(rest, k));
    }
}

/// A text without a separator is one part.
pub proof fn lemma_split_one(a: Seq<char>, k: Class)
    requires
        forall|i: int| 0 <= i < a.len() ==> !k.has(#[trigger] a[i]),
    ensures
        split_by(a, k) == seq![a],
    decreases a.len(),
{
    if a.len() == 0 {
        assert(a =~= Seq::empty());
    } else {
        let front = a.drop_last();
        assert forall|i: int| 0 <= i < front.len() implies !k.has(#[trigger] front[i]) by {
            assert(front[i] == a[i]);
        }
        lemma_split_one(front, k);
        assert(!k.has(a[a.len() - 1]));
        assert(seq![front].drop_last() =~= Seq::<Seq<char>>::empty());
        assert(front.push(a.last()) =~= a);
        assert(Seq::<Seq<char>>::empty().push(a) =~= seq![a]);
    }
}

/// A text is read line by line: what is before a newline is a line, without the carriage return at its
/// end, and what comes behind the last newline is one where there is anything.
pub proof fn lines_end_at_newlines(a: Seq<char>, rest: Seq<char>)
    requires
        !a.contains('\n'),
    ensures
        lines_of(a.push('\n') + rest) == seq![without_cr(a)] + lines_of(rest),
        a.len() > 0 ==> lines_of(a) == seq![a],
        lines_of(Seq::empty()).len() == 0,
        a.len() > 0 && a.last() == '\r' ==> without_cr(a) == a.drop_last(),
        a.len() == 0 || a.last() != '\r' ==> without_cr(a) == a,
{
    assert forall|i: int| 0 <= i < a.len() implies !Class::Newline.has(#[trigger] a[i]) by {
        assert(a.contains(a[i]));
    }
    lemma_split_front(a, '\n', rest, Class::Newline);
    lemma_split_nonempty(rest, Class::Newline);
    lemma_split_one(a, Class::Newline);
    let parts = split_by(rest, Class::Newline);
    let all = seq![a] + parts;
    assert(all.last() == parts.last());
    assert(lines_of(a.push('\n') + rest) =~= seq![without_cr(a)] + lines_of(rest));
    if a.len() > 0 {
        assert(lines_of(a) =~= seq![a]);
    }
}

/// Of a list of texts those that are not blank stay, trimmed and in their order; and those that are not
/// empty, as they are.
pub proof fn blank_texts_are_dropped(v: Seq<Seq<char>>, x: Seq<char>)
    ensures
        blank(x) ==> nonblank_texts(v.push(x)) == nonblank_texts(v),
        !blank(x) ==> nonblank_texts(v.push(x)) == nonblank_texts(v).push(trim(x)),
        x.len() == 0 ==> nonempty_texts(v.push(x)) == nonempty_texts(v),
        x.len() > 0 ==> nonempty_texts(v.push(x)) == nonempty_texts(v).push(x),
        nonblank_texts(Seq::empty()).len() == 0,
        nonempty_texts(Seq::empty()).len() == 0,
{
    assert(v.push(x).drop_last() =~= v);
    let cut = trimming_drops_only_spaces(x);
}

/// A text before others that are kept is kept first, trimmed, where it is not blank.
pub proof fn lemma_nonblank_front(x: Seq<char>, v: Seq<Seq<char>>)
    ensures
        blank(x) ==> nonblank_texts(seq![x] + v) == nonblank_texts(v),
        !blank(x) ==> nonblank_texts(seq![x] + v) == seq![trim(x)] + nonblank_texts(v),
    decreases v.len(),
{
    let cut = trimming_drops_only_spaces(x);
    if v.len() == 0 {
        let none = Seq::<Seq<char>>::empty();
        assert(seq![x] + v =~= none.push(x));
        blank_texts_are_dropped(none, x);
        assert(v =~= none);
        assert(nonblank_texts(none) =~= none);
        assert(none.push(trim(x)) =~= seq![trim(x)] + none);
    } else {
        let s = seq![x] + v;
        assert(s.drop_last() =~= seq![x] + v.drop_last());
        assert(s.last() == v.last());
        lemma_nonblank_front(x, v.drop_last());
        if !blank(x) {
            assert(nonblank_texts(s) =~= seq![trim(x)] + nonblank_texts(v));
        }
    }
}

/// The first line of a text is its first line that is not blank, trimmed; a text of blank lines has
/// none.
pub proof fn first_lines_are_not_blank(a: Seq<char>, rest: Seq<char>)
    requires
        !a.contains('\n'),
    ensures
        blank(a) ==> first_line_of(a.push('\n') + rest) == first_line_of(rest),
        !blank(a) ==> first_line_of(a.push('\n') + rest) == trim(without_cr(a)),
        !blank(a) ==> first_line_of(a) == trim(a),
        first_line_of(Seq::empty()).len() == 0,
{
    lines_end_at_newlines(a, rest);
    let w = without_cr(a);
    assert(blank(a) <==> blank(w)) by {
        if a.len() > 0 && a.last() == '\r' {
            if blank(w) {
                assert forall|i: int| 0 <= i < a.len() implies is_space(#[trigger] a[i]) by {
                    if i < w.len() {
                        assert(w[i] == a[i]);
                    }
                }
            }
            if blank(a) {
                assert forall|i: int| 0 <= i < w.len() implies is_space(#[trigger] w[i]) by {
                    assert(w[i] == a[i]);
                }
            }
        }
    }
    lemma_nonblank_front(w, lines_of(rest));
    if !blank(a) {
        if a.len() == 0 {
            assert(blank(a));
        }
        let none = Seq::<Seq<char>>::empty();
        lemma_nonblank_front(a, none);
        assert(seq![a] + none =~= seq![a]);
    }
}

/// Texts are joined with what separates them between each two.
pub proof fn joining_separates(v: Seq<Seq<char>>, x: Seq<char>, sep: Seq<char>)
    ensures
        v.len() > 0 ==> joined(v.push(x), sep) == joined(v, sep) + sep + x,
        joined(seq![x], sep) == x,
        joined(Seq::empty(), sep).len() == 0,
{
    assert(v.push(x).drop_last() =~= v);
}

/// A text is found where it stands first, and only where it stands; what is before it is what comes
/// before its first place.
pub proof fn texts_are_found_at_their_first_place(s: Seq<char>, pat: Seq<char>, i: int)
    ensures
        contains_text(s, pat) ==> occurs_at(s, pat, find_text(s, pat)->0),
        occurs_at(s, pat, i) ==> contains_text(s, pat) && find_text(s, pat)->0 <= i
            && before_text(s, pat) == s.take(find_text(s, pat)->0),
        !contains_text(s, pat) ==> before_text(s, pat) == s,
{
    lemma_find(s, pat, 0);
    if occurs_at(s, pat, i) && find_text(s, pat) is None {
        assert(!occurs_at(s, pat, i));
    }
}

/// Whether a text holds another one.
pub open spec fn holds(s: Seq<char>, part: Seq<char>) -> bool {
    exists|i: int| #[trigger] occurs_at(s, part, i)
}

/// What stands between two texts is held by the three joined.
pub proof fn lemma_holds(a: Seq<char>, part: Seq<char>, b: Seq<char>)
    ensures
        holds(a + part + b, part),
{
    let s = a + part + b;
    assert(s.subrange(a.len() as int, (a.len() + part.len()) as int) =~= part);
    assert(occurs_at(s, part, a.len() as int));
}

/// What a text holds, a longer one that starts with it holds.
pub proof fn lemma_holds_wider(s: Seq<char>, part: Seq<char>, b: Seq<char>)
    requires
        holds(s, part),
    ensures
        holds(s + b, part),
{
    let i = choose|i: int| #[trigger] occurs_at(s, part, i);
    assert((s + b).subrange(i, i + part.len()) =~= s.subrange(i, i + part.len()));
    assert(occurs_at(s + b, part, i));
}

/// What a text starts with stays at its start when it is trimmed, where that starts and ends with no
/// white space.
pub proof fn trimming_keeps_a_solid_start(s: Seq<char>, rest: Seq<char>)
    requires
        s.len() > 0,
        !is_space(s[0]),
        !is_space(s.last()),
    ensures
        has_prefix(trim(s + rest), s),
{
    let whole = s + rest;
    let cut = trimming_drops_only_spaces(whole);
    assert(whole[0] == s[0]);
    assert(whole[s.len() - 1] == s.last());
    if cut.0 > 0 {
        assert(whole.take(cut.0)[0] == s[0]);
    }
    if cut.1 < s.len() {
        assert(whole.skip(cut.1)[s.len() - 1 - cut.1] == s.last());
    }
    assert(trim(whole).take(s.len() as int) =~= s);
}

} // verus!
