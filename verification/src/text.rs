//! Text as sequences of characters: splitting into lines and words, trimming,
//! cutting at a separator, and reading unsigned integers.

use vstd::prelude::*;
use vstd::slice::slice_subrange;
use vstd::utf8::is_ascii_chars;

verus! {

/// Appends one character to a string.
///
/// Claims of `String::push` that the string then holds the characters it held
/// before, followed by `c`.
pub assume_specification[ String::push ](s: &mut String, c: char)
    ensures
        final(s)@ == old(s)@.push(c),
;

/// The contents of each slice of a list.
pub open spec fn views(v: Seq<&[char]>) -> Seq<Seq<char>> {
    v.map_values(|s: &[char]| s@)
}

/// The characters of a string, in order.
pub fn chars_of(s: &str) -> (r: Vec<char>)
    ensures
        r@ == s@,
{
    let mut out: Vec<char> = Vec::new();
    for c in it: s.chars()
        invariant
            out@ == it.seq().take(it.index() as int),
            it.seq() == s@,
    {
        out.push(c);
    }
    out
}

/// The string made of the given characters.
pub fn string_of(s: &[char]) -> (r: String)
    ensures
        r@ == s@,
{
    let mut out = String::new();
    let mut i: usize = 0;
    while i < s.len()
        invariant
            i <= s@.len(),
            out@ == s@.take(i as int),
        decreases s@.len() - i,
    {
        out.push(s[i]);
        i = i + 1;
    }
    assert(s@.take(i as int) == s@);
    out
}

/// Tells whether two slices hold the same characters.
pub fn same_chars(a: &[char], b: &[char]) -> (r: bool)
    ensures
        r == (a@ == b@),
{
    if a.len() != b.len() {
        return false;
    }
    let mut i: usize = 0;
    while i < a.len()
        invariant
            a@.len() == b@.len(),
            i <= a@.len(),
            forall|k: int| 0 <= k < i ==> a@[k] == b@[k],
        decreases a@.len() - i,
    {
        if a[i] != b[i] {
            return false;
        }
        i = i + 1;
    }
    assert(a@ =~= b@);
    true
}

/// Tells whether a slice holds exactly the characters of a string.
pub fn is_text(a: &[char], s: &str) -> (r: bool)
    ensures
        r == (a@ == s@),
{
    let b = chars_of(s);
    same_chars(a, b.as_slice())
}

/// Tells whether two strings hold the same characters.
pub fn same_text(a: &str, b: &str) -> (r: bool)
    ensures
        r == (a@ == b@),
{
    let x = chars_of(a);
    is_text(x.as_slice(), b)
}

// ---- white space ----

/// Whether `c` has the Unicode property White_Space.
pub open spec fn is_space(c: char) -> bool {
    let n = c as u32;
    ||| 0x09 <= n <= 0x0d
    ||| n == 0x20
    ||| n == 0x85
    ||| n == 0xa0
    ||| n == 0x1680
    ||| 0x2000 <= n <= 0x200a
    ||| n == 0x2028
    ||| n == 0x2029
    ||| n == 0x202f
    ||| n == 0x205f
    ||| n == 0x3000
}

/// Tells whether a character is white space.
pub fn is_white_space(c: char) -> (r: bool)
    ensures
        r == is_space(c),
{
    let n: u32 = c as u32;
    (0x09 <= n && n <= 0x0d) || n == 0x20 || n == 0x85 || n == 0xa0 || n == 0x1680 || (0x2000 <= n
        && n <= 0x200a) || n == 0x2028 || n == 0x2029 || n == 0x202f || n == 0x205f || n == 0x3000
}

/// The first position from `i` on that holds no white space, or the end.
pub open spec fn space_end(s: Seq<char>, i: int) -> int
    decreases s.len() - i,
{
    if 0 <= i < s.len() && is_space(s[i]) {
        space_end(s, i + 1)
    } else {
        i
    }
}

/// The first position from `i` on that holds white space, or the end.
pub open spec fn word_end(s: Seq<char>, i: int) -> int
    decreases s.len() - i,
{
    if 0 <= i < s.len() && !is_space(s[i]) {
        word_end(s, i + 1)
    } else {
        i
    }
}

/// The position behind the last character before `j` that is no white space,
/// not going below `i`.
pub open spec fn space_start(s: Seq<char>, i: int, j: int) -> int
    decreases j - i,
{
    if i < j <= s.len() && is_space(s[j - 1]) {
        space_start(s, i, j - 1)
    } else {
        j
    }
}

/// `s` without the white space at its two ends.
pub open spec fn trimmed(s: Seq<char>) -> Seq<char> {
    let i = space_end(s, 0);
    s.subrange(i, space_start(s, i, s.len() as int))
}

proof fn lemma_space_end(s: Seq<char>, i: int)
    requires
        0 <= i <= s.len(),
    ensures
        i <= space_end(s, i) <= s.len(),
        space_end(s, i) < s.len() ==> !is_space(s[space_end(s, i)]),
    decreases s.len() - i,
{
    if i < s.len() && is_space(s[i]) {
        lemma_space_end(s, i + 1);
    }
}

proof fn lemma_word_end(s: Seq<char>, i: int)
    requires
        0 <= i <= s.len(),
    ensures
        i <= word_end(s, i) <= s.len(),
    decreases s.len() - i,
{
    if i < s.len() && !is_space(s[i]) {
        lemma_word_end(s, i + 1);
    }
}

fn skip_space(s: &[char], from: usize) -> (r: usize)
    requires
        from <= s@.len(),
    ensures
        r == space_end(s@, from as int),
        from <= r <= s@.len(),
        r < s@.len() ==> !is_space(s@[r as int]),
{
    let mut i: usize = from;
    while i < s.len() && is_white_space(s[i])
        invariant
            from <= i <= s@.len(),
            space_end(s@, from as int) == space_end(s@, i as int),
        decreases s@.len() - i,
    {
        i = i + 1;
    }
    i
}

fn skip_word(s: &[char], from: usize) -> (r: usize)
    requires
        from <= s@.len(),
    ensures
        r == word_end(s@, from as int),
        from <= r <= s@.len(),
{
    let mut i: usize = from;
    while i < s.len() && !is_white_space(s[i])
        invariant
            from <= i <= s@.len(),
            word_end(s@, from as int) == word_end(s@, i as int),
        decreases s@.len() - i,
    {
        i = i + 1;
    }
    i
}

/// Drops the white space at both ends.
pub fn trim(s: &[char]) -> (r: &[char])
    ensures
        r@ == trimmed(s@),
{
    let i = skip_space(s, 0);
    let mut j: usize = s.len();
    while j > i && is_white_space(s[j - 1])
        invariant
            i <= j <= s@.len(),
            space_start(s@, i as int, s@.len() as int) == space_start(s@, i as int, j as int),
        decreases j,
    {
        j = j - 1;
    }
    slice_subrange(s, i, j)
}

/// The words of `s` from position `i` on: its longest runs of characters that
/// are no white space, in order.
pub open spec fn words_from(s: Seq<char>, i: int) -> Seq<Seq<char>>
    decreases s.len() - i,
    when 0 <= i <= s.len()
    via words_from_decreases
{
    let a = space_end(s, i);
    if a >= s.len() {
        Seq::empty()
    } else {
        let b = word_end(s, a);
        seq![s.subrange(a, b)] + words_from(s, b)
    }
}

#[via_fn]
proof fn words_from_decreases(s: Seq<char>, i: int) {
    lemma_space_end(s, i);
    let a = space_end(s, i);
    if a < s.len() {
        lemma_word_end(s, a);
        lemma_word_end(s, a + 1);
    }
}

/// The words of `s`.
pub open spec fn words_of(s: Seq<char>) -> Seq<Seq<char>> {
    words_from(s, 0)
}

/// Splits at white space, leaving out empty pieces.
pub fn words<'a>(s: &'a [char]) -> (r: Vec<&'a [char]>)
    ensures
        views(r@) == words_of(s@),
{
    let mut out: Vec<&'a [char]> = Vec::new();
    let mut i: usize = skip_space(s, 0);
    proof {
        assert(views(out@) + words_from(s@, i as int) =~= words_of(s@)) by {
            lemma_words_skip(s@, 0);
        }
    }
    while i < s.len()
        invariant
            i <= s@.len(),
            i < s@.len() ==> !is_space(s@[i as int]),
            views(out@) + words_from(s@, i as int) =~= words_of(s@),
        decreases s@.len() - i,
    {
        let b = skip_word(s, i);
        proof {
            lemma_word_end(s@, i as int + 1);
        }
        let ghost before = out@;
        out.push(slice_subrange(s, i, b));
        let next = skip_space(s, b);
        proof {
            lemma_words_skip(s@, b as int);
            assert(words_from(s@, i as int) == seq![s@.subrange(i as int, b as int)] + words_from(
                s@,
                b as int,
            ));
            assert(views(out@) =~= views(before) + seq![s@.subrange(i as int, b as int)]);
        }
        i = next;
    }
    assert(words_from(s@, i as int) =~= Seq::<Seq<char>>::empty());
    out
}

/// Leading white space holds no word.
proof fn lemma_words_skip(s: Seq<char>, i: int)
    requires
        0 <= i <= s.len(),
    ensures
        words_from(s, i) == words_from(s, space_end(s, i)),
    decreases s.len() - i,
{
    lemma_space_end(s, i);
    let a = space_end(s, i);
    lemma_space_end(s, a);
    assert(space_end(s, a) == a);
}

// ---- separators ----

/// The first position from `i` on that holds `c`, or the end.
pub open spec fn position(s: Seq<char>, c: char, i: int) -> int
    decreases s.len() - i,
{
    if 0 <= i < s.len() && s[i] != c {
        position(s, c, i + 1)
    } else {
        i
    }
}

/// The position behind the last `c` before `j`, or 0.
pub open spec fn after_last(s: Seq<char>, c: char, j: int) -> int
    decreases j,
{
    if 0 < j <= s.len() && s[j - 1] != c {
        after_last(s, c, j - 1)
    } else {
        j
    }
}

/// The two parts of `s` before and behind its first `c`.
pub open spec fn cut_first(s: Seq<char>, c: char) -> Option<(Seq<char>, Seq<char>)> {
    let i = position(s, c, 0);
    if i < s.len() {
        Some((s.subrange(0, i), s.subrange(i + 1, s.len() as int)))
    } else {
        None
    }
}

/// The two parts of `s` before and behind its last `c`.
pub open spec fn cut_last(s: Seq<char>, c: char) -> Option<(Seq<char>, Seq<char>)> {
    let i = after_last(s, c, s.len() as int);
    if i > 0 {
        Some((s.subrange(0, i - 1), s.subrange(i, s.len() as int)))
    } else {
        None
    }
}

proof fn lemma_position(s: Seq<char>, c: char, i: int)
    requires
        0 <= i <= s.len(),
    ensures
        i <= position(s, c, i) <= s.len(),
    decreases s.len() - i,
{
    if i < s.len() && s[i] != c {
        lemma_position(s, c, i + 1);
    }
}

/// Finds the first position from `from` on that holds `c`, or the end.
pub fn find(s: &[char], c: char, from: usize) -> (r: usize)
    requires
        from <= s@.len(),
    ensures
        r == position(s@, c, from as int),
        from <= r <= s@.len(),
{
    let mut i: usize = from;
    while i < s.len() && s[i] != c
        invariant
            from <= i <= s@.len(),
            position(s@, c, from as int) == position(s@, c, i as int),
        decreases s@.len() - i,
    {
        i = i + 1;
    }
    i
}

/// Finds the position behind the last `c`, or 0.
pub fn find_last(s: &[char], c: char) -> (r: usize)
    ensures
        r == after_last(s@, c, s@.len() as int),
        r <= s@.len(),
{
    let mut j: usize = s.len();
    while j > 0 && s[j - 1] != c
        invariant
            j <= s@.len(),
            after_last(s@, c, s@.len() as int) == after_last(s@, c, j as int),
        decreases j,
    {
        j = j - 1;
    }
    j
}

/// The contents of the two parts of a cut.
pub open spec fn parts(r: Option<(&[char], &[char])>) -> Option<(Seq<char>, Seq<char>)> {
    match r {
        Some((a, b)) => Some((a@, b@)),
        None => None,
    }
}

/// Cuts at the first `c`.
pub fn split_first(s: &[char], c: char) -> (r: Option<(&[char], &[char])>)
    ensures
        parts(r) == cut_first(s@, c),
{
    let i = find(s, c, 0);
    if i < s.len() {
        Some((slice_subrange(s, 0, i), slice_subrange(s, i + 1, s.len())))
    } else {
        None
    }
}

/// Cuts at the last `c`.
pub fn split_last(s: &[char], c: char) -> (r: Option<(&[char], &[char])>)
    ensures
        parts(r) == cut_last(s@, c),
{
    let i = find_last(s, c);
    if i > 0 {
        Some((slice_subrange(s, 0, i - 1), slice_subrange(s, i, s.len())))
    } else {
        None
    }
}

// ---- prefixes and infixes ----

/// Whether `s` begins with `p`.
pub open spec fn has_prefix(s: Seq<char>, p: Seq<char>) -> bool {
    p.len() <= s.len() && s.subrange(0, p.len() as int) == p
}

/// What follows `p` in `s`, where `s` begins with `p`.
pub open spec fn without_prefix(s: Seq<char>, p: Seq<char>) -> Option<Seq<char>> {
    if has_prefix(s, p) {
        Some(s.subrange(p.len() as int, s.len() as int))
    } else {
        None
    }
}

/// Whether `p` stands at position `i` of `s`.
pub open spec fn stands_at(s: Seq<char>, p: Seq<char>, i: int) -> bool {
    0 <= i && i + p.len() <= s.len() && s.subrange(i, i + p.len()) == p
}

/// Whether `p` occurs in `s`.
pub open spec fn occurs_in(s: Seq<char>, p: Seq<char>) -> bool {
    exists|i: int| stands_at(s, p, i)
}

/// Takes a prefix off.
pub fn strip_prefix<'a>(s: &'a [char], p: &str) -> (r: Option<&'a [char]>)
    ensures
        (match r {
            Some(x) => Some(x@),
            None => None,
        }) == without_prefix(s@, p@),
{
    let q = chars_of(p);
    let n = q.len();
    if n > s.len() {
        return None;
    }
    if same_chars(slice_subrange(s, 0, n), q.as_slice()) {
        Some(slice_subrange(s, n, s.len()))
    } else {
        None
    }
}

/// Tells whether a text occurs in another.
pub fn contains(s: &[char], p: &str) -> (r: bool)
    ensures
        r == occurs_in(s@, p@),
{
    let q = chars_of(p);
    let n = q.len();
    let mut i: usize = 0;
    while s.len() - i >= n
        invariant
            n == q@.len(),
            q@ == p@,
            i <= s@.len(),
            forall|k: int| 0 <= k < i ==> !stands_at(s@, p@, k),
        decreases s@.len() - i,
    {
        if same_chars(slice_subrange(s, i, i + n), q.as_slice()) {
            assert(stands_at(s@, p@, i as int));
            return true;
        }
        assert(n > 0) by {
            if n == 0 {
                assert(s@.subrange(i as int, i as int) =~= q@);
            }
        }
        i = i + 1;
    }
    false
}

// ---- lines ----

/// `s` without one carriage return at its end.
pub open spec fn without_return(s: Seq<char>) -> Seq<char> {
    if s.len() > 0 && s.last() == '\r' {
        s.drop_last()
    } else {
        s
    }
}

/// The lines of `s` from position `i` on. A line ends at a line feed, with or
/// without a carriage return before it; the last line may lack its line feed,
/// and then keeps a carriage return.
pub open spec fn lines_from(s: Seq<char>, i: int) -> Seq<Seq<char>>
    decreases s.len() - i,
    when 0 <= i <= s.len()
    via lines_from_decreases
{
    if i >= s.len() {
        Seq::empty()
    } else {
        let e = position(s, '\n', i);
        if e < s.len() {
            seq![without_return(s.subrange(i, e))] + lines_from(s, e + 1)
        } else {
            seq![s.subrange(i, s.len() as int)]
        }
    }
}

#[via_fn]
proof fn lines_from_decreases(s: Seq<char>, i: int) {
    lemma_position(s, '\n', i);
}

/// The lines of `s`.
pub open spec fn lines_of(s: Seq<char>) -> Seq<Seq<char>> {
    lines_from(s, 0)
}

/// Splits into lines.
pub fn lines<'a>(s: &'a [char]) -> (r: Vec<&'a [char]>)
    ensures
        views(r@) == lines_of(s@),
{
    let mut out: Vec<&'a [char]> = Vec::new();
    let mut i: usize = 0;
    assert(views(out@) + lines_from(s@, 0) =~= lines_of(s@));
    while i < s.len()
        invariant
            i <= s@.len(),
            views(out@) + lines_from(s@, i as int) =~= lines_of(s@),
        decreases s@.len() - i,
    {
        let e = find(s, '\n', i);
        let ghost before = out@;
        let ghost rest = lines_from(s@, i as int);
        if e < s.len() {
            let mut stop: usize = e;
            if i < e && s[e - 1] == '\r' {
                stop = e - 1;
            }
            let line = slice_subrange(s, i, stop);
            assert(line@ =~= without_return(s@.subrange(i as int, e as int)));
            out.push(line);
            assert(views(out@) =~= views(before) + seq![line@]);
            assert(rest == seq![line@] + lines_from(s@, e + 1));
            i = e + 1;
        } else {
            let line = slice_subrange(s, i, e);
            out.push(line);
            assert(views(out@) =~= views(before) + seq![line@]);
            i = e;
            assert(lines_from(s@, i as int) =~= Seq::<Seq<char>>::empty());
        }
    }
    assert(lines_from(s@, i as int) =~= Seq::<Seq<char>>::empty());
    out
}

/// Whether `part` stands in `line` directly behind `label`, and `line` goes on with
/// `next`.
pub open spec fn labelled(
    line: Seq<char>,
    label: Seq<char>,
    part: Seq<char>,
    next: Seq<char>,
) -> bool {
    occurs_in(line, label + part + next)
}

/// What stands between two parts of a text occurs in it.
pub proof fn lemma_occurs(line: Seq<char>, a: Seq<char>, p: Seq<char>, b: Seq<char>)
    requires
        line =~= a + p + b,
    ensures
        occurs_in(line, p),
{
    assert(line.subrange(a.len() as int, (a.len() + p.len()) as int) =~= p);
    assert(stands_at(line, p, a.len() as int));
}

/// Parts of a text may be put together in any order.
pub proof fn lemma_regroup(a: Seq<char>, b: Seq<char>, c: Seq<char>)
    ensures
        a + b + c == a + (b + c),
{
    assert(a + b + c =~= a + (b + c));
}

/// Parts of a text may be put together in any order.
pub proof fn lemma_regroup3(a: Seq<char>, b: Seq<char>, c: Seq<char>, d: Seq<char>)
    ensures
        a + b + c + d == a + (b + c + d),
{
    assert(a + b + c + d =~= a + (b + c + d));
}

/// What stands behind a label, before the next one.
pub proof fn lemma_label(
    line: Seq<char>,
    a: Seq<char>,
    label: Seq<char>,
    part: Seq<char>,
    next: Seq<char>,
    then_part: Seq<char>,
    rest: Seq<char>,
) -> (b: Seq<char>)
    requires
        line == a + (label + part + (next + then_part + rest)),
    ensures
        labelled(line, label, part, next),
        b == a + label + part,
        line == b + (next + then_part + rest),
{
    let tail = next + then_part + rest;
    assert(tail =~= next + (then_part + rest));
    assert(line =~= a + (label + part + next) + (then_part + rest));
    lemma_occurs(line, a, label + part + next, then_part + rest);
    lemma_regroup3(a, label, part, tail);
    a + label + part
}

// ---- case ----

/// The lower-case form of a text.
pub uninterp spec fn lowercase_text(s: Seq<char>) -> Seq<char>;

/// The lower-case form of an ASCII text: the letters `A` to `Z` turn into `a` to
/// `z`, everything else stays.
pub open spec fn ascii_lowered(s: Seq<char>) -> Seq<char> {
    Seq::new(
        s.len(),
        |i: int|
            if 65 <= s[i] as int <= 90 {
                (s[i] as int + 32) as char
            } else {
                s[i]
            },
    )
}

/// Turns a text to lower case.
///
/// Claims of `str::to_lowercase` that its result is a function of the text, and
/// what it is for an ASCII text. What becomes of other letters is for Unicode to
/// say and is left unsaid.
#[verifier::external_body]
fn to_lower(s: &str) -> (r: String)
    ensures
        r@ == lowercase_text(s@),
        is_ascii_chars(s@) ==> r@ == ascii_lowered(s@),
{
    s.to_lowercase()
}

/// A text in lower case.
pub open spec fn lowered(s: Seq<char>) -> Seq<char> {
    if is_ascii_chars(s) {
        ascii_lowered(s)
    } else {
        lowercase_text(s)
    }
}

/// Turns a text to lower case.
pub fn lower(s: &str) -> (r: String)
    ensures
        r@ == lowered(s@),
{
    to_lower(s)
}

/// A text with every space turned into an underscore.
pub open spec fn underscored(s: Seq<char>) -> Seq<char> {
    Seq::new(
        s.len(),
        |i: int|
            if s[i] == ' ' {
                '_'
            } else {
                s[i]
            },
    )
}

/// Turns every space into an underscore.
pub fn spaces_to_underscores(s: &str) -> (r: String)
    ensures
        r@ == underscored(s@),
{
    let chars = chars_of(s);
    let mut out = String::new();
    let mut i: usize = 0;
    while i < chars.len()
        invariant
            i <= chars@.len(),
            chars@ == s@,
            out@ == underscored(s@).take(i as int),
        decreases chars@.len() - i,
    {
        if chars[i] == ' ' {
            out.push('_');
        } else {
            out.push(chars[i]);
        }
        i = i + 1;
        assert(out@ =~= underscored(s@).take(i as int));
    }
    assert(out@ =~= underscored(s@));
    out
}

// ---- unsigned integers ----

/// Why a text is no unsigned integer of the wanted size.
#[derive(Clone, Copy, Debug, PartialEq, Eq, Structural)]
pub enum IntError {
    /// There is no character at all.
    Empty,
    /// A character is no digit, or a sign stands alone.
    InvalidDigit,
    /// The value is too large.
    Overflow,
}

/// The words in which an integer error is reported.
pub open spec fn int_error_text(e: IntError) -> Seq<char> {
    match e {
        IntError::Empty => "cannot parse integer from empty string"@,
        IntError::InvalidDigit => "invalid digit found in string"@,
        IntError::Overflow => "number too large to fit in target type"@,
    }
}

impl IntError {
    /// The words in which this error is reported.
    pub fn message(self) -> (r: &'static str)
        ensures
            r@ == int_error_text(self),
    {
        match self {
            IntError::Empty => "cannot parse integer from empty string",
            IntError::InvalidDigit => "invalid digit found in string",
            IntError::Overflow => "number too large to fit in target type",
        }
    }
}

/// The value of a digit below `radix`.
pub open spec fn digit_value(c: char, radix: int) -> Option<int> {
    let n = c as int;
    let d = if 48 <= n <= 57 {
        n - 48
    } else if 97 <= n <= 122 {
        n - 87
    } else if 65 <= n <= 90 {
        n - 55
    } else {
        radix
    };
    if d < radix {
        Some(d)
    } else {
        None
    }
}

/// The value that the digits `s` write in base `radix`; the first character
/// that is no digit, or that makes the value exceed `max`, decides the error.
pub open spec fn digits_value(s: Seq<char>, radix: int, max: int) -> Result<int, IntError>
    decreases s.len(),
{
    if s.len() == 0 {
        Ok(0)
    } else {
        match digits_value(s.drop_last(), radix, max) {
            Err(e) => Err(e),
            Ok(v) => match digit_value(s.last(), radix) {
                None => Err(IntError::InvalidDigit),
                Some(d) => if v * radix + d > max {
                    Err(IntError::Overflow)
                } else {
                    Ok(v * radix + d)
                },
            },
        }
    }
}

/// The unsigned integer up to `max` that `s` writes in base `radix`, with an
/// optional plus sign.
pub open spec fn uint_value(s: Seq<char>, radix: int, max: int) -> Result<int, IntError> {
    if s.len() == 0 {
        Err(IntError::Empty)
    } else if s.len() == 1 && s[0] == '+' {
        Err(IntError::InvalidDigit)
    } else if s[0] == '+' {
        digits_value(s.subrange(1, s.len() as int), radix, max)
    } else {
        digits_value(s, radix, max)
    }
}

/// An error in the first digits is the error of all of them.
proof fn lemma_digits_error(s: Seq<char>, n: int, radix: int, max: int)
    requires
        0 <= n <= s.len(),
        digits_value(s.take(n), radix, max) is Err,
    ensures
        digits_value(s, radix, max) == digits_value(s.take(n), radix, max),
    decreases s.len() - n,
{
    if n == s.len() {
        assert(s.take(n) =~= s);
    } else {
        assert(s.take(n + 1).drop_last() =~= s.take(n));
        lemma_digits_error(s, n + 1, radix, max);
    }
}

fn digit(c: char, radix: u64) -> (r: Option<u64>)
    requires
        radix <= 16,
    ensures
        (match r {
            Some(d) => Some(d as int),
            None => None,
        }) == digit_value(c, radix as int),
        r is Some ==> r->0 < radix,
{
    let n: u64 = c as u64;
    let d: u64 = if 48 <= n && n <= 57 {
        n - 48
    } else if 97 <= n && n <= 122 {
        n - 87
    } else if 65 <= n && n <= 90 {
        n - 55
    } else {
        radix
    };
    if d < radix {
        Some(d)
    } else {
        None
    }
}

/// The value that a reader handed back, as a mathematical integer.
pub open spec fn int_result(r: Result<u64, IntError>) -> Result<int, IntError> {
    match r {
        Ok(v) => Ok(v as int),
        Err(e) => Err(e),
    }
}

fn parse_digits(s: &[char], radix: u64, max: u64) -> (r: Result<u64, IntError>)
    requires
        radix <= 16,
    ensures
        int_result(r) == digits_value(s@, radix as int, max as int),
{
    let mut v: u64 = 0;
    let mut i: usize = 0;
    while i < s.len()
        invariant
            i <= s@.len(),
            radix <= 16,
            v <= max,
            digits_value(s@.take(i as int), radix as int, max as int) == Ok::<int, IntError>(
                v as int,
            ),
        decreases s@.len() - i,
    {
        assert(s@.take(i + 1).drop_last() =~= s@.take(i as int));
        match digit(s[i], radix) {
            None => {
                proof {
                    lemma_digits_error(s@, i + 1, radix as int, max as int);
                }
                return Err(IntError::InvalidDigit);
            },
            Some(d) => {
                assert(0 <= v * radix <= 0xffff_ffff_ffff_ffff * 16) by (nonlinear_arith)
                    requires
                        v <= 0xffff_ffff_ffff_ffff,
                        radix <= 16,
                ;
                let wide: u128 = v as u128 * radix as u128 + d as u128;
                if wide > max as u128 {
                    proof {
                        lemma_digits_error(s@, i + 1, radix as int, max as int);
                    }
                    return Err(IntError::Overflow);
                }
                v = wide as u64;
            },
        }
        i = i + 1;
    }
    assert(s@.take(i as int) =~= s@);
    Ok(v)
}

/// Reads an unsigned integer up to `max` in base `radix`.
pub fn parse_uint(s: &[char], radix: u64, max: u64) -> (r: Result<u64, IntError>)
    requires
        radix <= 16,
    ensures
        int_result(r) == uint_value(s@, radix as int, max as int),
        r is Ok ==> r->Ok_0 <= max,
{
    if s.len() == 0 {
        return Err(IntError::Empty);
    }
    let r = if s[0] == '+' {
        if s.len() == 1 {
            return Err(IntError::InvalidDigit);
        }
        parse_digits(slice_subrange(s, 1, s.len()), radix, max)
    } else {
        parse_digits(s, radix, max)
    };
    proof {
        lemma_digits_bound(s@, radix as int, max as int);
        lemma_digits_bound(s@.subrange(1, s@.len() as int), radix as int, max as int);
    }
    r
}

/// What is read does not exceed the limit.
proof fn lemma_digits_bound(s: Seq<char>, radix: int, max: int)
    requires
        0 <= max,
    ensures
        digits_value(s, radix, max) is Ok ==> digits_value(s, radix, max)->Ok_0 <= max,
{
}

// ---- what holds of all texts ----

/// The first place of a character is where it stands and did not stand before.
pub proof fn lemma_position_at(s: Seq<char>, c: char, i: int, at: int)
    requires
        0 <= i <= at < s.len(),
        s[at] == c,
        forall|k: int| i <= k < at ==> s[k] != c,
    ensures
        position(s, c, i) == at,
    decreases at - i,
{
    if i < at {
        lemma_position_at(s, c, i + 1, at);
    }
}

/// Trimming takes away white space, and nothing else, from the two ends of a text, and
/// leaves none there.
pub proof fn law_trim_takes_white_space_away(s: Seq<char>) -> (cut: (int, int))
    ensures
        ({
            let (i, j) = cut;
            &&& 0 <= i <= j <= s.len()
            &&& trimmed(s) == s.subrange(i, j)
            &&& forall|k: int| 0 <= k < i ==> is_space(#[trigger] s[k])
            &&& forall|k: int| j <= k < s.len() ==> is_space(#[trigger] s[k])
        }),
        trimmed(s).len() > 0 ==> !is_space(trimmed(s)[0]) && !is_space(trimmed(s).last()),
{
    let i = space_end(s, 0);
    let n = s.len() as int;
    lemma_space_end(s, 0);
    lemma_spaces_before(s, 0);
    let j = space_start(s, i, n);
    lemma_spaces_behind(s, i, n);
    assert(i < j ==> trimmed(s)[0] == s[i] && trimmed(s).last() == s[j - 1]);
    (i, j)
}

proof fn lemma_spaces_before(s: Seq<char>, i: int)
    requires
        0 <= i <= s.len(),
    ensures
        forall|k: int| i <= k < space_end(s, i) ==> is_space(#[trigger] s[k]),
        space_end(s, i) < s.len() ==> !is_space(s[space_end(s, i)]),
    decreases s.len() - i,
{
    if i < s.len() && is_space(s[i]) {
        lemma_spaces_before(s, i + 1);
    }
}

proof fn lemma_spaces_behind(s: Seq<char>, i: int, j: int)
    requires
        0 <= i <= j <= s.len(),
    ensures
        i <= space_start(s, i, j) <= j,
        forall|k: int| space_start(s, i, j) <= k < j ==> is_space(#[trigger] s[k]),
        i < space_start(s, i, j) ==> !is_space(s[space_start(s, i, j) - 1]),
    decreases j - i,
{
    if i < j && is_space(s[j - 1]) {
        lemma_spaces_behind(s, i, j - 1);
    }
}

/// A cut at the first separator gives back the text around one, with none before it; there
/// is no cut if and only if there is no separator.
pub proof fn law_first_cut_is_at_the_first(s: Seq<char>, c: char)
    ensures
        cut_first(s, c) matches Some((a, b)) ==> s == a.push(c) + b && !a.contains(c),
        cut_first(s, c) is None <==> !s.contains(c),
{
    lemma_position(s, c, 0);
    lemma_position_stands(s, c, 0);
    let i = position(s, c, 0);
    if i < s.len() {
        let a = s.subrange(0, i);
        let b = s.subrange(i + 1, s.len() as int);
        assert(s =~= a.push(c) + b);
        assert(s[i] == c);
        assert(!a.contains(c)) by {
            if a.contains(c) {
                let k = a.index_of(c);
                assert(s[k] == c);
            }
        }
    } else if s.contains(c) {
        let k = s.index_of(c);
        assert(s[k] == c);
    }
}

proof fn lemma_position_stands(s: Seq<char>, c: char, i: int)
    requires
        0 <= i <= s.len(),
    ensures
        forall|k: int| i <= k < position(s, c, i) ==> #[trigger] s[k] != c,
        position(s, c, i) < s.len() ==> s[position(s, c, i)] == c,
    decreases s.len() - i,
{
    if i < s.len() && s[i] != c {
        lemma_position_stands(s, c, i + 1);
    }
}

/// A cut at the last separator gives back the text around one, with none behind it; there
/// is no cut if and only if there is no separator.
pub proof fn law_last_cut_is_at_the_last(s: Seq<char>, c: char)
    ensures
        cut_last(s, c) matches Some((a, b)) ==> s == a.push(c) + b && !b.contains(c),
        cut_last(s, c) is None <==> !s.contains(c),
{
    let n = s.len() as int;
    lemma_after_last(s, c, n);
    let i = after_last(s, c, n);
    if i > 0 {
        let a = s.subrange(0, i - 1);
        let b = s.subrange(i, n);
        assert(s =~= a.push(c) + b);
        assert(s[i - 1] == c);
        assert(!b.contains(c)) by {
            if b.contains(c) {
                let k = b.index_of(c);
                assert(s[i + k] == c);
            }
        }
    } else if s.contains(c) {
        let k = s.index_of(c);
        assert(s[k] == c);
    }
}

proof fn lemma_after_last(s: Seq<char>, c: char, j: int)
    requires
        0 <= j <= s.len(),
    ensures
        0 <= after_last(s, c, j) <= j,
        forall|k: int| after_last(s, c, j) <= k < j ==> #[trigger] s[k] != c,
        after_last(s, c, j) > 0 ==> s[after_last(s, c, j) - 1] == c,
    decreases j,
{
    if j > 0 && s[j - 1] != c {
        lemma_after_last(s, c, j - 1);
    }
}

proof fn lemma_ends_moved(a: Seq<char>, s: Seq<char>, i: int)
    requires
        0 <= i <= s.len(),
    ensures
        space_end(a + s, a.len() + i) == a.len() + space_end(s, i),
        word_end(a + s, a.len() + i) == a.len() + word_end(s, i),
        forall|c: char| #[trigger] position(a + s, c, a.len() + i) == a.len() + position(s, c, i),
    decreases s.len() - i,
{
    if i < s.len() {
        assert((a + s)[a.len() + i] == s[i]);
        lemma_ends_moved(a, s, i + 1);
    }
    assert forall|c: char| #[trigger] position(a + s, c, a.len() + i) == a.len() + position(
        s,
        c,
        i,
    ) by {
        if i < s.len() && s[i] != c {
            assert(position(a + s, c, a.len() + i) == position(a + s, c, a.len() + (i + 1)));
        }
    }
}

proof fn lemma_words_moved(a: Seq<char>, s: Seq<char>, i: int)
    requires
        0 <= i <= s.len(),
    ensures
        words_from(a + s, a.len() + i) == words_from(s, i),
    decreases s.len() - i,
{
    lemma_ends_moved(a, s, i);
    lemma_space_end(s, i);
    let b = space_end(s, i);
    if b < s.len() {
        lemma_ends_moved(a, s, b);
        lemma_word_end(s, b);
        lemma_word_end(s, b + 1);
        let e = word_end(s, b);
        lemma_words_moved(a, s, e);
        assert((a + s).subrange(a.len() + b, a.len() + e) =~= s.subrange(b, e));
    }
}

/// White space separates words: a word, white space and some text have that word and then
/// the words of the text; white space in front changes nothing; a text without any is one
/// word.
pub proof fn law_words_are_separated_by_white_space(w: Seq<char>, c: char, rest: Seq<char>)
    requires
        w.len() > 0,
        forall|k: int| 0 <= k < w.len() ==> !is_space(#[trigger] w[k]),
        is_space(c),
    ensures
        words_of(w.push(c) + rest) == seq![w] + words_of(rest),
        words_of(seq![c] + rest) == words_of(rest),
        words_of(w) == seq![w],
        words_of(Seq::empty()).len() == 0,
{
    let s = w.push(c) + rest;
    let n = w.len() as int;
    assert(s[0] == w[0]);
    assert(space_end(s, 0) == 0);
    assert forall|k: int| 0 <= k < n implies !is_space(#[trigger] s[k]) by {
        assert(s[k] == w[k]);
    }
    assert(s[n] == c);
    lemma_word_to(s, 0, n);
    assert(s.subrange(0, n) =~= w);
    assert(s =~= w + (seq![c] + rest));
    let t = seq![c] + rest;
    lemma_words_moved(w, t, 0);
    assert(words_from(s, n) == words_of(t));
    assert(t[0] == c);
    lemma_ends_moved(seq![c], rest, 0);
    lemma_words_moved(seq![c], rest, 0);
    lemma_space_end(rest, 0);
    assert(space_end(t, 0) == space_end(t, 1));
    lemma_words_skip(t, 0);
    lemma_words_skip(t, 1);
    assert(words_of(t) == words_of(rest));
    assert(space_end(w, 0) == 0);
    lemma_word_to(w, 0, n);
    assert(w.subrange(0, n) =~= w);
    assert(words_from(w, n) =~= Seq::empty());
    assert(words_of(w) =~= seq![w]);
}

proof fn lemma_word_to(s: Seq<char>, i: int, n: int)
    requires
        0 <= i <= n <= s.len(),
        forall|k: int| i <= k < n ==> !is_space(#[trigger] s[k]),
        n < s.len() ==> is_space(s[n]),
    ensures
        word_end(s, i) == n,
    decreases n - i,
{
    if i < n {
        lemma_word_to(s, i + 1, n);
    }
}

proof fn lemma_lines_moved(a: Seq<char>, s: Seq<char>, i: int)
    requires
        0 <= i <= s.len(),
    ensures
        lines_from(a + s, a.len() + i) == lines_from(s, i),
    decreases s.len() - i,
{
    if i < s.len() {
        lemma_ends_moved(a, s, i);
        lemma_position(s, '\n', i);
        let e = position(s, '\n', i);
        if e < s.len() {
            lemma_lines_moved(a, s, e + 1);
            assert((a + s).subrange(a.len() + i, a.len() + e) =~= s.subrange(i, e));
        } else {
            assert((a + s).subrange(a.len() + i, (a + s).len() as int) =~= s.subrange(
                i,
                s.len() as int,
            ));
        }
    }
}

/// Line feeds end lines: a line, its line feed and some text have that line, without a
/// carriage return at its end, and then the lines of the text.
pub proof fn law_lines_end_at_line_feeds(l: Seq<char>, rest: Seq<char>)
    requires
        !l.contains('\n'),
    ensures
        lines_of(l.push('\n') + rest) == seq![without_return(l)] + lines_of(rest),
        l.len() > 0 ==> lines_of(l) == seq![l],
        lines_of(Seq::empty()).len() == 0,
        without_return(l.push('\r')) == l,
        l.len() > 0 && l.last() != '\r' ==> without_return(l) == l,
{
    let s = l.push('\n') + rest;
    let n = l.len() as int;
    assert forall|k: int| 0 <= k < n implies s[k] != '\n' by {
        assert(s[k] == l[k]);
        assert(l.contains(l[k]));
    }
    assert(s[n] == '\n');
    lemma_position_at(s, '\n', 0, n);
    assert(s.subrange(0, n) =~= l);
    lemma_lines_moved(l.push('\n'), rest, 0);
    lemma_position(l, '\n', 0);
    lemma_position_stands(l, '\n', 0);
    let e = position(l, '\n', 0);
    if e < n {
        assert(l.contains(l[e]));
    }
    assert(l.subrange(0, n) =~= l);
    assert(l.push('\r').drop_last() =~= l);
}

/// Digits count by their place: one more digit makes the value so far count once more for
/// each unit of the base, and adds its own.
pub proof fn law_digits_count_by_place(s: Seq<char>, c: char, radix: int, max: int, v: int, d: int)
    requires
        digits_value(s, radix, max) == Ok::<int, IntError>(v),
        digit_value(c, radix) == Some(d),
    ensures
        v * radix + d <= max ==> digits_value(s.push(c), radix, max) == Ok::<int, IntError>(
            v * radix + d,
        ),
        v * radix + d > max ==> digits_value(s.push(c), radix, max) == Err::<int, IntError>(
            IntError::Overflow,
        ),
        s.len() > 0 && s[0] != '+' ==> uint_value(s, radix, max) == Ok::<int, IntError>(v),
        s.len() > 0 ==> uint_value(seq!['+'] + s, radix, max) == Ok::<int, IntError>(v),
{
    assert(s.push(c).drop_last() =~= s);
    let p = seq!['+'] + s;
    assert(p.subrange(1, p.len() as int) =~= s);
}

/// The digits are 0 to 9, and beyond them the letters from A on in either case, as far as
/// the base goes.
pub proof fn law_digits_of_a_base(c: char, radix: int)
    requires
        2 <= radix <= 16,
    ensures
        digit_value(c, radix) matches Some(d) ==> 0 <= d < radix,
        48 <= c as int <= 57 && c as int - 48 < radix ==> digit_value(c, radix) == Some(
            c as int - 48,
        ),
        97 <= c as int <= 102 && radix == 16 ==> digit_value(c, radix) == Some(c as int - 87),
        65 <= c as int <= 70 && radix == 16 ==> digit_value(c, radix) == Some(c as int - 55),
        radix == 10 && !(48 <= c as int <= 57) ==> digit_value(c, radix) is None,
{
}

/// What is no number: nothing, a sign alone, and a text with a character that is no digit.
pub proof fn law_what_is_no_number(s: Seq<char>, c: char, radix: int, max: int)
    requires
        digit_value(c, radix) is None,
        digits_value(s, radix, max) is Ok,
        s.len() > 0 ==> s[0] != '+',
        s.len() == 0 ==> c != '+',
    ensures
        uint_value(Seq::empty(), radix, max) == Err::<int, IntError>(IntError::Empty),
        uint_value(seq!['+'], radix, max) == Err::<int, IntError>(IntError::InvalidDigit),
        uint_value(s.push(c), radix, max) == Err::<int, IntError>(IntError::InvalidDigit),
{
    assert(s.push(c).drop_last() =~= s);
    assert(s.len() > 0 ==> s.push(c)[0] == s[0]);
}

/// A number that was read is not negative and not above the limit.
pub proof fn lemma_uint_bound(s: Seq<char>, radix: int, max: int)
    requires
        2 <= radix <= 16,
        max >= 0,
    ensures
        uint_value(s, radix, max) matches Ok(v) ==> 0 <= v <= max,
{
    lemma_digits_range(s, radix, max);
    if s.len() > 0 {
        lemma_digits_range(s.subrange(1, s.len() as int), radix, max);
    }
}

proof fn lemma_digits_range(s: Seq<char>, radix: int, max: int)
    requires
        2 <= radix <= 16,
        max >= 0,
    ensures
        digits_value(s, radix, max) matches Ok(v) ==> 0 <= v <= max,
    decreases s.len(),
{
    if s.len() > 0 {
        lemma_digits_range(s.drop_last(), radix, max);
        match (digits_value(s.drop_last(), radix, max), digit_value(s.last(), radix)) {
            (Ok(v), Some(d)) => {
                law_digits_of_a_base(s.last(), radix);
                assert(v * radix >= 0) by (nonlinear_arith)
                    requires
                        v >= 0,
                        radix >= 2,
                ;
            },
            _ => {},
        }
    }
}

/// A text without white space at its ends stays as it is.
pub proof fn lemma_trim_keeps(s: Seq<char>)
    requires
        s.len() > 0,
        !is_space(s[0]),
        !is_space(s.last()),
    ensures
        trimmed(s) == s,
{
    assert(s.subrange(0, s.len() as int) =~= s);
}

/// A prefix is what a text begins with, and is taken off its front.
pub proof fn law_prefix_is_taken_off(p: Seq<char>, rest: Seq<char>, s: Seq<char>)
    ensures
        has_prefix(p + rest, p),
        without_prefix(p + rest, p) == Some(rest),
        without_prefix(s, p) matches Some(r) ==> s == p + r,
        without_prefix(s, p) is None <==> !has_prefix(s, p),
{
    let t = p + rest;
    assert(t.subrange(0, p.len() as int) =~= p);
    assert(t.subrange(p.len() as int, t.len() as int) =~= rest);
    if has_prefix(s, p) {
        assert(s =~= p + s.subrange(p.len() as int, s.len() as int));
    }
}

/// A text occurs in another if and only if that is it with something before and behind.
pub proof fn law_occurring_is_standing_between(
    s: Seq<char>,
    p: Seq<char>,
    a: Seq<char>,
    b: Seq<char>,
)
    ensures
        occurs_in(a + p + b, p),
        occurs_in(s, p) ==> exists|i: int|
            0 <= i <= s.len() - p.len() && s == #[trigger] s.subrange(0, i) + p + s.subrange(
                i + p.len(),
                s.len() as int,
            ),
{
    lemma_occurs(a + p + b, a, p, b);
    if occurs_in(s, p) {
        let i = choose|i: int| stands_at(s, p, i);
        assert(s.subrange(i, i + p.len()) == p);
        assert forall|k: int| 0 <= k < p.len() implies s[i + k] == #[trigger] p[k] by {
            assert(s.subrange(i, i + p.len())[k] == s[i + k]);
        }
        let x = s.subrange(0, i);
        let y = s.subrange(i + p.len(), s.len() as int);
        assert(s =~= x + p + y) by {
            assert forall|k: int| 0 <= k < s.len() implies s[k] == (x + p + y)[k] by {
                if i <= k < i + p.len() {
                    assert(s[i + (k - i)] == p[k - i]);
                }
            }
        }
    }
}

/// Lower case keeps the length of an ASCII text and changes its capitals alone; no capital
/// is left. Spaces turn into underscores, and no space is left.
pub proof fn law_lower_case_and_underscores(s: Seq<char>, i: int)
    requires
        0 <= i < s.len(),
    ensures
        ascii_lowered(s).len() == s.len(),
        'A' <= s[i] <= 'Z' ==> ascii_lowered(s)[i] as int == s[i] as int + 32,
        !('A' <= s[i] <= 'Z') ==> ascii_lowered(s)[i] == s[i],
        underscored(s).len() == s.len(),
        s[i] == ' ' ==> underscored(s)[i] == '_',
        s[i] != ' ' ==> underscored(s)[i] == s[i],
{
}

/// A text occurs in itself.
pub proof fn lemma_occurs_in_itself(s: Seq<char>)
    ensures
        occurs_in(s, s),
{
    assert(s.subrange(0, s.len() as int) =~= s);
    assert(stands_at(s, s, 0));
}

}
