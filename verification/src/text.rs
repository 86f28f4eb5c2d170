use vstd::prelude::*;
use vstd::string::*;

verus! {

/// What `str::to_lowercase` gives for a string, named by the string's characters.
pub uninterp spec fn unicode_lowercase(s: Seq<char>) -> Seq<char>;

/// What `str::trim` gives for a string, named by the string's characters.
pub uninterp spec fn unicode_trim(s: Seq<char>) -> Seq<char>;

/// What `String::from_utf8_lossy` gives for a byte string.
pub uninterp spec fn lossy_utf8(b: Seq<u8>) -> Seq<char>;

/// Calls `str::to_lowercase`. Claimed: the result depends on the characters of `s`
/// alone. Unicode's lowercase mapping itself is not written out here.
#[verifier::external_body]
pub(crate) fn to_lowercase(s: &str) -> (r: String)
    ensures
        r@ == unicode_lowercase(s@),
{
    s.to_lowercase()
}

/// Calls `str::trim`. Claimed: the result depends on the characters of `s` alone.
/// Which characters count as Unicode white space is not written out here.
#[verifier::external_body]
pub(crate) fn trim(s: &str) -> (r: &str)
    ensures
        r@ == unicode_trim(s@),
{
    s.trim()
}

/// Calls `String::from_utf8_lossy`. Claimed: the result depends on the bytes alone, and
/// valid UTF-8 is decoded as such (the function's documentation says so). How invalid
/// sequences are replaced is not written out here.
#[verifier::external_body]
pub(crate) fn from_utf8_lossy(b: &[u8]) -> (r: String)
    ensures
        r@ == lossy_utf8(b@),
        vstd::utf8::valid_utf8(b@) ==> r@ == vstd::utf8::decode_utf8(b@),
{
    String::from_utf8_lossy(b).into_owned()
}

/// Calls `String::push`. Claimed: the character is appended at the end.
#[verifier::external_body]
pub(crate) fn push_char(s: &mut String, c: char)
    ensures
        final(s)@ == old(s)@.push(c),
{
    s.push(c)
}

/// The characters of `s`, in order.
pub fn chars_of(s: &str) -> (v: Vec<char>)
    ensures
        v@ == s@,
{
    let mut v: Vec<char> = Vec::new();
    for c in it: s.chars()
        invariant
            v@ == it.seq().take(it.index() as int),
    {
        v.push(c);
    }
    v
}

/// The string made of the characters `v@[from..to]`.
pub fn string_from_range(v: &Vec<char>, from: usize, to: usize) -> (s: String)
    requires
        from <= to <= v@.len(),
    ensures
        s@ == v@.subrange(from as int, to as int),
{
    let mut s = String::new();
    let mut i = from;
    while i < to
        invariant
            from <= i <= to <= v@.len(),
            s@ == v@.subrange(from as int, i as int),
        decreases to - i,
    {
        push_char(&mut s, v[i]);
        i = i + 1;
        assert(s@ =~= v@.subrange(from as int, i as int));
    }
    s
}

/// The string made of the characters of `v`.
pub fn string_from_chars(v: &Vec<char>) -> (s: String)
    ensures
        s@ == v@,
{
    let s = string_from_range(v, 0, v.len());
    assert(v@.subrange(0, v@.len() as int) =~= v@);
    s
}

/// Whether two strings hold the same characters.
pub fn text_eq(a: &str, b: &str) -> (r: bool)
    ensures
        r == (a@ == b@),
{
    let x = chars_of(a);
    let y = chars_of(b);
    if x.len() != y.len() {
        return false;
    }
    let mut i: usize = 0;
    while i < x.len()
        invariant
            x@ == a@,
            y@ == b@,
            x@.len() == y@.len(),
            i <= x@.len(),
            forall|j: int| 0 <= j < i ==> x@[j] == y@[j],
        decreases x@.len() - i,
    {
        if x[i] != y[i] {
            return false;
        }
        i = i + 1;
    }
    assert(x@ =~= y@);
    true
}

/// `a` followed by `b`.
pub fn concat(a: &str, b: &str) -> (r: String)
    ensures
        r@ == a@ + b@,
{
    let mut r = a.to_owned();
    r.append(b);
    r
}

/// `s` with every `from` replaced by `to`.
pub open spec fn replace_char(s: Seq<char>, from: char, to: char) -> Seq<char> {
    s.map_values(|c: char| if c == from { to } else { c })
}

/// `s` with every `from` replaced by `to`.
pub fn replace_char_in(s: &str, from: char, to: char) -> (r: String)
    ensures
        r@ == replace_char(s@, from, to),
{
    let v = chars_of(s);
    let mut r = String::new();
    let mut i: usize = 0;
    while i < v.len()
        invariant
            v@ == s@,
            i <= v@.len(),
            r@ == replace_char(v@.take(i as int), from, to),
        decreases v@.len() - i,
    {
        let c = v[i];
        if c == from {
            push_char(&mut r, to);
        } else {
            push_char(&mut r, c);
        }
        i = i + 1;
        assert(r@ =~= replace_char(v@.take(i as int), from, to));
    }
    assert(v@.take(v@.len() as int) =~= v@);
    r
}

/// The first `n` characters of `s` (all of them where it has fewer).
pub open spec fn first_chars(s: Seq<char>, n: nat) -> Seq<char> {
    if s.len() <= n {
        s
    } else {
        s.take(n as int)
    }
}

/// `s` without the run of `c` at its end.
pub open spec fn strip_trailing(s: Seq<char>, c: char) -> Seq<char>
    decreases s.len(),
{
    if s.len() > 0 && s.last() == c {
        strip_trailing(s.drop_last(), c)
    } else {
        s
    }
}

/// The number of characters that stay when the run of `c` at the end of `s` goes.
pub fn kept_before_trailing(s: &Vec<char>, len: usize, c: char) -> (k: usize)
    requires
        len <= s@.len(),
    ensures
        k <= len,
        s@.take(k as int) == strip_trailing(s@.take(len as int), c),
{
    let mut k = len;
    while k > 0 && s[k - 1] == c
        invariant
            k <= len <= s@.len(),
            strip_trailing(s@.take(k as int), c) == strip_trailing(s@.take(len as int), c),
        decreases k,
    {
        assert(s@.take(k as int).drop_last() =~= s@.take(k - 1));
        k = k - 1;
    }
    k
}

/// The lines of `lines` joined by a newline, with no newline after the last.
pub open spec fn join_lines(lines: Seq<Seq<char>>) -> Seq<char>
    decreases lines.len(),
{
    if lines.len() == 0 {
        Seq::empty()
    } else if lines.len() == 1 {
        lines[0]
    } else {
        join_lines(lines.drop_last()) + seq!['\n'] + lines.last()
    }
}

/// Where line `i` of `lines` begins when the lines are written one after another, each
/// followed by one separator: the lengths of the lines before it, plus one each.
pub open spec fn line_offset(lines: Seq<Seq<char>>, i: int) -> int
    decreases i,
{
    if i <= 0 {
        0
    } else {
        line_offset(lines, i - 1) + lines[i - 1].len() + 1
    }
}

/// Where a line begins depends only on the lines before it.
proof fn lemma_line_offset_prefix(lines: Seq<Seq<char>>, other: Seq<Seq<char>>, i: int)
    requires
        0 <= i <= lines.len(),
        i <= other.len(),
        forall|j: int| 0 <= j < i ==> lines[j] == other[j],
    ensures
        line_offset(lines, i) == line_offset(other, i),
    decreases i,
{
    if i > 0 {
        lemma_line_offset_prefix(lines, other, i - 1);
    }
}

/// No line begins before the start.
proof fn lemma_line_offset_nonneg(lines: Seq<Seq<char>>, i: int)
    ensures
        line_offset(lines, i) >= 0,
    decreases i,
{
    if i > 0 {
        lemma_line_offset_nonneg(lines, i - 1);
    }
}

/// A line ends, with its newline, no later than where a later line begins.
proof fn lemma_line_offset_grows(lines: Seq<Seq<char>>, i: int, j: int)
    requires
        0 <= i < j <= lines.len(),
    ensures
        line_offset(lines, i) + lines[i].len() + 1 <= line_offset(lines, j),
    decreases j - i,
{
    if j > i + 1 {
        lemma_line_offset_grows(lines, i, j - 1);
    }
}

/// The length of lines joined by newlines: all lines plus a newline between each two.
proof fn lemma_join_lines_len(lines: Seq<Seq<char>>)
    ensures
        lines.len() == 0 ==> join_lines(lines).len() == 0,
        lines.len() > 0 ==> join_lines(lines).len() == line_offset(lines, lines.len() - 1)
            + lines.last().len(),
    decreases lines.len(),
{
    let n = lines.len() as int;
    if n > 1 {
        let init = lines.drop_last();
        lemma_join_lines_len(init);
        lemma_line_offset_prefix(lines, init, n - 2);
    }
}

/// Line `i` stands whole where the lines before it end, followed by a newline unless it
/// is the last.
proof fn lemma_join_lines_line(lines: Seq<Seq<char>>, i: int)
    requires
        0 <= i < lines.len(),
    ensures
        join_lines(lines).subrange(line_offset(lines, i), line_offset(lines, i) + lines[i].len())
            == lines[i],
        i < lines.len() - 1 ==> join_lines(lines)[line_offset(lines, i) + lines[i].len()] == '\n',
    decreases lines.len(),
{
    let s = join_lines(lines);
    let n = lines.len() as int;
    if n == 1 {
        assert(s.subrange(0, lines[0].len() as int) =~= lines[0]);
    } else {
        let init = lines.drop_last();
        let t = join_lines(init);
        assert(s == t + seq!['\n'] + lines.last());
        lemma_join_lines_len(init);
        lemma_line_offset_prefix(lines, init, i);
        lemma_line_offset_nonneg(init, i);
        if i < n - 1 {
            assert(init[i] == lines[i]);
            lemma_join_lines_line(init, i);
            lemma_line_offset_prefix(lines, init, n - 2);
            if i < n - 2 {
                lemma_line_offset_grows(init, i, n - 2);
                lemma_join_lines_line(init, i + 1);
            }
            assert(line_offset(init, i) + init[i].len() <= t.len());
            assert(s.subrange(line_offset(lines, i), line_offset(lines, i) + lines[i].len())
                =~= t.subrange(line_offset(init, i), line_offset(init, i) + init[i].len()));
        } else {
            lemma_line_offset_prefix(lines, init, n - 2);
            assert(s.subrange(line_offset(lines, i), line_offset(lines, i) + lines[i].len())
                =~= lines.last());
        }
    }
}

/// The text of lines joined by newlines holds every line, in order, whole, each where
/// the lines before it (and one newline each) end, each but the last followed by a
/// newline; and nothing else: its length is that of all lines plus one newline between
/// each two. So however many lines there are, none is left out.
pub proof fn lemma_join_lines_layout(lines: Seq<Seq<char>>)
    ensures
        lines.len() == 0 ==> join_lines(lines).len() == 0,
        lines.len() > 0 ==> join_lines(lines).len() == line_offset(lines, lines.len() - 1)
            + lines.last().len(),
        forall|i: int| 0 <= i < lines.len() ==> join_lines(lines).subrange(
            line_offset(lines, i),
            line_offset(lines, i) + lines[i].len(),
        ) == #[trigger] lines[i],
        forall|i: int| 0 <= i < lines.len() - 1 ==> join_lines(lines)[line_offset(lines, i)
            + #[trigger] lines[i].len()] == '\n',
{
    lemma_join_lines_len(lines);
    assert forall|i: int| 0 <= i < lines.len() implies join_lines(lines).subrange(
        line_offset(lines, i),
        line_offset(lines, i) + lines[i].len(),
    ) == #[trigger] lines[i] by {
        lemma_join_lines_line(lines, i);
    }
    assert forall|i: int| 0 <= i < lines.len() - 1 implies join_lines(lines)[line_offset(lines, i)
        + #[trigger] lines[i].len()] == '\n' by {
        lemma_join_lines_line(lines, i);
    }
}

} // verus!
