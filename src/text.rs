//! Character-level text operations on the bridge tool's output, each stated
//! over `Seq<char>` and proved.
use vstd::prelude::*;

verus! {

/// `p` occurs in `t` as a contiguous run of characters.
pub open spec fn has_substring(t: Seq<char>, p: Seq<char>) -> bool {
    exists|i: int| 0 <= i <= t.len() - p.len() && #[trigger] t.subrange(i, i + p.len()) == p
}

/// What `str::to_lowercase` gives for a string, as the Unicode tables decide
/// it (a capital sigma, for one, lowercases by its place in a word).
pub uninterp spec fn lower_of(s: Seq<char>) -> Seq<char>;

/// Relies on `str::to_lowercase`: the result depends on the characters of
/// `s` alone, and an empty string stays empty.
#[verifier::external_body]
pub(crate) fn lowercase(s: &str) -> (r: String)
    ensures
        r@ == lower_of(s@),
        s@.len() == 0 ==> r@.len() == 0,
{
    s.to_lowercase()
}

/// Relies on `String::push`: appends one character at the end.
#[verifier::external_body]
fn push_char(s: &mut String, c: char)
    ensures
        final(s)@ == old(s)@.push(c),
{
    s.push(c)
}

/// The string made of the characters `v[from..to]`.
pub fn string_of(v: &Vec<char>, from: usize, to: usize) -> (r: String)
    requires
        from <= to <= v@.len(),
    ensures
        r@ == v@.subrange(from as int, to as int),
{
    let mut r = String::new();
    let mut i: usize = from;
    while i < to
        invariant
            from <= i <= to <= v@.len(),
            r@ == v@.subrange(from as int, i as int),
        decreases to - i,
    {
        push_char(&mut r, v[i]);
        assert(r@ =~= v@.subrange(from as int, i + 1));
        i = i + 1;
    }
    r
}

/// The characters of a string, in order.
pub fn chars_of(s: &str) -> (r: Vec<char>)
    ensures
        r@ == s@,
{
    let mut r: Vec<char> = Vec::new();
    for c in it: s.chars()
        invariant
            r@ == it.seq().take(it.index() as int),
            it.seq() == s@,
    {
        r.push(c);
    }
    r
}

/// Whether `p` matches `t` at position `i`.
fn matches_at(t: &Vec<char>, p: &Vec<char>, i: usize) -> (r: bool)
    requires
        i + p@.len() <= t@.len(),
    ensures
        r == (t@.subrange(i as int, i + p@.len()) == p@),
{
    let mut k: usize = 0;
    while k < p.len()
        invariant
            k <= p@.len(),
            i + p@.len() <= t@.len(),
            t@.subrange(i as int, i + k) == p@.take(k as int),
        decreases p@.len() - k,
    {
        let n: usize = t.len();
        assert(i + k < n);
        if t[i + k] != p[k] {
            assert(t@.subrange(i as int, i + p@.len())[k as int] != p@[k as int]);
            return false;
        }
        assert(t@.subrange(i as int, i + k + 1) =~= p@.take(k + 1));
        k = k + 1;
    }
    assert(p@.take(k as int) =~= p@);
    true
}

/// Whether `p` occurs in `t`.
pub fn contains_chars(t: &Vec<char>, p: &Vec<char>) -> (r: bool)
    ensures
        r == has_substring(t@, p@),
{
    if p.len() > t.len() {
        return false;
    }
    let last: usize = t.len() - p.len();
    let mut i: usize = 0;
    loop
        invariant
            last == t@.len() - p@.len(),
            i <= last,
            forall|j: int| 0 <= j < i ==> #[trigger] t@.subrange(j, j + p@.len()) != p@,
        decreases last - i,
    {
        if matches_at(t, p, i) {
            return true;
        }
        if i == last {
            return false;
        }
        i = i + 1;
    }
}

/// The pieces of `s` between newline characters, one more than there are
/// newlines.
pub open spec fn split_newlines(s: Seq<char>) -> Seq<Seq<char>>
    decreases s.len(),
{
    if s.len() == 0 {
        seq![Seq::empty()]
    } else {
        let p = split_newlines(s.drop_last());
        if s.last() == '\n' {
            p.push(Seq::empty())
        } else {
            p.update(p.len() - 1, p.last().push(s.last()))
        }
    }
}

/// A line without the carriage return of a `\r\n` ending.
pub open spec fn strip_cr(l: Seq<char>) -> Seq<char> {
    if l.len() > 0 && l.last() == '\r' {
        l.drop_last()
    } else {
        l
    }
}

/// The lines of `s`, as `str::lines` yields them: split at `\n` or `\r\n`,
/// the final line ending being optional.
pub open spec fn lines_of(s: Seq<char>) -> Seq<Seq<char>> {
    let p = split_newlines(s);
    let ended = p.drop_last().map_values(|l: Seq<char>| strip_cr(l));
    if p.last().len() == 0 {
        ended
    } else {
        ended.push(p.last())
    }
}

/// The lines of `t`.
pub fn split_lines(t: &Vec<char>) -> (r: Vec<Vec<char>>)
    ensures
        r@.map_values(|v: Vec<char>| v@) == lines_of(t@),
{
    let mut done: Vec<Vec<char>> = Vec::new();
    let mut cur: Vec<char> = Vec::new();
    let mut i: usize = 0;
    assert(t@.take(0) =~= Seq::<char>::empty());
    while i < t.len()
        invariant
            i <= t@.len(),
            split_newlines(t@.take(i as int)).len() >= 1,
            done@.map_values(|v: Vec<char>| v@) == split_newlines(
                t@.take(i as int),
            ).drop_last().map_values(|l: Seq<char>| strip_cr(l)),
            cur@ == split_newlines(t@.take(i as int)).last(),
        decreases t@.len() - i,
    {
        let ghost before = split_newlines(t@.take(i as int));
        assert(t@.take(i + 1).drop_last() =~= t@.take(i as int));
        assert(t@.take(i + 1).last() == t@[i as int]);
        let c = t[i];
        if c == '\n' {
            let mut line = cur;
            let n: usize = line.len();
            if n > 0 && line[n - 1] == '\r' {
                line.pop();
            }
            assert(line@ == strip_cr(before.last()));
            let ghost old_done = done@;
            done.push(line);
            assert(done@.map_values(|v: Vec<char>| v@) =~= old_done.map_values(
                |v: Vec<char>| v@,
            ).push(strip_cr(before.last())));
            assert(before.map_values(|l: Seq<char>| strip_cr(l)) =~= before.drop_last().map_values(
                |l: Seq<char>| strip_cr(l),
            ).push(strip_cr(before.last())));
            cur = Vec::new();
            assert(split_newlines(t@.take(i + 1)) == before.push(Seq::empty()));
            assert(split_newlines(t@.take(i + 1)).drop_last() =~= before);
            assert(done@.map_values(|v: Vec<char>| v@) =~= before.map_values(
                |l: Seq<char>| strip_cr(l),
            ));
        } else {
            cur.push(c);
            let ghost after = before.update(before.len() - 1, before.last().push(c));
            assert(split_newlines(t@.take(i + 1)) == after);
            assert(after.drop_last() =~= before.drop_last());
        }
        i = i + 1;
    }
    assert(t@.take(i as int) =~= t@);
    if cur.len() > 0 {
        done.push(cur);
        let ghost p = split_newlines(t@);
        assert(done@.map_values(|v: Vec<char>| v@) =~= p.drop_last().map_values(
            |l: Seq<char>| strip_cr(l),
        ).push(p.last()));
    }
    done
}

/// `l` begins with `p`.
pub open spec fn starts_with(l: Seq<char>, p: Seq<char>) -> bool {
    p.len() <= l.len() && l.take(p.len() as int) == p
}

/// `l` without the prefix `p` where it starts with `p`, else `l` itself, as
/// `str::strip_prefix(p).unwrap_or(l)` gives it.
pub open spec fn strip_prefix(l: Seq<char>, p: Seq<char>) -> Seq<char> {
    if starts_with(l, p) {
        l.skip(p.len() as int)
    } else {
        l
    }
}

/// `l` without the prefix `p` where it starts with `p`.
pub fn strip_prefix_chars(l: &Vec<char>, p: &Vec<char>) -> (r: String)
    ensures
        r@ == strip_prefix(l@, p@),
{
    if p.len() <= l.len() && matches_at(l, p, 0) {
        assert(l@.subrange(0, p@.len() as int) =~= l@.take(p@.len() as int));
        assert(l@.subrange(p@.len() as int, l@.len() as int) =~= l@.skip(p@.len() as int));
        string_of(l, p.len(), l.len())
    } else {
        if p.len() <= l.len() {
            assert(l@.subrange(0, p@.len() as int) =~= l@.take(p@.len() as int));
        }
        assert(l@.subrange(0, l@.len() as int) =~= l@);
        string_of(l, 0, l.len())
    }
}

/// Unicode's `White_Space` characters, which `char::is_whitespace` accepts.
pub open spec fn is_white_space(c: char) -> bool {
    ('\t' <= c && c <= '\r') || c == ' ' || c == '\u{85}' || c == '\u{a0}' || c == '\u{1680}'
        || ('\u{2000}' <= c && c <= '\u{200a}') || c == '\u{2028}' || c == '\u{2029}'
        || c == '\u{202f}' || c == '\u{205f}' || c == '\u{3000}'
}

/// Whether `c` is white space.
pub fn is_white_space_char(c: char) -> (r: bool)
    ensures
        r == is_white_space(c),
{
    ('\t' <= c && c <= '\r') || c == ' ' || c == '\u{85}' || c == '\u{a0}' || c == '\u{1680}'
        || ('\u{2000}' <= c && c <= '\u{200a}') || c == '\u{2028}' || c == '\u{2029}'
        || c == '\u{202f}' || c == '\u{205f}' || c == '\u{3000}'
}

/// `s` without its leading white space.
pub open spec fn trim_start(s: Seq<char>) -> Seq<char>
    decreases s.len(),
{
    if s.len() > 0 && is_white_space(s[0]) {
        trim_start(s.drop_first())
    } else {
        s
    }
}

/// `s` without its trailing white space.
pub open spec fn trim_end(s: Seq<char>) -> Seq<char>
    decreases s.len(),
{
    if s.len() > 0 && is_white_space(s.last()) {
        trim_end(s.drop_last())
    } else {
        s
    }
}

/// `s` without white space at either end, as `str::trim` gives it.
pub open spec fn trim(s: Seq<char>) -> Seq<char> {
    trim_end(trim_start(s))
}

/// The characters of `s` up to its first white space.
pub open spec fn leading_word(s: Seq<char>) -> Seq<char>
    decreases s.len(),
{
    if s.len() == 0 || is_white_space(s[0]) {
        Seq::empty()
    } else {
        seq![s[0]] + leading_word(s.drop_first())
    }
}

/// The first white-space separated word of `s`, empty where there is none.
pub open spec fn first_word(s: Seq<char>) -> Seq<char> {
    leading_word(trim_start(s))
}

/// The index of the first character of `s` that is not white space.
fn skip_white_space(s: &Vec<char>) -> (i: usize)
    ensures
        i <= s@.len(),
        trim_start(s@) == s@.skip(i as int),
{
    let mut i: usize = 0;
    assert(s@.skip(0) =~= s@);
    while i < s.len() && is_white_space_char(s[i])
        invariant
            i <= s@.len(),
            trim_start(s@) == trim_start(s@.skip(i as int)),
        decreases s@.len() - i,
    {
        assert(s@.skip(i as int)[0] == s@[i as int]);
        assert(s@.skip(i as int).drop_first() =~= s@.skip(i + 1));
        i = i + 1;
    }
    if i < s.len() {
        assert(s@.skip(i as int)[0] == s@[i as int]);
    }
    i
}

/// `s` without white space at either end.
pub fn trim_chars(s: &Vec<char>) -> (r: String)
    ensures
        r@ == trim(s@),
{
    let start: usize = skip_white_space(s);
    let mut end: usize = s.len();
    assert(s@.subrange(start as int, end as int) =~= s@.skip(start as int));
    while end > start && is_white_space_char(s[end - 1])
        invariant
            start <= end <= s@.len(),
            trim(s@) == trim_end(s@.subrange(start as int, end as int)),
        decreases end,
    {
        assert(s@.subrange(start as int, end as int).drop_last() =~= s@.subrange(
            start as int,
            end - 1,
        ));
        end = end - 1;
    }
    string_of(s, start, end)
}

/// The first white-space separated word of `s`.
pub fn first_word_chars(s: &Vec<char>) -> (r: String)
    ensures
        r@ == first_word(s@),
{
    let start: usize = skip_white_space(s);
    let mut end: usize = start;
    assert(s@.subrange(start as int, start as int) + s@.skip(start as int) =~= s@.skip(
        start as int,
    ));
    while end < s.len() && !is_white_space_char(s[end])
        invariant
            start <= end <= s@.len(),
            first_word(s@) == s@.subrange(start as int, end as int) + leading_word(
                s@.skip(end as int),
            ),
        decreases s@.len() - end,
    {
        let ghost rest = s@.skip(end as int);
        assert(rest[0] == s@[end as int]);
        assert(rest.drop_first() =~= s@.skip(end + 1));
        assert(s@.subrange(start as int, end as int) + (seq![s@[end as int]] + leading_word(
            s@.skip(end + 1),
        )) =~= s@.subrange(start as int, end + 1) + leading_word(s@.skip(end + 1)));
        end = end + 1;
    }
    if end < s.len() {
        assert(s@.skip(end as int)[0] == s@[end as int]);
    }
    assert(s@.subrange(start as int, end as int) + Seq::<char>::empty() =~= s@.subrange(
        start as int,
        end as int,
    ));
    string_of(s, start, end)
}

} // verus!
