//! Character-level text utilities: the whitespace predicate, trimming,
//! splitting into lines, and the joins used to rebuild document bodies.
use vstd::prelude::*;

verus! {

/// Unicode `White_Space` characters: the whitespace notion used for trimming,
/// slug derivation and delimiter recognition.
pub open spec fn is_space(c: char) -> bool {
    ||| c == ' '
    ||| c == '\t'
    ||| c == '\n'
    ||| c == '\r'
    ||| c == '\u{b}'
    ||| c == '\u{c}'
    ||| c == '\u{85}'
    ||| c == '\u{a0}'
    ||| c == '\u{1680}'
    ||| ('\u{2000}' as u32 <= c as u32 && c as u32 <= '\u{200a}' as u32)
    ||| c == '\u{2028}'
    ||| c == '\u{2029}'
    ||| c == '\u{202f}'
    ||| c == '\u{205f}'
    ||| c == '\u{3000}'
}

/// Executable form of the whitespace predicate.
pub fn space_char(c: char) -> (r: bool)
    ensures
        r == is_space(c),
{
    c == ' ' || c == '\t' || c == '\n' || c == '\r' || c == '\u{b}' || c == '\u{c}'
        || c == '\u{85}' || c == '\u{a0}' || c == '\u{1680}'
        || ('\u{2000}' as u32 <= c as u32 && c as u32 <= '\u{200a}' as u32) || c == '\u{2028}'
        || c == '\u{2029}' || c == '\u{202f}' || c == '\u{205f}' || c == '\u{3000}'
}

/// Index of the first character at or after `i` that is not whitespace
/// (`s.len()` if every remaining character is whitespace).
pub open spec fn skip_spaces_from(s: Seq<char>, i: int) -> int
    decreases s.len() - i,
{
    if 0 <= i < s.len() && is_space(s[i]) {
        skip_spaces_from(s, i + 1)
    } else {
        i
    }
}

pub proof fn lemma_skip_spaces_bounds(s: Seq<char>, i: int)
    requires
        0 <= i <= s.len(),
    ensures
        i <= skip_spaces_from(s, i) <= s.len(),
        forall|k: int| i <= k < skip_spaces_from(s, i) ==> is_space(s[k]),
        skip_spaces_from(s, i) < s.len() ==> !is_space(s[skip_spaces_from(s, i)]),
    decreases s.len() - i,
{
    if 0 <= i < s.len() && is_space(s[i]) {
        lemma_skip_spaces_bounds(s, i + 1);
    }
}

/// Index that ends the non-whitespace part when scanning down from `j`:
/// trailing whitespace strictly before `j` is dropped.
pub open spec fn end_non_space(s: Seq<char>, j: int) -> int
    decreases j,
{
    if 0 < j <= s.len() && is_space(s[j - 1]) {
        end_non_space(s, j - 1)
    } else {
        j
    }
}

/// `s` with leading and trailing whitespace removed.
pub open spec fn spec_trim(s: Seq<char>) -> Seq<char> {
    let a = skip_spaces_from(s, 0);
    if a == s.len() {
        Seq::empty()
    } else {
        s.subrange(a, end_non_space(s, s.len() as int))
    }
}

pub proof fn lemma_end_non_space_above(s: Seq<char>, j: int, a: int)
    requires
        0 <= a < j <= s.len(),
        !is_space(s[a]),
    ensures
        a < end_non_space(s, j) <= j,
    decreases j,
{
    if 0 < j <= s.len() && is_space(s[j - 1]) {
        if a < j - 1 {
            lemma_end_non_space_above(s, j - 1, a);
        }
    }
}

/// Trimming removes characters only at the two ends, and what remains has a
/// non-whitespace first and last character (unless it is empty).
pub proof fn lemma_trim_shape(s: Seq<char>)
    ensures
        spec_trim(s).len() <= s.len(),
        spec_trim(s).len() > 0 ==> !is_space(spec_trim(s)[0]),
        spec_trim(s).len() > 0 ==> !is_space(spec_trim(s)[spec_trim(s).len() - 1]),
{
    lemma_skip_spaces_bounds(s, 0);
    let a = skip_spaces_from(s, 0);
    if a < s.len() {
        lemma_end_non_space_above(s, s.len() as int, a);
        let b = end_non_space(s, s.len() as int);
        assert(!is_space(s.subrange(a, b)[b - a - 1])) by {
            lemma_end_non_space_range(s, s.len() as int);
        }
    }
}

pub proof fn lemma_end_non_space_range(s: Seq<char>, j: int)
    requires
        0 <= j <= s.len(),
    ensures
        0 <= end_non_space(s, j) <= j,
        end_non_space(s, j) > 0 ==> !is_space(s[end_non_space(s, j) - 1]),
    decreases j,
{
    if 0 < j <= s.len() && is_space(s[j - 1]) {
        lemma_end_non_space_range(s, j - 1);
    }
}

/// Remove leading and trailing whitespace.
pub fn trim_chars(v: &Vec<char>) -> (r: Vec<char>)
    ensures
        r@ == spec_trim(v@),
{
    let n = v.len();
    let mut a: usize = 0;
    while a < n && space_char(v[a])
        invariant
            0 <= a <= n,
            n == v@.len(),
            skip_spaces_from(v@, 0) == skip_spaces_from(v@, a as int),
        decreases n - a,
    {
        a += 1;
    }
    assert(skip_spaces_from(v@, a as int) == a as int);
    if a == n {
        let r: Vec<char> = Vec::new();
        assert(r@ =~= spec_trim(v@));
        return r;
    }
    proof {
        lemma_skip_spaces_bounds(v@, 0);
    }
    let mut b: usize = n;
    while b > a + 1 && space_char(v[b - 1])
        invariant
            a < b <= n,
            n == v@.len(),
            !is_space(v@[a as int]),
            end_non_space(v@, n as int) == end_non_space(v@, b as int),
        decreases b,
    {
        b -= 1;
    }
    assert(end_non_space(v@, b as int) == b as int) by {
        if b > a + 1 {
        } else {
            assert(b == a + 1);
        }
    }
    let mut r: Vec<char> = Vec::new();
    let mut i: usize = a;
    while i < b
        invariant
            a <= i <= b <= n,
            n == v@.len(),
            r@ == v@.subrange(a as int, i as int),
        decreases b - i,
    {
        r.push(v[i]);
        assert(r@ =~= v@.subrange(a as int, i + 1 as int));
        i += 1;
    }
    assert(r@ =~= spec_trim(v@));
    r
}

/// Advance past whitespace.
pub fn scan_ws(s: &Vec<char>, i: usize) -> (j: usize)
    ensures
        j as int == skip_spaces_from(s@, i as int),
        i <= j,
        i <= s@.len() ==> j <= s@.len(),
    decreases s@.len() - i,
{
    let n = s.len();
    let mut j = i;
    while j < n && space_char(s[j])
        invariant
            i <= j,
            i <= n ==> j <= n,
            n == s@.len(),
            skip_spaces_from(s@, i as int) == skip_spaces_from(s@, j as int),
        decreases n - j,
    {
        j += 1;
    }
    j
}

/// Copy the characters with index in `[a, b)`.
pub fn copy_range(s: &Vec<char>, a: usize, b: usize) -> (r: Vec<char>)
    requires
        a <= b <= s@.len(),
    ensures
        r@ == s@.subrange(a as int, b as int),
{
    let mut r: Vec<char> = Vec::new();
    let mut k = a;
    while k < b
        invariant
            a <= k <= b <= s@.len(),
            r@ == s@.subrange(a as int, k as int),
        decreases b - k,
    {
        r.push(s[k]);
        assert(r@ =~= s@.subrange(a as int, k + 1 as int));
        k += 1;
    }
    r
}

/// A line with a final carriage return dropped, as line splitting does.
/// The drop applies to every produced line, the last one included: a text
/// that ends in a bare carriage return with no separator after it loses it.
pub open spec fn strip_cr(l: Seq<char>) -> Seq<char> {
    if l.len() > 0 && l[l.len() - 1] == '\r' {
        l.drop_last()
    } else {
        l
    }
}

/// The lines of `s` from position `i` on, the current line having started at
/// `start`: lines are separated by `'\n'`, a carriage return at the end of
/// any line is dropped (before a separator, or at the very end of the text),
/// and a final separator opens no further line.
pub open spec fn lines_from(s: Seq<char>, start: int, i: int) -> Seq<Seq<char>>
    decreases s.len() - i,
{
    if !(0 <= start <= i <= s.len()) {
        Seq::empty()
    } else if i == s.len() {
        if start < s.len() {
            seq![strip_cr(s.subrange(start, s.len() as int))]
        } else {
            Seq::empty()
        }
    } else if s[i] == '\n' {
        seq![strip_cr(s.subrange(start, i))] + lines_from(s, i + 1, i + 1)
    } else {
        lines_from(s, start, i + 1)
    }
}

/// The lines of `s`.
pub open spec fn spec_lines(s: Seq<char>) -> Seq<Seq<char>> {
    lines_from(s, 0, 0)
}

/// Split into lines at `'\n'`, dropping a carriage return directly before the
/// separator.
pub fn split_lines(v: &Vec<char>) -> (r: Vec<Vec<char>>)
    ensures
        r.deep_view() == spec_lines(v@),
{
    let n = v.len();
    let mut r: Vec<Vec<char>> = Vec::new();
    let mut start: usize = 0;
    let mut i: usize = 0;
    while i < n
        invariant
            0 <= start <= i <= n,
            n == v@.len(),
            r.deep_view() + lines_from(v@, start as int, i as int) == spec_lines(v@),
        decreases n - i,
    {
        if v[i] == '\n' {
            let mut line: Vec<char> = Vec::new();
            let mut k: usize = start;
            while k < i
                invariant
                    start <= k <= i <= n,
                    n == v@.len(),
                    line@ == v@.subrange(start as int, k as int),
                decreases i - k,
            {
                line.push(v[k]);
                assert(line@ =~= v@.subrange(start as int, k + 1 as int));
                k += 1;
            }
            if line.len() > 0 && line[line.len() - 1] == '\r' {
                line.pop();
            }
            assert(line@ == strip_cr(v@.subrange(start as int, i as int)));
            let ghost old_deep = r.deep_view();
            r.push(line);
            assert(r.deep_view() =~~= old_deep + seq![line@]);
            assert(old_deep + (seq![line@] + lines_from(v@, i + 1, i + 1)) =~= (old_deep + seq![
                line@,
            ]) + lines_from(v@, i + 1, i + 1));
            start = i + 1;
            i += 1;
        } else {
            i += 1;
        }
    }
    if start < n {
        let mut line: Vec<char> = Vec::new();
        let mut k: usize = start;
        while k < n
            invariant
                start <= k <= n,
                n == v@.len(),
                line@ == v@.subrange(start as int, k as int),
            decreases n - k,
        {
            line.push(v[k]);
            assert(line@ =~= v@.subrange(start as int, k + 1 as int));
            k += 1;
        }
        if line.len() > 0 && line[line.len() - 1] == '\r' {
            line.pop();
        }
        assert(line@ == strip_cr(v@.subrange(start as int, n as int)));
        let ghost old_deep = r.deep_view();
        r.push(line);
        assert(r.deep_view() =~~= old_deep + seq![line@]);
    }
    assert(r.deep_view() =~= spec_lines(v@));
    r
}

/// The lines of `ls` from index `i` on, each preceded by a `'\n'` separator,
/// concatenated.
pub open spec fn cat_nl_from(ls: Seq<Seq<char>>, i: int) -> Seq<char>
    decreases ls.len() - i,
{
    if 0 <= i < ls.len() {
        seq!['\n'] + ls[i] + cat_nl_from(ls, i + 1)
    } else {
        Seq::empty()
    }
}

/// The lines of `ls` from index `i` on, concatenated with no separator.
pub open spec fn cat_from(ls: Seq<Seq<char>>, i: int) -> Seq<char>
    decreases ls.len() - i,
{
    if 0 <= i < ls.len() {
        ls[i] + cat_from(ls, i + 1)
    } else {
        Seq::empty()
    }
}

/// Append, onto `out`, every line of `lines` from index `from` on, each
/// preceded by a `'\n'` separator.
pub fn append_nl_lines(out: &mut Vec<char>, lines: &Vec<Vec<char>>, from: usize)
    requires
        from <= lines@.len(),
    ensures
        final(out)@ == old(out)@ + cat_nl_from(lines.deep_view(), from as int),
{
    let n = lines.len();
    let mut i: usize = from;
    while i < n
        invariant
            from <= i <= n,
            n == lines@.len(),
            old(out)@ + cat_nl_from(lines.deep_view(), from as int) == out@ + cat_nl_from(
                lines.deep_view(),
                i as int,
            ),
        decreases n - i,
    {
        let ghost pre = out@;
        out.push('\n');
        let line = &lines[i];
        let mut k: usize = 0;
        while k < line.len()
            invariant
                0 <= k <= line@.len(),
                out@ == pre + seq!['\n'] + line@.subrange(0, k as int),
            decreases line@.len() - k,
        {
            out.push(line[k]);
            assert(out@ =~= pre + seq!['\n'] + line@.subrange(0, k + 1 as int));
            k += 1;
        }
        assert(line@.subrange(0, line@.len() as int) =~= line@);
        assert(line@ =~= lines.deep_view()[i as int]);
        assert(pre + cat_nl_from(lines.deep_view(), i as int) =~= (pre + seq!['\n'] + line@)
            + cat_nl_from(lines.deep_view(), i + 1));
        i += 1;
    }
}

/// Append, onto `out`, every line of `lines` with index in `[from, to)`,
/// concatenated with no separator.
pub fn append_cat_lines(out: &mut Vec<char>, lines: &Vec<Vec<char>>, from: usize, to: usize)
    requires
        from <= to <= lines@.len(),
    ensures
        final(out)@ == old(out)@ + cat_from(lines.deep_view().subrange(from as int, to as int), 0),
{
    let mut i: usize = from;
    let ghost part = lines.deep_view().subrange(from as int, to as int);
    while i < to
        invariant
            from <= i <= to <= lines@.len(),
            part == lines.deep_view().subrange(from as int, to as int),
            old(out)@ + cat_from(part, 0) == out@ + cat_from(part, i - from as int),
        decreases to - i,
    {
        let ghost pre = out@;
        let line = &lines[i];
        let mut k: usize = 0;
        while k < line.len()
            invariant
                0 <= k <= line@.len(),
                out@ == pre + line@.subrange(0, k as int),
            decreases line@.len() - k,
        {
            out.push(line[k]);
            assert(out@ =~= pre + line@.subrange(0, k + 1 as int));
            k += 1;
        }
        assert(line@.subrange(0, line@.len() as int) =~= line@);
        assert(line@ =~= part[i - from as int]);
        assert(pre + cat_from(part, i - from as int) =~= (pre + line@) + cat_from(
            part,
            i - from + 1 as int,
        ));
        i += 1;
    }
    assert(cat_from(part, to - from as int) =~= Seq::<char>::empty());
    assert(out@ =~= old(out)@ + cat_from(part, 0));
}

/// The characters of `s`, as a vector.
pub fn chars_of(s: &str) -> (r: Vec<char>)
    ensures
        r@ == s@,
{
    let n = s.unicode_len();
    let mut r: Vec<char> = Vec::new();
    let mut i: usize = 0;
    while i < n
        invariant
            0 <= i <= n,
            n == s@.len(),
            r@ == s@.subrange(0, i as int),
        decreases n - i,
    {
        r.push(s.get_char(i));
        assert(r@ =~= s@.subrange(0, i + 1 as int));
        i += 1;
    }
    assert(r@ =~= s@);
    r
}

/// Relies on `String`'s `FromIterator<char>` implementation: collecting an
/// iterator of characters builds the string holding exactly those characters
/// in order.
#[verifier::external_body]
pub fn string_from_chars(v: &Vec<char>) -> (r: String)
    ensures
        r@ == v@,
{
    v.iter().collect()
}

} // verus!
