//! The document model: a normalized record parsed from a filename and raw
//! text. Parsing never fails; a malformed metadata block degrades to absent
//! metadata.
use vstd::prelude::*;

use crate::meta::{spec_parse_meta, FrontMatter, FrontMatterView};
use crate::text::{
    cat_from, cat_nl_from, end_non_space, is_space, skip_spaces_from, spec_lines, spec_trim,
    strip_cr,
};

verus! {

/// A parsed document: its lookup key, its body with the metadata block
/// removed, the decoded metadata where one was present and well formed, and
/// the visibility flag read off the filename.
#[derive(Debug, Clone, PartialEq)]
pub struct Post {
    pub slug: String,
    pub content: String,
    pub frontmatter: Option<FrontMatter>,
    pub hidden: bool,
}

/// The three-dash delimiter that fences a metadata block.
pub open spec fn delim_chars() -> Seq<char> {
    seq!['-', '-', '-']
}

/// Whether a line, once trimmed, is exactly the metadata delimiter.
pub open spec fn is_delim_line(l: Seq<char>) -> bool {
    spec_trim(l) == delim_chars()
}

fn delim_line(l: &Vec<char>) -> (r: bool)
    ensures
        r == is_delim_line(l@),
{
    let t = crate::text::trim_chars(l);
    if t.len() == 3 && t[0] == '-' && t[1] == '-' && t[2] == '-' {
        proof {
            assert(t@ =~= delim_chars());
        }
        true
    } else {
        false
    }
}

/// Index of the first line at or after `i` that is a closing delimiter
/// (`ls.len()` if the block never closes).
pub open spec fn find_close(ls: Seq<Seq<char>>, i: int) -> int
    decreases ls.len() - i,
{
    if 0 <= i < ls.len() {
        if is_delim_line(ls[i]) {
            i
        } else {
            find_close(ls, i + 1)
        }
    } else {
        ls.len() as int
    }
}

/// The lines of a document text: the text is trimmed, then split.
pub open spec fn doc_lines(text: Seq<char>) -> Seq<Seq<char>> {
    spec_lines(spec_trim(text))
}

/// The body of a document with lines `ls`: with a metadata block, the lines
/// after the closing delimiter, each reattached with a leading newline; with
/// no block, the first line followed by the rest, each reattached with a
/// leading newline; empty when no body line remains.
pub open spec fn spec_content(ls: Seq<Seq<char>>) -> Seq<char> {
    if ls.len() == 0 {
        Seq::empty()
    } else if is_delim_line(ls[0]) {
        let k = find_close(ls, 1);
        if k < ls.len() {
            cat_nl_from(ls, k + 1)
        } else {
            Seq::empty()
        }
    } else {
        ls[0] + cat_nl_from(ls, 1)
    }
}

/// The metadata of a document with lines `ls`: the lines between the two
/// delimiters (or every remaining line, when the block never closes),
/// concatenated verbatim and decoded leniently; `None` when there is no
/// block or the buffer is malformed.
pub open spec fn spec_frontmatter(ls: Seq<Seq<char>>) -> Option<FrontMatterView> {
    if ls.len() > 0 && is_delim_line(ls[0]) {
        spec_parse_meta(cat_from(ls.subrange(1, find_close(ls, 1)), 0))
    } else {
        None
    }
}

/// `s` with the `".md"` suffix stripped, where it carries one: a single
/// occurrence, not repeated.
pub open spec fn strip_suffix_md(s: Seq<char>) -> Seq<char> {
    if s.len() >= 3 && s[s.len() - 3] == '.' && s[s.len() - 2] == 'm' && s[s.len() - 1] == 'd' {
        s.subrange(0, s.len() - 3)
    } else {
        s
    }
}

/// `s` with the hidden-marker underscore stripped from the front, where it
/// carries one: a single occurrence, not repeated.
pub open spec fn strip_marker(s: Seq<char>) -> Seq<char> {
    if s.len() > 0 && s[0] == '_' {
        s.subrange(1, s.len() as int)
    } else {
        s
    }
}

/// `s` with every maximal run of whitespace replaced by a single `'-'`,
/// scanned from `i`; `s` is assumed already trimmed, so no separator is
/// emitted at either end.
pub open spec fn collapse_ws(s: Seq<char>, i: int) -> Seq<char>
    decreases s.len() - i,
{
    if !(0 <= i < s.len()) {
        Seq::empty()
    } else if is_space(s[i]) {
        let j = skip_spaces_from(s, i);
        if i < j <= s.len() {
            seq!['-'] + collapse_ws(s, j)
        } else {
            Seq::empty()
        }
    } else {
        seq![s[i]] + collapse_ws(s, i + 1)
    }
}

/// The whitespace-free name derived from `s`: trim, then collapse every
/// whitespace run into a single `'-'`.
pub open spec fn spec_slugify(s: Seq<char>) -> Seq<char> {
    collapse_ws(spec_trim(s), 0)
}

/// The slug of a filename: strip the `".md"` suffix, strip the hidden-marker
/// prefix, then collapse whitespace runs into `'-'` separators.
pub open spec fn spec_slug(name: Seq<char>) -> Seq<char> {
    spec_slugify(strip_marker(strip_suffix_md(name)))
}

/// Whether a filename marks its document as hidden: it starts with an
/// underscore.
pub open spec fn spec_hidden(name: Seq<char>) -> bool {
    name.len() > 0 && name[0] == '_'
}

fn slugify_chars(v: &Vec<char>) -> (r: Vec<char>)
    ensures
        r@ == spec_slugify(v@),
{
    let t = crate::text::trim_chars(v);
    let ghost ts = t@;
    let n = t.len();
    let mut out: Vec<char> = Vec::new();
    let mut i: usize = 0;
    while i < n
        invariant
            0 <= i <= n,
            n == ts.len(),
            ts == t@,
            out@ + collapse_ws(ts, i as int) == collapse_ws(ts, 0),
        decreases n - i,
    {
        if crate::text::space_char(t[i]) {
            let j = crate::text::scan_ws(&t, i);
            proof {
                crate::text::lemma_skip_spaces_bounds(ts, i + 1);
                assert(skip_spaces_from(ts, i as int) == skip_spaces_from(ts, i + 1));
            }
            let ghost pre = out@;
            out.push('-');
            assert(out@ =~= pre + seq!['-']);
            assert((pre + seq!['-']) + collapse_ws(ts, j as int) =~= pre + (seq!['-'] + collapse_ws(
                ts,
                j as int,
            )));
            i = j;
        } else {
            let ghost pre = out@;
            let c = t[i];
            out.push(c);
            assert(out@ =~= pre + seq![c]);
            assert((pre + seq![c]) + collapse_ws(ts, i + 1) =~= pre + (seq![c] + collapse_ws(
                ts,
                i + 1,
            )));
            i += 1;
        }
    }
    assert(out@ + collapse_ws(ts, i as int) =~= out@);
    out
}

/// Derive a whitespace-free name: trim, then replace every maximal run of
/// whitespace with a single `'-'`.
pub fn slugify(file_name: &str) -> (r: String)
    ensures
        r@ == spec_slugify(file_name@),
{
    let v = crate::text::chars_of(file_name);
    let s = slugify_chars(&v);
    crate::text::string_from_chars(&s)
}

/// What parsing promises of its result: every field is pinned to a spec
/// function of the filename and text alone.
pub open spec fn post_of(name: Seq<char>, text: Seq<char>, p: Post) -> bool {
    &&& p.slug@ == spec_slug(name)
    &&& p.hidden == spec_hidden(name)
    &&& p.content@ == spec_content(doc_lines(text))
    &&& (p.frontmatter matches Some(f) ==> spec_frontmatter(doc_lines(text)) == Some(f@))
    &&& (p.frontmatter is None ==> spec_frontmatter(doc_lines(text)) is None)
}

impl Post {
    /// Parse one document from its base filename and its raw text. Never
    /// fails: a malformed or unterminated metadata block degrades to absent
    /// metadata. The result is a function of the two arguments alone, so
    /// parsing the same pair twice yields structurally identical documents.
    pub fn from_md(file_name: &str, md: &str) -> (p: Post)
        ensures
            post_of(file_name@, md@, p),
    {
        let md_chars = crate::text::chars_of(md);
        let trimmed = crate::text::trim_chars(&md_chars);
        let lines = crate::text::split_lines(&trimmed);
        let ghost ls = lines.deep_view();
        assert(ls == doc_lines(md@));
        let mut content_chars: Vec<char> = Vec::new();
        let mut frontmatter: Option<FrontMatter> = None;
        if lines.len() > 0 {
            assert(ls[0] =~= lines@[0]@);
            if delim_line(&lines[0]) {
                let n_lines = lines.len();
                let mut idx: usize = 1;
                while idx < n_lines
                    invariant
                        1 <= idx <= n_lines,
                        n_lines == lines@.len(),
                        ls == lines.deep_view(),
                        find_close(ls, 1) == find_close(ls, idx as int),
                    ensures
                        find_close(ls, 1) == idx as int,
                        idx <= n_lines,
                    decreases n_lines - idx,
                {
                    proof {
                        assert(ls[idx as int] =~= lines@[idx as int]@);
                    }
                    if delim_line(&lines[idx]) {
                        break;
                    }
                    idx += 1;
                }
                let k = idx;
                let mut buf: Vec<char> = Vec::new();
                crate::text::append_cat_lines(&mut buf, &lines, 1, k);
                frontmatter = crate::meta::parse_meta(&buf);
                if k < lines.len() {
                    crate::text::append_nl_lines(&mut content_chars, &lines, k + 1);
                }
            } else {
                content_chars = crate::text::copy_range(&lines[0], 0, lines[0].len());
                assert(content_chars@ =~= ls[0]);
                crate::text::append_nl_lines(&mut content_chars, &lines, 1);
            }
        }
        let content = crate::text::string_from_chars(&content_chars);
        let name_chars = crate::text::chars_of(file_name);
        let hidden = name_chars.len() > 0 && name_chars[0] == '_';
        let n1 = name_chars.len();
        let e: usize = if n1 >= 3 && name_chars[n1 - 3] == '.' && name_chars[n1 - 2] == 'm'
            && name_chars[n1 - 1] == 'd' {
            n1 - 3
        } else {
            n1
        };
        let s1 = crate::text::copy_range(&name_chars, 0, e);
        assert(s1@ =~= strip_suffix_md(file_name@));
        let u: usize = if s1.len() > 0 && s1[0] == '_' {
            1
        } else {
            0
        };
        let s2 = crate::text::copy_range(&s1, u, s1.len());
        assert(s2@ =~= strip_marker(strip_suffix_md(file_name@)));
        let slug_chars = slugify_chars(&s2);
        let slug = crate::text::string_from_chars(&slug_chars);
        Post { slug, content, frontmatter, hidden }
    }
}

/// Parsing is a pure function of the filename and text: any two documents
/// that parsing promises for the same pair agree in every field, so parsing
/// the same pair twice yields structurally identical documents.
pub proof fn lemma_parse_deterministic(name: Seq<char>, text: Seq<char>, p1: Post, p2: Post)
    requires
        post_of(name, text, p1),
        post_of(name, text, p2),
    ensures
        p1.slug@ == p2.slug@,
        p1.content@ == p2.content@,
        p1.hidden == p2.hidden,
        (p1.frontmatter is Some) == (p2.frontmatter is Some),
        p1.frontmatter matches Some(f1) ==> (p2.frontmatter matches Some(f2) && f1@ == f2@),
{
}

/// Shifting past a prepended line: joining with newline separators from
/// index `j + 1` of `[x] + r` is joining from index `j` of `r`.
proof fn lemma_cat_nl_shift(x: Seq<char>, r: Seq<Seq<char>>, j: int)
    requires
        0 <= j <= r.len(),
    ensures
        cat_nl_from(seq![x] + r, j + 1) == cat_nl_from(r, j),
    decreases r.len() - j,
{
    let ls = seq![x] + r;
    if j < r.len() {
        assert(ls[j + 1] == r[j]);
        lemma_cat_nl_shift(x, r, j + 1);
    }
}

/// Splitting a newline-free tail into lines and rejoining them with leading
/// newlines rebuilds the original characters, provided no carriage return is
/// present and the text does not end in a separator.
proof fn lemma_lines_rejoin(s: Seq<char>, start: int, i: int)
    requires
        0 <= start <= i <= s.len(),
        start < s.len(),
        forall|k: int| 0 <= k < s.len() ==> s[k] != '\r',
        forall|k: int| start <= k < i ==> s[k] != '\n',
        s[s.len() - 1] != '\n',
    ensures
        lines_from_nonempty(s, start, i),
    decreases s.len() - i,
{
    let ls = crate::text::lines_from(s, start, i);
    if i == s.len() {
        assert(strip_cr(s.subrange(start, s.len() as int)) == s.subrange(start, s.len() as int));
        assert(ls[0] + cat_nl_from(ls, 1) =~= s.subrange(start, s.len() as int));
    } else if s[i] == '\n' {
        assert(i < s.len() - 1);
        let rest = crate::text::lines_from(s, i + 1, i + 1);
        lemma_lines_rejoin(s, i + 1, i + 1);
        let l0 = strip_cr(s.subrange(start, i));
        assert(l0 == s.subrange(start, i));
        assert(ls =~~= seq![l0] + rest);
        lemma_cat_nl_shift(l0, rest, 0);
        assert(cat_nl_from(ls, 1) == cat_nl_from(rest, 0));
        assert(rest[0] + cat_nl_from(rest, 1) == s.subrange(i + 1, s.len() as int));
        assert(cat_nl_from(rest, 0) =~= seq!['\n'] + (rest[0] + cat_nl_from(rest, 1)));
        assert(ls[0] + cat_nl_from(ls, 1) =~= s.subrange(start, i) + (seq!['\n'] + s.subrange(
            i + 1,
            s.len() as int,
        )));
        assert(ls[0] + cat_nl_from(ls, 1) =~= s.subrange(start, s.len() as int));
    } else {
        lemma_lines_rejoin(s, start, i + 1);
    }
}

/// The rejoining claim of [`lemma_lines_rejoin`], as one predicate.
pub open spec fn lines_from_nonempty(s: Seq<char>, start: int, i: int) -> bool {
    let ls = crate::text::lines_from(s, start, i);
    ls.len() > 0 && ls[0] + cat_nl_from(ls, 1) == s.subrange(start, s.len() as int)
}

/// A text that does not open with a metadata delimiter keeps its trimmed
/// characters as its body, and carries no metadata: parsing only trims it.
/// Stated for carriage-return-free text; a `"\r\n"` separator is rebuilt as a
/// bare `"\n"`, so such a text is normalized rather than kept verbatim.
pub proof fn lemma_no_block_preserves_text(t: Seq<char>)
    requires
        forall|k: int| 0 <= k < t.len() ==> t[k] != '\r',
        doc_lines(t).len() > 0 ==> !is_delim_line(doc_lines(t)[0]),
    ensures
        spec_frontmatter(doc_lines(t)) is None,
        spec_content(doc_lines(t)) == spec_trim(t),
{
    let s = spec_trim(t);
    let ls = doc_lines(t);
    crate::text::lemma_trim_shape(t);
    if s.len() == 0 {
        assert(ls.len() == 0);
        assert(spec_content(ls) =~= s);
    } else {
        assert forall|k: int| 0 <= k < s.len() implies s[k] != '\r' by {
            crate::text::lemma_skip_spaces_bounds(t, 0);
            crate::text::lemma_end_non_space_range(t, t.len() as int);
            let a = skip_spaces_from(t, 0);
            let b = end_non_space(t, t.len() as int);
            assert(a < t.len());
            crate::text::lemma_end_non_space_above(t, t.len() as int, a);
            assert(0 <= a && a <= b && b <= t.len());
            assert(s == t.subrange(a, b));
            assert(s[k] == t.subrange(a, b)[k]);
            assert(s[k] == t[a + k]);
        }
        assert(s[s.len() - 1] != '\n');
        lemma_lines_rejoin(s, 0, 0);
        assert(s.subrange(0, s.len() as int) =~= s);
        assert(spec_content(ls) == s);
    }
}

/// Every character of a slug is non-whitespace.
proof fn lemma_collapse_no_space(s: Seq<char>, i: int)
    ensures
        forall|k: int|
            0 <= k < collapse_ws(s, i).len() ==> !is_space(#[trigger] collapse_ws(s, i)[k]),
    decreases s.len() - i,
{
    if 0 <= i < s.len() {
        if is_space(s[i]) {
            let j = skip_spaces_from(s, i);
            crate::text::lemma_skip_spaces_bounds(s, i);
            if i < j <= s.len() {
                lemma_collapse_no_space(s, j);
                assert forall|k: int| 0 <= k < collapse_ws(s, i).len() implies !is_space(
                    #[trigger] collapse_ws(s, i)[k],
                ) by {
                    assert(collapse_ws(s, i) == seq!['-'] + collapse_ws(s, j));
                    if k == 0 {
                        assert(!is_space('-'));
                    } else {
                        assert(collapse_ws(s, i)[k] == collapse_ws(s, j)[k - 1]);
                    }
                }
            }
        } else {
            lemma_collapse_no_space(s, i + 1);
            assert forall|k: int| 0 <= k < collapse_ws(s, i).len() implies !is_space(
                #[trigger] collapse_ws(s, i)[k],
            ) by {
                assert(collapse_ws(s, i) == seq![s[i]] + collapse_ws(s, i + 1));
                if k == 0 {
                } else {
                    assert(collapse_ws(s, i)[k] == collapse_ws(s, i + 1)[k - 1]);
                }
            }
        }
    }
}

/// A slug holds no whitespace, whatever the filename: every whitespace run
/// was replaced by a `'-'` separator.
pub proof fn lemma_slug_no_whitespace(name: Seq<char>)
    ensures
        forall|k: int| 0 <= k < spec_slug(name).len() ==> !is_space(#[trigger] spec_slug(name)[k]),
{
    lemma_collapse_no_space(spec_trim(strip_marker(strip_suffix_md(name))), 0);
}

proof fn lemma_find_close_none(ls: Seq<Seq<char>>, i: int)
    requires
        0 <= i <= ls.len(),
        forall|j: int| i <= j < ls.len() ==> !is_delim_line(#[trigger] ls[j]),
    ensures
        find_close(ls, i) == ls.len(),
    decreases ls.len() - i,
{
    if i < ls.len() {
        lemma_find_close_none(ls, i + 1);
    }
}

/// A metadata block that opens but never closes consumes every remaining
/// line: the body is empty, no error arises, and the metadata is whatever the
/// lenient decoding of those lines gives (absent whenever that buffer is
/// malformed, as an unterminated block's buffer typically is).
pub proof fn lemma_unterminated_block(t: Seq<char>)
    requires
        doc_lines(t).len() > 0,
        is_delim_line(doc_lines(t)[0]),
        forall|j: int| 1 <= j < doc_lines(t).len() ==> !is_delim_line(#[trigger] doc_lines(t)[j]),
    ensures
        spec_content(doc_lines(t)) == Seq::<char>::empty(),
        spec_frontmatter(doc_lines(t)) == spec_parse_meta(
            cat_from(doc_lines(t).subrange(1, doc_lines(t).len() as int), 0),
        ),
{
    let ls = doc_lines(t);
    lemma_find_close_none(ls, 1);
}

} // verus!
