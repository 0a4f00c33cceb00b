//! Lenient decoding of a metadata block: a JSON-superset object grammar that
//! tolerates unquoted keys, single-quoted strings and trailing commas. A
//! malformed block is reported as `None`, never as an error.
use vstd::prelude::*;

use crate::text::skip_spaces_from;

verus! {

/// The structured metadata of a document; every field is optional.
#[derive(Debug, Clone, PartialEq)]
pub struct FrontMatter {
    pub title: Option<String>,
    pub tags: Option<Vec<String>>,
    pub date: Option<String>,
    pub description: Option<String>,
}

/// The mathematical value of a [`FrontMatter`]: each text field as a
/// character sequence.
#[verifier::ext_equal]
pub struct FrontMatterView {
    pub title: Option<Seq<char>>,
    pub tags: Option<Seq<Seq<char>>>,
    pub date: Option<Seq<char>>,
    pub description: Option<Seq<char>>,
}

impl View for FrontMatter {
    type V = FrontMatterView;

    open spec fn view(&self) -> FrontMatterView {
        FrontMatterView {
            title: match self.title {
                Some(t) => Some(t@),
                None => None,
            },
            tags: match self.tags {
                Some(ts) => Some(ts.deep_view()),
                None => None,
            },
            date: match self.date {
                Some(d) => Some(d@),
                None => None,
            },
            description: match self.description {
                Some(d) => Some(d@),
                None => None,
            },
        }
    }
}

/// Metadata with no field set.
pub open spec fn empty_fm() -> FrontMatterView {
    FrontMatterView { title: None, tags: None, date: None, description: None }
}

/// Construct metadata with no field set.
pub fn frontmatter_empty() -> (r: FrontMatter)
    ensures
        r@ == empty_fm(),
{
    let r = FrontMatter { title: None, tags: None, date: None, description: None };
    assert(r@ =~= empty_fm());
    r
}

/// Characters allowed to open an unquoted key.
pub open spec fn is_ident_start(c: char) -> bool {
    ('a' <= c && c <= 'z') || ('A' <= c && c <= 'Z') || c == '_' || c == '$'
}

/// Characters allowed inside an unquoted key.
pub open spec fn is_ident_char(c: char) -> bool {
    is_ident_start(c) || ('0' <= c && c <= '9')
}

/// Characters allowed in an unquoted scalar value (numbers, booleans, null).
pub open spec fn is_bare_char(c: char) -> bool {
    is_ident_char(c) || c == '+' || c == '-' || c == '.'
}

fn ident_start_char(c: char) -> (r: bool)
    ensures
        r == is_ident_start(c),
{
    ('a' <= c && c <= 'z') || ('A' <= c && c <= 'Z') || c == '_' || c == '$'
}

fn ident_char(c: char) -> (r: bool)
    ensures
        r == is_ident_char(c),
{
    ident_start_char(c) || ('0' <= c && c <= '9')
}

fn bare_char(c: char) -> (r: bool)
    ensures
        r == is_bare_char(c),
{
    ident_char(c) || c == '+' || c == '-' || c == '.'
}

/// The character denoted by a backslash escape, where one is recognized.
pub open spec fn unescape(c: char) -> Option<char> {
    if c == 'n' {
        Some('\n')
    } else if c == 't' {
        Some('\t')
    } else if c == 'r' {
        Some('\r')
    } else if c == 'b' {
        Some('\u{8}')
    } else if c == 'f' {
        Some('\u{c}')
    } else if c == '0' {
        Some('\u{0}')
    } else if c == '\\' || c == '\'' || c == '"' || c == '/' {
        Some(c)
    } else {
        None
    }
}

fn unescape_char(c: char) -> (r: Option<char>)
    ensures
        r == unescape(c),
{
    if c == 'n' {
        Some('\n')
    } else if c == 't' {
        Some('\t')
    } else if c == 'r' {
        Some('\r')
    } else if c == 'b' {
        Some('\u{8}')
    } else if c == 'f' {
        Some('\u{c}')
    } else if c == '0' {
        Some('\u{0}')
    } else if c == '\\' || c == '\'' || c == '"' || c == '/' {
        Some(c)
    } else {
        None
    }
}

/// Hexadecimal digits.
pub open spec fn is_hex(c: char) -> bool {
    ('0' <= c && c <= '9') || ('a' <= c && c <= 'f') || ('A' <= c && c <= 'F')
}

/// The numeric value of a hexadecimal digit.
pub open spec fn hex_val(c: char) -> u32 {
    if '0' <= c && c <= '9' {
        (c as u32 - '0' as u32) as u32
    } else if 'a' <= c && c <= 'f' {
        (c as u32 - 'a' as u32 + 10) as u32
    } else {
        (c as u32 - 'A' as u32 + 10) as u32
    }
}

fn hex_digit(c: char) -> (r: Option<u32>)
    ensures
        match r {
            Some(v) => is_hex(c) && v == hex_val(c) && v < 16,
            None => !is_hex(c),
        },
{
    if '0' <= c && c <= '9' {
        Some(c as u32 - '0' as u32)
    } else if 'a' <= c && c <= 'f' {
        Some(c as u32 - 'a' as u32 + 10)
    } else if 'A' <= c && c <= 'F' {
        Some(c as u32 - 'A' as u32 + 10)
    } else {
        None
    }
}

/// Whether the four characters at `i` are hexadecimal digits whose value is
/// not a surrogate, so that they denote a character.
pub open spec fn is_hex_escape(s: Seq<char>, i: int) -> bool {
    &&& is_hex(s[i]) && is_hex(s[i + 1]) && is_hex(s[i + 2]) && is_hex(s[i + 3])
    &&& (hex4_val(s, i) < 0xD800 || hex4_val(s, i) > 0xDFFF)
}

/// The value of the four hexadecimal digits at `i`.
pub open spec fn hex4_val(s: Seq<char>, i: int) -> u32 {
    (hex_val(s[i]) * 0x1000 + hex_val(s[i + 1]) * 0x100 + hex_val(s[i + 2]) * 0x10 + hex_val(
        s[i + 3],
    )) as u32
}

/// Relies on `char::from_u32`: it returns the character with the given code
/// point, and `None` exactly for surrogate values (which a four-digit escape
/// can denote) and values above the Unicode maximum.
pub assume_specification[ char::from_u32 ](i: u32) -> (r: Option<char>)
    ensures
        (r is Some) == (i < 0xD800 || (0xDFFF < i && i <= 0x10FFFF)),
        r matches Some(c) ==> (c as u32) == i,
;

/// The contents of a quoted string with closing quote `q`, scanned from
/// position `i` (just after the opening quote) with `acc` already read, and
/// the position just after the closing quote. `None` when the quote never
/// closes, an escape is not recognized, or a four-digit escape denotes a
/// surrogate.
pub open spec fn str_lit_from(s: Seq<char>, i: int, q: char, acc: Seq<char>) -> Option<
    (Seq<char>, int),
>
    decreases s.len() - i,
{
    if !(0 <= i < s.len()) {
        None
    } else if s[i] == q {
        Some((acc, i + 1))
    } else if s[i] == '\\' {
        if i + 1 < s.len() && s[i + 1] == 'u' {
            if i + 5 < s.len() && is_hex_escape(s, i + 2) {
                str_lit_from(s, i + 6, q, acc.push((hex4_val(s, i + 2) as u32) as char))
            } else {
                None
            }
        } else if i + 1 < s.len() {
            match unescape(s[i + 1]) {
                Some(c) => str_lit_from(s, i + 2, q, acc.push(c)),
                None => None,
            }
        } else {
            None
        }
    } else {
        str_lit_from(s, i + 1, q, acc.push(s[i]))
    }
}

fn scan_str_lit(s: &Vec<char>, i: usize, q: char, acc: Vec<char>) -> (r: Option<(Vec<char>, usize)>)
    ensures
        match r {
            Some((v, j)) => {
                &&& str_lit_from(s@, i as int, q, acc@) == Some((v@, j as int))
                &&& i < j <= s@.len()
            },
            None => str_lit_from(s@, i as int, q, acc@) is None,
        },
    decreases s@.len() - i,
{
    if i >= s.len() {
        None
    } else if s[i] == q {
        Some((acc, i + 1))
    } else if s[i] == '\\' {
        if i + 1 < s.len() && s[i + 1] == 'u' {
            if s.len() - i > 5 {
                match (hex_digit(s[i + 2]), hex_digit(s[i + 3]), hex_digit(s[i + 4]), hex_digit(
                    s[i + 5],
                )) {
                    (Some(h1), Some(h2), Some(h3), Some(h4)) => {
                        let val: u32 = h1 * 0x1000 + h2 * 0x100 + h3 * 0x10 + h4;
                        assert(val == hex4_val(s@, i + 2));
                        if val < 0xD800 || val > 0xDFFF {
                            match char::from_u32(val) {
                                Some(c) => {
                                    proof {
                                        vstd::utf8::char_u32_cast(c, val);
                                    }
                                    let mut acc2 = acc;
                                    acc2.push(c);
                                    scan_str_lit(s, i + 6, q, acc2)
                                },
                                None => None,
                            }
                        } else {
                            None
                        }
                    },
                    _ => None,
                }
            } else {
                None
            }
        } else if i + 1 < s.len() {
            match unescape_char(s[i + 1]) {
                Some(c) => {
                    let mut acc2 = acc;
                    acc2.push(c);
                    scan_str_lit(s, i + 2, q, acc2)
                },
                None => None,
            }
        } else {
            None
        }
    } else {
        let c = s[i];
        let mut acc2 = acc;
        acc2.push(c);
        scan_str_lit(s, i + 1, q, acc2)
    }
}

/// End of a run of unquoted-key characters starting at `i`.
pub open spec fn ident_end(s: Seq<char>, i: int) -> int
    decreases s.len() - i,
{
    if 0 <= i < s.len() && is_ident_char(s[i]) {
        ident_end(s, i + 1)
    } else {
        i
    }
}

fn scan_ident_end(s: &Vec<char>, i: usize) -> (j: usize)
    requires
        i <= s@.len(),
    ensures
        j as int == ident_end(s@, i as int),
        i <= j <= s@.len(),
{
    let n = s.len();
    let mut j = i;
    while j < n && ident_char(s[j])
        invariant
            i <= j <= n,
            n == s@.len(),
            ident_end(s@, i as int) == ident_end(s@, j as int),
        decreases n - j,
    {
        j += 1;
    }
    j
}

/// End of a run of unquoted-scalar characters starting at `i`.
pub open spec fn bare_end(s: Seq<char>, i: int) -> int
    decreases s.len() - i,
{
    if 0 <= i < s.len() && is_bare_char(s[i]) {
        bare_end(s, i + 1)
    } else {
        i
    }
}

fn scan_bare_end(s: &Vec<char>, i: usize) -> (j: usize)
    requires
        i <= s@.len(),
    ensures
        j as int == bare_end(s@, i as int),
        i <= j <= s@.len(),
{
    let n = s.len();
    let mut j = i;
    while j < n && bare_char(s[j])
        invariant
            i <= j <= n,
            n == s@.len(),
            bare_end(s@, i as int) == bare_end(s@, j as int),
        decreases n - j,
    {
        j += 1;
    }
    j
}

/// An unquoted key starting at `i`, and the position just after it.
pub open spec fn ident_from(s: Seq<char>, i: int) -> Option<(Seq<char>, int)> {
    if 0 <= i < s.len() && is_ident_start(s[i]) {
        Some((s.subrange(i, ident_end(s, i + 1)), ident_end(s, i + 1)))
    } else {
        None
    }
}

fn scan_ident(s: &Vec<char>, i: usize) -> (r: Option<(Vec<char>, usize)>)
    ensures
        match r {
            Some((v, j)) => {
                &&& ident_from(s@, i as int) == Some((v@, j as int))
                &&& i < j <= s@.len()
            },
            None => ident_from(s@, i as int) is None,
        },
{
    if i < s.len() && ident_start_char(s[i]) {
        let j = scan_ident_end(s, i + 1);
        let v = crate::text::copy_range(s, i, j);
        Some((v, j))
    } else {
        None
    }
}

/// The keys the metadata shape knows.
pub enum KeyKind {
    Title,
    Tags,
    Date,
    Description,
    Other,
}

pub open spec fn title_chars() -> Seq<char> {
    seq!['t', 'i', 't', 'l', 'e']
}

pub open spec fn tags_chars() -> Seq<char> {
    seq!['t', 'a', 'g', 's']
}

pub open spec fn date_chars() -> Seq<char> {
    seq!['d', 'a', 't', 'e']
}

pub open spec fn description_chars() -> Seq<char> {
    seq!['d', 'e', 's', 'c', 'r', 'i', 'p', 't', 'i', 'o', 'n']
}

/// Which metadata field a key addresses.
pub open spec fn key_kind_of(key: Seq<char>) -> KeyKind {
    if key == title_chars() {
        KeyKind::Title
    } else if key == tags_chars() {
        KeyKind::Tags
    } else if key == date_chars() {
        KeyKind::Date
    } else if key == description_chars() {
        KeyKind::Description
    } else {
        KeyKind::Other
    }
}

fn chars_match(key: &Vec<char>, lit: &str) -> (r: bool)
    ensures
        r == (key@ == lit@),
{
    let n = lit.unicode_len();
    if key.len() != n {
        proof {
            assert(key@.len() != lit@.len());
        }
        return false;
    }
    let mut k: usize = 0;
    while k < n
        invariant
            0 <= k <= n,
            n == lit@.len(),
            key@.len() == n,
            forall|t: int| 0 <= t < k ==> key@[t] == lit@[t],
        decreases n - k,
    {
        if key[k] != lit.get_char(k) {
            return false;
        }
        k += 1;
    }
    proof {
        assert(key@ =~= lit@);
    }
    true
}

fn key_kind(key: &Vec<char>) -> (r: KeyKind)
    ensures
        r == key_kind_of(key@),
{
    proof {
        reveal_strlit("title");
        reveal_strlit("tags");
        reveal_strlit("date");
        reveal_strlit("description");
        assert("title"@ =~= title_chars());
        assert("tags"@ =~= tags_chars());
        assert("date"@ =~= date_chars());
        assert("description"@ =~= description_chars());
    }
    if chars_match(key, "title") {
        KeyKind::Title
    } else if chars_match(key, "tags") {
        KeyKind::Tags
    } else if chars_match(key, "date") {
        KeyKind::Date
    } else if chars_match(key, "description") {
        KeyKind::Description
    } else {
        KeyKind::Other
    }
}

/// The elements of an array of strings, scanned from `i` (just after `'['` or
/// a separating comma) with `acc` already read, and the position just after
/// the closing bracket. Trailing commas are tolerated.
pub open spec fn str_array_from(s: Seq<char>, i: int, acc: Seq<Seq<char>>) -> Option<
    (Seq<Seq<char>>, int),
>
    decreases s.len() - i,
{
    let j = skip_spaces_from(s, i);
    if !(i <= j < s.len()) {
        None
    } else if s[j] == ']' {
        Some((acc, j + 1))
    } else if s[j] == '\'' || s[j] == '"' {
        match str_lit_from(s, j + 1, s[j], Seq::empty()) {
            Some((v, k)) => {
                let m = skip_spaces_from(s, k);
                if !(i < m < s.len()) {
                    None
                } else if s[m] == ',' {
                    str_array_from(s, m + 1, acc.push(v))
                } else if s[m] == ']' {
                    Some((acc.push(v), m + 1))
                } else {
                    None
                }
            },
            None => None,
        }
    } else {
        None
    }
}

fn scan_str_array(s: &Vec<char>, i: usize, acc: Vec<String>) -> (r: Option<(Vec<String>, usize)>)
    ensures
        match r {
            Some((vals, j)) => {
                &&& str_array_from(s@, i as int, acc.deep_view()) == Some(
                    (vals.deep_view(), j as int),
                )
                &&& i < j <= s@.len()
            },
            None => str_array_from(s@, i as int, acc.deep_view()) is None,
        },
    decreases s@.len() - i,
{
    let j = crate::text::scan_ws(s, i);
    if j >= s.len() {
        return None;
    }
    if s[j] == ']' {
        Some((acc, j + 1))
    } else if s[j] == '\'' || s[j] == '"' {
        let empty: Vec<char> = Vec::new();
        match scan_str_lit(s, j + 1, s[j], empty) {
            Some((v, k)) => {
                let m = crate::text::scan_ws(s, k);
                if m >= s.len() {
                    return None;
                }
                if s[m] == ',' {
                    let mut acc2 = acc;
                    let ghost old_deep = acc2.deep_view();
                    acc2.push(crate::text::string_from_chars(&v));
                    assert(acc2.deep_view() =~~= old_deep.push(v@));
                    scan_str_array(s, m + 1, acc2)
                } else if s[m] == ']' {
                    let mut acc2 = acc;
                    let ghost old_deep = acc2.deep_view();
                    acc2.push(crate::text::string_from_chars(&v));
                    assert(acc2.deep_view() =~~= old_deep.push(v@));
                    Some((acc2, m + 1))
                } else {
                    None
                }
            },
            None => None,
        }
    } else {
        None
    }
}

/// Scan past an array value under a key the shape does not know: any skipped
/// values, separated by commas, a trailing comma tolerated, nesting allowed.
pub open spec fn skip_array_from(s: Seq<char>, i: int) -> Option<int>
    decreases s.len() - i, 1int,
{
    let j = skip_spaces_from(s, i);
    if !(i <= j < s.len()) {
        None
    } else if s[j] == ']' {
        Some(j + 1)
    } else {
        match skip_value(s, j) {
            Some(k) => {
                let m = skip_spaces_from(s, k);
                if !(i < m < s.len()) {
                    None
                } else if s[m] == ',' {
                    skip_array_from(s, m + 1)
                } else if s[m] == ']' {
                    Some(m + 1)
                } else {
                    None
                }
            },
            None => None,
        }
    }
}

/// Scan past an object value under a key the shape does not know: keys with
/// any skipped values, separated by commas, a trailing comma tolerated,
/// nesting allowed.
pub open spec fn skip_object_from(s: Seq<char>, i: int) -> Option<int>
    decreases s.len() - i, 1int,
{
    let j = skip_spaces_from(s, i);
    if !(i <= j < s.len()) {
        None
    } else if s[j] == '}' {
        Some(j + 1)
    } else {
        let key_res = if s[j] == '\'' || s[j] == '"' {
            str_lit_from(s, j + 1, s[j], Seq::empty())
        } else {
            ident_from(s, j)
        };
        match key_res {
            Some((key, k)) => {
                let m = skip_spaces_from(s, k);
                if !(j < m < s.len() && s[m] == ':') {
                    None
                } else {
                    let v = skip_spaces_from(s, m + 1);
                    if !(i < v < s.len()) {
                        None
                    } else {
                        match skip_value(s, v) {
                            Some(w) => {
                                let x = skip_spaces_from(s, w);
                                if !(i < x < s.len()) {
                                    None
                                } else if s[x] == '}' {
                                    Some(x + 1)
                                } else if s[x] == ',' {
                                    skip_object_from(s, x + 1)
                                } else {
                                    None
                                }
                            },
                            None => None,
                        }
                    }
                }
            },
            None => None,
        }
    }
}

/// Scan past a value under a key the shape does not know: a string, an
/// unquoted scalar, or arbitrarily nested arrays and objects of such values.
pub open spec fn skip_value(s: Seq<char>, i: int) -> Option<int>
    decreases s.len() - i, 0int,
{
    if !(0 <= i < s.len()) {
        None
    } else if s[i] == '\'' || s[i] == '"' {
        match str_lit_from(s, i + 1, s[i], Seq::empty()) {
            Some((v, k)) => Some(k),
            None => None,
        }
    } else if s[i] == '[' {
        skip_array_from(s, i + 1)
    } else if s[i] == '{' {
        skip_object_from(s, i + 1)
    } else if is_bare_char(s[i]) {
        Some(bare_end(s, i + 1))
    } else {
        None
    }
}

fn scan_skip_array(s: &Vec<char>, i: usize) -> (r: Option<usize>)
    ensures
        match r {
            Some(j) => {
                &&& skip_array_from(s@, i as int) == Some(j as int)
                &&& i < j <= s@.len()
            },
            None => skip_array_from(s@, i as int) is None,
        },
    decreases s@.len() - i, 1int,
{
    let j = crate::text::scan_ws(s, i);
    if j >= s.len() {
        return None;
    }
    if s[j] == ']' {
        return Some(j + 1);
    }
    match scan_skip_value(s, j) {
        Some(k) => {
            let m = crate::text::scan_ws(s, k);
            if m >= s.len() {
                return None;
            }
            if s[m] == ',' {
                scan_skip_array(s, m + 1)
            } else if s[m] == ']' {
                Some(m + 1)
            } else {
                None
            }
        },
        None => None,
    }
}

fn scan_skip_object(s: &Vec<char>, i: usize) -> (r: Option<usize>)
    ensures
        match r {
            Some(j) => {
                &&& skip_object_from(s@, i as int) == Some(j as int)
                &&& i < j <= s@.len()
            },
            None => skip_object_from(s@, i as int) is None,
        },
    decreases s@.len() - i, 1int,
{
    let j = crate::text::scan_ws(s, i);
    if j >= s.len() {
        return None;
    }
    if s[j] == '}' {
        return Some(j + 1);
    }
    let key_res: Option<(Vec<char>, usize)> = if s[j] == '\'' || s[j] == '"' {
        let empty: Vec<char> = Vec::new();
        scan_str_lit(s, j + 1, s[j], empty)
    } else {
        scan_ident(s, j)
    };
    match key_res {
        Some((key, k)) => {
            let m = crate::text::scan_ws(s, k);
            if !(m < s.len() && s[m] == ':') {
                return None;
            }
            let v = crate::text::scan_ws(s, m + 1);
            if v >= s.len() {
                return None;
            }
            match scan_skip_value(s, v) {
                Some(w) => {
                    let x = crate::text::scan_ws(s, w);
                    if x >= s.len() {
                        return None;
                    }
                    if s[x] == '}' {
                        Some(x + 1)
                    } else if s[x] == ',' {
                        scan_skip_object(s, x + 1)
                    } else {
                        None
                    }
                },
                None => None,
            }
        },
        None => None,
    }
}

fn scan_skip_value(s: &Vec<char>, i: usize) -> (r: Option<usize>)
    ensures
        match r {
            Some(j) => {
                &&& skip_value(s@, i as int) == Some(j as int)
                &&& i < j <= s@.len()
            },
            None => skip_value(s@, i as int) is None,
        },
    decreases s@.len() - i, 0int,
{
    if i >= s.len() {
        return None;
    }
    if s[i] == '\'' || s[i] == '"' {
        let empty: Vec<char> = Vec::new();
        match scan_str_lit(s, i + 1, s[i], empty) {
            Some((v, k)) => Some(k),
            None => None,
        }
    } else if s[i] == '[' {
        scan_skip_array(s, i + 1)
    } else if s[i] == '{' {
        scan_skip_object(s, i + 1)
    } else if bare_char(s[i]) {
        Some(scan_bare_end(s, i + 1))
    } else {
        None
    }
}

/// The bare word that stands for an absent value.
pub open spec fn null_chars() -> Seq<char> {
    seq!['n', 'u', 'l', 'l']
}

/// Whether the bare scalar at `v` is exactly the word `null`.
pub open spec fn is_null_at(s: Seq<char>, v: int) -> bool {
    is_bare_char(s[v]) && s.subrange(v, bare_end(s, v + 1)) == null_chars()
}

fn scan_null(s: &Vec<char>, v: usize) -> (r: Option<usize>)
    requires
        v < s@.len(),
    ensures
        match r {
            Some(e) => {
                &&& is_null_at(s@, v as int)
                &&& e as int == bare_end(s@, v + 1)
                &&& v < e <= s@.len()
            },
            None => !is_null_at(s@, v as int),
        },
{
    let n = s.len();
    if !bare_char(s[v]) {
        return None;
    }
    assert(v < n);
    let e = scan_bare_end(s, v + 1);
    let tok = crate::text::copy_range(s, v, e);
    proof {
        reveal_strlit("null");
        assert("null"@ =~= null_chars());
    }
    if chars_match(&tok, "null") {
        Some(e)
    } else {
        None
    }
}

/// The metadata after reading the value at `v` under `key` into `fm`, and the
/// position just after the value. A known key seen twice, or a known key with
/// a value of the wrong shape, makes the block malformed; the word `null`
/// under a known key leaves the field absent; an unknown key is read past and
/// ignored.
pub open spec fn member_value(s: Seq<char>, v: int, key: Seq<char>, fm: FrontMatterView) -> Option<
    (FrontMatterView, int),
> {
    if !(0 <= v < s.len()) {
        None
    } else {
        match key_kind_of(key) {
            KeyKind::Title => {
                if s[v] == '\'' || s[v] == '"' {
                    match str_lit_from(s, v + 1, s[v], Seq::empty()) {
                        Some((val, w)) => {
                            if fm.title is None {
                                Some((FrontMatterView { title: Some(val), ..fm }, w))
                            } else {
                                None
                            }
                        },
                        None => None,
                    }
                } else if is_null_at(s, v) {
                    Some((fm, bare_end(s, v + 1)))
                } else {
                    None
                }
            },
            KeyKind::Date => {
                if s[v] == '\'' || s[v] == '"' {
                    match str_lit_from(s, v + 1, s[v], Seq::empty()) {
                        Some((val, w)) => {
                            if fm.date is None {
                                Some((FrontMatterView { date: Some(val), ..fm }, w))
                            } else {
                                None
                            }
                        },
                        None => None,
                    }
                } else if is_null_at(s, v) {
                    Some((fm, bare_end(s, v + 1)))
                } else {
                    None
                }
            },
            KeyKind::Description => {
                if s[v] == '\'' || s[v] == '"' {
                    match str_lit_from(s, v + 1, s[v], Seq::empty()) {
                        Some((val, w)) => {
                            if fm.description is None {
                                Some((FrontMatterView { description: Some(val), ..fm }, w))
                            } else {
                                None
                            }
                        },
                        None => None,
                    }
                } else if is_null_at(s, v) {
                    Some((fm, bare_end(s, v + 1)))
                } else {
                    None
                }
            },
            KeyKind::Tags => {
                if s[v] == '[' {
                    match str_array_from(s, v + 1, Seq::empty()) {
                        Some((vals, w)) => {
                            if fm.tags is None {
                                Some((FrontMatterView { tags: Some(vals), ..fm }, w))
                            } else {
                                None
                            }
                        },
                        None => None,
                    }
                } else if is_null_at(s, v) {
                    Some((fm, bare_end(s, v + 1)))
                } else {
                    None
                }
            },
            KeyKind::Other => {
                match skip_value(s, v) {
                    Some(w) => Some((fm, w)),
                    None => None,
                }
            },
        }
    }
}

fn scan_member_value(s: &Vec<char>, v: usize, key: &Vec<char>, fm: FrontMatter) -> (r: Option<
    (FrontMatter, usize),
>)
    ensures
        match r {
            Some((f2, w)) => {
                &&& member_value(s@, v as int, key@, fm@) == Some((f2@, w as int))
                &&& v < w <= s@.len()
            },
            None => member_value(s@, v as int, key@, fm@) is None,
        },
{
    if v >= s.len() {
        return None;
    }
    match key_kind(key) {
        KeyKind::Title => {
            if s[v] == '\'' || s[v] == '"' {
                let empty: Vec<char> = Vec::new();
                match scan_str_lit(s, v + 1, s[v], empty) {
                    Some((val, w)) => {
                        if fm.title.is_none() {
                            let mut f2 = fm;
                            f2.title = Some(crate::text::string_from_chars(&val));
                            assert(f2@ =~= (FrontMatterView { title: Some(val@), ..fm@ }));
                            Some((f2, w))
                        } else {
                            None
                        }
                    },
                    None => None,
                }
            } else {
                match scan_null(s, v) {
                    Some(e) => Some((fm, e)),
                    None => None,
                }
            }
        },
        KeyKind::Date => {
            if s[v] == '\'' || s[v] == '"' {
                let empty: Vec<char> = Vec::new();
                match scan_str_lit(s, v + 1, s[v], empty) {
                    Some((val, w)) => {
                        if fm.date.is_none() {
                            let mut f2 = fm;
                            f2.date = Some(crate::text::string_from_chars(&val));
                            assert(f2@ =~= (FrontMatterView { date: Some(val@), ..fm@ }));
                            Some((f2, w))
                        } else {
                            None
                        }
                    },
                    None => None,
                }
            } else {
                match scan_null(s, v) {
                    Some(e) => Some((fm, e)),
                    None => None,
                }
            }
        },
        KeyKind::Description => {
            if s[v] == '\'' || s[v] == '"' {
                let empty: Vec<char> = Vec::new();
                match scan_str_lit(s, v + 1, s[v], empty) {
                    Some((val, w)) => {
                        if fm.description.is_none() {
                            let mut f2 = fm;
                            f2.description = Some(crate::text::string_from_chars(&val));
                            assert(f2@ =~= (FrontMatterView { description: Some(val@), ..fm@ }));
                            Some((f2, w))
                        } else {
                            None
                        }
                    },
                    None => None,
                }
            } else {
                match scan_null(s, v) {
                    Some(e) => Some((fm, e)),
                    None => None,
                }
            }
        },
        KeyKind::Tags => {
            if s[v] == '[' {
                let empty: Vec<String> = Vec::new();
                assert(empty.deep_view() =~~= Seq::<Seq<char>>::empty());
                match scan_str_array(s, v + 1, empty) {
                    Some((vals, w)) => {
                        if fm.tags.is_none() {
                            let mut f2 = fm;
                            f2.tags = Some(vals);
                            assert(f2@ =~= (
                            FrontMatterView { tags: Some(f2.tags.unwrap().deep_view()), ..fm@ }));
                            Some((f2, w))
                        } else {
                            None
                        }
                    },
                    None => None,
                }
            } else {
                match scan_null(s, v) {
                    Some(e) => Some((fm, e)),
                    None => None,
                }
            }
        },
        KeyKind::Other => {
            match scan_skip_value(s, v) {
                Some(w) => Some((fm, w)),
                None => None,
            }
        },
    }
}

/// The metadata after reading the members from `i` (just after `'{'` or a
/// separating comma) into `fm`, and the position just after the closing
/// brace. Trailing commas are tolerated.
pub open spec fn members_from(s: Seq<char>, i: int, fm: FrontMatterView) -> Option<
    (FrontMatterView, int),
>
    decreases s.len() - i,
{
    let j = skip_spaces_from(s, i);
    if !(i <= j < s.len()) {
        None
    } else {
        let key_res = if s[j] == '\'' || s[j] == '"' {
            str_lit_from(s, j + 1, s[j], Seq::empty())
        } else {
            ident_from(s, j)
        };
        match key_res {
            Some((key, k)) => {
                let m = skip_spaces_from(s, k);
                if !(j < m < s.len() && s[m] == ':') {
                    None
                } else {
                    let v = skip_spaces_from(s, m + 1);
                    match member_value(s, v, key, fm) {
                        Some((fm2, w)) => {
                            let x = skip_spaces_from(s, w);
                            if !(m < x < s.len()) {
                                None
                            } else if s[x] == '}' {
                                Some((fm2, x + 1))
                            } else if s[x] == ',' {
                                let y = skip_spaces_from(s, x + 1);
                                if y < s.len() && s[y] == '}' {
                                    Some((fm2, y + 1))
                                } else if i < x + 1 {
                                    members_from(s, x + 1, fm2)
                                } else {
                                    None
                                }
                            } else {
                                None
                            }
                        },
                        None => None,
                    }
                }
            },
            None => None,
        }
    }
}

fn scan_members(s: &Vec<char>, i: usize, fm: FrontMatter) -> (r: Option<(FrontMatter, usize)>)
    ensures
        match r {
            Some((f2, j)) => members_from(s@, i as int, fm@) == Some((f2@, j as int)),
            None => members_from(s@, i as int, fm@) is None,
        },
    decreases s@.len() - i,
{
    let j = crate::text::scan_ws(s, i);
    if j >= s.len() {
        return None;
    }
    let key_res: Option<(Vec<char>, usize)> = if s[j] == '\'' || s[j] == '"' {
        let empty: Vec<char> = Vec::new();
        scan_str_lit(s, j + 1, s[j], empty)
    } else {
        scan_ident(s, j)
    };
    match key_res {
        Some((key, k)) => {
            let m = crate::text::scan_ws(s, k);
            if !(m < s.len() && s[m] == ':') {
                return None;
            }
            let v = crate::text::scan_ws(s, m + 1);
            match scan_member_value(s, v, &key, fm) {
                Some((fm2, w)) => {
                    let x = crate::text::scan_ws(s, w);
                    if x >= s.len() {
                        return None;
                    }
                    if s[x] == '}' {
                        Some((fm2, x + 1))
                    } else if s[x] == ',' {
                        let y = crate::text::scan_ws(s, x + 1);
                        if y < s.len() && s[y] == '}' {
                            Some((fm2, y + 1))
                        } else {
                            scan_members(s, x + 1, fm2)
                        }
                    } else {
                        None
                    }
                },
                None => None,
            }
        },
        None => None,
    }
}

/// The metadata denoted by a whole buffer: an object in the lenient grammar,
/// surrounded only by whitespace. `None` when the buffer is malformed.
pub open spec fn spec_parse_meta(s: Seq<char>) -> Option<FrontMatterView> {
    let i = skip_spaces_from(s, 0);
    if !(0 <= i < s.len() && s[i] == '{') {
        None
    } else {
        let j = skip_spaces_from(s, i + 1);
        if j < s.len() && s[j] == '}' {
            if skip_spaces_from(s, j + 1) == s.len() {
                Some(empty_fm())
            } else {
                None
            }
        } else {
            match members_from(s, i + 1, empty_fm()) {
                Some((fm, k)) => {
                    if skip_spaces_from(s, k) == s.len() {
                        Some(fm)
                    } else {
                        None
                    }
                },
                None => None,
            }
        }
    }
}

/// Decode a metadata buffer; a malformed buffer yields `None`, never an
/// error.
pub fn parse_meta(s: &Vec<char>) -> (r: Option<FrontMatter>)
    ensures
        match r {
            Some(f) => spec_parse_meta(s@) == Some(f@),
            None => spec_parse_meta(s@) is None,
        },
{
    let i = crate::text::scan_ws(s, 0);
    if !(i < s.len() && s[i] == '{') {
        return None;
    }
    let j = crate::text::scan_ws(s, i + 1);
    if j < s.len() && s[j] == '}' {
        if crate::text::scan_ws(s, j + 1) == s.len() {
            Some(frontmatter_empty())
        } else {
            None
        }
    } else {
        match scan_members(s, i + 1, frontmatter_empty()) {
            Some((fm, k)) => {
                if crate::text::scan_ws(s, k) == s.len() {
                    Some(fm)
                } else {
                    None
                }
            },
            None => None,
        }
    }
}

} // verus!
