//! Site-level computations: the tag index over the projects, and the shaping
//! of a contact-form message for the outgoing webhook. Sending the message is
//! the I/O layer's business.
use vstd::prelude::*;

use crate::projects::Project;
use vstd::string::StringExecFns;

verus! {

/// Whether `t` occurs among the tags of some project.
pub open spec fn has_tag(projects: Seq<Project>, t: Seq<char>) -> bool {
    exists|i: int, j: int|
        0 <= i < projects.len() && 0 <= j < projects[i].tags@.len() && (
        #[trigger] projects[i].tags@[j])@ == t
}

/// Whether a tag with characters `t` already stands in `r`.
pub open spec fn tag_in(r: Seq<String>, t: Seq<char>) -> bool {
    exists|k: int| 0 <= k < r.len() && (#[trigger] r[k])@ == t
}

/// Strict lexicographic order on character sequences, compared code point by
/// code point from position `i` on; a proper prefix comes first. On the
/// common prefix read so far the two are assumed equal. This is the order in
/// which `String`s compare, and the order an ordered set of them iterates in.
pub open spec fn lex_lt_from(a: Seq<char>, b: Seq<char>, i: int) -> bool
    decreases a.len() - i,
{
    if 0 <= i && i < a.len() && i < b.len() {
        if a[i] != b[i] {
            (a[i] as u32) < (b[i] as u32)
        } else {
            lex_lt_from(a, b, i + 1)
        }
    } else {
        a.len() < b.len()
    }
}

/// Strict lexicographic order on character sequences.
pub open spec fn lex_lt(a: Seq<char>, b: Seq<char>) -> bool {
    lex_lt_from(a, b, 0)
}

/// Whether the tags stand in strictly increasing lexicographic order.
pub open spec fn tags_sorted(r: Seq<String>) -> bool {
    forall|a: int, b: int| 0 <= a < b < r.len() ==> lex_lt((#[trigger] r[a])@, (#[trigger] r[b])@)
}

proof fn lemma_lex_from_trans(a: Seq<char>, b: Seq<char>, c: Seq<char>, i: int)
    requires
        0 <= i,
        lex_lt_from(a, b, i),
        lex_lt_from(b, c, i),
    ensures
        lex_lt_from(a, c, i),
    decreases a.len() - i,
{
    if i < a.len() && i < b.len() && i < c.len() && a[i] == b[i] && b[i] == c[i] {
        lemma_lex_from_trans(a, b, c, i + 1);
    }
}

proof fn lemma_lex_from_total(a: Seq<char>, b: Seq<char>, i: int)
    requires
        0 <= i,
        !lex_lt_from(a, b, i),
        !lex_lt_from(b, a, i),
    ensures
        a.len() == b.len(),
        forall|k: int| i <= k < a.len() ==> a[k] == b[k],
    decreases a.len() - i,
{
    if i < a.len() && i < b.len() {
        if a[i] == b[i] {
            lemma_lex_from_total(a, b, i + 1);
        } else {
            assert((a[i] as u32) == (b[i] as u32));
            vstd::utf8::char_u32_cast(a[i], a[i] as u32);
            vstd::utf8::char_u32_cast(b[i], b[i] as u32);
            assert(false);
        }
    }
}

proof fn lemma_lex_irrefl(a: Seq<char>, i: int)
    requires
        0 <= i,
    ensures
        !lex_lt_from(a, a, i),
    decreases a.len() - i,
{
    if i < a.len() {
        lemma_lex_irrefl(a, i + 1);
    }
}

fn lex_less(a: &str, b: &str) -> (r: bool)
    ensures
        r == lex_lt(a@, b@),
{
    let na = a.unicode_len();
    let nb = b.unicode_len();
    let mut i: usize = 0;
    while i < na && i < nb
        invariant
            0 <= i <= na,
            i <= nb,
            na == a@.len(),
            nb == b@.len(),
            lex_lt_from(a@, b@, 0) == lex_lt_from(a@, b@, i as int),
        decreases na - i,
    {
        let ca = a.get_char(i);
        let cb = b.get_char(i);
        if ca != cb {
            return (ca as u32) < (cb as u32);
        }
        i += 1;
    }
    na < nb
}

proof fn lemma_tag_in_insert(r: Seq<String>, pos: int, x: String, t: Seq<char>)
    requires
        0 <= pos <= r.len(),
        tag_in(r, t) || x@ == t,
    ensures
        tag_in(r.insert(pos, x), t),
{
    if x@ == t {
        assert(r.insert(pos, x)[pos]@ == t);
    } else {
        let k = choose|k: int| 0 <= k < r.len() && (#[trigger] r[k])@ == t;
        if k < pos {
            assert(r.insert(pos, x)[k]@ == t);
        } else {
            assert(r.insert(pos, x)[k + 1]@ == t);
        }
    }
}

fn contains_string(v: &Vec<String>, s: &String) -> (r: bool)
    ensures
        r == tag_in(v@, s@),
{
    let mut k: usize = 0;
    while k < v.len()
        invariant
            0 <= k <= v@.len(),
            forall|t: int| 0 <= t < k ==> (#[trigger] v@[t])@ != s@,
        decreases v@.len() - k,
    {
        if v[k] == *s {
            return true;
        }
        k += 1;
    }
    false
}

/// The tags occurring across the projects, each once, in strictly increasing
/// lexicographic order: no tag repeats, every listed tag occurs in some
/// project, and every project's tag is listed.
pub fn get_tags(projects: &Vec<Project>) -> (r: Vec<String>)
    ensures
        tags_sorted(r@),
        forall|a: int, b: int| 0 <= a < b < r@.len() ==> (#[trigger] r@[a])@ != (#[trigger] r@[b])@,
        forall|k: int| 0 <= k < r@.len() ==> has_tag(projects@, (#[trigger] r@[k])@),
        forall|i: int, j: int|
            0 <= i < projects@.len() && 0 <= j < projects@[i].tags@.len() ==> tag_in(
                r@,
                (#[trigger] projects@[i].tags@[j])@,
            ),
{
    let n = projects.len();
    let mut r: Vec<String> = Vec::new();
    let mut i: usize = 0;
    while i < n
        invariant
            0 <= i <= n,
            n == projects@.len(),
            tags_sorted(r@),
            forall|k: int| 0 <= k < r@.len() ==> has_tag(projects@, (#[trigger] r@[k])@),
            forall|i2: int, j2: int|
                0 <= i2 < i && 0 <= j2 < projects@[i2].tags@.len() ==> tag_in(
                    r@,
                    (#[trigger] projects@[i2].tags@[j2])@,
                ),
        decreases n - i,
    {
        let m = projects[i].tags.len();
        let mut j: usize = 0;
        while j < m
            invariant
                0 <= j <= m,
                0 <= i < n,
                n == projects@.len(),
                m == projects@[i as int].tags@.len(),
                tags_sorted(r@),
                forall|k: int| 0 <= k < r@.len() ==> has_tag(projects@, (#[trigger] r@[k])@),
                forall|i2: int, j2: int|
                    0 <= i2 < i && 0 <= j2 < projects@[i2].tags@.len() ==> tag_in(
                        r@,
                        (#[trigger] projects@[i2].tags@[j2])@,
                    ),
                forall|j2: int|
                    0 <= j2 < j ==> tag_in(r@, (#[trigger] projects@[i as int].tags@[j2])@),
            decreases m - j,
        {
            let t = &projects[i].tags[j];
            if !contains_string(&r, t) {
                let ghost old_r = r@;
                let pushed = t.clone();
                let ghost pv = pushed@;
                let mut pos: usize = 0;
                while pos < r.len() && lex_less(r[pos].as_str(), pushed.as_str())
                    invariant
                        0 <= pos <= r@.len(),
                        pv == pushed@,
                        r@ == old_r,
                        forall|k: int| 0 <= k < pos ==> lex_lt((#[trigger] r@[k])@, pv),
                    decreases r@.len() - pos,
                {
                    pos += 1;
                }
                proof {
                    if pos < r.len() {
                        assert((r@[pos as int])@ != pv);
                        if !lex_lt(pv, (r@[pos as int])@) {
                            lemma_lex_from_total((r@[pos as int])@, pv, 0);
                            assert((r@[pos as int])@ =~= pv);
                        }
                    }
                }
                let ghost pstr = pushed;
                r.insert(pos, pushed);
                proof {
                    old_r.insert_ensures(pos as int, pstr);
                    assert(r@ == old_r.insert(pos as int, pstr));
                    assert(r@[pos as int] == pstr && pstr@ == pv);
                    assert forall|a2: int, b2: int| 0 <= a2 < b2 < r@.len() implies lex_lt(
                        (#[trigger] r@[a2])@,
                        (#[trigger] r@[b2])@,
                    ) by {
                        if b2 < pos {
                            assert(r@[a2] == old_r[a2] && r@[b2] == old_r[b2]);
                        } else if b2 == pos {
                            assert(r@[a2] == old_r[a2]);
                        } else {
                            assert(r@[b2] == old_r[b2 - 1]);
                            if a2 < pos {
                                assert(r@[a2] == old_r[a2]);
                                assert(a2 < b2 - 1);
                            } else if a2 == pos {
                                if b2 - 1 > pos {
                                    assert(lex_lt((old_r[pos as int])@, (old_r[b2 - 1])@));
                                    lemma_lex_from_trans(
                                        pv,
                                        (old_r[pos as int])@,
                                        (old_r[b2 - 1])@,
                                        0,
                                    );
                                }
                            } else {
                                assert(r@[a2] == old_r[a2 - 1]);
                            }
                        }
                    }
                    assert forall|k: int| 0 <= k < r@.len() implies has_tag(
                        projects@,
                        (#[trigger] r@[k])@,
                    ) by {
                        if k == pos {
                            assert(0 <= i < projects@.len() && 0 <= j
                                < projects@[i as int].tags@.len() && (projects@[i as int].tags@[
                            j as int])@ == r@[k]@);
                        } else if k < pos {
                            assert(r@[k] == old_r[k]);
                        } else {
                            assert(r@[k] == old_r[k - 1]);
                        }
                    }
                    assert forall|i2: int, j2: int|
                        0 <= i2 < i && 0 <= j2 < projects@[i2].tags@.len() implies tag_in(
                        r@,
                        (#[trigger] projects@[i2].tags@[j2])@,
                    ) by {
                        lemma_tag_in_insert(old_r, pos as int, pstr, projects@[i2].tags@[j2]@);
                    }
                    assert forall|j2: int| 0 <= j2 < j + 1 implies tag_in(
                        r@,
                        (#[trigger] projects@[i as int].tags@[j2])@,
                    ) by {
                        lemma_tag_in_insert(old_r, pos as int, pstr, projects@[i as int].tags@[j2]@);
                    }
                }
            } else {
                proof {
                    assert forall|j2: int| 0 <= j2 < j + 1 implies tag_in(
                        r@,
                        (#[trigger] projects@[i as int].tags@[j2])@,
                    ) by {}
                }
            }
            j += 1;
        }
        i += 1;
    }
    proof {
        assert forall|a: int, b: int| 0 <= a < b < r@.len() implies (#[trigger] r@[a])@ != (
        #[trigger] r@[b])@ by {
            if (r@[a])@ == (r@[b])@ {
                lemma_lex_irrefl((r@[a])@, 0);
            }
        }
    }
    r
}

/// `s` with every backtick from position `i` on followed by a zero-width
/// space, so that the text cannot close a code fence.
pub open spec fn escape_code_from(s: Seq<char>, i: int) -> Seq<char>
    decreases s.len() - i,
{
    if 0 <= i < s.len() {
        (if s[i] == '`' {
            seq!['`', '\u{200b}']
        } else {
            seq![s[i]]
        }) + escape_code_from(s, i + 1)
    } else {
        Seq::empty()
    }
}

/// Escape backticks: each is followed by a zero-width space.
pub fn escape_code(s: &str) -> (r: String)
    ensures
        r@ == escape_code_from(s@, 0),
{
    let v = crate::text::chars_of(s);
    let n = v.len();
    let mut out: Vec<char> = Vec::new();
    let mut i: usize = 0;
    while i < n
        invariant
            0 <= i <= n,
            n == v@.len(),
            v@ == s@,
            out@ + escape_code_from(s@, i as int) == escape_code_from(s@, 0),
        decreases n - i,
    {
        let ghost pre = out@;
        let c = v[i];
        if c == '`' {
            out.push('`');
            out.push('\u{200b}');
            assert(out@ =~= pre + seq!['`', '\u{200b}']);
            assert((pre + seq!['`', '\u{200b}']) + escape_code_from(s@, i + 1) =~= pre + (seq![
                '`',
                '\u{200b}',
            ] + escape_code_from(s@, i + 1)));
        } else {
            out.push(c);
            assert(out@ =~= pre + seq![c]);
            assert((pre + seq![c]) + escape_code_from(s@, i + 1) =~= pre + (seq![c]
                + escape_code_from(s@, i + 1)));
        }
        i += 1;
    }
    assert(out@ + escape_code_from(s@, i as int) =~= out@);
    crate::text::string_from_chars(&out)
}

/// One embed of a webhook message.
#[derive(Debug, Clone, PartialEq)]
pub struct Embed {
    pub title: String,
    pub description: String,
    pub color: u32,
}

/// The message posted to the webhook for a contact-form submission.
#[derive(Debug, Clone, PartialEq)]
pub struct WebhookMessage {
    pub username: String,
    pub content: Option<String>,
    pub embeds: Vec<Embed>,
}

/// The description body of a contact-form embed.
pub open spec fn spec_contact_description(
    name: Seq<char>,
    contact: Seq<char>,
    content: Seq<char>,
) -> Seq<char> {
    "From ``"@ + escape_code_from(name, 0) + "``\nContact: ``"@ + escape_code_from(contact, 0)
        + "``\n```\n"@ + escape_code_from(content, 0) + "\n```"@
}

/// Lay out a contact-form submission as the webhook's description text, every
/// field escaped.
pub fn contact_description(name: &str, contact: &str, content: &str) -> (r: String)
    ensures
        r@ == spec_contact_description(name@, contact@, content@),
{
    let mut d = String::new();
    d.append("From ``");
    let e1 = escape_code(name);
    d.append(e1.as_str());
    d.append("``\nContact: ``");
    let e2 = escape_code(contact);
    d.append(e2.as_str());
    d.append("``\n```\n");
    let e3 = escape_code(content);
    d.append(e3.as_str());
    d.append("\n```");
    d
}

/// Shape a contact-form submission as the message the webhook expects: a
/// fixed username, no plain content, and one embed carrying the escaped form
/// fields.
pub fn contact_message(name: &str, contact: &str, content: &str) -> (m: WebhookMessage)
    ensures
        m.username@ == "Website Message"@,
        m.content is None,
        m.embeds@.len() == 1,
        m.embeds@[0].title@ == "Contact Form"@,
        m.embeds@[0].description@ == spec_contact_description(name@, contact@, content@),
        m.embeds@[0].color == 0x55ff77,
{
    let description = contact_description(name, contact, content);
    let embed = Embed { title: String::from_str("Contact Form"), description, color: 0x55ff77 };
    let mut embeds: Vec<Embed> = Vec::new();
    embeds.push(embed);
    WebhookMessage { username: String::from_str("Website Message"), content: None, embeds }
}

} // verus!
