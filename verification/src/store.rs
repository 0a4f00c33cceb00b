//! The document store's decisions: which directory entries count as
//! documents, which filename a slug resolves to, and how read outcomes map to
//! documents or errors. The filesystem reads themselves live outside the
//! library and hand in plain values.
use vstd::prelude::*;

use crate::post::{post_of, Post};

verus! {

/// Why a document could not be served. An unreadable file is a hard error; a
/// malformed metadata block never is.
#[derive(Debug, Clone, PartialEq, Eq, Structural)]
pub enum StoreError {
    /// No file for the requested slug exists.
    NotFound,
    /// The underlying read failed for any other reason.
    IoError,
}

/// What the filesystem gave back for one requested file.
pub enum ReadOutcome {
    /// The file exists and this is its text.
    Found(String),
    /// No such file exists.
    Missing,
    /// The read failed for any other reason.
    Failed,
}

/// One directory entry: its base filename, and its text where the entry was a
/// regular file whose read succeeded.
pub struct DirEntry {
    pub name: String,
    pub text: Option<String>,
}

/// The mathematical value of a [`DirEntry`].
#[verifier::ext_equal]
pub struct DirEntryView {
    pub name: Seq<char>,
    pub text: Option<Seq<char>>,
}

impl View for DirEntry {
    type V = DirEntryView;

    open spec fn view(&self) -> DirEntryView {
        DirEntryView {
            name: self.name@,
            text: match self.text {
                Some(t) => Some(t@),
                None => None,
            },
        }
    }
}

impl DeepView for DirEntry {
    type V = DirEntryView;

    open spec fn deep_view(&self) -> DirEntryView {
        self@
    }
}

/// The recognized document suffix.
pub open spec fn md_suffix_chars() -> Seq<char> {
    seq!['.', 'm', 'd']
}

/// Whether a filename ends in the recognized document suffix.
pub open spec fn spec_is_document_file(name: Seq<char>) -> bool {
    name.len() >= 3 && name.subrange(name.len() - 3, name.len() as int) == md_suffix_chars()
}

/// Decide whether a filename names a document: it ends in the recognized
/// suffix.
pub fn is_document_file(name: &str) -> (r: bool)
    ensures
        r == spec_is_document_file(name@),
{
    let v = crate::text::chars_of(name);
    let n = v.len();
    if n >= 3 && v[n - 3] == '.' && v[n - 2] == 'm' && v[n - 1] == 'd' {
        proof {
            assert(name@.subrange(name@.len() - 3, name@.len() as int) =~= md_suffix_chars());
        }
        true
    } else {
        proof {
            if spec_is_document_file(name@) {
                assert(name@.subrange(name@.len() - 3, name@.len() as int)[0] == '.');
                assert(name@.subrange(name@.len() - 3, name@.len() as int)[1] == 'm');
                assert(name@.subrange(name@.len() - 3, name@.len() as int)[2] == 'd');
            }
        }
        false
    }
}

/// The filename under which a slug's document is expected.
pub fn file_name_for_slug(slug: &str) -> (r: String)
    ensures
        r@ == slug@ + md_suffix_chars(),
{
    let mut v = crate::text::chars_of(slug);
    let ghost base = v@;
    v.push('.');
    v.push('m');
    v.push('d');
    assert(v@ =~= base + md_suffix_chars());
    crate::text::string_from_chars(&v)
}

/// Resolve one document by slug, given what the filesystem returned for the
/// expected filename: a read text parses (parsing never fails), a missing
/// file is `NotFound`, and any other failed read is `IoError`.
pub fn get_by_slug(slug: &str, outcome: ReadOutcome) -> (r: Result<Post, StoreError>)
    ensures
        match outcome {
            ReadOutcome::Found(text) => r matches Ok(p) && post_of(
                slug@ + md_suffix_chars(),
                text@,
                p,
            ),
            ReadOutcome::Missing => r == Err::<Post, StoreError>(StoreError::NotFound),
            ReadOutcome::Failed => r == Err::<Post, StoreError>(StoreError::IoError),
        },
{
    match outcome {
        ReadOutcome::Found(text) => {
            let name = file_name_for_slug(slug);
            Ok(Post::from_md(name.as_str(), text.as_str()))
        },
        ReadOutcome::Missing => Err(StoreError::NotFound),
        ReadOutcome::Failed => Err(StoreError::IoError),
    }
}

/// Whether a directory entry is served: a readable regular file with the
/// recognized suffix. Anything else is silently skipped.
pub open spec fn spec_keep(e: DirEntryView) -> bool {
    e.text is Some && spec_is_document_file(e.name)
}

/// The text of an entry (empty where none was read; only used under
/// [`spec_keep`], which demands a read text).
pub open spec fn text_of(e: DirEntryView) -> Seq<char> {
    match e.text {
        Some(t) => t,
        None => Seq::empty(),
    }
}

/// The entries from index `i` on that are served, in directory order.
pub open spec fn kept_from(entries: Seq<DirEntryView>, i: int) -> Seq<DirEntryView>
    decreases entries.len() - i,
{
    if 0 <= i < entries.len() {
        if spec_keep(entries[i]) {
            seq![entries[i]] + kept_from(entries, i + 1)
        } else {
            kept_from(entries, i + 1)
        }
    } else {
        Seq::empty()
    }
}

/// Each served entry parsed, in order.
pub open spec fn posts_match(es: Seq<DirEntryView>, ps: Seq<Post>) -> bool {
    &&& ps.len() == es.len()
    &&& forall|i: int| 0 <= i < es.len() ==> post_of(es[i].name, text_of(es[i]), #[trigger] ps[i])
}

/// Parse a directory listing: entries that are not readable document files
/// are silently skipped, every other entry is parsed (parsing never fails),
/// and the results keep directory-enumeration order.
pub fn list_documents(entries: &Vec<DirEntry>) -> (r: Vec<Post>)
    ensures
        posts_match(kept_from(entries.deep_view(), 0), r@),
{
    let ghost full = entries.deep_view();
    let n = entries.len();
    let mut r: Vec<Post> = Vec::new();
    let ghost mut done: Seq<DirEntryView> = Seq::empty();
    let mut i: usize = 0;
    proof {
        assert(full.len() == n) by {
            assert(entries.deep_view().len() == entries@.len());
        }
    }
    while i < n
        invariant
            0 <= i <= n,
            n == entries@.len(),
            full == entries.deep_view(),
            full.len() == n,
            kept_from(full, 0) == done + kept_from(full, i as int),
            posts_match(done, r@),
        decreases n - i,
    {
        let e = &entries[i];
        let ghost dv = full[i as int];
        proof {
            assert(dv == e.deep_view());
        }
        match &e.text {
            Some(t) => {
                if is_document_file(e.name.as_str()) {
                    let p = Post::from_md(e.name.as_str(), t.as_str());
                    let ghost old_done = done;
                    let ghost old_posts = r@;
                    r.push(p);
                    proof {
                        done = old_done.push(dv);
                        assert(spec_keep(dv));
                        assert(kept_from(full, i as int) == seq![dv] + kept_from(full, i + 1));
                        assert(old_done + (seq![dv] + kept_from(full, i + 1)) =~= (old_done + seq![
                            dv,
                        ]) + kept_from(full, i + 1));
                        assert(old_done.push(dv) =~= old_done + seq![dv]);
                        assert(text_of(dv) == t@);
                        assert(posts_match(done, r@)) by {
                            assert(r@ == old_posts.push(p));
                            assert(forall|k: int|
                                0 <= k < old_done.len() ==> done[k] == old_done[k] && r@[k]
                                    == old_posts[k]);
                            assert(done[old_done.len() as int] == dv);
                            assert(r@[old_done.len() as int] == p);
                        }
                    }
                } else {
                    proof {
                        assert(!spec_keep(dv));
                    }
                }
            },
            None => {
                proof {
                    assert(!spec_keep(dv));
                }
            },
        }
        i += 1;
    }
    proof {
        assert(kept_from(full, n as int) =~= Seq::<DirEntryView>::empty());
        assert(done + Seq::<DirEntryView>::empty() =~= done);
    }
    r
}

} // verus!
