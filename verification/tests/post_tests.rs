use site_core::post::{slugify, Post};

#[test]
fn from_md_test() {
    let string = r#"
    ---
    {
        title: 'Hello World',
        tags: ['a', 'b'],
        description: 'Good day, wonderful planet'
    }
    ---

    # My content
    "#;

    let p = Post::from_md("my-file.md", string);

    assert_eq!(p.content.trim(), "# My content");
    assert_eq!(p.slug, "my-file");
    assert_eq!(p.hidden, false);
    assert_eq!(p.frontmatter.clone().unwrap().title.unwrap(), "Hello World");
    assert_eq!(p.frontmatter.clone().unwrap().tags.unwrap(), &["a", "b"]);
    assert!(p.frontmatter.clone().unwrap().date.is_none());
    assert_eq!(
        p.frontmatter.unwrap().description.unwrap(),
        "Good day, wonderful planet"
    );
}

#[test]
fn from_md_test2() {
    let string = r#"
    ---
    {
        title: 'Hello World (Hidden)',
        tags: ['a', 'c'],
        description: 'Good day, wonderful planet'
    }
    ---
    # This is also content
    "#;

    let p = Post::from_md("_my-hidden-file.md", string);

    assert_eq!(p.content.trim(), "# This is also content");
    assert_eq!(p.slug, "my-hidden-file");
    assert_eq!(p.hidden, true);
    assert_eq!(
        p.frontmatter.clone().unwrap().title.unwrap(),
        "Hello World (Hidden)"
    );
    assert_eq!(p.frontmatter.clone().unwrap().tags.unwrap(), &["a", "c"]);
    assert!(p.frontmatter.clone().unwrap().date.is_none());
    assert_eq!(
        p.frontmatter.unwrap().description.unwrap(),
        "Good day, wonderful planet"
    );
}

#[test]
fn parse_is_idempotent() {
    let text = "---\n{title: 'T', tags: ['x'], date: '2021-06-01'}\n---\n\nbody line\nsecond";
    let a = Post::from_md("a file.md", text);
    let b = Post::from_md("a file.md", text);
    assert_eq!(a, b);
}

#[test]
fn no_metadata_block_keeps_trimmed_text() {
    let text = "  first line\nsecond line\n\nfourth line  ";
    let p = Post::from_md("plain.md", text);
    assert!(p.frontmatter.is_none());
    assert_eq!(p.content, "first line\nsecond line\n\nfourth line");
}

#[test]
fn dashes_with_extra_characters_are_no_delimiter() {
    let p = Post::from_md("x.md", "----\ncontent");
    assert!(p.frontmatter.is_none());
    assert_eq!(p.content, "----\ncontent");
}

#[test]
fn empty_text_gives_empty_content() {
    let p = Post::from_md("x.md", "   \n  ");
    assert!(p.frontmatter.is_none());
    assert_eq!(p.content, "");
    assert_eq!(p.slug, "x");
}

#[test]
fn block_without_body_gives_empty_content() {
    let p = Post::from_md("x.md", "---\n{title: 'only meta'}\n---");
    assert_eq!(p.content, "");
    assert_eq!(p.frontmatter.unwrap().title.unwrap(), "only meta");
}

#[test]
fn unterminated_block_degrades_to_absent_metadata() {
    let p = Post::from_md("x.md", "---\n{title: 'never closed'\nmore text");
    assert!(p.frontmatter.is_none());
    assert_eq!(p.content, "");
}

#[test]
fn unterminated_block_with_wellformed_buffer_still_decodes() {
    let p = Post::from_md("x.md", "---\n{}");
    let fm = p.frontmatter.unwrap();
    assert!(fm.title.is_none());
    assert!(fm.tags.is_none());
    assert!(fm.date.is_none());
    assert!(fm.description.is_none());
    assert_eq!(p.content, "");
}

#[test]
fn malformed_metadata_is_not_an_error() {
    for bad in [
        "---\n{title: }\n---\nbody",
        "---\n{title: 'x' title: 'y'}\n---\nbody",
        "---\n{title: 'x', title: 'y'}\n---\nbody",
        "---\n{title: ['not', 'a', 'string']}\n---\nbody",
        "---\n{tags: 'not a list'}\n---\nbody",
        "---\nnot an object at all\n---\nbody",
        "---\n{title: 'x'} trailing\n---\nbody",
    ] {
        let p = Post::from_md("x.md", bad);
        assert!(p.frontmatter.is_none());
        assert_eq!(p.content, "\nbody");
    }
}

#[test]
fn lenient_grammar_variants_decode() {
    let text = "---\n{'title': \"Quoted\", tags: [], date: '2020-02-02', extra: 7, more: [true, 'x',],}\n---\nbody";
    let p = Post::from_md("x.md", text);
    let fm = p.frontmatter.unwrap();
    assert_eq!(fm.title.unwrap(), "Quoted");
    assert_eq!(fm.tags.unwrap().len(), 0);
    assert_eq!(fm.date.unwrap(), "2020-02-02");
    assert!(fm.description.is_none());
    assert_eq!(p.content, "\nbody");
}

#[test]
fn string_escapes_decode() {
    let p = Post::from_md("x.md", "---\n{title: 'a\\nb\\t\\'c\\\\'}\n---\nbody");
    assert_eq!(p.frontmatter.unwrap().title.unwrap(), "a\nb\t'c\\");
}

#[test]
fn null_under_known_keys_leaves_fields_absent() {
    let p = Post::from_md("x.md", "---\n{title: null, description: 'x', tags: null}\n---\nbody");
    let fm = p.frontmatter.unwrap();
    assert!(fm.title.is_none());
    assert!(fm.tags.is_none());
    assert!(fm.date.is_none());
    assert_eq!(fm.description.unwrap(), "x");
    assert_eq!(p.content, "\nbody");
}

#[test]
fn nested_values_under_unknown_keys_are_skipped() {
    let text =
        "---\n{meta: {a: 1, b: [1, {c: 'd'},], e: {}}, list: [[1, 2], ['x']], title: 'T'}\n---\nbody";
    let p = Post::from_md("x.md", text);
    assert_eq!(p.frontmatter.unwrap().title.unwrap(), "T");
}

#[test]
fn unicode_escapes_decode() {
    let p = Post::from_md("x.md", "---\n{title: 'a\\u0041\\u00e9b'}\n---\nbody");
    assert_eq!(p.frontmatter.unwrap().title.unwrap(), "aA\u{e9}b");
}

#[test]
fn surrogate_escape_degrades_to_absent_metadata() {
    let p = Post::from_md("x.md", "---\n{title: '\\ud800'}\n---\nbody");
    assert!(p.frontmatter.is_none());
    assert_eq!(p.content, "\nbody");
}

#[test]
fn crlf_separators_are_rebuilt_as_lf() {
    let p = Post::from_md("x.md", "a\r\nb\r\nc");
    assert!(p.frontmatter.is_none());
    assert_eq!(p.content, "a\nb\nc");
}

#[test]
fn delimiter_lines_are_trimmed_before_comparison() {
    let p = Post::from_md("x.md", "---  \n{title: 'T'}\n   ---\nbody");
    assert_eq!(p.frontmatter.unwrap().title.unwrap(), "T");
    assert_eq!(p.content, "\nbody");
}

#[test]
fn slug_is_derived_from_filename_alone() {
    let a = Post::from_md("some name.md", "one text");
    let b = Post::from_md("some name.md", "a wholly different\ntext");
    assert_eq!(a.slug, "some-name");
    assert_eq!(a.slug, b.slug);
    assert!(!a.slug.contains(char::is_whitespace));
}

#[test]
fn slug_collapses_whitespace_runs() {
    assert_eq!(slugify("a  b\t c"), "a-b-c");
    assert_eq!(slugify("  lead and trail  "), "lead-and-trail");
    assert_eq!(slugify(""), "");
}

#[test]
fn hidden_follows_the_marker_alone() {
    assert_eq!(Post::from_md("_x.md", "text").hidden, true);
    assert_eq!(Post::from_md("x.md", "text").hidden, false);
    assert_eq!(Post::from_md("_x.md", "other").hidden, true);
}

#[test]
fn filename_markers_strip_once() {
    assert_eq!(Post::from_md("__double.md", "t").slug, "_double");
    assert_eq!(Post::from_md("a.md.md", "t").slug, "a.md");
    assert_eq!(Post::from_md("_.md", "t").slug, "");
}
