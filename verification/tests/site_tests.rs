use site_core::projects::{Link, Project};
use site_core::site::{contact_message, escape_code, get_tags};

fn project(title: &str, tags: &[&str]) -> Project {
    Project {
        title: title.to_string(),
        description: String::new(),
        languages: vec![],
        status: "done".to_string(),
        source: String::new(),
        links: vec![Link { name: "home".to_string(), dest: "https://example.net".to_string() }],
        tags: tags.iter().map(|t| t.to_string()).collect(),
    }
}

#[test]
fn get_tags_deduplicates_across_projects() {
    let projects = vec![
        project("one", &["web", "game"]),
        project("two", &[]),
        project("three", &["game", "tool", "web"]),
    ];
    let tags = get_tags(&projects);
    assert_eq!(tags, vec!["game", "tool", "web"]);
}

#[test]
fn get_tags_of_no_projects_is_empty() {
    let projects: Vec<Project> = vec![];
    assert!(get_tags(&projects).is_empty());
}

#[test]
fn escape_code_pads_backticks() {
    assert_eq!(escape_code("a`b"), "a`\u{200b}b");
    assert_eq!(escape_code("``"), "`\u{200b}`\u{200b}");
    assert_eq!(escape_code("plain"), "plain");
    assert_eq!(escape_code(""), "");
}

#[test]
fn contact_message_shape() {
    let m = contact_message("Ann", "ann@example.net", "hi `there`");
    assert_eq!(m.username, "Website Message");
    assert!(m.content.is_none());
    assert_eq!(m.embeds.len(), 1);
    assert_eq!(m.embeds[0].title, "Contact Form");
    assert_eq!(m.embeds[0].color, 0x55ff77);
    assert_eq!(
        m.embeds[0].description,
        "From ``Ann``\nContact: ``ann@example.net``\n```\nhi `\u{200b}there`\u{200b}\n```"
    );
}
