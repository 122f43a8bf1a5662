use rusty_crawler::crawler::ScrapeOption;
use rusty_crawler::image_utils::{all_images, get_extension};
use rusty_crawler::model::image::Image;
use rusty_crawler::model::link_graph::LinkGraph;
use rusty_crawler::scrape::{extract_page, resolve_link, resolve_links};

fn s(x: &str) -> String {
    String::from(x)
}

#[test]
fn resolve_link_joins_relative_paths() {
    let r = resolve_link("/services/", "https://google.com/");
    assert_eq!(r, Some(s("https://google.com/services/")));
}

#[test]
fn resolve_link_keeps_absolute_urls() {
    let r = resolve_link("https://other.example/page", "https://google.com/");
    assert_eq!(r, Some(s("https://other.example/page")));
}

#[test]
fn resolve_link_normalizes_absolute_urls() {
    // scheme and host are lowercased and a path is supplied: the result is
    // the parsed URL's serialization, not the input handed back
    let r = resolve_link("HTTPS://Site.Example", "https://base.example/");
    assert_eq!(r, Some(s("https://site.example/")));
}

#[test]
fn resolve_link_drops_hopeless_input() {
    // neither an absolute URL nor resolvable against a base that is no URL
    assert_eq!(resolve_link("/x", "not a url"), None);
}

#[test]
fn resolve_links_keeps_order_and_drops_failures() {
    let links = vec![s("a.html"), s("https://b.example/"), s("/c")];
    let r = resolve_links(&links, "https://site.example/dir/");
    assert_eq!(
        r,
        vec![
            s("https://site.example/dir/a.html"),
            s("https://b.example/"),
            s("https://site.example/c"),
        ]
    );
}

#[test]
fn extract_page_finds_links() {
    let html = r#"<html><body>
        <a href="/x">x</a>
        <a>no href</a>
        <a href="https://other.example/">other</a>
    </body></html>"#;
    let out = extract_page("https://site.example/", html, &[]);
    assert_eq!(out.links, vec![s("https://site.example/x"), s("https://other.example/")]);
    assert!(out.images.is_empty());
    assert!(out.titles.is_empty());
}

#[test]
fn extract_page_collects_images_when_asked() {
    let html = r#"<html><body>
        <img src="a.png" alt="pic">
        <img src="b.png">
        <img alt="no source">
    </body></html>"#;
    let out = extract_page("https://site.example/", html, &[ScrapeOption::Images]);
    assert_eq!(out.images.len(), 2);
    assert_eq!(out.images[0].link, "https://site.example/a.png");
    assert_eq!(out.images[0].alt, "pic");
    assert_eq!(out.images[1].link, "https://site.example/b.png");
    assert_eq!(out.images[1].alt, "");
    // without the option the very same page yields no images
    let bare = extract_page("https://site.example/", html, &[]);
    assert!(bare.images.is_empty());
}

#[test]
fn extract_page_collects_titles_when_asked() {
    let html = r#"<html><head><title>The Title</title></head><body>
        <h1>First</h1>
        <h2>Second</h2>
        <h1>Another first</h1>
    </body></html>"#;
    let out = extract_page(
        "https://site.example/",
        html,
        &[ScrapeOption::Images, ScrapeOption::Titles],
    );
    assert_eq!(
        out.titles,
        vec![s("First"), s("Another first"), s("Second"), s("The Title")]
    );
}

#[test]
fn get_extension_maps_supported_content_types() {
    assert_eq!(get_extension("image/gif"), Some("gif"));
    assert_eq!(get_extension("image/jpeg"), Some("jpg"));
    assert_eq!(get_extension("image/png"), Some("png"));
    assert_eq!(get_extension("image/svg+xml"), Some("svg"));
    assert_eq!(get_extension("image/webp"), Some("webp"));
    assert_eq!(get_extension("image/tiff"), Some("tif"));
    assert_eq!(get_extension("text/html"), None);
    assert_eq!(get_extension(""), None);
}

#[test]
fn all_images_flattens_in_id_order() {
    let mut g = LinkGraph::new();
    let first = [Image { link: s("https://a.example/1.png"), alt: s("one") }];
    let second = [
        Image { link: s("https://b.example/2.png"), alt: s("two") },
        Image { link: s("https://b.example/3.png"), alt: s("") },
    ];
    g.update("https://a.example/", "", &[], &first, &[]).unwrap();
    g.update("https://b.example/", "", &[], &second, &[]).unwrap();
    let images = all_images(&g);
    let links: Vec<&str> = images.iter().map(|i| i.link.as_str()).collect();
    assert_eq!(
        links,
        vec![
            "https://a.example/1.png",
            "https://b.example/2.png",
            "https://b.example/3.png",
        ]
    );
}
