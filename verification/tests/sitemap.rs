use webserver::sitemap::{add_url, new_sitemap, url_entry_text};
use webserver::{Server, SitemapError, StringMap};

type Handler = fn(&str, StringMap, &str, StringMap) -> Result<String, String>;

const EMPTY: &str = "<?xml version=\"1.0\" encoding=\"UTF-8\"?>\n<urlset xmlns=\"http://www.sitemaps.org/schemas/sitemap/0.9\">\n</urlset>";

#[test]
fn new_sitemap_is_an_empty_urlset() {
    assert_eq!(new_sitemap(), EMPTY);
}

#[test]
fn entry_has_its_lines() {
    assert_eq!(
        url_entry_text("https://x.org/a", Some("2024-02-29"), "daily", "0.8"),
        "    <url>\n        <loc>https://x.org/a</loc>\n        <lastmod>2024-02-29</lastmod>\n        <changefreq>daily</changefreq>\n        <priority>0.8</priority>\n    </url>\n"
    );
    assert_eq!(
        url_entry_text("u", None, "never", "1"),
        "    <url>\n        <loc>u</loc>\n        <changefreq>never</changefreq>\n        <priority>1</priority>\n    </url>\n"
    );
}

#[test]
fn url_goes_before_the_last_urlset_end() {
    let changed = add_url(EMPTY, "https://x.org/a", Some("2024-01-02"), "weekly", "0.5").unwrap().unwrap();
    assert_eq!(
        changed,
        "<?xml version=\"1.0\" encoding=\"UTF-8\"?>\n<urlset xmlns=\"http://www.sitemaps.org/schemas/sitemap/0.9\">\n    <url>\n        <loc>https://x.org/a</loc>\n        <lastmod>2024-01-02</lastmod>\n        <changefreq>weekly</changefreq>\n        <priority>0.5</priority>\n    </url>\n</urlset>"
    );
    let twice = add_url("a</urlset>b</urlset>c", "u", None, "f", "p").unwrap().unwrap();
    assert_eq!(
        twice,
        "a</urlset>b    <url>\n        <loc>u</loc>\n        <changefreq>f</changefreq>\n        <priority>p</priority>\n    </url>\n</urlset>c"
    );
}

#[test]
fn listed_url_is_not_added_again() {
    let once = add_url(EMPTY, "https://x.org/a", None, "weekly", "0.5").unwrap().unwrap();
    assert_eq!(add_url(&once, "https://x.org/a", Some("2024-01-02"), "daily", "1"), Ok(None));
    let longer = add_url(&once, "https://x.org/ab", None, "weekly", "0.5").unwrap().unwrap();
    assert!(longer.contains("<loc>https://x.org/ab</loc>"));
    assert_eq!(add_url(&longer, "https://x.org/ab", None, "weekly", "0.5"), Ok(None));
    assert_eq!(add_url("no urlset but <loc>u</loc>", "u", None, "f", "p"), Ok(None));
}

#[test]
fn sitemap_without_urlset_end_takes_no_entry() {
    assert_eq!(add_url("", "u", None, "f", "p"), Err(SitemapError::MissingUrlset));
    assert_eq!(add_url("<urlset>", "u", None, "f", "p"), Err(SitemapError::MissingUrlset));
}

#[test]
fn route_is_listed_under_the_base_url() {
    let server: Server<Handler> = Server::new();
    let changed = server
        .sitemap_with_route(None, "/about", true, "monthly", "0.3", "https://x.org", "2023-12-31")
        .unwrap()
        .unwrap();
    assert_eq!(
        changed,
        "<?xml version=\"1.0\" encoding=\"UTF-8\"?>\n<urlset xmlns=\"http://www.sitemaps.org/schemas/sitemap/0.9\">\n    <url>\n        <loc>https://x.org/about</loc>\n        <lastmod>2023-12-31</lastmod>\n        <changefreq>monthly</changefreq>\n        <priority>0.3</priority>\n    </url>\n</urlset>"
    );
    let again = server.sitemap_with_route(Some(&changed), "/about", false, "daily", "1", "https://x.org", "2024-01-01");
    assert_eq!(again, Ok(None));
    let no_day = server
        .sitemap_with_route(Some(EMPTY), "/a", false, "daily", "1", "b", "2024-01-01")
        .unwrap()
        .unwrap();
    assert!(!no_day.contains("lastmod"));
    assert_eq!(
        server.sitemap_with_route(Some("broken"), "/a", false, "daily", "1", "b", "d"),
        Err(SitemapError::MissingUrlset)
    );
}

#[test]
fn static_routes_are_listed_in_the_order_of_registration() {
    let mut server: Server<Handler> = Server::new();
    server.static_route("/b", "content b");
    server.static_route("/a", "content a");
    server.static_route("/b", "content b again");
    let update = server
        .sitemap_with_static_routes(None, false, "weekly", "0.5", "https://x.org", "2024-01-01")
        .unwrap();
    assert_eq!(
        update.content,
        "<?xml version=\"1.0\" encoding=\"UTF-8\"?>\n<urlset xmlns=\"http://www.sitemaps.org/schemas/sitemap/0.9\">\n    <url>\n        <loc>https://x.org/b</loc>\n        <changefreq>weekly</changefreq>\n        <priority>0.5</priority>\n    </url>\n    <url>\n        <loc>https://x.org/a</loc>\n        <changefreq>weekly</changefreq>\n        <priority>0.5</priority>\n    </url>\n</urlset>"
    );
    assert_eq!(update.listed, Vec::<String>::new());
    let same = server
        .sitemap_with_static_routes(Some(&update.content), true, "daily", "1", "https://x.org", "2024-01-01")
        .unwrap();
    assert_eq!(same.content, update.content);
    assert_eq!(same.listed, vec!["https://x.org/b", "https://x.org/a"]);
    server.static_route("/c", "content c");
    let longer = server
        .sitemap_with_static_routes(Some(&update.content), true, "daily", "1", "https://x.org", "2024-01-01")
        .unwrap();
    assert!(longer.content.contains("<loc>https://x.org/c</loc>\n        <lastmod>2024-01-01</lastmod>"));
    assert_eq!(longer.listed, vec!["https://x.org/b", "https://x.org/a"]);
}

#[test]
fn static_routes_without_urlset_end_fail_only_when_one_is_new() {
    let mut server: Server<Handler> = Server::new();
    let untouched = server.sitemap_with_static_routes(Some("broken"), false, "f", "p", "b", "d").unwrap();
    assert_eq!(untouched.content, "broken");
    assert!(untouched.listed.is_empty());
    server.static_route("/a", "x");
    let listed = server
        .sitemap_with_static_routes(Some("broken <loc>b/a</loc>"), false, "f", "p", "b", "d")
        .unwrap();
    assert_eq!(listed.content, "broken <loc>b/a</loc>");
    assert_eq!(listed.listed, vec!["b/a"]);
    assert!(matches!(
        server.sitemap_with_static_routes(Some("broken"), false, "f", "p", "b", "d"),
        Err(SitemapError::MissingUrlset)
    ));
}

#[test]
fn add_route_to_sitemap_uses_today() {
    let server: Server<Handler> = Server::new();
    let plain = server.add_route_to_sitemap(None, "/p", false, "daily", "0.9", "https://x.org").unwrap().unwrap();
    assert_eq!(
        plain,
        "<?xml version=\"1.0\" encoding=\"UTF-8\"?>\n<urlset xmlns=\"http://www.sitemaps.org/schemas/sitemap/0.9\">\n    <url>\n        <loc>https://x.org/p</loc>\n        <changefreq>daily</changefreq>\n        <priority>0.9</priority>\n    </url>\n</urlset>"
    );
    let before = chrono::Utc::now().format("%Y-%m-%d").to_string();
    let dated = server.add_route_to_sitemap(None, "/p", true, "daily", "0.9", "https://x.org").unwrap().unwrap();
    let after = chrono::Utc::now().format("%Y-%m-%d").to_string();
    let with = |day: &str| {
        format!(
            "<?xml version=\"1.0\" encoding=\"UTF-8\"?>\n<urlset xmlns=\"http://www.sitemaps.org/schemas/sitemap/0.9\">\n    <url>\n        <loc>https://x.org/p</loc>\n        <lastmod>{}</lastmod>\n        <changefreq>daily</changefreq>\n        <priority>0.9</priority>\n    </url>\n</urlset>",
            day
        )
    };
    assert!(dated == with(&before) || dated == with(&after));
    assert_eq!(server.add_route_to_sitemap(Some(&dated), "/p", true, "daily", "0.9", "https://x.org"), Ok(None));
}

#[test]
fn generate_sitemap_does_nothing_when_switched_off() {
    let mut server: Server<Handler> = Server::new();
    server.static_route("/a", "x");
    assert!(matches!(server.generate_sitemap(None, false, true, "daily", "1", "b"), Ok(None)));
    assert!(matches!(server.generate_sitemap(Some("broken"), false, true, "daily", "1", "b"), Ok(None)));
}

#[test]
fn generate_sitemap_lists_the_static_routes() {
    let mut server: Server<Handler> = Server::new();
    server.static_route("/a", "x");
    let update = server.generate_sitemap(None, true, false, "daily", "1", "b").unwrap().unwrap();
    assert_eq!(
        update.content,
        "<?xml version=\"1.0\" encoding=\"UTF-8\"?>\n<urlset xmlns=\"http://www.sitemaps.org/schemas/sitemap/0.9\">\n    <url>\n        <loc>b/a</loc>\n        <changefreq>daily</changefreq>\n        <priority>1</priority>\n    </url>\n</urlset>"
    );
    assert!(update.listed.is_empty());
    let again = server.generate_sitemap(Some(&update.content), true, true, "hourly", "0", "b").unwrap().unwrap();
    assert_eq!(again.content, update.content);
    assert_eq!(again.listed, vec!["b/a"]);
    assert!(matches!(
        server.generate_sitemap(Some("broken"), true, true, "daily", "1", "b"),
        Err(SitemapError::MissingUrlset)
    ));
    let before = chrono::Utc::now().format("%Y-%m-%d").to_string();
    let dated = server.generate_sitemap(None, true, true, "daily", "1", "b").unwrap().unwrap();
    let after = chrono::Utc::now().format("%Y-%m-%d").to_string();
    assert!(
        dated.content.contains(&format!("<lastmod>{}</lastmod>", before))
            || dated.content.contains(&format!("<lastmod>{}</lastmod>", after))
    );
}
