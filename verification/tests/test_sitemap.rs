use wiserone::sitemap::sitemap_xml;

/// With no pages the document is just the prolog, the namespaced
/// `urlset` and its closing tag.
#[test]
fn test_sitemap_no_urls() {
    let xml = sitemap_xml(&Vec::new(), "2024-01-05T00:00:00+00:00");
    assert!(xml.starts_with("<?xml version=\"1.0\" encoding=\"UTF-8\"?>\n<urlset xmlns="));
    assert!(xml.ends_with("</urlset>"));
    assert!(!xml.contains("<loc>"));
}

/// Each URL gets one entry with the weekly hint and the shared
/// last-modified stamp.
#[test]
fn test_sitemap_entries() {
    let urls = vec![
        "https://example.com/docs/2024_01_01.html".to_string(),
        "https://example.com/docs/2024_01_02.html".to_string(),
    ];
    let xml = sitemap_xml(&urls, "2024-01-05T08:30:00+00:00");
    let mut expected = String::new();
    expected.push_str("<?xml version=\"1.0\" encoding=\"UTF-8\"?>\n");
    expected.push_str("<urlset xmlns=\"http://www.sitemaps.org/schemas/sitemap/0.9\" ");
    expected.push_str("xmlns:news=\"http://www.google.com/schemas/sitemap-news/0.9\" ");
    expected.push_str("xmlns:xhtml=\"http://www.w3.org/1999/xhtml\" ");
    expected.push_str("xmlns:mobile=\"http://www.google.com/schemas/sitemap-mobile/1.0\" ");
    expected.push_str("xmlns:image=\"http://www.google.com/schemas/sitemap-image/1.1\" ");
    expected.push_str("xmlns:video=\"http://www.google.com/schemas/sitemap-video/1.1\">\n");
    for name in ["2024_01_01", "2024_01_02"] {
        expected.push_str("  <url>\n");
        expected.push_str(&format!("    <loc>https://example.com/docs/{}.html</loc>\n", name));
        expected.push_str("    <changefreq>weekly</changefreq>\n");
        expected.push_str("    <lastmod>2024-01-05T08:30:00+00:00</lastmod>\n");
        expected.push_str("  </url>\n");
    }
    expected.push_str("</urlset>");
    assert_eq!(xml, expected);
}
