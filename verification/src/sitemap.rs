//! Assembly of the `sitemap.xml` document: one `<url>` entry per page,
//! each with a weekly change-frequency hint and the run's timestamp as
//! its last-modified date.

use vstd::prelude::*;
use vstd::string::StringExecFns;

verus! {

/// The XML prolog and the opening `<urlset>` tag with its namespaces.
pub open spec fn spec_sitemap_header() -> Seq<char> {
    "<?xml version=\"1.0\" encoding=\"UTF-8\"?>\n"@
        + "<urlset xmlns=\"http://www.sitemaps.org/schemas/sitemap/0.9\" "@
        + "xmlns:news=\"http://www.google.com/schemas/sitemap-news/0.9\" "@
        + "xmlns:xhtml=\"http://www.w3.org/1999/xhtml\" "@
        + "xmlns:mobile=\"http://www.google.com/schemas/sitemap-mobile/1.0\" "@
        + "xmlns:image=\"http://www.google.com/schemas/sitemap-image/1.1\" "@
        + "xmlns:video=\"http://www.google.com/schemas/sitemap-video/1.1\">\n"@
}

/// One `<url>` entry: the location, a weekly change frequency, and the
/// given last-modified timestamp.
pub open spec fn spec_sitemap_entry(url: Seq<char>, lastmod: Seq<char>) -> Seq<char> {
    "  <url>\n    <loc>"@ + url + "</loc>\n"@ + "    <changefreq>weekly</changefreq>\n"@
        + "    <lastmod>"@ + lastmod + "</lastmod>\n"@ + "  </url>\n"@
}

/// The entries for a list of URLs, in order.
pub open spec fn spec_sitemap_entries(urls: Seq<Seq<char>>, lastmod: Seq<char>) -> Seq<char>
    decreases urls.len(),
{
    if urls.len() == 0 {
        Seq::empty()
    } else {
        spec_sitemap_entry(urls[0], lastmod) + spec_sitemap_entries(urls.drop_first(), lastmod)
    }
}

/// The whole document: header, entries, closing tag.
pub open spec fn spec_sitemap(urls: Seq<Seq<char>>, lastmod: Seq<char>) -> Seq<char> {
    spec_sitemap_header() + spec_sitemap_entries(urls, lastmod) + "</urlset>"@
}

/// Builds the `sitemap.xml` text for the given page URLs, stamping
/// every entry with the same last-modified timestamp.
pub fn sitemap_xml(urls: &Vec<String>, lastmod: &str) -> (r: String)
    ensures
        r@ == spec_sitemap(urls@.map_values(|u: String| u@), lastmod@),
{
    let ghost uv = urls@.map_values(|u: String| u@);
    let mut out = String::new();
    out.append("<?xml version=\"1.0\" encoding=\"UTF-8\"?>\n");
    out.append("<urlset xmlns=\"http://www.sitemaps.org/schemas/sitemap/0.9\" ");
    out.append("xmlns:news=\"http://www.google.com/schemas/sitemap-news/0.9\" ");
    out.append("xmlns:xhtml=\"http://www.w3.org/1999/xhtml\" ");
    out.append("xmlns:mobile=\"http://www.google.com/schemas/sitemap-mobile/1.0\" ");
    out.append("xmlns:image=\"http://www.google.com/schemas/sitemap-image/1.1\" ");
    out.append("xmlns:video=\"http://www.google.com/schemas/sitemap-video/1.1\">\n");
    let n = urls.len();
    let mut i: usize = 0;
    proof {
        assert(uv.skip(0) =~= uv);
        assert(out@ =~= spec_sitemap_header());
    }
    while i < n
        invariant
            n == urls@.len(),
            uv == urls@.map_values(|u: String| u@),
            uv.len() == n,
            0 <= i <= n,
            out@ + spec_sitemap_entries(uv.skip(i as int), lastmod@) =~= spec_sitemap_header()
                + spec_sitemap_entries(uv, lastmod@),
        decreases n - i,
    {
        let ghost prev = out@;
        out.append("  <url>\n    <loc>");
        out.append(urls[i].as_str());
        out.append("</loc>\n");
        out.append("    <changefreq>weekly</changefreq>\n");
        out.append("    <lastmod>");
        out.append(lastmod);
        out.append("</lastmod>\n");
        out.append("  </url>\n");
        proof {
            assert(uv[i as int] == urls@[i as int]@);
            assert(out@ =~= prev + spec_sitemap_entry(uv[i as int], lastmod@));
            assert(uv.skip(i as int).drop_first() =~= uv.skip(i + 1));
        }
        i = i + 1;
    }
    out.append("</urlset>");
    proof {
        assert(uv.skip(n as int) =~= Seq::<Seq<char>>::empty());
        assert(out@ =~= spec_sitemap(uv, lastmod@));
    }
    out
}

} // verus!
