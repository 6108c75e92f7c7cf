//! The list files that are rendered from the route paths of a site, such as
//! sitemaps.

use crate::text::{join, joined, texts_of};
use vstd::prelude::*;
use vstd::string::*;

verus! {

/// The sitemap entry of the page at `route` of the site at `origin`.
pub open spec fn sitemap_entry(origin: Seq<char>, route: Seq<char>) -> Seq<char> {
    "  <url>\n    <loc>"@ + origin + route + "</loc>\n  </url>"@
}

/// The `sitemap.xml` file of the site at `origin`: one entry for each route.
pub open spec fn sitemap_xml(origin: Seq<char>, routes: Seq<Seq<char>>) -> Seq<char> {
    "<?xml version=\"1.0\" encoding=\"UTF-8\"?>\n"@
        + "<urlset xmlns=\"http://www.sitemaps.org/schemas/sitemap/0.9\">\n"@ + joined(
        Seq::new(routes.len(), |i: int| sitemap_entry(origin, routes[i])),
        "\n"@,
    ) + "\n</urlset>"@
}

/// Renders the `sitemap.xml` file of the site at `origin`.
pub fn render_sitemap(origin: &str, routes: &Vec<String>) -> (content: String)
    ensures
        content@ == sitemap_xml(origin@, texts_of(routes@)),
{
    let ghost paths = texts_of(routes@);
    let mut entries: Vec<String> = Vec::new();
    let mut index: usize = 0;
    while index < routes.len()
        invariant
            index <= routes@.len(),
            paths == texts_of(routes@),
            entries@.len() == index,
            forall|i: int|
                0 <= i < index ==> (#[trigger] entries@[i])@ == sitemap_entry(origin@, paths[i]),
        decreases routes@.len() - index,
    {
        let mut entry = "  <url>\n    <loc>".to_owned();
        entry.append(origin);
        entry.append(routes[index].as_str());
        entry.append("</loc>\n  </url>");
        entries.push(entry);
        index = index + 1;
    }
    proof {
        assert(texts_of(entries@) =~= Seq::new(
            paths.len(),
            |i: int| sitemap_entry(origin@, paths[i]),
        ));
    }
    let mut content = "<?xml version=\"1.0\" encoding=\"UTF-8\"?>\n".to_owned();
    content.append("<urlset xmlns=\"http://www.sitemaps.org/schemas/sitemap/0.9\">\n");
    let listed = join(&entries, "\n");
    content.append(listed.as_str());
    content.append("\n</urlset>");
    content
}

/// A way to render a list file from the route paths of a site.
pub(crate) trait RenderRouteList {
    /// Whether a file may be rendered for `routes`.
    spec fn accepts(&self, routes: Seq<Seq<char>>) -> bool;

    /// Whether rendering for `routes` may give `content`.
    spec fn renders(&self, routes: Seq<Seq<char>>, content: Seq<char>) -> bool;

    /// Renders the file for `routes`.
    fn render(self: Box<Self>, routes: Vec<String>) -> (content: String)
        requires
            self.accepts(texts_of(routes@)),
        ensures
            self.renders(texts_of(routes@), content@),
    ;
}

impl<F: FnOnce(Vec<String>) -> String> RenderRouteList for F {
    open spec fn accepts(&self, routes: Seq<Seq<char>>) -> bool {
        forall|list: Vec<String>| texts_of(list@) == routes ==> call_requires(*self, (list,))
    }

    open spec fn renders(&self, routes: Seq<Seq<char>>, content: Seq<char>) -> bool {
        exists|list: Vec<String>, text: String|
            texts_of(list@) == routes && text@ == content && call_ensures(*self, (list,), text)
    }

    fn render(self: Box<Self>, routes: Vec<String>) -> (content: String) {
        let run = *self;
        run(routes)
    }
}

/// The renderer of the sitemap of the site at an origin.
struct Sitemap {
    origin: String,
}

impl RenderRouteList for Sitemap {
    open spec fn accepts(&self, routes: Seq<Seq<char>>) -> bool {
        true
    }

    closed spec fn renders(&self, routes: Seq<Seq<char>>, content: Seq<char>) -> bool {
        content == sitemap_xml(self.origin@, routes)
    }

    fn render(self: Box<Self>, routes: Vec<String>) -> (content: String) {
        render_sitemap(self.origin.as_str(), &routes)
    }
}

/// Renders a list file from the route paths of a site. It is used once.
pub struct RouteListRenderer {
    renderer: Box<dyn RenderRouteList>,
}

impl RouteListRenderer {
    #[verifier::type_invariant]
    spec fn total(&self) -> bool {
        forall|routes: Seq<Seq<char>>| self.renderer.accepts(routes)
    }

    /// Whether rendering the file for `routes` may give `content`.
    pub closed spec fn renders(&self, routes: Seq<Seq<char>>, content: Seq<char>) -> bool {
        self.renderer.renders(routes, content)
    }

    /// Whether this renderer is `render`: it gives exactly what a call of
    /// `render` may return.
    pub open spec fn defers<F: FnOnce(Vec<String>) -> String>(&self, render: F) -> bool {
        forall|routes: Seq<Seq<char>>, content: Seq<char>|
            self.renders(routes, content) <==> exists|list: Vec<String>, text: String|
                texts_of(list@) == routes && text@ == content && call_ensures(
                    render,
                    (list,),
                    text,
                )
    }

    /// Makes a renderer of `render`, which must take every list.
    pub fn new<F: FnOnce(Vec<String>) -> String + 'static>(render: F) -> (renderer:
        RouteListRenderer)
        requires
            forall|list: Vec<String>| call_requires(render, (list,)),
        ensures
            renderer.defers(render),
    {
        RouteListRenderer { renderer: Box::new(render) }
    }

    /// Renders the file for `routes`.
    pub fn render(self, routes: Vec<String>) -> (content: String)
        ensures
            self.renders(texts_of(routes@), content@),
    {
        proof {
            use_type_invariant(&self);
        }
        self.renderer.render(routes)
    }
}

/// A list file to render from the route paths of a site.
pub struct RouteList {
    /// The name of the file.
    pub file_name: &'static str,
    /// What renders the content of the file from the route paths.
    pub content_renderer: RouteListRenderer,
    /// Whether the sources of redirects are listed behind the route paths.
    pub include_redirects: bool,
}

impl RouteList {
    /// The sitemap of the site at `origin_url`: `sitemap.xml`, with one entry
    /// for each route, and none for redirects.
    pub fn sitemap(origin_url: String) -> (list: RouteList)
        ensures
            list.file_name@ == "sitemap.xml"@,
            !list.include_redirects,
            forall|routes: Seq<Seq<char>>, content: Seq<char>|
                list.content_renderer.renders(routes, content) <==> content == sitemap_xml(
                    origin_url@,
                    routes,
                ),
    {
        RouteList {
            file_name: "sitemap.xml",
            content_renderer: RouteListRenderer {
                renderer: Box::new(Sitemap { origin: origin_url }),
            },
            include_redirects: false,
        }
    }
}

} // verus!
