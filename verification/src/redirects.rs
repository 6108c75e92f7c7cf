//! Redirects as the renderers see them, the page that is rendered for a
//! redirect, and the list files that tell a static host about redirects.

use crate::text::{join, joined, texts_of};
use vstd::prelude::*;
use vstd::string::*;

verus! {

/// A redirect from a source path to a target path.
#[derive(Debug, Clone)]
pub struct Redirect {
    pub source: String,
    pub target: String,
}

impl View for Redirect {
    type V = (Seq<char>, Seq<char>);

    open spec fn view(&self) -> (Seq<char>, Seq<char>) {
        (self.source@, self.target@)
    }
}

/// The source and target of each redirect of `redirects`.
pub open spec fn redirect_pairs(redirects: Seq<Redirect>) -> Seq<(Seq<char>, Seq<char>)> {
    Seq::new(redirects.len(), |i: int| redirects[i]@)
}

/// The page rendered for a redirect to `target`: it sends the browser on by
/// a refresh tag and by a script, and shows a link for where both fail.
pub open spec fn base_redirect_html(target: Seq<char>) -> Seq<char> {
    "<!DOCTYPE HTML>\n<html lang=\"en\">\n<head>\n    <meta charset=\"UTF-8\">\n    <meta http-equiv=\"refresh\" content=\"0; url="@
        + target
        + "\">\n    <meta name=\"viewport\" content=\"width=device-width, initial-scale=1.0\">\n    <title>Page Redirection</title>\n</head>\n<body>\n    <script>\n        (function() {\n            window.location.replace(\""@
        + target + "\");\n        })();\n    </script>\n\n    <p>Redirecting to <a href=\""@
        + target + "\">"@ + target + "</a>...</p>\n</body>\n</html>"@
}

/// The line that tells Cloudflare Pages of one redirect.
pub open spec fn cloudflare_rule(redirect: (Seq<char>, Seq<char>)) -> Seq<char> {
    redirect.0 + " "@ + redirect.1
}

/// The `_redirects` file for Cloudflare Pages: one line for each redirect.
pub open spec fn cloudflare_redirects(redirects: Seq<(Seq<char>, Seq<char>)>) -> Seq<char> {
    joined(Seq::new(redirects.len(), |i: int| cloudflare_rule(redirects[i])), "\n"@)
}

/// The table that tells Static Web Server of one redirect.
pub open spec fn static_web_server_rule(redirect: (Seq<char>, Seq<char>)) -> Seq<char> {
    "[[advanced.redirects]]\nsource = \""@ + redirect.0 + "\"\ndestination = \""@ + redirect.1
        + "\"\nkind = 302"@
}

/// The `config.toml` file for Static Web Server: one table for each
/// redirect.
pub open spec fn static_web_server_redirects(redirects: Seq<(Seq<char>, Seq<char>)>) -> Seq<char> {
    "[advanced]\n\n"@ + joined(
        Seq::new(redirects.len(), |i: int| static_web_server_rule(redirects[i])),
        "\n\n"@,
    )
}

/// Renders the page for a redirect to `target`.
pub fn render_base_redirect_page(target: &str) -> (html: String)
    ensures
        html@ == base_redirect_html(target@),
{
    let mut html = "<!DOCTYPE HTML>\n<html lang=\"en\">\n<head>\n    <meta charset=\"UTF-8\">\n    <meta http-equiv=\"refresh\" content=\"0; url=".to_owned();
    html.append(target);
    html.append(
        "\">\n    <meta name=\"viewport\" content=\"width=device-width, initial-scale=1.0\">\n    <title>Page Redirection</title>\n</head>\n<body>\n    <script>\n        (function() {\n            window.location.replace(\"",
    );
    html.append(target);
    html.append("\");\n        })();\n    </script>\n\n    <p>Redirecting to <a href=\"");
    html.append(target);
    html.append("\">");
    html.append(target);
    html.append("</a>...</p>\n</body>\n</html>");
    html
}

/// Renders the `_redirects` file for Cloudflare Pages.
pub fn render_cloudflare_redirects(redirects: &Vec<Redirect>) -> (content: String)
    ensures
        content@ == cloudflare_redirects(redirect_pairs(redirects@)),
{
    let ghost pairs = redirect_pairs(redirects@);
    let mut rules: Vec<String> = Vec::new();
    let mut index: usize = 0;
    while index < redirects.len()
        invariant
            index <= redirects@.len(),
            pairs == redirect_pairs(redirects@),
            rules@.len() == index,
            forall|i: int| 0 <= i < index ==> (#[trigger] rules@[i])@ == cloudflare_rule(pairs[i]),
        decreases redirects@.len() - index,
    {
        let mut rule = redirects[index].source.clone();
        rule.append(" ");
        rule.append(redirects[index].target.as_str());
        rules.push(rule);
        index = index + 1;
    }
    proof {
        assert(texts_of(rules@) =~= Seq::new(pairs.len(), |i: int| cloudflare_rule(pairs[i])));
    }
    join(&rules, "\n")
}

/// Renders the `config.toml` file for Static Web Server.
pub fn render_static_web_server_redirects(redirects: &Vec<Redirect>) -> (content: String)
    ensures
        content@ == static_web_server_redirects(redirect_pairs(redirects@)),
{
    let ghost pairs = redirect_pairs(redirects@);
    let mut rules: Vec<String> = Vec::new();
    let mut index: usize = 0;
    while index < redirects.len()
        invariant
            index <= redirects@.len(),
            pairs == redirect_pairs(redirects@),
            rules@.len() == index,
            forall|i: int|
                0 <= i < index ==> (#[trigger] rules@[i])@ == static_web_server_rule(pairs[i]),
        decreases redirects@.len() - index,
    {
        let mut rule = "[[advanced.redirects]]\nsource = \"".to_owned();
        rule.append(redirects[index].source.as_str());
        rule.append("\"\ndestination = \"");
        rule.append(redirects[index].target.as_str());
        rule.append("\"\nkind = 302");
        rules.push(rule);
        index = index + 1;
    }
    proof {
        assert(texts_of(rules@) =~= Seq::new(
            pairs.len(),
            |i: int| static_web_server_rule(pairs[i]),
        ));
    }
    let mut content = "[advanced]\n\n".to_owned();
    let tables = join(&rules, "\n\n");
    content.append(tables.as_str());
    content
}

/// A way to render the page for a redirect, given its target.
pub(crate) trait RenderRedirectPage {
    /// Whether a page may be rendered for `target`.
    spec fn accepts(&self, target: Seq<char>) -> bool;

    /// Whether rendering for `target` may give `html`.
    spec fn renders(&self, target: Seq<char>, html: Seq<char>) -> bool;

    /// Renders the page for a redirect to `target`.
    fn render(&self, target: &str) -> (html: String)
        requires
            self.accepts(target@),
        ensures
            self.renders(target@, html@),
    ;
}

impl<F: Fn(&str) -> String> RenderRedirectPage for F {
    open spec fn accepts(&self, target: Seq<char>) -> bool {
        forall|path: &str| path@ == target ==> call_requires(*self, (path,))
    }

    open spec fn renders(&self, target: Seq<char>, html: Seq<char>) -> bool {
        exists|path: &str, text: String|
            path@ == target && text@ == html && call_ensures(*self, (path,), text)
    }

    fn render(&self, target: &str) -> (html: String) {
        self(target)
    }
}

/// The renderer of the built-in redirect page.
struct BaseRedirectPage;

impl RenderRedirectPage for BaseRedirectPage {
    open spec fn accepts(&self, target: Seq<char>) -> bool {
        true
    }

    open spec fn renders(&self, target: Seq<char>, html: Seq<char>) -> bool {
        html == base_redirect_html(target)
    }

    fn render(&self, target: &str) -> (html: String) {
        render_base_redirect_page(target)
    }
}

/// Renders the page that stands for a redirect, given the target path.
pub struct RedirectPageRenderer {
    renderer: Box<dyn RenderRedirectPage>,
}

impl RedirectPageRenderer {
    #[verifier::type_invariant]
    spec fn total(&self) -> bool {
        forall|target: Seq<char>| self.renderer.accepts(target)
    }

    /// Whether rendering the page for a redirect to `target` may give
    /// `html`.
    pub closed spec fn renders(&self, target: Seq<char>, html: Seq<char>) -> bool {
        self.renderer.renders(target, html)
    }

    /// Whether this renderer is `render`: it gives exactly what a call of
    /// `render` may return.
    pub open spec fn defers<F: Fn(&str) -> String>(&self, render: F) -> bool {
        forall|target: Seq<char>, html: Seq<char>|
            self.renders(target, html) <==> exists|path: &str, text: String|
                path@ == target && text@ == html && call_ensures(render, (path,), text)
    }

    /// Makes a renderer of `render`, which must take every target.
    pub fn new<F: Fn(&str) -> String + 'static>(render: F) -> (renderer: RedirectPageRenderer)
        requires
            forall|path: &str| call_requires(render, (path,)),
        ensures
            renderer.defers(render),
    {
        RedirectPageRenderer { renderer: Box::new(render) }
    }

    /// Renders the page for a redirect to `target`.
    pub fn render(&self, target: &str) -> (html: String)
        ensures
            self.renders(target@, html@),
    {
        proof {
            use_type_invariant(self);
        }
        self.renderer.render(target)
    }
}

impl Redirect {
    /// Returns the built-in redirect page renderer.
    pub fn base_redirect_page() -> (renderer: RedirectPageRenderer)
        ensures
            forall|target: Seq<char>, html: Seq<char>|
                renderer.renders(target, html) <==> html == base_redirect_html(target),
    {
        RedirectPageRenderer { renderer: Box::new(BaseRedirectPage) }
    }
}

/// A way to render a list file from the redirects of a site.
pub(crate) trait RenderRedirectList {
    /// Whether a file may be rendered for `redirects`.
    spec fn accepts(&self, redirects: Seq<(Seq<char>, Seq<char>)>) -> bool;

    /// Whether rendering for `redirects` may give `content`.
    spec fn renders(&self, redirects: Seq<(Seq<char>, Seq<char>)>, content: Seq<char>) -> bool;

    /// Renders the file for `redirects`.
    fn render(self: Box<Self>, redirects: Vec<Redirect>) -> (content: String)
        requires
            self.accepts(redirect_pairs(redirects@)),
        ensures
            self.renders(redirect_pairs(redirects@), content@),
    ;
}

impl<F: FnOnce(Vec<Redirect>) -> String> RenderRedirectList for F {
    open spec fn accepts(&self, redirects: Seq<(Seq<char>, Seq<char>)>) -> bool {
        forall|list: Vec<Redirect>|
            redirect_pairs(list@) == redirects ==> call_requires(*self, (list,))
    }

    open spec fn renders(&self, redirects: Seq<(Seq<char>, Seq<char>)>, content: Seq<char>) -> bool {
        exists|list: Vec<Redirect>, text: String|
            redirect_pairs(list@) == redirects && text@ == content && call_ensures(
                *self,
                (list,),
                text,
            )
    }

    fn render(self: Box<Self>, redirects: Vec<Redirect>) -> (content: String) {
        let run = *self;
        run(redirects)
    }
}

/// The renderer of the list file for Cloudflare Pages.
struct CloudflareRedirects;

impl RenderRedirectList for CloudflareRedirects {
    open spec fn accepts(&self, redirects: Seq<(Seq<char>, Seq<char>)>) -> bool {
        true
    }

    open spec fn renders(&self, redirects: Seq<(Seq<char>, Seq<char>)>, content: Seq<char>) -> bool {
        content == cloudflare_redirects(redirects)
    }

    fn render(self: Box<Self>, redirects: Vec<Redirect>) -> (content: String) {
        render_cloudflare_redirects(&redirects)
    }
}

/// The renderer of the list file for Static Web Server.
struct StaticWebServerRedirects;

impl RenderRedirectList for StaticWebServerRedirects {
    open spec fn accepts(&self, redirects: Seq<(Seq<char>, Seq<char>)>) -> bool {
        true
    }

    open spec fn renders(&self, redirects: Seq<(Seq<char>, Seq<char>)>, content: Seq<char>) -> bool {
        content == static_web_server_redirects(redirects)
    }

    fn render(self: Box<Self>, redirects: Vec<Redirect>) -> (content: String) {
        render_static_web_server_redirects(&redirects)
    }
}

/// Renders a list file from the redirects of a site. It is used once.
pub struct RedirectListRenderer {
    renderer: Box<dyn RenderRedirectList>,
}

impl RedirectListRenderer {
    #[verifier::type_invariant]
    spec fn total(&self) -> bool {
        forall|redirects: Seq<(Seq<char>, Seq<char>)>| self.renderer.accepts(redirects)
    }

    /// Whether rendering the file for `redirects` may give `content`.
    pub closed spec fn renders(
        &self,
        redirects: Seq<(Seq<char>, Seq<char>)>,
        content: Seq<char>,
    ) -> bool {
        self.renderer.renders(redirects, content)
    }

    /// Whether this renderer is `render`: it gives exactly what a call of
    /// `render` may return.
    pub open spec fn defers<F: FnOnce(Vec<Redirect>) -> String>(&self, render: F) -> bool {
        forall|redirects: Seq<(Seq<char>, Seq<char>)>, content: Seq<char>|
            self.renders(redirects, content) <==> exists|list: Vec<Redirect>, text: String|
                redirect_pairs(list@) == redirects && text@ == content && call_ensures(
                    render,
                    (list,),
                    text,
                )
    }

    /// Makes a renderer of `render`, which must take every list.
    pub fn new<F: FnOnce(Vec<Redirect>) -> String + 'static>(render: F) -> (renderer:
        RedirectListRenderer)
        requires
            forall|list: Vec<Redirect>| call_requires(render, (list,)),
        ensures
            renderer.defers(render),
    {
        RedirectListRenderer { renderer: Box::new(render) }
    }

    /// Renders the file for `redirects`.
    pub fn render(self, redirects: Vec<Redirect>) -> (content: String)
        ensures
            self.renders(redirect_pairs(redirects@), content@),
    {
        proof {
            use_type_invariant(&self);
        }
        self.renderer.render(redirects)
    }
}

/// A list file to render from the redirects of a site.
pub struct RedirectList {
    /// The name of the file.
    pub file_name: &'static str,
    /// What renders the content of the file from the redirects.
    pub content_renderer: RedirectListRenderer,
}

impl RedirectList {
    /// The list file for Cloudflare Pages: `_redirects`, with one line for
    /// each redirect.
    pub fn for_cloudflare_pages() -> (list: RedirectList)
        ensures
            list.file_name@ == "_redirects"@,
            forall|redirects: Seq<(Seq<char>, Seq<char>)>, content: Seq<char>|
                list.content_renderer.renders(redirects, content) <==> content
                    == cloudflare_redirects(redirects),
    {
        RedirectList {
            file_name: "_redirects",
            content_renderer: RedirectListRenderer { renderer: Box::new(CloudflareRedirects) },
        }
    }

    /// The list file for Static Web Server: `config.toml`, with one table for
    /// each redirect.
    pub fn for_static_web_server() -> (list: RedirectList)
        ensures
            list.file_name@ == "config.toml"@,
            forall|redirects: Seq<(Seq<char>, Seq<char>)>, content: Seq<char>|
                list.content_renderer.renders(redirects, content) <==> content
                    == static_web_server_redirects(redirects),
    {
        RedirectList {
            file_name: "config.toml",
            content_renderer: RedirectListRenderer { renderer: Box::new(StaticWebServerRedirects) },
        }
    }
}

} // verus!
