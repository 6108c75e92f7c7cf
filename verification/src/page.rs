//! Deferred page content: computations that are held by the route table and
//! run once, when the site is rendered.

use vstd::prelude::*;

verus! {

/// A computation that can be run once to give the text of a page or file.
pub(crate) trait Producer {
    /// Whether the computation may be run.
    spec fn ready(&self) -> bool;

    /// Whether running the computation may give `content`.
    spec fn yields(&self, content: Seq<char>) -> bool;

    /// Runs the computation.
    fn produce(self: Box<Self>) -> (content: String)
        requires
            self.ready(),
        ensures
            self.yields(content@),
    ;
}

impl<F: FnOnce() -> String> Producer for F {
    open spec fn ready(&self) -> bool {
        call_requires(*self, ())
    }

    open spec fn yields(&self, content: Seq<char>) -> bool {
        exists|text: String| text@ == content && call_ensures(*self, (), text)
    }

    fn produce(self: Box<Self>) -> (content: String) {
        let run = *self;
        run()
    }
}

/// The deferred content of one page or file. It is made from a computation
/// that can be run, and running it consumes the page.
pub struct Page {
    producer: Box<dyn Producer>,
}

impl View for Page {
    type V = Page;

    open spec fn view(&self) -> Page {
        *self
    }
}

impl Page {
    #[verifier::type_invariant]
    spec fn runnable(&self) -> bool {
        self.producer.ready()
    }

    /// Whether rendering this page may give `content`.
    pub closed spec fn yields(&self, content: Seq<char>) -> bool {
        self.producer.yields(content)
    }

    /// Whether this page defers `render`: it yields exactly what a call of
    /// `render` may return.
    pub open spec fn defers<F: FnOnce() -> String>(&self, render: F) -> bool {
        forall|content: Seq<char>|
            self.yields(content) <==> exists|text: String|
                text@ == content && call_ensures(render, (), text)
    }

    /// Defers `render` as the content of a page.
    pub fn new<F: FnOnce() -> String + 'static>(render: F) -> (page: Page)
        requires
            call_requires(render, ()),
        ensures
            page.defers(render),
    {
        Page { producer: Box::new(render) }
    }

    /// Defers `producer` as the content of a page.
    pub(crate) fn from_producer<P: Producer + 'static>(producer: P) -> (page: Page)
        requires
            producer.ready(),
        ensures
            forall|content: Seq<char>| page.yields(content) <==> producer.yields(content),
    {
        Page { producer: Box::new(producer) }
    }

    /// Runs the deferred computation and returns the content.
    pub fn produce(self) -> (content: String)
        ensures
            self.yields(content@),
    {
        proof {
            use_type_invariant(&self);
        }
        self.producer.produce()
    }
}

} // verus!
