//! What a visit hands to its observer, and what the observer answers.

use vstd::prelude::*;

verus! {

/// Feedback that can be given to the crawler after visiting a page.
#[derive(Clone, Copy, Debug, PartialEq, Eq, Structural)]
pub enum CrawlFeedback {
    /// Continue crawling from this page.
    Continue,
    /// Don't follow any links on this page.
    DontFollow,
    /// Stop the entire crawler.
    Stop,
}

/// How pages are retrieved for the whole crawl.
#[derive(Clone, Copy, Debug, PartialEq, Eq, Structural)]
pub enum BrowserMode {
    /// A plain HTTP fetch of the document.
    Static,
    /// Full rendering in a headless browser.
    Headless,
}

/// A page that is due for a visit: the URL, the mode it is retrieved in, and
/// the instant before which it must not be requested.
#[derive(Debug)]
pub struct Page {
    url: String,
    mode: BrowserMode,
    wait_until: u64,
}

impl Page {
    /// The URL of the page.
    pub closed spec fn spec_url(&self) -> Seq<char> {
        self.url@
    }

    /// The mode the page is retrieved in.
    pub closed spec fn spec_mode(&self) -> BrowserMode {
        self.mode
    }

    /// The earliest instant of the request, in milliseconds.
    pub closed spec fn spec_wait_until(&self) -> u64 {
        self.wait_until
    }

    /// A page at `url` that is requested in `mode`, no earlier than
    /// `wait_until`.
    pub fn new_wait_until(url: String, mode: BrowserMode, wait_until: u64) -> (page: Page)
        ensures
            page.spec_url() == url@,
            page.spec_mode() == mode,
            page.spec_wait_until() == wait_until,
    {
        Page { url, mode, wait_until }
    }

    /// The URL of the page.
    pub fn url(&self) -> (url: &str)
        ensures
            url@ == self.spec_url(),
    {
        self.url.as_str()
    }

    /// The mode the page is retrieved in.
    pub fn mode(&self) -> (mode: BrowserMode)
        ensures
            mode == self.spec_mode(),
    {
        self.mode
    }

    /// The earliest instant of the request, in milliseconds.
    pub fn wait_until(&self) -> (at: u64)
        ensures
            at == self.spec_wait_until(),
    {
        self.wait_until
    }
}

/// A callback that is called when a page is visited.
pub trait CrawlingCallback {
    /// Looks at `page` and says how the crawl goes on from it.
    fn visit(&self, page: &Page) -> CrawlFeedback;
}

} // verus!
