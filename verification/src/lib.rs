//! A polite, cancellable web crawler core.
//!
//! The crate holds the decisions of a crawl and none of its I/O: which URL
//! is visited next on which origin, how long it has to wait, and when the
//! crawl is over. A driver performs the fetches and reports what happened.
//!
//! - [`link`]: URLs as the crawl holds them, with their origin.
//! - [`robots`]: the robots exclusion policy of an origin.
//! - [`idle`]: the count of outstanding URLs and its waiter.
//! - [`queue`]: the queue of one origin and the steps of its worker.
//! - [`crawler`]: the crawl over all origins.
//! - [`laws`] and [`convergence`]: what is proved of every crawl.
//! - [`feedback`]: pages, and the observer's answer to a visit.
//! - [`session`]: the token history of a language-model session that reads
//!   what was crawled.

pub mod convergence;
pub mod crawler;
pub mod feedback;
pub mod idle;
pub mod laws;
pub mod link;
pub mod queue;
pub mod robots;
pub mod session;

pub use crawler::{CrawlError, Crawler, Progress};
pub use feedback::{BrowserMode, CrawlFeedback, CrawlingCallback, Page};
pub use idle::IdleCounter;
pub use link::{Link, LinkError};
pub use queue::{DomainQueue, FollowUp, Step};
pub use robots::{RobotsError, RobotsFetch, RobotsPolicy};
pub use session::PhiSession;
