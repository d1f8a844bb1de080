//! Configuration shapes: the richer structured multi-target inputs that
//! the loading layer outside the library fills in and hands over, and
//! the resolved options of a multi-URL run.

use vstd::prelude::*;
use crate::request::HttpMethod;
use crate::select::UrlDistribution;

verus! {

/// One target of a structured multi-target configuration.
#[derive(Debug, Clone)]
pub struct UrlConfig {
    pub url: String,
    pub method: Option<HttpMethod>,
    pub body: Option<String>,
    /// Header names and values, names unique.
    pub headers: Option<Vec<(String, String)>>,
    pub weight: Option<u32>,
    pub timeout: Option<u64>,
}

/// A structured multi-target test configuration.
#[derive(Debug, Clone)]
pub struct MultiTestConfig {
    pub name: Option<String>,
    pub urls: Vec<UrlConfig>,
    pub distribution: Option<String>,
    pub total_requests: Option<usize>,
    pub rps: Option<usize>,
    pub duration_seconds: Option<u64>,
    /// Header names and values shared by every target, names unique.
    pub common_headers: Option<Vec<(String, String)>>,
    pub common_body: Option<String>,
}

impl Default for MultiTestConfig {
    /// The defaults of a structured configuration: no targets, the
    /// round-robin distribution, ten requests per second for ten
    /// seconds, and nothing shared.
    fn default() -> (r: MultiTestConfig)
        ensures
            r.name is None,
            r.urls@.len() == 0,
            r.distribution matches Some(d) && d@ == "round-robin"@,
            r.total_requests is None,
            r.rps == Some(10usize),
            r.duration_seconds == Some(10u64),
            r.common_headers is None,
            r.common_body is None,
    {
        MultiTestConfig {
            name: None,
            urls: Vec::new(),
            distribution: Some(String::from_str("round-robin")),
            total_requests: None,
            rps: Some(10),
            duration_seconds: Some(10),
            common_headers: None,
            common_body: None,
        }
    }
}

/// The resolved options of a multi-URL run.
#[derive(Debug, Clone)]
pub struct MultiUrlConfig {
    /// A URL-list file to load targets from.
    pub config_file: Option<String>,
    /// Targets given directly.
    pub url_list: Option<Vec<String>>,
    /// The method applied to every target.
    pub method: HttpMethod,
    /// The body applied to every target.
    pub body: Option<String>,
    /// Header lines applied to every target.
    pub headers: Vec<String>,
    pub content_type: Option<String>,
    /// Request timeout in seconds.
    pub timeout: u64,
    /// Whether to validate every target URL before dispatch.
    pub validate_url: bool,
    /// How requests are distributed over the targets.
    pub distribution: UrlDistribution,
}

} // verus!
