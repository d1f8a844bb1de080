//! Request descriptors: the immutable description of one HTTP call, and
//! the construction of descriptor pools from plain configuration values
//! (a URL with header lines, or the lines of a URL-list file).

use vstd::prelude::*;
use crate::body::{parse_body, pairs_view, BodyType};
use crate::text::{
    find_char_from, lemma_split_first_at, lemma_split_first_none, spec_split, spec_trim,
    split_char, split_first, trim_str,
};

verus! {

/// The HTTP method of a request.
#[derive(Debug, Clone, Copy, PartialEq, Eq, Structural)]
pub enum HttpMethod {
    GET,
    POST,
    PUT,
    PATCH,
    DELETE,
    HEAD,
    OPTIONS,
}

/// A configuration error that aborts a run before any request is issued.
#[derive(Debug, Clone)]
pub enum ConfigError {
    /// A header line without the `:` separator; holds the offending line.
    InvalidHeader(String),
    /// No target URL was configured.
    NoUrls,
}

/// Immutable description of one HTTP call. Built once per configured
/// target and shared by every virtual user dispatched against it.
#[derive(Debug, Clone)]
pub struct RequestConfig {
    pub url: String,
    pub method: HttpMethod,
    pub body: BodyType,
    /// Header names and values, names unique.
    pub headers: Vec<(String, String)>,
    pub timeout_secs: u64,
    pub content_type: Option<String>,
}

/// A header line split at its first `:`, both parts trimmed; a line
/// without `:` yields nothing.
pub open spec fn header_pair(h: Seq<char>) -> Option<(Seq<char>, Seq<char>)> {
    match split_first(h, ':') {
        Some(p) => Some((spec_trim(p.0), spec_trim(p.1))),
        None => None,
    }
}

/// Whether every header line holds a `:`.
pub open spec fn headers_wf(hs: Seq<Seq<char>>) -> bool {
    forall|i: int| 0 <= i < hs.len() ==> (#[trigger] header_pair(hs[i])) is Some
}

/// The parsed header pairs of the given lines, in order.
pub open spec fn header_pairs(hs: Seq<Seq<char>>) -> Seq<(Seq<char>, Seq<char>)>
    decreases hs.len(),
{
    if hs.len() == 0 {
        Seq::empty()
    } else {
        header_pairs(hs.drop_last()) + match header_pair(hs.last()) {
            Some(p) => seq![p],
            None => Seq::empty(),
        }
    }
}

/// The view of an optional string.
pub open spec fn opt_string_view(s: Option<String>) -> Option<Seq<char>> {
    match s {
        Some(t) => Some(t@),
        None => None,
    }
}

/// The views of a sequence of header lines.
pub open spec fn lines_view(hs: Seq<String>) -> Seq<Seq<char>> {
    hs.map_values(|h: String| h@)
}

/// Parses `Name: Value` header lines. Fails on the first line without a
/// `:`; otherwise yields every line's trimmed pair, later duplicate
/// names overwriting the value of the first occurrence.
pub fn parse_headers(headers: &Vec<String>) -> (r: Result<Vec<(String, String)>, ConfigError>)
    ensures
        r is Ok <==> headers_wf(lines_view(headers@)),
        r matches Ok(hs) ==> pairs_view(hs@) == crate::body::assoc_fold(
            header_pairs(lines_view(headers@)),
        ),
        r matches Ok(hs) ==> forall|i: int, j: int|
            0 <= i < j < hs@.len() ==> (#[trigger] hs@[i]).0@ != (#[trigger] hs@[j]).0@,
        r matches Err(e) ==> (e matches ConfigError::InvalidHeader(h) && exists|i: int|
            0 <= i < headers@.len() && h@ == (#[trigger] headers@[i])@ && header_pair(headers@[i]@)
                is None),
{
    let ghost ghs = lines_view(headers@);
    let mut out: Vec<(String, String)> = Vec::new();
    let mut hi: usize = 0;
    proof {
        assert(ghs.take(0) =~= Seq::<Seq<char>>::empty());
        assert(pairs_view(out@) =~= crate::body::assoc_fold(header_pairs(ghs.take(0))));
    }
    while hi < headers.len()
        invariant
            0 <= hi <= headers@.len(),
            ghs == lines_view(headers@),
            forall|i: int| 0 <= i < hi ==> (#[trigger] header_pair(ghs[i])) is Some,
            pairs_view(out@) =~= crate::body::assoc_fold(header_pairs(ghs.take(hi as int))),
            forall|i: int, j: int|
                0 <= i < j < out@.len() ==> (#[trigger] out@[i]).0@ != (#[trigger] out@[j]).0@,
        decreases headers@.len() - hi,
    {
        let line: &String = &headers[hi];
        let ghost gline = line@;
        proof {
            assert(ghs.take(hi + 1).drop_last() =~= ghs.take(hi as int));
            assert(ghs.take(hi + 1).last() == gline);
        }
        match find_char_from(line.as_str(), 0, ':') {
            Some(ci) => {
                let llen = line.as_str().unicode_len();
                let key = trim_str(line.as_str().substring_char(0, ci));
                let val = trim_str(line.as_str().substring_char(ci + 1, llen));
                proof {
                    lemma_split_first_at(gline, ':', ci as int);
                    assert(gline.take(ci as int) =~= gline.subrange(0, ci as int));
                    assert(gline.skip(ci + 1) =~= gline.subrange(ci + 1, gline.len() as int));
                    assert(header_pair(gline) == Some((key@, val@)));
                    let ps_prev = header_pairs(ghs.take(hi as int));
                    let ps_cur = header_pairs(ghs.take(hi + 1));
                    assert(ps_cur =~= ps_prev + seq![(key@, val@)]);
                    assert(ps_cur.drop_last() =~= ps_prev);
                    assert(ps_cur.last() == (key@, val@));
                    assert(crate::body::assoc_fold(ps_cur) == crate::body::assoc_insert(
                        crate::body::assoc_fold(ps_prev),
                        key@,
                        val@,
                    ));
                }
                let mut found: Option<usize> = None;
                let mut i: usize = 0;
                while i < out.len() && found.is_none()
                    invariant
                        0 <= i <= out@.len(),
                        found is None ==> forall|j: int|
                            0 <= j < i ==> (#[trigger] out@[j]).0@ != key@,
                        found matches Some(f) ==> 0 <= f < out@.len() && out@[f as int].0@ == key@
                            && forall|j: int| 0 <= j < f ==> (#[trigger] out@[j]).0@ != key@,
                    decreases out@.len() - i,
                {
                    if out[i].0 == key {
                        found = Some(i);
                    }
                    i = i + 1;
                }
                let ghost out_before = out@;
                match found {
                    Some(f) => {
                        out[f].1 = val;
                        proof {
                            assert forall|j: int| 0 <= j < f implies (#[trigger] pairs_view(
                                out_before,
                            )[j]).0 != key@ by {
                                assert(pairs_view(out_before)[j].0 == out_before[j].0@);
                            }
                            crate::body::lemma_assoc_insert_found(
                                pairs_view(out_before),
                                key@,
                                val@,
                                f as int,
                            );
                            assert(pairs_view(out@) =~= pairs_view(out_before).update(
                                f as int,
                                (key@, val@),
                            ));
                        }
                    },
                    None => {
                        out.push((key, val));
                        proof {
                            assert forall|j: int| 0 <= j < out_before.len() implies (
                            #[trigger] pairs_view(out_before)[j]).0 != key@ by {
                                assert(pairs_view(out_before)[j].0 == out_before[j].0@);
                            }
                            crate::body::lemma_assoc_insert_new(
                                pairs_view(out_before),
                                key@,
                                val@,
                            );
                            assert(pairs_view(out@) =~= pairs_view(out_before).push((key@, val@)));
                        }
                    },
                }
            },
            None => {
                proof {
                    lemma_split_first_none(gline, ':');
                }
                return Err(ConfigError::InvalidHeader(String::from_str(line.as_str())));
            },
        }
        hi = hi + 1;
    }
    proof {
        assert(ghs.take(headers@.len() as int) =~= ghs);
    }
    Ok(out)
}

impl RequestConfig {
    /// Builds one descriptor from plain configuration values: the body
    /// string is classified (`classified` pins the result), the header
    /// lines are parsed, and the rest is carried as given. Fails exactly
    /// when some header line has no `:`.
    pub fn from_cli(
        url: String,
        method: HttpMethod,
        body_str: Option<String>,
        headers: Vec<String>,
        timeout_secs: u64,
        content_type: Option<String>,
    ) -> (r: Result<RequestConfig, ConfigError>)
        ensures
            r is Ok <==> headers_wf(lines_view(headers@)),
            r matches Ok(c) ==> {
                &&& c.url@ == url@
                &&& c.method == method
                &&& c.timeout_secs == timeout_secs
                &&& c.content_type == content_type
                &&& match body_str {
                    Some(s) => crate::body::classified(s@, c.body),
                    None => c.body is Empty,
                }
                &&& pairs_view(c.headers@) == crate::body::assoc_fold(
                    header_pairs(lines_view(headers@)),
                )
            },
            r matches Err(e) ==> (e matches ConfigError::InvalidHeader(h) && exists|i: int|
                0 <= i < headers@.len() && h@ == (#[trigger] headers@[i])@ && header_pair(
                    headers@[i]@,
                ) is None),
    {
        let body = match &body_str {
            Some(s) => parse_body(s.as_str()),
            None => BodyType::Empty,
        };
        let parsed = match parse_headers(&headers) {
            Ok(hs) => hs,
            Err(e) => {
                return Err(e);
            },
        };
        Ok(RequestConfig { url, method, body, headers: parsed, timeout_secs, content_type })
    }
}

/// Builds one descriptor per URL, all sharing the same method, body,
/// headers, timeout and content type. Fails exactly when some header
/// line has no `:` and at least one URL is given.
pub fn create_configs_from_urls(
    urls: Vec<String>,
    method: HttpMethod,
    body_str: Option<String>,
    headers: Vec<String>,
    timeout: u64,
    content_type: Option<String>,
) -> (r: Result<Vec<RequestConfig>, ConfigError>)
    ensures
        r is Ok <==> urls@.len() == 0 || headers_wf(lines_view(headers@)),
        r matches Ok(cs) ==> {
            &&& cs@.len() == urls@.len()
            &&& forall|i: int|
                0 <= i < cs@.len() ==> {
                    &&& (#[trigger] cs@[i]).url@ == urls@[i]@
                    &&& cs@[i].method == method
                    &&& cs@[i].timeout_secs == timeout
                    &&& opt_string_view(cs@[i].content_type) == opt_string_view(content_type)
                    &&& match body_str {
                        Some(s) => crate::body::classified(s@, cs@[i].body),
                        None => cs@[i].body is Empty,
                    }
                    &&& pairs_view(cs@[i].headers@) == crate::body::assoc_fold(
                        header_pairs(lines_view(headers@)),
                    )
                }
        },
        r matches Err(e) ==> (e matches ConfigError::InvalidHeader(h) && exists|i: int|
            0 <= i < headers@.len() && h@ == (#[trigger] headers@[i])@ && header_pair(headers@[i]@)
                is None),
{
    let mut configs: Vec<RequestConfig> = Vec::new();
    let mut i: usize = 0;
    while i < urls.len()
        invariant
            0 <= i <= urls@.len(),
            configs@.len() == i,
            i > 0 ==> headers_wf(lines_view(headers@)),
            forall|j: int|
                0 <= j < i ==> {
                    &&& (#[trigger] configs@[j]).url@ == urls@[j]@
                    &&& configs@[j].method == method
                    &&& configs@[j].timeout_secs == timeout
                    &&& opt_string_view(configs@[j].content_type) == opt_string_view(content_type)
                    &&& match body_str {
                        Some(s) => crate::body::classified(s@, configs@[j].body),
                        None => configs@[j].body is Empty,
                    }
                    &&& pairs_view(configs@[j].headers@) == crate::body::assoc_fold(
                        header_pairs(lines_view(headers@)),
                    )
                },
        decreases urls@.len() - i,
    {
        let url = String::from_str(urls[i].as_str());
        let body_copy = match &body_str {
            Some(s) => Some(String::from_str(s.as_str())),
            None => None,
        };
        let mut headers_copy: Vec<String> = Vec::new();
        let mut h: usize = 0;
        while h < headers.len()
            invariant
                0 <= h <= headers@.len(),
                headers_copy@.len() == h,
                forall|j: int| 0 <= j < h ==> (#[trigger] headers_copy@[j])@ == headers@[j]@,
            decreases headers@.len() - h,
        {
            headers_copy.push(String::from_str(headers[h].as_str()));
            h = h + 1;
        }
        proof {
            assert(lines_view(headers_copy@) =~= lines_view(headers@));
        }
        let ct_copy = match &content_type {
            Some(c) => Some(String::from_str(c.as_str())),
            None => None,
        };
        let config = match RequestConfig::from_cli(
            url,
            method,
            body_copy,
            headers_copy,
            timeout,
            ct_copy,
        ) {
            Ok(c) => c,
            Err(e) => {
                return Err(e);
            },
        };
        configs.push(config);
        i = i + 1;
    }
    Ok(configs)
}

/// The lines of a URL-list text that name a target: each line trimmed,
/// dropping empty lines and `#`-prefixed comment lines.
pub open spec fn kept_lines(ls: Seq<Seq<char>>) -> Seq<Seq<char>>
    decreases ls.len(),
{
    if ls.len() == 0 {
        Seq::empty()
    } else {
        kept_lines(ls.drop_last()) + {
            let t = spec_trim(ls.last());
            if t.len() > 0 && t[0] != '#' {
                seq![t]
            } else {
                Seq::empty()
            }
        }
    }
}

/// The target URLs of a URL-list text: its newline-separated lines,
/// trimmed, without empties and comments.
pub open spec fn url_lines(s: Seq<char>) -> Seq<Seq<char>> {
    kept_lines(spec_split(s, '\n'))
}

/// Reads the target URLs out of a URL-list text, exactly as `url_lines`
/// describes.
pub fn parse_url_list(text: &str) -> (r: Vec<String>)
    ensures
        lines_view(r@) =~= url_lines(text@),
{
    let lines = split_char(text, '\n');
    let ghost glines = lines@.map_values(|t: String| t@);
    let mut out: Vec<String> = Vec::new();
    let mut i: usize = 0;
    proof {
        assert(glines.take(0) =~= Seq::<Seq<char>>::empty());
        assert(lines_view(out@) =~= kept_lines(glines.take(0)));
    }
    while i < lines.len()
        invariant
            0 <= i <= lines@.len(),
            glines == lines@.map_values(|t: String| t@),
            lines_view(out@) =~= kept_lines(glines.take(i as int)),
        decreases lines@.len() - i,
    {
        let t = trim_str(lines[i].as_str());
        proof {
            assert(glines.take(i + 1).drop_last() =~= glines.take(i as int));
            assert(glines.take(i + 1).last() == glines[i as int]);
        }
        let tlen = t.as_str().unicode_len();
        if tlen > 0 && t.as_str().get_char(0) != '#' {
            out.push(t);
        }
        i = i + 1;
    }
    proof {
        assert(glines.take(lines@.len() as int) =~= glines);
    }
    out
}

/// Builds the descriptor pool for a URL-list text: one `GET` descriptor
/// per kept line, with the common headers and timeout. Fails with
/// `NoUrls` when no line names a target, and on a bad header line.
pub fn load_configs_from_lines(text: &str, common_headers: Vec<String>, common_timeout: u64) -> (r:
    Result<Vec<RequestConfig>, ConfigError>)
    ensures
        url_lines(text@).len() == 0 <==> r matches Err(ConfigError::NoUrls),
        r is Ok <==> url_lines(text@).len() > 0 && headers_wf(lines_view(common_headers@)),
        r matches Ok(cs) ==> {
            &&& cs@.len() == url_lines(text@).len()
            &&& forall|i: int|
                0 <= i < cs@.len() ==> {
                    &&& (#[trigger] cs@[i]).url@ == url_lines(text@)[i]
                    &&& cs@[i].method == HttpMethod::GET
                    &&& cs@[i].body is Empty
                    &&& cs@[i].timeout_secs == common_timeout
                    &&& cs@[i].content_type is None
                    &&& pairs_view(cs@[i].headers@) == crate::body::assoc_fold(
                        header_pairs(lines_view(common_headers@)),
                    )
                }
        },
{
    let urls = parse_url_list(text);
    if urls.len() == 0 {
        return Err(ConfigError::NoUrls);
    }
    match create_configs_from_urls(urls, HttpMethod::GET, None, common_headers, common_timeout, None) {
        Ok(cs) => Ok(cs),
        Err(e) => Err(e),
    }
}

} // verus!
