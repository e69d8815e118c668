use vstd::prelude::*;
use vstd::string::StringExecFns;
use crate::parser::{self, feed_events, scan, tokenizes, views, ParseError};
use crate::rewrite::{opt_view, rewrite_url, rewritten};
use crate::whitelist::ExtensionWhitelist;

verus! {

/// The largest thumbnail width an engine asks for (4K).
pub const MAX_TARGET_WIDTH: usize = 3840;

/// Why a run produced no list: the feed could not be fetched, or not read.
#[derive(Debug)]
pub enum Error {
    FetchError(String),
    ParseError(ParseError),
}

impl Error {
    /// The diagnostic, prefixed with the kind of failure.
    pub fn to_string(&self) -> (r: String)
        ensures
            r@ == match self {
                Error::FetchError(m) => "FetchError: "@ + m@,
                Error::ParseError(e) => "ParseError: "@ + "ParseError: "@ + e.message@,
            },
    {
        match self {
            Error::FetchError(m) => {
                let mut r = "FetchError: ".to_owned();
                r.append(m.as_str());
                r
            },
            Error::ParseError(e) => {
                let mut r = "ParseError: ".to_owned();
                let inner = e.to_string();
                r.append(inner.as_str());
                r
            },
        }
    }
}

/// `width` reduced to at most `MAX_TARGET_WIDTH`.
pub open spec fn clamped(width: usize) -> usize {
    if width > MAX_TARGET_WIDTH {
        MAX_TARGET_WIDTH
    } else {
        width
    }
}

/// Clamps a requested width, and tells whether it had to be reduced.
pub fn clamp_target_width(width: usize) -> (r: (usize, bool))
    ensures
        r.0 == clamped(width),
        r.1 == (width > MAX_TARGET_WIDTH),
{
    if width > MAX_TARGET_WIDTH {
        (MAX_TARGET_WIDTH, true)
    } else {
        (width, false)
    }
}

/// The addresses of `raws` that the rewriter keeps, rewritten, in order.
pub open spec fn rewrite_all_spec(raws: Seq<Seq<char>>, width: nat, filter: ExtensionWhitelist) -> Seq<
    Seq<char>,
>
    decreases raws.len(),
{
    if raws.len() == 0 {
        seq![]
    } else {
        let front = rewrite_all_spec(raws.drop_last(), width, filter);
        match rewritten(raws.last(), width, filter) {
            Some(u) => front.push(u),
            None => front,
        }
    }
}

/// Configuration of an engine, before it is built.
#[derive(Debug)]
pub struct EngineBuilder {
    target_width: usize,
    extension_whitelist: Option<ExtensionWhitelist>,
}

impl EngineBuilder {
    pub closed spec fn spec_target_width(&self) -> usize {
        self.target_width
    }

    pub closed spec fn spec_whitelist(&self) -> Option<ExtensionWhitelist> {
        self.extension_whitelist
    }

    /// A builder for thumbnails of `target_width` pixels, reduced to
    /// `MAX_TARGET_WIDTH` when larger, with no filter chosen yet.
    pub fn new(target_width: usize) -> (r: EngineBuilder)
        ensures
            r.spec_target_width() == clamped(target_width),
            r.spec_whitelist() is None,
    {
        let (width, _reduced) = clamp_target_width(target_width);
        EngineBuilder { target_width: width, extension_whitelist: None }
    }

    /// Chooses the extension filter.
    pub fn extension_whitelist(self, extension_whitelist: ExtensionWhitelist) -> (r: EngineBuilder)
        ensures
            r.spec_target_width() == self.spec_target_width(),
            r.spec_whitelist() == Some(extension_whitelist),
    {
        EngineBuilder { target_width: self.target_width, extension_whitelist: Some(extension_whitelist) }
    }

    /// The engine, with the default filter where none was chosen.
    pub fn build(self) -> (r: Engine)
        ensures
            r.spec_target_width() == self.spec_target_width(),
            self.spec_whitelist() matches Some(w) ==> r.spec_whitelist() == w,
            self.spec_whitelist() is None ==> r.spec_whitelist().suffixes() == seq![
                seq!['.', 'j', 'p', 'g'],
                seq!['.', 'j', 'p', 'e', 'g'],
            ],
    {
        let extension_whitelist = match self.extension_whitelist {
            Some(w) => w,
            None => ExtensionWhitelist::new_with_default(),
        };
        Engine { target_width: self.target_width, extension_whitelist }
    }
}

/// Turns a feed into the list of its images' addresses at one width.
#[derive(Debug)]
pub struct Engine {
    target_width: usize,
    extension_whitelist: ExtensionWhitelist,
}

impl Engine {
    pub closed spec fn spec_target_width(&self) -> usize {
        self.target_width
    }

    pub closed spec fn spec_whitelist(&self) -> ExtensionWhitelist {
        self.extension_whitelist
    }

    /// An engine for `target_width` (clamped) with the default filter.
    pub fn new(target_width: usize) -> (r: Engine)
        ensures
            r.spec_target_width() == clamped(target_width),
            r.spec_whitelist().suffixes() == seq![
                seq!['.', 'j', 'p', 'g'],
                seq!['.', 'j', 'p', 'e', 'g'],
            ],
    {
        EngineBuilder::new(target_width).build()
    }

    /// The width the engine asks for.
    pub fn target_width(&self) -> (r: usize)
        ensures
            r == self.spec_target_width(),
    {
        self.target_width
    }

    /// The engine's extension filter.
    pub fn extension_whitelist(&self) -> (r: &ExtensionWhitelist)
        ensures
            *r == self.spec_whitelist(),
    {
        &self.extension_whitelist
    }

    /// One address through the filter and the width rewrite.
    pub fn rewrite(&self, raw_url: &str) -> (r: Option<String>)
        ensures
            opt_view(r) == rewritten(raw_url@, self.spec_target_width() as nat, self.spec_whitelist()),
    {
        rewrite_url(raw_url, self.target_width, &self.extension_whitelist)
    }

    /// Every address through the filter and the width rewrite; those turned
    /// away are left out, the others keep their order.
    pub fn rewrite_all(&self, raw_urls: &Vec<String>) -> (r: Vec<String>)
        ensures
            views(r@) == rewrite_all_spec(
                views(raw_urls@),
                self.spec_target_width() as nat,
                self.spec_whitelist(),
            ),
    {
        let ghost width = self.spec_target_width() as nat;
        let ghost filter = self.spec_whitelist();
        let mut out: Vec<String> = Vec::new();
        let mut i: usize = 0;
        while i < raw_urls.len()
            invariant
                i <= raw_urls@.len(),
                width == self.spec_target_width() as nat,
                filter == self.spec_whitelist(),
                views(out@) == rewrite_all_spec(views(raw_urls@).subrange(0, i as int), width, filter),
            decreases raw_urls@.len() - i,
        {
            proof {
                let pre = views(raw_urls@).subrange(0, i + 1);
                assert(pre.drop_last() =~= views(raw_urls@).subrange(0, i as int));
                assert(pre.last() == raw_urls@[i as int]@);
            }
            let ghost before = out@;
            match self.rewrite(raw_urls[i].as_str()) {
                Some(u) => {
                    out.push(u);
                    assert(views(out@) =~= views(before).push(u@));
                },
                None => {},
            }
            i = i + 1;
        }
        assert(views(raw_urls@).subrange(0, i as int) =~= views(raw_urls@));
        out
    }

    /// Completes a run from the outcome of reading the feed: the addresses
    /// read are rewritten; a failure to read is passed on unchanged.
    pub fn rewrite_parsed(&self, parsed: Result<Vec<String>, ParseError>) -> (r: Result<
        Vec<String>,
        Error,
    >)
        ensures
            parsed matches Ok(raws) ==> r matches Ok(v) && views(v@) == rewrite_all_spec(
                views(raws@),
                self.spec_target_width() as nat,
                self.spec_whitelist(),
            ),
            parsed matches Err(pe) ==> r == Err::<Vec<String>, Error>(Error::ParseError(pe)),
    {
        match parsed {
            Err(e) => Err(Error::ParseError(e)),
            Ok(raw_urls) => Ok(self.rewrite_all(&raw_urls)),
        }
    }

    /// Reads a fetched feed and rewrites every image address found in it.
    /// Fails, with no list, when the feed cannot be read.
    pub fn run_on_feed(&self, body: &str) -> (r: Result<Vec<String>, Error>)
        ensures
            r is Ok <==> tokenizes(body@),
            r matches Ok(v) ==> views(v@) == rewrite_all_spec(
                scan(feed_events(body@)).1,
                self.spec_target_width() as nat,
                self.spec_whitelist(),
            ),
            r matches Err(e) ==> e matches Error::ParseError(pe) && pe.message@.len() > 0,
    {
        self.rewrite_parsed(parser::parse(body))
    }

    /// Completes a run from the outcome of fetching the feed: a failed fetch
    /// is reported as such; a fetched body goes through `run_on_feed`.
    pub fn run_with(&self, fetched: Result<String, String>) -> (r: Result<Vec<String>, Error>)
        ensures
            fetched matches Err(m) ==> r == Err::<Vec<String>, Error>(Error::FetchError(m)),
            fetched matches Ok(body) ==> (r is Ok <==> tokenizes(body@)),
            fetched matches Ok(body) ==> (r matches Ok(v) ==> views(v@) == rewrite_all_spec(
                scan(feed_events(body@)).1,
                self.spec_target_width() as nat,
                self.spec_whitelist(),
            )),
            fetched is Ok ==> (r matches Err(e) ==> e matches Error::ParseError(pe)
                && pe.message@.len() > 0),
    {
        match fetched {
            Err(m) => Err(Error::FetchError(m)),
            Ok(body) => self.run_on_feed(body.as_str()),
        }
    }
}

} // verus!
