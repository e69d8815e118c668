use vstd::prelude::*;
use vstd::string::StringExecFns;
use quick_xml::events::Event;
use quick_xml::reader::Reader;
use quick_xml::Error as XmlError;
use crate::text::{find_from, find_in, lemma_find_props};

verus! {

#[verifier::external_type_specification]
#[verifier::external_body]
#[verifier::reject_recursive_types(R)]
pub struct ExReader<R>(quick_xml::reader::Reader<R>);

#[verifier::external_type_specification]
#[verifier::external_body]
pub struct ExXmlError(XmlError);

/// Why a feed could not be read: a diagnostic and the byte offset it refers to.
#[derive(Debug)]
pub struct ParseError {
    pub message: String,
    pub position: u64,
}

impl ParseError {
    /// The diagnostic, prefixed with the kind of failure.
    pub fn to_string(&self) -> (r: String)
        ensures
            r@ == "ParseError: "@ + self.message@,
    {
        let mut r = "ParseError: ".to_owned();
        r.append(self.message.as_str());
        r
    }
}

/// One event of the markup tokenizer, as the scanner sees it.
#[derive(Debug)]
pub enum FeedEvent {
    /// A start tag, with its name.
    Start(Vec<u8>),
    /// An end tag, with its name.
    End(Vec<u8>),
    /// Text content, unescaped; `None` when its escapes could not be resolved.
    Text(Option<String>),
    /// The end of the input.
    Eof,
    /// Anything else (comments, declarations, CDATA, empty elements).
    Other,
}

/// Where the scanner stands in the feed.
#[derive(Debug, Clone, Copy, PartialEq, Eq, Structural)]
pub enum ScanState {
    Outside,
    InItem,
    InDescription,
}

pub open spec fn item_tag() -> Seq<u8> {
    seq![105u8, 116u8, 101u8, 109u8]
}

pub open spec fn description_tag() -> Seq<u8> {
    seq![100u8, 101u8, 115u8, 99u8, 114u8, 105u8, 112u8, 116u8, 105u8, 111u8, 110u8]
}

pub open spec fn is_start(ev: FeedEvent, tag: Seq<u8>) -> bool {
    match ev {
        FeedEvent::Start(name) => name@ == tag,
        _ => false,
    }
}

pub open spec fn is_end(ev: FeedEvent, tag: Seq<u8>) -> bool {
    match ev {
        FeedEvent::End(name) => name@ == tag,
        _ => false,
    }
}

/// The state after `ev`; tags other than `item` and `description` change nothing.
pub open spec fn next_state(s: ScanState, ev: FeedEvent) -> ScanState {
    match s {
        ScanState::Outside => if is_start(ev, item_tag()) {
            ScanState::InItem
        } else {
            ScanState::Outside
        },
        ScanState::InItem => if is_start(ev, description_tag()) {
            ScanState::InDescription
        } else if is_end(ev, item_tag()) {
            ScanState::Outside
        } else {
            ScanState::InItem
        },
        ScanState::InDescription => if is_end(ev, description_tag()) {
            ScanState::InItem
        } else {
            ScanState::InDescription
        },
    }
}

/// The opening of the attribute that holds an image's address: `src="`.
pub open spec fn src_marker() -> Seq<char> {
    seq!['s', 'r', 'c', '=', '"']
}

/// The text between the first `src="` of `text` and the `"` that follows it.
pub open spec fn src_value(text: Seq<char>) -> Option<Seq<char>> {
    let a = find_from(text, src_marker(), 0);
    if a < 0 {
        None
    } else {
        let q = find_from(text, seq!['"'], a + 5);
        if q < 0 {
            None
        } else {
            Some(text.subrange(a + 5, q))
        }
    }
}

/// The address that `ev` yields in state `s`, if any.
pub open spec fn emitted(s: ScanState, ev: FeedEvent) -> Option<Seq<char>> {
    match ev {
        FeedEvent::Text(Some(t)) => if s == ScanState::InDescription {
            src_value(t@)
        } else {
            None
        },
        _ => None,
    }
}

/// The state reached and the addresses found after scanning `evs` from `Outside`.
pub open spec fn scan(evs: Seq<FeedEvent>) -> (ScanState, Seq<Seq<char>>)
    decreases evs.len(),
{
    if evs.len() == 0 {
        (ScanState::Outside, seq![])
    } else {
        let (s, found) = scan(evs.drop_last());
        let ev = evs.last();
        (
            next_state(s, ev),
            match emitted(s, ev) {
                Some(u) => found.push(u),
                None => found,
            },
        )
    }
}

pub open spec fn views(v: Seq<String>) -> Seq<Seq<char>> {
    v.map_values(|s: String| s@)
}

fn bytes_equal(a: &Vec<u8>, b: &Vec<u8>) -> (r: bool)
    ensures
        r == (a@ == b@),
{
    if a.len() != b.len() {
        return false;
    }
    let mut i: usize = 0;
    while i < a.len()
        invariant
            a@.len() == b@.len(),
            i <= a@.len(),
            forall|k: int| 0 <= k < i ==> a@[k] == b@[k],
        decreases a@.len() - i,
    {
        if a[i] != b[i] {
            return false;
        }
        i = i + 1;
    }
    assert(a@ =~= b@);
    true
}

/// The value of the first `src="..."` in `text`, if it has one with a closing quote.
pub fn find_src(text: &str) -> (r: Option<String>)
    ensures
        crate::rewrite::opt_view(r) == src_value(text@),
{
    proof {
        reveal_strlit("src=\"");
        reveal_strlit("\"");
        assert("src=\""@ =~= src_marker());
        assert("\""@ =~= seq!['"']);
    }
    match find_in(text, "src=\"", 0) {
        None => None,
        Some(a) => {
            proof {
                lemma_find_props(text@, src_marker(), 0);
            }
            match find_in(text, "\"", a + 5) {
                None => None,
                Some(q) => {
                    proof {
                        lemma_find_props(text@, seq!['"'], a + 5);
                    }
                    Some(text.substring_char(a + 5, q).to_owned())
                },
            }
        },
    }
}

/// Advances the scanner over one event, appending the address it yields.
pub fn step(state: ScanState, event: &FeedEvent, urls: &mut Vec<String>) -> (r: ScanState)
    ensures
        r == next_state(state, *event),
        views(final(urls)@) == match emitted(state, *event) {
            Some(u) => views(old(urls)@).push(u),
            None => views(old(urls)@),
        },
{
    let item: Vec<u8> = vec![105u8, 116u8, 101u8, 109u8];
    let description: Vec<u8> = vec![100u8, 101u8, 115u8, 99u8, 114u8, 105u8, 112u8, 116u8, 105u8, 111u8, 110u8];
    assert(item@ =~= item_tag());
    assert(description@ =~= description_tag());
    match event {
        FeedEvent::Start(name) => {
            match state {
                ScanState::Outside => if bytes_equal(name, &item) {
                    ScanState::InItem
                } else {
                    ScanState::Outside
                },
                ScanState::InItem => if bytes_equal(name, &description) {
                    ScanState::InDescription
                } else {
                    ScanState::InItem
                },
                ScanState::InDescription => ScanState::InDescription,
            }
        },
        FeedEvent::End(name) => {
            match state {
                ScanState::Outside => ScanState::Outside,
                ScanState::InItem => if bytes_equal(name, &item) {
                    ScanState::Outside
                } else {
                    ScanState::InItem
                },
                ScanState::InDescription => if bytes_equal(name, &description) {
                    ScanState::InItem
                } else {
                    ScanState::InDescription
                },
            }
        },
        FeedEvent::Text(Some(text)) => {
            if state == ScanState::InDescription {
                match find_src(text.as_str()) {
                    Some(u) => {
                        urls.push(u);
                        assert(views(final(urls)@) =~= views(old(urls)@).push(u@));
                    },
                    None => {},
                }
            }
            state
        },
        _ => state,
    }
}

/// Scans a whole sequence of events and returns the addresses found, in order.
pub fn extract_urls(events: &Vec<FeedEvent>) -> (r: Vec<String>)
    ensures
        views(r@) == scan(events@).1,
{
    let mut urls: Vec<String> = Vec::new();
    let mut state = ScanState::Outside;
    let mut i: usize = 0;
    while i < events.len()
        invariant
            i <= events@.len(),
            (state, views(urls@)) == scan(events@.subrange(0, i as int)),
        decreases events@.len() - i,
    {
        proof {
            assert(events@.subrange(0, i + 1).drop_last() =~= events@.subrange(0, i as int));
        }
        state = step(state, &events[i], &mut urls);
        i = i + 1;
    }
    assert(events@.subrange(0, i as int) =~= events@);
    urls
}

/// The events that the tokenizer yields for `source`, in order: up to and
/// including `Eof` when it reads the whole text, else up to the event before
/// its first error.
pub uninterp spec fn feed_events(source: Seq<char>) -> Seq<FeedEvent>;

/// Whether the tokenizer reads `source` to its end without an error.
pub uninterp spec fn tokenizes(source: Seq<char>) -> bool;

/// The tokenizer over one source text, with that text and the number of
/// events read so far.
struct FeedReader<'a> {
    reader: Reader<&'a [u8]>,
    source: Ghost<Seq<char>>,
    count: Ghost<nat>,
}

impl<'a> FeedReader<'a> {
    closed spec fn source(&self) -> Seq<char> {
        self.source@
    }

    closed spec fn count(&self) -> nat {
        self.count@
    }
}

/// Relies on `Reader::from_str` and `Config::trim_text`: a tokenizer over
/// `source` that trims white space around text and skips text that is only
/// white space, before its first event.
#[verifier::external_body]
fn open_reader<'a>(source: &'a str) -> (r: FeedReader<'a>)
    ensures
        r.source() == source@,
        r.count() == 0,
{
    let mut reader = Reader::from_str(source);
    reader.config_mut().trim_text(true);
    FeedReader { reader, source: Ghost(source@), count: Ghost(0) }
}

/// Relies on `Reader::read_event`: over a `&str` the events depend on the text
/// alone; after `Eof` it yields `Eof` again. After an error the reader may
/// yield `Eof` or further events, so no call is made once one has been
/// reported (the count then exceeds the events named). Tag names are
/// converted to bytes (`BytesStart::name`, `BytesEnd::name`) and text is
/// unescaped (`BytesText::unescape`; `None` when that fails).
#[verifier::external_body]
fn next_event(reader: &mut FeedReader) -> (r: Result<FeedEvent, XmlError>)
    requires
        old(reader).count() <= feed_events(old(reader).source()).len(),
    ensures
        final(reader).source() == old(reader).source(),
        final(reader).count() == old(reader).count() + 1,
        old(reader).count() < feed_events(old(reader).source()).len() ==> r is Ok && r->Ok_0
            == feed_events(old(reader).source())[old(reader).count() as int],
        r is Ok && old(reader).count() < feed_events(old(reader).source()).len() ==> (
        r->Ok_0 is Eof <==> (tokenizes(old(reader).source()) && old(reader).count() + 1 == feed_events(
            old(reader).source(),
        ).len())),
        old(reader).count() == feed_events(old(reader).source()).len() ==> (r is Err <==> !tokenizes(
            old(reader).source(),
        )),
        r is Ok && old(reader).count() == feed_events(old(reader).source()).len() ==> feed_events(
            old(reader).source(),
        ).len() > 0 && feed_events(old(reader).source()).last() is Eof,
{
    reader.count = Ghost((reader.count@ + 1) as nat);
    Ok(match reader.reader.read_event()? {
        Event::Start(e) => FeedEvent::Start(e.name().as_ref().to_vec()),
        Event::End(e) => FeedEvent::End(e.name().as_ref().to_vec()),
        Event::Text(e) => FeedEvent::Text(e.unescape().ok().map(|t| t.into_owned())),
        Event::Eof => FeedEvent::Eof,
        _ => FeedEvent::Other,
    })
}

/// Relies on the derived `Debug` form of `quick_xml::Error` as a readable
/// diagnostic; it names at least the variant.
#[verifier::external_body]
fn describe_error(e: &XmlError) -> (r: String)
    ensures
        r@.len() > 0,
{
    format!("{:?}", e)
}

/// Relies on `Reader::error_position`: the byte offset of the last error.
#[verifier::external_body]
fn error_position(reader: &FeedReader) -> u64 {
    reader.reader.error_position()
}

/// Reads a feed in one pass and returns the image addresses found inside
/// `description` elements of `item` elements, in document order. When the
/// tokenizer fails, the result is an error with a diagnostic and no address
/// is returned.
pub fn parse(atom_source: &str) -> (r: Result<Vec<String>, ParseError>)
    ensures
        r is Ok <==> tokenizes(atom_source@),
        r matches Ok(urls) ==> views(urls@) == scan(feed_events(atom_source@)).1,
        r matches Err(e) ==> e.message@.len() > 0,
{
    let mut reader = open_reader(atom_source);
    let ghost events = feed_events(atom_source@);
    let mut urls: Vec<String> = Vec::new();
    let mut state = ScanState::Outside;
    loop
        invariant
            reader.source() == atom_source@,
            events == feed_events(atom_source@),
            reader.count() <= events.len(),
            (state, views(urls@)) == scan(events.subrange(0, reader.count() as int)),
            forall|k: int| 0 <= k < reader.count() ==> !(#[trigger] events[k] is Eof),
        decreases events.len() - reader.count(),
    {
        let ghost k: int = reader.count() as int;
        match next_event(&mut reader) {
            Err(e) => {
                let message = describe_error(&e);
                return Err(ParseError { message, position: error_position(&reader) });
            },
            Ok(FeedEvent::Eof) => {
                proof {
                    if k == events.len() {
                        assert(events[events.len() - 1] is Eof);
                    }
                    assert(events.subrange(0, k + 1).drop_last() =~= events.subrange(0, k));
                    assert(events.subrange(0, k + 1) =~= events);
                }
                return Ok(urls);
            },
            Ok(ev) => {
                proof {
                    if k == events.len() {
                        assert(events[events.len() - 1] is Eof);
                    }
                    assert(events.subrange(0, k + 1).drop_last() =~= events.subrange(0, k));
                }
                state = step(state, &ev, &mut urls);
            },
        }
    }
}

/// `ev` is neither a start nor an end tag of `item` or `description`.
pub open spec fn is_neutral(ev: FeedEvent) -> bool {
    !is_start(ev, item_tag()) && !is_end(ev, item_tag()) && !is_start(ev, description_tag())
        && !is_end(ev, description_tag())
}

/// `block` is one `item`, possibly preceded by other markup, holding one
/// `description` whose one text carries `url` in a `src="..."` attribute;
/// around the description the item may hold other tags and text.
pub open spec fn is_item_with_image(block: Seq<FeedEvent>, url: Seq<char>) -> bool {
    exists|i: int, d: int|
        #![trigger block[i], block[d]]
        0 <= i < d && d + 3 < block.len() && is_start(block[i], item_tag()) && is_start(
            block[d],
            description_tag(),
        ) && (match block[d + 1] {
            FeedEvent::Text(Some(t)) => src_value(t@) == Some(url),
            _ => false,
        }) && is_end(block[d + 2], description_tag()) && is_end(
            block[block.len() - 1],
            item_tag(),
        ) && (forall|k: int|
            0 <= k < block.len() && k != i && k != d && k != d + 1 && k != d + 2 && k
                != block.len() - 1 ==> is_neutral(#[trigger] block[k]))
}

proof fn lemma_scan_step(c: Seq<FeedEvent>, m: int)
    requires
        0 <= m < c.len(),
    ensures
        scan(c.subrange(0, m + 1)) == (
            next_state(scan(c.subrange(0, m)).0, c[m]),
            match emitted(scan(c.subrange(0, m)).0, c[m]) {
                Some(u) => scan(c.subrange(0, m)).1.push(u),
                None => scan(c.subrange(0, m)).1,
            },
        ),
{
    assert(c.subrange(0, m + 1).drop_last() =~= c.subrange(0, m));
}

proof fn lemma_scan_neutral(c: Seq<FeedEvent>, lo: int, hi: int)
    requires
        0 <= lo <= hi <= c.len(),
        scan(c.subrange(0, lo)).0 != ScanState::InDescription,
        forall|k: int| lo <= k < hi ==> is_neutral(#[trigger] c[k]),
    ensures
        scan(c.subrange(0, hi)) == scan(c.subrange(0, lo)),
    decreases hi - lo,
{
    if lo < hi {
        lemma_scan_neutral(c, lo, hi - 1);
        lemma_scan_step(c, hi - 1);
        assert(is_neutral(c[hi - 1]));
    }
}

proof fn lemma_neutral_shift(a: Seq<FeedEvent>, b: Seq<FeedEvent>, lo: int, hi: int)
    requires
        0 <= lo <= hi <= b.len(),
        forall|k: int| lo <= k < hi ==> is_neutral(#[trigger] b[k]),
    ensures
        forall|k: int| a.len() + lo <= k < a.len() + hi ==> is_neutral(#[trigger] (a + b)[k]),
{
    assert forall|k: int| a.len() + lo <= k < a.len() + hi implies is_neutral(#[trigger] (a + b)[k]) by {
        assert((a + b)[k] == b[k - a.len()]);
    }
}

#[verifier::rlimit(50)]
proof fn lemma_scan_item(a: Seq<FeedEvent>, b: Seq<FeedEvent>, url: Seq<char>)
    requires
        scan(a).0 == ScanState::Outside,
        is_item_with_image(b, url),
    ensures
        scan(a + b) == (ScanState::Outside, scan(a).1.push(url)),
{
    let (i, d) = choose|i: int, d: int|
        #![trigger b[i], b[d]]
        0 <= i < d && d + 3 < b.len() && is_start(b[i], item_tag()) && is_start(
            b[d],
            description_tag(),
        ) && (match b[d + 1] {
            FeedEvent::Text(Some(t)) => src_value(t@) == Some(url),
            _ => false,
        }) && is_end(b[d + 2], description_tag()) && is_end(b[b.len() - 1], item_tag()) && (
        forall|k: int|
            0 <= k < b.len() && k != i && k != d && k != d + 1 && k != d + 2 && k != b.len() - 1
                ==> is_neutral(#[trigger] b[k]));
    let c = a + b;
    let n = a.len() as int;
    let e = b.len() as int - 1;
    assert(c.subrange(0, n) =~= a);
    assert(c.subrange(0, c.len() as int) =~= c);
    assert(c[n + i] == b[i]);
    assert(c[n + d] == b[d]);
    assert(c[n + d + 1] == b[d + 1]);
    assert(c[n + d + 2] == b[d + 2]);
    assert(c[n + e] == b[e]);
    lemma_neutral_shift(a, b, 0, i);
    lemma_neutral_shift(a, b, i + 1, d);
    lemma_neutral_shift(a, b, d + 3, e);
    let s0 = scan(a).1;
    lemma_scan_neutral(c, n, n + i);
    assert(scan(c.subrange(0, n + i)) == (ScanState::Outside, s0));
    lemma_scan_step(c, n + i);
    assert(scan(c.subrange(0, n + i + 1)) == (ScanState::InItem, s0));
    lemma_scan_neutral(c, n + i + 1, n + d);
    lemma_scan_step(c, n + d);
    assert(scan(c.subrange(0, n + d + 1)) == (ScanState::InDescription, s0));
    lemma_scan_step(c, n + d + 1);
    assert(scan(c.subrange(0, n + d + 2)) == (ScanState::InDescription, s0.push(url)));
    lemma_scan_step(c, n + d + 2);
    assert(scan(c.subrange(0, n + d + 3)) == (ScanState::InItem, s0.push(url)));
    lemma_scan_neutral(c, n + d + 3, n + e);
    lemma_scan_step(c, n + e);
}

/// A feed made of items that each hold one description with one `src="..."`,
/// with any other tags and text around the descriptions and after the last
/// item, yields exactly one address per item, in document order.
pub proof fn lemma_one_url_per_item(
    blocks: Seq<Seq<FeedEvent>>,
    urls: Seq<Seq<char>>,
    trailer: Seq<FeedEvent>,
)
    requires
        blocks.len() == urls.len(),
        forall|i: int| 0 <= i < blocks.len() ==> is_item_with_image(#[trigger] blocks[i], urls[i]),
        forall|k: int| 0 <= k < trailer.len() ==> is_neutral(#[trigger] trailer[k]),
    ensures
        scan(blocks.flatten() + trailer) == (ScanState::Outside, urls),
    decreases blocks.len(),
{
    lemma_items(blocks, urls);
    let f = blocks.flatten();
    let c = f + trailer;
    assert(c.subrange(0, f.len() as int) =~= f);
    assert(c.subrange(0, c.len() as int) =~= c);
    assert forall|k: int| f.len() <= k < c.len() implies is_neutral(#[trigger] c[k]) by {
        assert(c[k] == trailer[k - f.len()]);
    }
    lemma_scan_neutral(c, f.len() as int, c.len() as int);
}

proof fn lemma_items(blocks: Seq<Seq<FeedEvent>>, urls: Seq<Seq<char>>)
    requires
        blocks.len() == urls.len(),
        forall|i: int| 0 <= i < blocks.len() ==> is_item_with_image(#[trigger] blocks[i], urls[i]),
    ensures
        scan(blocks.flatten()) == (ScanState::Outside, urls),
    decreases blocks.len(),
{
    blocks.lemma_flatten_and_flatten_alt_are_equivalent();
    if blocks.len() == 0 {
        assert(urls =~= seq![]);
    } else {
        let front = blocks.drop_last();
        lemma_items(front, urls.drop_last());
        front.lemma_flatten_and_flatten_alt_are_equivalent();
        assert(is_item_with_image(blocks.last(), urls.last()));
        lemma_scan_item(front.flatten(), blocks.last(), urls.last());
        assert(urls.drop_last().push(urls.last()) =~= urls);
    }
}

} // verus!
