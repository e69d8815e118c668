use potd::parser::{extract_urls, find_src, parse, step, FeedEvent, ScanState};
use potd::{Engine, Error};

fn item(url: &str) -> String {
    format!(
        "<item><title>Picture</title><link>https://example.org/p</link>\
         <description>&lt;a href=\"https://example.org/p\"&gt;&lt;img src=\"{}\" width=\"640\" /&gt;&lt;/a&gt;</description></item>",
        url
    )
}

fn feed(items: &[&str]) -> String {
    let body: String = items.iter().map(|u| item(u)).collect();
    format!("<?xml version=\"1.0\"?><rss version=\"2.0\"><channel><title>Pictures</title>{}</channel></rss>", body)
}

#[test]
fn one_url_per_item_in_document_order() {
    let src = feed(&["https://e.org/t/640px-A.jpg", "https://e.org/t/640px-B.png", "https://e.org/t/C.jpg"]);
    assert_eq!(
        parse(&src).unwrap(),
        vec![
            "https://e.org/t/640px-A.jpg".to_string(),
            "https://e.org/t/640px-B.png".to_string(),
            "https://e.org/t/C.jpg".to_string()
        ]
    );
}

#[test]
fn empty_feed_yields_nothing() {
    assert!(parse(&feed(&[])).unwrap().is_empty());
    assert!(parse("").unwrap().is_empty());
}

#[test]
fn src_outside_a_description_is_ignored() {
    let src = "<rss><channel><description>&lt;img src=\"https://e.org/x.jpg\"&gt;</description>\
               <item><title>&lt;img src=\"https://e.org/y.jpg\"&gt;</title></item></channel></rss>";
    assert!(parse(src).unwrap().is_empty());
}

#[test]
fn description_without_src_contributes_nothing() {
    let src = "<rss><item><description>no picture today</description></item></rss>";
    assert!(parse(src).unwrap().is_empty());
}

#[test]
fn unterminated_tag_fails_without_urls() {
    let src = format!("{}<item", feed(&["https://e.org/t/640px-A.jpg"]));
    let err = parse(&src).unwrap_err();
    assert!(!err.message.is_empty());
    assert!(err.to_string().starts_with("ParseError: "));
}

#[test]
fn mismatched_end_tag_fails() {
    let src = "<rss><item><description>&lt;img src=\"https://e.org/a.jpg\"&gt;</description></itemz></rss>";
    assert!(parse(src).is_err());
}

#[test]
fn end_to_end_single_item() {
    let src = "<rss><channel><item><description>&lt;img src=\"https://example.org/thumb/640px-Cat.jpg\" /&gt;</description></item></channel></rss>";
    let engine = Engine::new(1024);
    let urls = engine.run_on_feed(src).unwrap();
    assert_eq!(urls, vec!["https://example.org/thumb/1024px-Cat.jpg".to_string()]);
}

#[test]
fn end_to_end_failures() {
    let engine = Engine::new(1024);
    match engine.run_with(Err("timed out".to_string())) {
        Err(e) => {
            assert!(matches!(e, Error::FetchError(ref m) if m == "timed out"));
            assert_eq!(e.to_string(), "FetchError: timed out");
        }
        Ok(_) => panic!("a failed fetch must fail the run"),
    }
    assert!(matches!(engine.run_with(Ok("<rss><item".to_string())), Err(Error::ParseError(_))));
    assert!(matches!(engine.run_on_feed("<a></b>"), Err(Error::ParseError(_))));
    let ok = engine.run_with(Ok(feed(&["https://e.org/t/640px-A.jpg", "https://e.org/t/640px-B.gif"]))).unwrap();
    assert_eq!(ok, vec!["https://e.org/t/1024px-A.jpg".to_string()]);
}

#[test]
fn src_value_needs_a_closing_quote() {
    assert_eq!(find_src("<img src=\"https://e.org/a.jpg\" />"), Some("https://e.org/a.jpg".to_string()));
    assert_eq!(find_src("<img src=\"https://e.org/a.jpg"), None);
    assert_eq!(find_src("<img href=\"x\">"), None);
    assert_eq!(find_src("src=\"\""), Some(String::new()));
    assert_eq!(find_src("src=\"first\" src=\"second\""), Some("first".to_string()));
}

#[test]
fn scanner_follows_the_three_states() {
    let mut urls = Vec::new();
    let s = step(ScanState::Outside, &FeedEvent::Start(b"description".to_vec()), &mut urls);
    assert_eq!(s, ScanState::Outside);
    let s = step(s, &FeedEvent::Start(b"item".to_vec()), &mut urls);
    assert_eq!(s, ScanState::InItem);
    let s = step(s, &FeedEvent::Text(Some("src=\"a\"".to_string())), &mut urls);
    assert!(urls.is_empty());
    let s = step(s, &FeedEvent::Start(b"description".to_vec()), &mut urls);
    assert_eq!(s, ScanState::InDescription);
    let s = step(s, &FeedEvent::End(b"item".to_vec()), &mut urls);
    assert_eq!(s, ScanState::InDescription);
    let s = step(s, &FeedEvent::Text(Some("<img src=\"u\">".to_string())), &mut urls);
    let s = step(s, &FeedEvent::Text(None), &mut urls);
    let s = step(s, &FeedEvent::End(b"description".to_vec()), &mut urls);
    assert_eq!(s, ScanState::InItem);
    let s = step(s, &FeedEvent::End(b"item".to_vec()), &mut urls);
    assert_eq!(s, ScanState::Outside);
    assert_eq!(urls, vec!["u".to_string()]);
}

#[test]
fn each_text_event_in_a_description_is_scanned() {
    let events = vec![
        FeedEvent::Start(b"item".to_vec()),
        FeedEvent::Start(b"description".to_vec()),
        FeedEvent::Text(Some("src=\"one\" src=\"two\"".to_string())),
        FeedEvent::Other,
        FeedEvent::Text(Some("src=\"three\"".to_string())),
        FeedEvent::End(b"description".to_vec()),
        FeedEvent::End(b"item".to_vec()),
        FeedEvent::Eof,
    ];
    assert_eq!(extract_urls(&events), vec!["one".to_string(), "three".to_string()]);
}

#[test]
fn only_first_src_of_a_text_event() {
    let src = "<item><description>&lt;img src=&quot;https://h/1px-A.jpg&quot;&gt;&lt;img src=&quot;https://h/2px-B.jpg&quot;&gt;</description></item>";
    assert_eq!(parse(src).unwrap(), vec!["https://h/1px-A.jpg".to_string()]);
}

#[test]
fn text_events_split_by_markup_are_scanned_apart() {
    let src = "<item><description>&lt;img src=&quot;https://h/1px-A.jpg&quot;&gt;<br/>&lt;img src=&quot;https://h/2px-B.jpg&quot;&gt;</description></item>";
    assert_eq!(
        parse(src).unwrap(),
        vec!["https://h/1px-A.jpg".to_string(), "https://h/2px-B.jpg".to_string()]
    );
}

#[test]
fn text_is_unescaped_before_scanning() {
    let src = "<item><description>&lt;img src=&quot;https://h/640px-A.jpg?x=1&amp;y=2&quot;&gt;</description></item>";
    assert_eq!(parse(src).unwrap(), vec!["https://h/640px-A.jpg?x=1&y=2".to_string()]);
}

#[test]
fn src_in_channel_or_item_children_is_ignored() {
    let src = "<rss><channel><description>&lt;img src=&quot;https://h/640px-A.jpg&quot;&gt;</description><item><title>src=&quot;https://h/1px-B.jpg&quot;</title><link>src=&quot;https://h/2px-C.jpg&quot;</link></item></channel></rss>";
    assert!(parse(src).unwrap().is_empty());
    let src = "<rss><item><description>no image here</description></item><item><description>&lt;img src=&quot;https://h/640px-B.jpg&quot;&gt;</description></item></rss>";
    assert_eq!(parse(src).unwrap(), vec!["https://h/640px-B.jpg".to_string()]);
    assert!(parse("<rss><channel><title>t</title></channel></rss>").unwrap().is_empty());
}

#[test]
fn truncated_feed_returns_no_urls() {
    let src = "<rss><item><description>&lt;img src=&quot;https://a.org/640px-A.jpg&quot;/&gt;</description></item><item";
    assert!(parse(src).is_err());
}

#[test]
fn end_to_end_clamps_and_keeps_case() {
    let src = "<rss><item><description>&lt;img src=&quot;https://h/t/640px-Apx-B.JPG&quot;&gt;</description></item></rss>";
    assert_eq!(
        Engine::new(5000).run_on_feed(src).unwrap(),
        vec!["https://h/t/3840px-Apx-B.JPG".to_string()]
    );
}
