//! Tests for the tree query engine, the extraction algorithm, the error
//! taxonomy and the word wrap, run against the real outside crates.

use rssread::dates::FeedDate;
use rssread::dates::parse_rfc2822;
use rssread::errors::FeedError;
use rssread::feed::FeedChannel;
use rssread::feed::FeedReply;
use rssread::feed::handle_feed_text;
use rssread::feed::handlersstree;
use rssread::feed::try_handle_feed_text;
use rssread::feed::handletree;
use rssread::tree::NameIs;
use rssread::tree::Node;
use rssread::tree::NodeChild;
use rssread::tree::find_all;
use rssread::tree::find_all_text;
use rssread::tree::find_tag_text;

fn elem(name: &str, children: Vec<NodeChild>) -> Node {
    Node { name: name.to_string(), children }
}

fn child(name: &str, children: Vec<NodeChild>) -> NodeChild {
    NodeChild::Elem(elem(name, children))
}

fn text(t: &str) -> NodeChild {
    NodeChild::Text(t.to_string())
}

fn date(year: i32, month: u32, day: u32, hour: u32, minute: u32, second: u32, off: i32) -> FeedDate {
    FeedDate { year, month, day, hour, minute, second, offset_seconds: off }
}

#[test]
fn find_all_does_not_descend_into_matches() {
    // an item nested inside an item: non-recursive search returns only the
    // outer one, but the sibling item is still found
    let root = elem(
        "root",
        vec![
            child("item", vec![child("item", vec![])]),
            child("wrap", vec![child("item", vec![])]),
        ],
    );
    let pred = NameIs::new("item");
    let mut finds: Vec<&Node> = Vec::new();
    find_all(&root, &pred, &mut finds, false);
    assert_eq!(finds.len(), 2);
    assert_eq!(finds[0].children.len(), 1);
    assert_eq!(finds[1].children.len(), 0);

    let mut all: Vec<&Node> = Vec::new();
    find_all(&root, &pred, &mut all, true);
    assert_eq!(all.len(), 3);
}

#[test]
fn find_tag_text_concatenates_single_match() {
    let root = elem("item", vec![child("title", vec![text("a"), text("b")])]);
    let pred = NameIs::new("title");
    let mut s = String::new();
    find_tag_text(&root, &pred, &mut s);
    assert_eq!(s, "ab");
}

#[test]
fn find_tag_text_empty_on_zero_or_two_matches() {
    let zero = elem("item", vec![child("other", vec![text("a")])]);
    let pred = NameIs::new("title");
    let mut s = String::new();
    find_tag_text(&zero, &pred, &mut s);
    assert_eq!(s, "");

    let two = elem(
        "item",
        vec![child("title", vec![text("a")]), child("title", vec![text("b")])],
    );
    let mut t = String::new();
    find_tag_text(&two, &pred, &mut t);
    assert_eq!(t, "");
}

#[test]
fn find_all_text_recursive_and_not() {
    let root = elem("p", vec![text("x"), child("b", vec![text("y")]), text("z")]);
    let mut flat = String::new();
    find_all_text(&root, &mut flat, false);
    assert_eq!(flat, "xz");
    let mut deep = String::new();
    find_all_text(&root, &mut deep, true);
    assert_eq!(deep, "xyz");
}

fn full_item() -> NodeChild {
    child(
        "item",
        vec![
            child("title", vec![text("T")]),
            child("author", vec![text("A")]),
            child("pubDate", vec![text("Tue, 03 Jun 2003 09:39:21 GMT")]),
            child("description", vec![text("D")]),
        ],
    )
}

#[test]
fn item_round_trip_extracts_all_fields() {
    let root = elem("rss", vec![child("channel", vec![full_item()])]);
    let mut reply = FeedReply::new();
    let res = handlersstree(&root, &mut reply);
    assert!(res.is_ok());
    assert_eq!(reply.items.len(), 1);
    assert_eq!(reply.items[0].title, "T");
    assert_eq!(reply.items[0].author, "A");
    assert_eq!(reply.items[0].description, "D");
    assert_eq!(reply.items[0].pubdate, date(2003, 6, 3, 9, 39, 21, 0));
}

#[test]
fn missing_pubdate_fails_whole_extraction() {
    let root = elem(
        "rss",
        vec![child(
            "channel",
            vec![
                full_item(),
                child("item", vec![child("title", vec![text("late")])]),
            ],
        )],
    );
    let mut reply = FeedReply::new();
    let res = handletree(&root, &mut reply);
    assert!(matches!(res, Err(FeedError::DateParse(_))));
    // the item extracted before the failure stays in the reply
    assert_eq!(reply.items.len(), 1);
    assert_eq!(reply.items[0].title, "T");
}

#[test]
fn unparsable_pubdate_fails_whole_extraction() {
    let root = elem(
        "rss",
        vec![child("item", vec![child("pubDate", vec![text("not a date")])])],
    );
    let mut reply = FeedReply::new();
    let res = handlersstree(&root, &mut reply);
    assert!(matches!(res, Err(FeedError::DateParse(_))));
    assert_eq!(reply.items.len(), 0);
}

#[test]
fn zero_items_succeeds_empty() {
    let root = elem("rss", vec![child("channel", vec![child("title", vec![text("c")])])]);
    let mut reply = FeedReply::new();
    let res = handlersstree(&root, &mut reply);
    assert!(res.is_ok());
    assert_eq!(reply.items.len(), 0);
}

#[test]
fn feed_text_round_trip() {
    let doc = "<rss><channel><item><title>T</title><author>A</author>\
               <pubDate>Tue, 03 Jun 2003 09:39:21 GMT</pubDate>\
               <description>D</description></item>\
               <item><title>U</title><author>B</author>\
               <pubDate>Wed, 18 Feb 2015 23:16:09 +0200</pubDate>\
               <description>E</description></item></channel></rss>";
    let mut reply = FeedReply::new();
    let res = handle_feed_text(doc, &mut reply);
    assert!(res.is_ok());
    assert_eq!(reply.items.len(), 2);
    assert_eq!(reply.items[0].title, "T");
    assert_eq!(reply.items[0].pubdate, date(2003, 6, 3, 9, 39, 21, 0));
    assert_eq!(reply.items[1].author, "B");
    assert_eq!(reply.items[1].pubdate, date(2015, 2, 18, 23, 16, 9, 7200));
}

#[test]
fn malformed_xml_fails_before_extraction() {
    let mut reply = FeedReply::new();
    let res = handle_feed_text("<rss><item></rss>", &mut reply);
    assert!(matches!(res, Err(FeedError::XMLParse(_))));
    assert_eq!(reply.items.len(), 0);
}

#[test]
fn unclosed_tag_fails_as_xml_parse() {
    // the builder reports no error for a tag left unclosed at the end of
    // input, but a pending incomplete tree is an XML-parse failure
    let mut reply = FeedReply::new();
    let res = handle_feed_text("<rss><item>", &mut reply);
    assert!(matches!(res, Err(FeedError::XMLParse(_))));
    assert_eq!(reply.items.len(), 0);
}

#[test]
fn bracket_run_guard_refuses_unparsable_text() {
    // a run of 256 ']' bytes overruns a counter in the parser's CDATA
    // state, so such a text is refused before the parser sees it
    let mut bad = String::from("<a><![CDATA[");
    bad.push_str(&"]".repeat(256));
    bad.push_str("]></a>");
    let mut reply = FeedReply::new();
    assert!(try_handle_feed_text(&bad, &mut reply).is_none());
    assert_eq!(reply.items.len(), 0);

    let mut fine = String::from("<a><![CDATA[");
    fine.push_str(&"]".repeat(100));
    fine.push_str("x]]></a>");
    let res = try_handle_feed_text(&fine, &mut reply);
    assert!(matches!(res, Some(Ok(()))));
}

#[test]
fn html_document_succeeds_vacuously() {
    // detection of HTML bodies is not implemented: a document without item
    // elements succeeds with an empty item sequence, whatever its root
    let mut reply = FeedReply::new();
    let res = handle_feed_text("<html><body>hello</body></html>", &mut reply);
    assert!(res.is_ok());
    assert_eq!(reply.items.len(), 0);
}

#[test]
fn parse_rfc2822_accepts_and_rejects() {
    let d = parse_rfc2822("Tue, 03 Jun 2003 09:39:21 GMT").unwrap();
    assert_eq!(d, date(2003, 6, 3, 9, 39, 21, 0));
    let e = parse_rfc2822("Tue, 03 Jun 2003 09:39:21 +0530").unwrap();
    assert_eq!(e.offset_seconds, 5 * 3600 + 30 * 60);
    assert!(parse_rfc2822("").is_err());
    assert!(parse_rfc2822("2003-06-03").is_err());
}

#[test]
fn error_messages_render_fixed_templates() {
    assert_eq!(FeedError::UnknownFeedType.message(), "Unknown feed type.");
    assert_eq!(
        FeedError::Field("pubDate".to_string()).message(),
        "Required field \"pubDate\" missing from RSS/Atom feed."
    );
    assert_eq!(
        FeedError::WasHTML("page".to_string()).message(),
        "Expected an RSS/ATOM feed but received a web page \"page\"."
    );
    let xerr = parse_rfc2822("nope").unwrap_err();
    let wrapped = FeedError::from(xerr);
    assert!(!wrapped.message().is_empty());
}

#[test]
fn new_reply_is_empty() {
    let channel = FeedChannel::new();
    assert_eq!(channel.title, "");
    assert_eq!(channel.link, "");
    assert_eq!(channel.description, "");
    let reply = FeedReply::new();
    assert_eq!(reply.items.len(), 0);
    assert_eq!(reply.channel.title, "");
}
