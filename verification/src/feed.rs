//! The feed domain model and the RSS item-extraction algorithm: walk a
//! parsed document tree with the tree query engine and populate a
//! `FeedReply`, failing fast on any unparsable publication date.

use vstd::prelude::*;
use vstd::slice::slice_index_get;
use vstd::string::StringSliceAdditionalSpecFns;
use crate::dates::FeedDate;
use crate::dates::parse_rfc2822;
use crate::dates::rfc2822_date;
use crate::errors::FeedError;
use crate::errors::FeedResult;
use crate::tree::Node;
use crate::tree::NodeChild;
use crate::tree::NodeV;
use crate::tree::NameIs;
use crate::tree::find_all;
use crate::tree::find_tag_text;
use crate::tree::found;
use crate::tree::pred_of;
use crate::tree::tag_text;
use crate::tree::views_of;

verus! {

/// An RSS or Atom channel: feed-level metadata. Channel extraction is a
/// known gap, so the fields stay as constructed until then.
pub struct FeedChannel {
    pub title: String,
    pub link: String,
    pub description: String,
}

/// One feed entry: title, raw markup description, author, and the
/// publication date that must have parsed strictly as RFC 2822.
pub struct FeedItem {
    pub title: String,
    pub description: String,
    pub author: String,
    pub pubdate: FeedDate,
}

/// The data returned from a feed: channel info and the items found, in
/// document order.
pub struct FeedReply {
    pub channel: FeedChannel,
    pub items: Vec<FeedItem>,
}

/// The mathematical model of a channel.
pub struct ChannelV {
    pub title: Seq<char>,
    pub link: Seq<char>,
    pub description: Seq<char>,
}

/// The mathematical model of a feed item.
pub struct ItemV {
    pub title: Seq<char>,
    pub description: Seq<char>,
    pub author: Seq<char>,
    pub pubdate: FeedDate,
}

/// The mathematical model of a reply.
pub struct ReplyV {
    pub channel: ChannelV,
    pub items: Seq<ItemV>,
}

impl View for FeedChannel {
    type V = ChannelV;

    open spec fn view(&self) -> ChannelV {
        ChannelV { title: self.title@, link: self.link@, description: self.description@ }
    }
}

impl View for FeedItem {
    type V = ItemV;

    open spec fn view(&self) -> ItemV {
        ItemV {
            title: self.title@,
            description: self.description@,
            author: self.author@,
            pubdate: self.pubdate,
        }
    }
}

/// The views of a sequence of feed items.
pub open spec fn items_view(s: Seq<FeedItem>) -> Seq<ItemV> {
    s.map_values(|x: FeedItem| x@)
}

impl View for FeedReply {
    type V = ReplyV;

    open spec fn view(&self) -> ReplyV {
        ReplyV { channel: self.channel@, items: items_view(self.items@) }
    }
}

impl FeedChannel {
    /// A channel with every field empty.
    pub fn new() -> (r: FeedChannel)
        ensures
            r@.title == Seq::<char>::empty(),
            r@.link == Seq::<char>::empty(),
            r@.description == Seq::<char>::empty(),
    {
        FeedChannel { title: String::new(), link: String::new(), description: String::new() }
    }
}

impl FeedReply {
    /// An empty reply: a default channel and no items.
    pub fn new() -> (r: FeedReply)
        ensures
            r@.channel.title == Seq::<char>::empty(),
            r@.channel.link == Seq::<char>::empty(),
            r@.channel.description == Seq::<char>::empty(),
            r@.items == Seq::<ItemV>::empty(),
    {
        let r = FeedReply { channel: FeedChannel::new(), items: Vec::<FeedItem>::new() };
        proof {
            assert(items_view(Seq::<FeedItem>::empty()) =~= Seq::<ItemV>::empty());
        }
        r
    }
}

/// The predicate over nodes that tests the node's name against `name`.
pub open spec fn name_test(name: Seq<char>) -> spec_fn(NodeV) -> bool {
    |m: NodeV| m.name == name
}

/// Two pointwise-equal node predicates are the same predicate.
pub proof fn lemma_pred_ext(pa: spec_fn(NodeV) -> bool, pb: spec_fn(NodeV) -> bool)
    requires
        forall|m: NodeV| #[trigger] pa(m) == pb(m),
    ensures
        pa == pb,
{
    assert(pa =~= pb);
}

/// The item elements found anywhere under `t`: an item is never nested
/// inside another item for search purposes, so the search is non-recursive
/// into matches.
pub open spec fn tree_items(t: NodeV) -> Seq<NodeV> {
    found(name_test("item"@), t, false)
}

/// The text that item extraction hands to the date parser.
pub open spec fn item_date_text(it: NodeV) -> Seq<char> {
    tag_text(name_test("pubDate"@), it)
}

/// Whether an item element carries a parsable publication date.
pub open spec fn item_ok(it: NodeV) -> bool {
    rfc2822_date(item_date_text(it)) is Some
}

/// The feed item extracted from an item element whose date parses: the
/// three optional fields degrade to empty text when missing or ambiguous.
pub open spec fn feed_item_of(it: NodeV) -> ItemV {
    ItemV {
        title: tag_text(name_test("title"@), it),
        description: tag_text(name_test("description"@), it),
        author: tag_text(name_test("author"@), it),
        pubdate: rfc2822_date(item_date_text(it))->Some_0,
    }
}

/// The feed items extracted from a sequence of item elements.
pub open spec fn feed_items_of(s: Seq<NodeV>) -> Seq<ItemV> {
    s.map_values(|it: NodeV| feed_item_of(it))
}

/// What item extraction guarantees: on success every item parsed and all
/// were appended in document order; on failure the error is a date-parse
/// error and exactly the items before the first unparsable one were
/// appended. The channel is never touched.
pub open spec fn extraction_post(t: NodeV, pre: ReplyV, post: ReplyV, r: FeedResult<()>) -> bool {
    let items = tree_items(t);
    &&& post.channel == pre.channel
    &&& (r is Ok <==> (forall|i: int| 0 <= i < items.len() ==> item_ok(#[trigger] items[i])))
    &&& (r is Ok ==> post.items == pre.items + feed_items_of(items))
    &&& (r matches Err(e) ==> {
        &&& e is DateParse
        &&& exists|k: int|
            {
                &&& 0 <= k < items.len()
                &&& !item_ok(#[trigger] items[k])
                &&& (forall|j: int| 0 <= j < k ==> item_ok(#[trigger] items[j]))
                &&& post.items == pre.items + feed_items_of(items.take(k))
            }
    })
}

/// An item element under which no `pubDate` node matches hands empty text
/// to the date parser, and empty text never parses as an RFC 2822 date.
pub proof fn lemma_missing_pubdate_fails(it: NodeV)
    requires
        found(name_test("pubDate"@), it, false).len() == 0,
    ensures
        !item_ok(it),
{
    assert(item_date_text(it) == Seq::<char>::empty());
}

/// An item missing `pubDate` entirely causes the whole extraction call to
/// fail with a date-parse error, whatever the other items held.
pub proof fn lemma_missing_pubdate_aborts(
    t: NodeV,
    pre: ReplyV,
    post: ReplyV,
    r: FeedResult<()>,
    k: int,
)
    requires
        extraction_post(t, pre, post, r),
        0 <= k < tree_items(t).len(),
        found(name_test("pubDate"@), tree_items(t)[k], false).len() == 0,
    ensures
        r is Err,
        r matches Err(e) ==> e is DateParse,
{
    lemma_missing_pubdate_fails(tree_items(t)[k]);
}

/// A tree containing zero item elements extracts successfully and adds
/// nothing to the reply.
pub proof fn lemma_no_items_succeeds(t: NodeV, pre: ReplyV, post: ReplyV, r: FeedResult<()>)
    requires
        extraction_post(t, pre, post, r),
        tree_items(t).len() == 0,
    ensures
        r is Ok,
        post.items == pre.items,
        post.channel == pre.channel,
{
    assert(feed_items_of(tree_items(t)) =~= Seq::<ItemV>::empty());
    assert(pre.items + Seq::<ItemV>::empty() =~= pre.items);
}

/// Handle a tree of RSS items: locate every `item` element under `tree`,
/// extract author, publication date, title and description from each, and
/// append the items to `reply` in document order. A publication date that
/// fails the strict RFC 2822 parse aborts extraction of the entire tree
/// with a `DateParse` error; items already extracted stay in the reply.
pub fn handlersstree(tree: &Node, reply: &mut FeedReply) -> (r: FeedResult<()>)
    ensures
        extraction_post(tree@, old(reply)@, final(reply)@, r),
{
    let ghost items = tree_items(tree@);
    let isitem = NameIs::new("item");
    let mut itemelts: Vec<&Node> = Vec::new();
    find_all(tree, &isitem, &mut itemelts, false);
    proof {
        lemma_pred_ext(pred_of(&isitem), name_test("item"@));
        assert(views_of(Seq::<&Node>::empty()) =~= Seq::<NodeV>::empty());
        assert(Seq::<NodeV>::empty() + items =~= items);
        assert(views_of(itemelts@) == items);
    }
    let n = itemelts.len();
    let mut i: usize = 0;
    while i < n
        invariant
            n == itemelts@.len(),
            0 <= i <= n,
            views_of(itemelts@) == items,
            items == tree_items(tree@),
            forall|j: int| 0 <= j < i ==> item_ok(#[trigger] items[j]),
            reply@.items == old(reply)@.items + feed_items_of(items.take(i as int)),
            reply@.channel == old(reply)@.channel,
        decreases n - i,
    {
        let itemelt: &Node = itemelts[i];
        proof {
            assert(itemelt@ == views_of(itemelts@)[i as int]);
        }
        let isauthor = NameIs::new("author");
        let mut authorstr = String::new();
        find_tag_text(itemelt, &isauthor, &mut authorstr);
        proof {
            lemma_pred_ext(pred_of(&isauthor), name_test("author"@));
            assert(Seq::<char>::empty() + tag_text(name_test("author"@), items[i as int])
                =~= tag_text(name_test("author"@), items[i as int]));
        }
        let ispubdate = NameIs::new("pubDate");
        let mut pubdatestr = String::new();
        find_tag_text(itemelt, &ispubdate, &mut pubdatestr);
        proof {
            lemma_pred_ext(pred_of(&ispubdate), name_test("pubDate"@));
            assert(Seq::<char>::empty() + item_date_text(items[i as int]) =~= item_date_text(
                items[i as int],
            ));
        }
        let pubtimestamp = match parse_rfc2822(pubdatestr.as_str()) {
            Ok(date) => date,
            Err(xerr) => {
                proof {
                    assert(!item_ok(items[i as int]));
                }
                return Err(FeedError::from(xerr));
            },
        };
        let istitle = NameIs::new("title");
        let mut titlestr = String::new();
        find_tag_text(itemelt, &istitle, &mut titlestr);
        proof {
            lemma_pred_ext(pred_of(&istitle), name_test("title"@));
            assert(Seq::<char>::empty() + tag_text(name_test("title"@), items[i as int])
                =~= tag_text(name_test("title"@), items[i as int]));
        }
        let isdescription = NameIs::new("description");
        let mut descriptionstr = String::new();
        find_tag_text(itemelt, &isdescription, &mut descriptionstr);
        proof {
            lemma_pred_ext(pred_of(&isdescription), name_test("description"@));
            assert(Seq::<char>::empty() + tag_text(name_test("description"@), items[i as int])
                =~= tag_text(name_test("description"@), items[i as int]));
        }
        let feeditem = FeedItem {
            title: titlestr,
            description: descriptionstr,
            author: authorstr,
            pubdate: pubtimestamp,
        };
        proof {
            assert(item_ok(items[i as int]));
            assert(feeditem@ == feed_item_of(items[i as int]));
        }
        let ghost prevec = reply.items@;
        reply.items.push(feeditem);
        proof {
            assert(items_view(prevec.push(feeditem)) =~= items_view(prevec).push(feeditem@));
            assert(items.take(i + 1).drop_last() =~= items.take(i as int));
            assert(items.take(i + 1).last() == items[i as int]);
            assert(feed_items_of(items.take(i + 1)) =~= feed_items_of(items.take(i as int)).push(
                feed_item_of(items[i as int]),
            ));
            assert(reply@.items =~= old(reply)@.items + feed_items_of(items.take(i + 1)));
        }
        i = i + 1;
    }
    proof {
        assert(items.take(n as int) =~= items);
    }
    Ok(())
}

/// Handle a tree generated by the XML parser. May be RSS, Atom, or HTML;
/// for now every tree is routed through the RSS path only.
pub fn handletree(tree: &Node, reply: &mut FeedReply) -> (r: FeedResult<()>)
    ensures
        extraction_post(tree@, old(reply)@, final(reply)@, r),
{
    handlersstree(tree, reply)
}

/// The element type of the xml crate's document trees, opaque to the
/// verifier; `node_of_element` turns it into the library's own tree.
#[verifier::external_type_specification]
#[verifier::external_body]
pub struct ExElement(xml::Element);

/// The event type of the xml crate's parser, opaque to the verifier;
/// `event_of` turns each event into the library's own record of it.
#[verifier::external_type_specification]
#[verifier::external_body]
pub struct ExEvent(xml::Event);

/// One parse event, as the library records it: an element start or end
/// tag with its name, or one of the other kinds of document content.
pub enum XmlEvent {
    Start(String),
    End(String),
    Text(String),
    CData(String),
    Comment(String),
    Pi(String),
}

/// The mathematical model of a parse event.
pub enum XmlEventV {
    Start(Seq<char>),
    End(Seq<char>),
    Text(Seq<char>),
    CData(Seq<char>),
    Comment(Seq<char>),
    Pi(Seq<char>),
}

impl View for XmlEvent {
    type V = XmlEventV;

    open spec fn view(&self) -> XmlEventV {
        match self {
            XmlEvent::Start(s) => XmlEventV::Start(s@),
            XmlEvent::End(s) => XmlEventV::End(s@),
            XmlEvent::Text(s) => XmlEventV::Text(s@),
            XmlEvent::CData(s) => XmlEventV::CData(s@),
            XmlEvent::Comment(s) => XmlEventV::Comment(s@),
            XmlEvent::Pi(s) => XmlEventV::Pi(s@),
        }
    }
}

/// The views of a sequence of parse events.
pub open spec fn events_view(s: Seq<XmlEvent>) -> Seq<XmlEventV> {
    s.map_values(|e: XmlEvent| e@)
}

/// What one event does to the count of open elements.
pub open spec fn event_depth_step(e: XmlEventV) -> int {
    match e {
        XmlEventV::Start(_) => 1,
        XmlEventV::End(_) => -1,
        _ => 0,
    }
}

/// The number of elements still open after the events: start tags seen,
/// less end tags seen.
pub open spec fn open_depth(evs: Seq<XmlEventV>) -> int
    decreases evs.len(),
{
    if evs.len() == 0 {
        0
    } else {
        open_depth(evs.drop_last()) + event_depth_step(evs.last())
    }
}

/// What the XML parse of one full document text yields: the complete
/// trees, in order of completion, whether the whole text was consumed
/// without a builder error, and the parse events seen on the way. All
/// three are a function of the text alone.
pub uninterp spec fn xml_parse(text: Seq<char>) -> (Seq<NodeV>, bool, Seq<XmlEventV>);

/// Whether the parse of the text is complete: no builder error, and no
/// element still open when the input ended. The xml crate's builder
/// reports no error for a tag left unclosed at the end of input, so the
/// open-element count of the events stands beside its error.
pub open spec fn parse_complete(text: Seq<char>) -> bool {
    xml_parse(text).1 && open_depth(xml_parse(text).2) == 0
}

/// The length of the run of `]` bytes ending just before position `m`.
pub open spec fn bracket_run_at(bs: Seq<u8>, m: int) -> int
    decreases m,
{
    if m <= 0 || m > bs.len() {
        0
    } else if bs[m - 1] == 93u8 {
        1 + bracket_run_at(bs, m - 1)
    } else {
        0
    }
}

/// A run of 256 consecutive `]` bytes somewhere in `bs`: at some position
/// the run of `]` bytes ending there reaches 256. `]` is a single UTF-8
/// byte, so such a run is also a run of 256 `]` characters; inside a
/// CDATA section the xml crate's parser counts consecutive `]` characters
/// in a byte-wide counter that the 256th one overruns.
pub open spec fn long_bracket_run(bs: Seq<u8>) -> bool {
    exists|m: int| 0 <= m <= bs.len() && bracket_run_at(bs, m) >= 256
}

/// Whether the text holds a run of 256 consecutive `]` bytes, which the
/// xml crate's parser cannot take.
pub fn has_long_bracket_run(text: &str) -> (r: bool)
    ensures
        r == long_bracket_run(text.spec_bytes()),
{
    let bs = text.as_bytes();
    let n = bs.len();
    let mut run: usize = 0;
    let mut i: usize = 0;
    while i < n
        invariant
            n == bs@.len(),
            bs@ == text.spec_bytes(),
            0 <= i <= n,
            run == bracket_run_at(bs@, i as int),
            run < 256,
            forall|m: int| 0 <= m <= i ==> #[trigger] bracket_run_at(bs@, m) < 256,
        decreases n - i,
    {
        if *slice_index_get(bs, i) == 93u8 {
            run = run + 1;
            if run == 256 {
                proof {
                    assert(bracket_run_at(bs@, i + 1) == 256);
                }
                return true;
            }
        } else {
            run = 0;
        }
        i = i + 1;
    }
    false
}

/// The views of a sequence of owned nodes.
pub open spec fn nodes_view(s: Seq<Node>) -> Seq<NodeV> {
    s.map_values(|n: Node| n@)
}

/// Relies on the public `name` and `children` fields of the xml crate's
/// `Element`: converts one element into the library's tree, name and
/// children one for one. It is the conversion step of `parse_xml_trees`
/// and nothing else calls it.
#[verifier::external_body]
fn node_of_element(e: &xml::Element) -> Node {
    let mut children: Vec<NodeChild> = Vec::new();
    for ch in e.children.iter() {
        match ch {
            xml::Xml::ElementNode(el) => children.push(NodeChild::Elem(node_of_element(el))),
            xml::Xml::CharacterNode(t) => children.push(NodeChild::Text(t.clone())),
            xml::Xml::CDATANode(t) => children.push(NodeChild::Other(t.clone())),
            xml::Xml::CommentNode(t) => children.push(NodeChild::Other(t.clone())),
            xml::Xml::PINode(t) => children.push(NodeChild::Other(t.clone())),
        }
    }
    Node { name: e.name.clone(), children }
}

/// Relies on the xml crate's `Event` enum and the `name` fields of its
/// `StartTag` and `EndTag`: converts one parse event, variant for
/// variant. It is the conversion step of `parse_xml_trees` and nothing
/// else calls it.
#[verifier::external_body]
fn event_of(e: &xml::Event) -> XmlEvent {
    match e {
        xml::Event::ElementStart(t) => XmlEvent::Start(t.name.clone()),
        xml::Event::ElementEnd(t) => XmlEvent::End(t.name.clone()),
        xml::Event::Characters(s) => XmlEvent::Text(s.clone()),
        xml::Event::CDATA(s) => XmlEvent::CData(s.clone()),
        xml::Event::Comment(s) => XmlEvent::Comment(s.clone()),
        xml::Event::PI(s) => XmlEvent::Pi(s.clone()),
    }
}

/// Relies on the xml crate's `Parser` and `ElementBuilder`: feeding one
/// full text into the parser and handing each event to the builder yields
/// the completed trees in order, the events seen on the way, and at most
/// one builder error; parsing is a deterministic function of the text
/// alone. Events and trees after the first error are not returned,
/// matching an event loop that stops on the first builder error. The
/// parser's CDATA state counts consecutive `]` characters in a byte-wide
/// counter that the 256th one overruns, so such texts are left out.
#[verifier::external_body]
fn parse_xml_trees(text: &str) -> (r: (Vec<Node>, Option<xml::BuilderError>, Vec<XmlEvent>))
    requires
        !long_bracket_run(text.spec_bytes()),
    ensures
        nodes_view(r.0@) == xml_parse(text@).0,
        r.1 is None <==> xml_parse(text@).1,
        events_view(r.2@) == xml_parse(text@).2,
{
    let mut p = xml::Parser::new();
    let mut b = xml::ElementBuilder::new();
    let mut trees: Vec<Node> = Vec::new();
    let mut events: Vec<XmlEvent> = Vec::new();
    p.feed_str(text);
    for ev in p {
        if let Ok(e) = &ev { events.push(event_of(e)); }
        match b.handle_event(ev) {
            Some(Ok(elem)) => trees.push(node_of_element(&elem)),
            Some(Err(xerr)) => return (trees, Some(xerr), events),
            None => {},
        }
    }
    (trees, None, events)
}

/// Relies on the `NoElement` variant of the xml crate's `BuilderError`:
/// the builder itself never reports a tree left incomplete at the end of
/// input, so this value stands for that failure when the event count
/// shows an element still open.
#[verifier::external_body]
fn incomplete_tree_error() -> xml::BuilderError {
    xml::BuilderError::NoElement
}

/// Whether the events leave any element open at the end of input.
fn has_open_elements(events: &Vec<XmlEvent>) -> (r: bool)
    ensures
        r == (open_depth(events_view(events@)) != 0),
{
    let ghost evs = events_view(events@);
    let mut depth: i128 = 0;
    let n = events.len();
    let mut i: usize = 0;
    proof {
        assert(evs.take(0) =~= Seq::<XmlEventV>::empty());
    }
    while i < n
        invariant
            n == events@.len(),
            0 <= i <= n,
            evs == events_view(events@),
            -(i as int) <= depth <= i as int,
            depth == open_depth(evs.take(i as int)),
        decreases n - i,
    {
        proof {
            assert(evs.take(i + 1).drop_last() =~= evs.take(i as int));
            assert(evs.take(i + 1).last() == evs[i as int]);
            assert(evs[i as int] == events@[i as int]@);
        }
        match &events[i] {
            XmlEvent::Start(_) => {
                depth = depth + 1;
            },
            XmlEvent::End(_) => {
                depth = depth - 1;
            },
            _ => {
            },
        }
        i = i + 1;
    }
    proof {
        assert(evs.take(n as int) =~= evs);
    }
    depth != 0
}

/// Whether every item element of a tree carries a parsable date.
pub open spec fn tree_ok(t: NodeV) -> bool {
    forall|i: int| 0 <= i < tree_items(t).len() ==> item_ok(#[trigger] tree_items(t)[i])
}

/// The feed items extracted from a sequence of trees, in order.
pub open spec fn trees_feed_items(ts: Seq<NodeV>) -> Seq<ItemV>
    decreases ts.len(),
{
    if ts.len() == 0 {
        Seq::empty()
    } else {
        trees_feed_items(ts.drop_last()) + feed_items_of(tree_items(ts.last()))
    }
}

/// What handling one document text guarantees: the text is parsed into
/// zero or more complete trees, each tree's items are extracted in order,
/// a date-parse failure aborts everything at once, and a malformed text
/// surfaces as an XML-parse error after the trees completed before the
/// error were extracted. The channel is never touched.
pub open spec fn feed_text_post(
    text: Seq<char>,
    pre: ReplyV,
    post: ReplyV,
    r: FeedResult<()>,
) -> bool {
    let trees = xml_parse(text).0;
    &&& post.channel == pre.channel
    &&& (r is Ok <==> (parse_complete(text) && (forall|i: int| 0 <= i < trees.len() ==> tree_ok(
        #[trigger] trees[i],
    ))))
    &&& (r is Ok ==> post.items == pre.items + trees_feed_items(trees))
    &&& (r matches Err(e) ==> {
        ||| {
            &&& e is DateParse
            &&& exists|k: int|
                {
                    &&& 0 <= k < trees.len()
                    &&& !#[trigger] tree_ok(trees[k])
                    &&& (forall|j: int| 0 <= j < k ==> tree_ok(#[trigger] trees[j]))
                    &&& extraction_post(
                        trees[k],
                        ReplyV {
                            channel: pre.channel,
                            items: pre.items + trees_feed_items(trees.take(k)),
                        },
                        post,
                        r,
                    )
                }
        }
        ||| {
            &&& e is XMLParse
            &&& !parse_complete(text)
            &&& (forall|j: int| 0 <= j < trees.len() ==> tree_ok(#[trigger] trees[j]))
            &&& post.items == pre.items + trees_feed_items(trees)
        }
    })
}

/// A malformed document text that completes no tree fails with an
/// XML-parse error before any item is extracted.
pub proof fn lemma_malformed_text_fails(
    text: Seq<char>,
    pre: ReplyV,
    post: ReplyV,
    r: FeedResult<()>,
)
    requires
        feed_text_post(text, pre, post, r),
        xml_parse(text).0.len() == 0,
        !parse_complete(text),
    ensures
        r is Err,
        r matches Err(e) ==> e is XMLParse,
        post.items == pre.items,
{
    assert(trees_feed_items(xml_parse(text).0) =~= Seq::<ItemV>::empty());
    assert(pre.items + Seq::<ItemV>::empty() =~= pre.items);
}

/// Feed one full document text to the XML parser and extract the items of
/// every completed tree into `reply`. Each builder error converts to
/// `XMLParse`; an extraction error aborts further tree processing at once.
pub fn handle_feed_text(text: &str, reply: &mut FeedReply) -> (r: FeedResult<()>)
    requires
        !long_bracket_run(text.spec_bytes()),
    ensures
        feed_text_post(text@, old(reply)@, final(reply)@, r),
{
    let ghost tvs = xml_parse(text@).0;
    let (trees, perr, events) = parse_xml_trees(text);
    proof {
        assert(nodes_view(trees@) == tvs);
        assert(trees_feed_items(tvs.take(0)) =~= Seq::<ItemV>::empty());
        assert(old(reply)@.items + Seq::<ItemV>::empty() =~= old(reply)@.items);
    }
    let n = trees.len();
    let mut i: usize = 0;
    while i < n
        invariant
            n == trees@.len(),
            0 <= i <= n,
            nodes_view(trees@) == tvs,
            tvs == xml_parse(text@).0,
            forall|j: int| 0 <= j < i ==> tree_ok(#[trigger] tvs[j]),
            reply@.items == old(reply)@.items + trees_feed_items(tvs.take(i as int)),
            reply@.channel == old(reply)@.channel,
        decreases n - i,
    {
        let tree: &Node = &trees[i];
        proof {
            assert(tree@ == nodes_view(trees@)[i as int]);
        }
        let ghost pre = reply@;
        let res = handletree(tree, reply);
        match res {
            Ok(()) => {
                proof {
                    assert(tree_ok(tvs[i as int]));
                    assert(tvs.take(i + 1).drop_last() =~= tvs.take(i as int));
                    assert(tvs.take(i + 1).last() == tvs[i as int]);
                    assert(reply@.items =~= old(reply)@.items + trees_feed_items(tvs.take(i + 1)));
                }
            },
            Err(e) => {
                proof {
                    assert(!tree_ok(tvs[i as int]));
                    assert(pre == ReplyV {
                        channel: old(reply)@.channel,
                        items: old(reply)@.items + trees_feed_items(tvs.take(i as int)),
                    });
                }
                return Err(e);
            },
        }
        i = i + 1;
    }
    proof {
        assert(tvs.take(n as int) =~= tvs);
    }
    match perr {
        Some(xerr) => Err(FeedError::from(xerr)),
        None => {
            if has_open_elements(&events) {
                Err(FeedError::from(incomplete_tree_error()))
            } else {
                Ok(())
            }
        },
    }
}

/// As `handle_feed_text`, for any text at all: a text holding a run of
/// 256 `]` bytes, which the xml crate's parser cannot take, is refused
/// with `None` and the reply is left untouched.
pub fn try_handle_feed_text(text: &str, reply: &mut FeedReply) -> (r: Option<FeedResult<()>>)
    ensures
        r is None <==> long_bracket_run(text.spec_bytes()),
        r is None ==> *final(reply) == *old(reply),
        r matches Some(res) ==> feed_text_post(text@, old(reply)@, final(reply)@, res),
{
    if has_long_bracket_run(text) {
        None
    } else {
        Some(handle_feed_text(text, reply))
    }
}

} // verus!
