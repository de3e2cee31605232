//! The output schema (feed, channel, items, enclosures) and its serializer:
//! well-formed, namespaced XML text with a fixed field order.
//!
//! For every scalar field: a present value is emitted as `<tag>escaped</tag>`;
//! an absent optional value emits nothing at all, never an empty tag. The
//! enclosure is a single self-closing element carrying three attributes.

use vstd::prelude::*;

use crate::date::{pub_date_text, rfc2822_of, FEED_DATE_MAX_TIMESTAMP};
use crate::error::{Error, ErrorKind};
use crate::text::{push_decimal, spec_decimal, string_push};
use crate::uuid::{spec_uuid_text, Uuid};

verus! {

/// The replacement for one character of element text: the XML specials `&`,
/// `<` and `>` become entities, everything else stays itself.
pub open spec fn spec_escape_text_char(c: char) -> Seq<char> {
    if c == '&' {
        "&amp;"@
    } else if c == '<' {
        "&lt;"@
    } else if c == '>' {
        "&gt;"@
    } else {
        seq![c]
    }
}

/// Element text with every character escaped.
pub open spec fn spec_escape_text(s: Seq<char>) -> Seq<char>
    decreases s.len(),
{
    if s.len() == 0 {
        Seq::<char>::empty()
    } else {
        spec_escape_text_char(s[0]) + spec_escape_text(s.drop_first())
    }
}

/// Text escaping distributes over appending one character.
proof fn lemma_escape_text_push(s: Seq<char>, c: char)
    ensures
        spec_escape_text(s.push(c)) == spec_escape_text(s) + spec_escape_text_char(c),
    decreases s.len(),
{
    if s.len() == 0 {
        assert(s.push(c)[0] == c);
        assert(s.push(c).drop_first() =~= Seq::<char>::empty());
        assert(spec_escape_text(s.push(c)) == spec_escape_text_char(c) + spec_escape_text(
            Seq::<char>::empty(),
        ));
        assert(spec_escape_text(s.push(c)) =~= spec_escape_text(s) + spec_escape_text_char(c));
    } else {
        assert(s.push(c)[0] == s[0]);
        assert(s.push(c).drop_first() =~= s.drop_first().push(c));
        lemma_escape_text_push(s.drop_first(), c);
        assert(spec_escape_text(s.push(c)) == spec_escape_text_char(s[0]) + (spec_escape_text(
            s.drop_first(),
        ) + spec_escape_text_char(c)));
        assert(spec_escape_text(s.push(c)) =~= spec_escape_text(s) + spec_escape_text_char(c));
    }
}

/// The replacement for one character of an attribute value: as in element
/// text, with both quote characters escaped as well.
pub open spec fn spec_escape_attr_char(c: char) -> Seq<char> {
    if c == '&' {
        "&amp;"@
    } else if c == '<' {
        "&lt;"@
    } else if c == '>' {
        "&gt;"@
    } else if c == '"' {
        "&quot;"@
    } else if c == '\'' {
        "&apos;"@
    } else {
        seq![c]
    }
}

/// An attribute value with every character escaped.
pub open spec fn spec_escape_attr(s: Seq<char>) -> Seq<char>
    decreases s.len(),
{
    if s.len() == 0 {
        Seq::<char>::empty()
    } else {
        spec_escape_attr_char(s[0]) + spec_escape_attr(s.drop_first())
    }
}

/// Attribute escaping distributes over appending one character.
proof fn lemma_escape_attr_push(s: Seq<char>, c: char)
    ensures
        spec_escape_attr(s.push(c)) == spec_escape_attr(s) + spec_escape_attr_char(c),
    decreases s.len(),
{
    if s.len() == 0 {
        assert(s.push(c)[0] == c);
        assert(s.push(c).drop_first() =~= Seq::<char>::empty());
        assert(spec_escape_attr(s.push(c)) == spec_escape_attr_char(c) + spec_escape_attr(
            Seq::<char>::empty(),
        ));
        assert(spec_escape_attr(s.push(c)) =~= spec_escape_attr(s) + spec_escape_attr_char(c));
    } else {
        assert(s.push(c)[0] == s[0]);
        assert(s.push(c).drop_first() =~= s.drop_first().push(c));
        lemma_escape_attr_push(s.drop_first(), c);
        assert(spec_escape_attr(s.push(c)) == spec_escape_attr_char(s[0]) + (spec_escape_attr(
            s.drop_first(),
        ) + spec_escape_attr_char(c)));
        assert(spec_escape_attr(s.push(c)) =~= spec_escape_attr(s) + spec_escape_attr_char(c));
    }
}

/// Appends `s` with element-text escaping.
fn push_escaped_text(out: &mut String, s: &str)
    ensures
        final(out)@ == old(out)@ + spec_escape_text(s@),
{
    let n = s.unicode_len();
    let mut i: usize = 0;
    proof {
        assert(s@.subrange(0, 0) =~= Seq::<char>::empty());
    }
    while i < n
        invariant
            i <= n,
            n == s@.len(),
            out@ == old(out)@ + spec_escape_text(s@.subrange(0, i as int)),
        decreases n - i,
    {
        let c = s.get_char(i);
        if c == '&' {
            out.append("&amp;");
        } else if c == '<' {
            out.append("&lt;");
        } else if c == '>' {
            out.append("&gt;");
        } else {
            string_push(out, c);
        }
        proof {
            assert(s@.subrange(0, i + 1 as int) =~= s@.subrange(0, i as int).push(s@[i as int]));
            lemma_escape_text_push(s@.subrange(0, i as int), s@[i as int]);
        }
        i = i + 1;
    }
    proof {
        assert(s@.subrange(0, n as int) =~= s@);
    }
}

/// Appends `s` with attribute-value escaping.
fn push_escaped_attr(out: &mut String, s: &str)
    ensures
        final(out)@ == old(out)@ + spec_escape_attr(s@),
{
    let n = s.unicode_len();
    let mut i: usize = 0;
    proof {
        assert(s@.subrange(0, 0) =~= Seq::<char>::empty());
    }
    while i < n
        invariant
            i <= n,
            n == s@.len(),
            out@ == old(out)@ + spec_escape_attr(s@.subrange(0, i as int)),
        decreases n - i,
    {
        let c = s.get_char(i);
        if c == '&' {
            out.append("&amp;");
        } else if c == '<' {
            out.append("&lt;");
        } else if c == '>' {
            out.append("&gt;");
        } else if c == '"' {
            out.append("&quot;");
        } else if c == '\'' {
            out.append("&apos;");
        } else {
            string_push(out, c);
        }
        proof {
            assert(s@.subrange(0, i + 1 as int) =~= s@.subrange(0, i as int).push(s@[i as int]));
            lemma_escape_attr_push(s@.subrange(0, i as int), s@[i as int]);
        }
        i = i + 1;
    }
    proof {
        assert(s@.subrange(0, n as int) =~= s@);
    }
}

/// `<tag>` text `</tag>`.
pub open spec fn spec_elem(tag: Seq<char>, text: Seq<char>) -> Seq<char> {
    seq!['<'] + tag + seq!['>'] + text + seq!['<', '/'] + tag + seq!['>']
}

/// A scalar element: the value appears as escaped element text.
pub open spec fn spec_text_elem(tag: Seq<char>, value: Seq<char>) -> Seq<char> {
    spec_elem(tag, spec_escape_text(value))
}

/// A numeric element: the value appears as decimal digits.
pub open spec fn spec_num_elem(tag: Seq<char>, n: int) -> Seq<char> {
    spec_elem(tag, spec_decimal(n))
}

/// The view of an optional string.
pub open spec fn spec_opt_view(o: Option<String>) -> Option<Seq<char>> {
    match o {
        Some(s) => Some(s@),
        None => None,
    }
}

/// An optional scalar element: a present value emits its element, an absent
/// value emits nothing (never an empty tag).
pub open spec fn spec_opt_text_elem(tag: Seq<char>, value: Option<Seq<char>>) -> Seq<char> {
    match value {
        Some(v) => spec_text_elem(tag, v),
        None => Seq::<char>::empty(),
    }
}

/// Law (omission on absence): an absent optional field emits nothing at all,
/// and a present one emits exactly its single element.
pub proof fn lemma_omission_on_absence(tag: Seq<char>, value: Option<Seq<char>>)
    ensures
        value is None ==> spec_opt_text_elem(tag, value) == Seq::<char>::empty(),
        value matches Some(v) ==> spec_opt_text_elem(tag, value) == spec_text_elem(tag, v),
{
}

/// Appends `<tag>` escaped value `</tag>`.
fn push_text_elem(out: &mut String, tag: &str, value: &str)
    ensures
        final(out)@ == old(out)@ + spec_text_elem(tag@, value@),
{
    string_push(out, '<');
    out.append(tag);
    string_push(out, '>');
    push_escaped_text(out, value);
    string_push(out, '<');
    string_push(out, '/');
    out.append(tag);
    string_push(out, '>');
    proof {
        assert(out@ =~= old(out)@ + spec_text_elem(tag@, value@));
    }
}

/// Appends `<tag>` decimal digits `</tag>`.
fn push_num_elem(out: &mut String, tag: &str, n: u64)
    ensures
        final(out)@ == old(out)@ + spec_num_elem(tag@, n as int),
{
    string_push(out, '<');
    out.append(tag);
    string_push(out, '>');
    push_decimal(out, n);
    string_push(out, '<');
    string_push(out, '/');
    out.append(tag);
    string_push(out, '>');
    proof {
        assert(out@ =~= old(out)@ + spec_num_elem(tag@, n as int));
    }
}

/// Appends the element for a present value, or nothing for an absent one.
fn push_opt_text_elem(out: &mut String, tag: &str, value: &Option<String>)
    ensures
        final(out)@ == old(out)@ + spec_opt_text_elem(tag@, spec_opt_view(*value)),
{
    match value {
        Some(v) => push_text_elem(out, tag, v.as_str()),
        None => {
            proof {
                assert(out@ =~= old(out)@ + spec_opt_text_elem(tag@, spec_opt_view(*value)));
            }
        },
    }
}

/// An enclosure: the reference to the downloadable media file.
#[derive(Debug, Clone)]
pub struct Enclosure {
    /// The file size in bytes (`length`).
    pub length: u64,
    /// The file's MIME type (`type`).
    pub type_: String,
    /// The file URL (`url`).
    pub url: String,
}

impl Enclosure {
    /// One self-closing element with the three attributes, in order: length,
    /// type, url. No text content.
    pub open spec fn spec_xml(self) -> Seq<char> {
        "<enclosure length=\""@ + spec_decimal(self.length as int) + "\" type=\""@
            + spec_escape_attr(self.type_@) + "\" url=\""@ + spec_escape_attr(self.url@) + "\"/>"@
    }

    /// Appends the enclosure element.
    pub fn write_xml(&self, out: &mut String)
        ensures
            final(out)@ == old(out)@ + self.spec_xml(),
    {
        out.append("<enclosure length=\"");
        push_decimal(out, self.length);
        out.append("\" type=\"");
        push_escaped_attr(out, self.type_.as_str());
        out.append("\" url=\"");
        push_escaped_attr(out, self.url.as_str());
        out.append("\"/>");
        proof {
            assert(out@ =~= old(out)@ + self.spec_xml());
        }
    }
}

/// A thumbnail image reference.
#[derive(Debug, Clone)]
pub struct Image {
    /// The URL to the image.
    pub url: String,
}

impl Image {
    /// A dedicated self-closing element carrying the image URL, not plain
    /// text.
    pub open spec fn spec_xml(self) -> Seq<char> {
        "<itunes:image href=\""@ + spec_escape_attr(self.url@) + "\"/>"@
    }

    /// Appends the image element.
    pub fn write_xml(&self, out: &mut String)
        ensures
            final(out)@ == old(out)@ + self.spec_xml(),
    {
        out.append("<itunes:image href=\"");
        push_escaped_attr(out, self.url.as_str());
        out.append("\"/>");
        proof {
            assert(out@ =~= old(out)@ + self.spec_xml());
        }
    }
}

/// A playlist item.
#[derive(Debug, Clone)]
pub struct Item {
    /// The item's title (`title`).
    pub title: String,
    /// The episode number (`itunes:episode`).
    pub itunes_episode: u64,
    /// The item's description (`description`).
    pub description: Option<String>,
    /// The item's enclosure (`enclosure`).
    pub enclosure: Enclosure,
    /// The item's globally unique ID (`guid`).
    pub guid: Uuid,
    /// The item's publication date as a Unix timestamp (`pubDate`).
    pub pub_date: u64,
    /// The item's duration in seconds (`itunes:duration`).
    pub itunes_duration: u64,
}

impl Item {
    /// The item element: title, episode number, optional description,
    /// enclosure, unique ID, publication date, duration — in exactly that
    /// order.
    pub open spec fn spec_xml(self) -> Seq<char> {
        "<item>"@ + spec_text_elem("title"@, self.title@) + spec_num_elem(
            "itunes:episode"@,
            self.itunes_episode as int,
        ) + spec_opt_text_elem("description"@, spec_opt_view(self.description))
            + self.enclosure.spec_xml() + spec_text_elem("guid"@, spec_uuid_text(self.guid.bytes@))
            + spec_text_elem("pubDate"@, rfc2822_of(self.pub_date as int)) + spec_num_elem(
            "itunes:duration"@,
            self.itunes_duration as int,
        ) + "</item>"@
    }

    /// Appends the item element, or appends nothing and fails when the
    /// publication timestamp cannot be rendered.
    pub fn write_xml(&self, out: &mut String) -> (r: Result<(), Error>)
        ensures
            r is Ok <==> self.pub_date <= FEED_DATE_MAX_TIMESTAMP as u64,
            r is Ok ==> final(out)@ == old(out)@ + self.spec_xml(),
            r is Err ==> final(out)@ == old(out)@,
            r matches Err(e) ==> e.kind == ErrorKind::Range,
    {
        let date_text = match pub_date_text(self.pub_date) {
            Ok(s) => s,
            Err(e) => {
                return Err(e);
            },
        };
        out.append("<item>");
        push_text_elem(out, "title", self.title.as_str());
        push_num_elem(out, "itunes:episode", self.itunes_episode);
        push_opt_text_elem(out, "description", &self.description);
        self.enclosure.write_xml(out);
        let guid_text = self.guid.hyphenated();
        push_text_elem(out, "guid", guid_text.as_str());
        push_text_elem(out, "pubDate", date_text.as_str());
        push_num_elem(out, "itunes:duration", self.itunes_duration);
        out.append("</item>");
        proof {
            assert(out@ =~= old(out)@ + self.spec_xml());
        }
        Ok(())
    }
}

/// The concatenated item elements, in order.
pub open spec fn spec_items_xml(items: Seq<Item>) -> Seq<char>
    decreases items.len(),
{
    if items.len() == 0 {
        Seq::<char>::empty()
    } else {
        items[0].spec_xml() + spec_items_xml(items.drop_first())
    }
}

/// Item serialization distributes over appending one item.
proof fn lemma_items_xml_push(items: Seq<Item>, it: Item)
    ensures
        spec_items_xml(items.push(it)) == spec_items_xml(items) + it.spec_xml(),
    decreases items.len(),
{
    if items.len() == 0 {
        assert(items.push(it)[0] == it);
        assert(items.push(it).drop_first() =~= Seq::<Item>::empty());
        assert(spec_items_xml(items.push(it)) == it.spec_xml() + spec_items_xml(
            Seq::<Item>::empty(),
        ));
        assert(spec_items_xml(items.push(it)) =~= spec_items_xml(items) + it.spec_xml());
    } else {
        assert(items.push(it)[0] == items[0]);
        assert(items.push(it).drop_first() =~= items.drop_first().push(it));
        lemma_items_xml_push(items.drop_first(), it);
        assert(spec_items_xml(items.push(it)) == items[0].spec_xml() + (spec_items_xml(
            items.drop_first(),
        ) + it.spec_xml()));
        assert(spec_items_xml(items.push(it)) =~= spec_items_xml(items) + it.spec_xml());
    }
}

/// The channel: the show-level metadata container holding the ordered items.
#[derive(Debug, Clone)]
pub struct Channel {
    /// The playlist title (`title`).
    pub title: String,
    /// The playlist type (`itunes:type`).
    pub itunes_type: String,
    /// The link to the playlist website (`link`).
    pub link: Option<String>,
    /// The playlist author (`itunes:author`).
    pub itunes_author: Option<String>,
    /// The playlist description (`description`).
    pub description: Option<String>,
    /// The playlist thumbnail (`itunes:image`).
    pub itunes_image: Option<Image>,
    /// The member items, in output order.
    pub items: Vec<Item>,
}

/// The image element of an optional image: nothing when absent.
pub open spec fn spec_opt_image_xml(img: Option<Image>) -> Seq<char> {
    match img {
        Some(i) => i.spec_xml(),
        None => Seq::<char>::empty(),
    }
}

impl Channel {
    /// The channel element: title, type, optional link, optional author,
    /// optional description, optional image, then the items — in exactly that
    /// order.
    pub open spec fn spec_xml(self) -> Seq<char> {
        "<channel>"@ + spec_text_elem("title"@, self.title@) + spec_text_elem(
            "itunes:type"@,
            self.itunes_type@,
        ) + spec_opt_text_elem("link"@, spec_opt_view(self.link)) + spec_opt_text_elem(
            "itunes:author"@,
            spec_opt_view(self.itunes_author),
        ) + spec_opt_text_elem("description"@, spec_opt_view(self.description))
            + spec_opt_image_xml(self.itunes_image) + spec_items_xml(self.items@) + "</channel>"@
    }

    /// Whether every item's publication timestamp can be rendered.
    pub open spec fn spec_dates_ok(self) -> bool {
        forall|i: int|
            0 <= i < self.items@.len() ==> (#[trigger] self.items@[i]).pub_date
                <= FEED_DATE_MAX_TIMESTAMP as u64
    }

    /// Appends the channel element, or appends nothing and fails when some
    /// item's publication timestamp cannot be rendered.
    #[verifier::rlimit(60)]
    pub fn write_xml(&self, out: &mut String) -> (r: Result<(), Error>)
        ensures
            r is Ok <==> self.spec_dates_ok(),
            r is Ok ==> final(out)@ == old(out)@ + self.spec_xml(),
            r is Err ==> final(out)@ == old(out)@,
            r matches Err(e) ==> e.kind == ErrorKind::Range,
    {
        let mut i: usize = 0;
        while i < self.items.len()
            invariant
                i <= self.items@.len(),
                forall|k: int|
                    0 <= k < i ==> (#[trigger] self.items@[k]).pub_date
                        <= FEED_DATE_MAX_TIMESTAMP as u64,
            decreases self.items@.len() - i,
        {
            if self.items[i].pub_date > 253402300799 {
                return Err(
                    Error::new(ErrorKind::Range, "timestamp is outside the representable date range".to_owned()),
                );
            }
            i = i + 1;
        }
        out.append("<channel>");
        push_text_elem(out, "title", self.title.as_str());
        push_text_elem(out, "itunes:type", self.itunes_type.as_str());
        push_opt_text_elem(out, "link", &self.link);
        push_opt_text_elem(out, "itunes:author", &self.itunes_author);
        push_opt_text_elem(out, "description", &self.description);
        match &self.itunes_image {
            Some(img) => img.write_xml(out),
            None => {},
        }
        let ghost head = out@;
        let mut j: usize = 0;
        proof {
            assert(self.items@.subrange(0, 0) =~= Seq::<Item>::empty());
        }
        while j < self.items.len()
            invariant
                j <= self.items@.len(),
                forall|k: int|
                    0 <= k < self.items@.len() ==> (#[trigger] self.items@[k]).pub_date
                        <= FEED_DATE_MAX_TIMESTAMP as u64,
                out@ == head + spec_items_xml(self.items@.subrange(0, j as int)),
            decreases self.items@.len() - j,
        {
            let r = self.items[j].write_xml(out);
            proof {
                assert(r is Ok);
                assert(self.items@.subrange(0, j + 1 as int) =~= self.items@.subrange(
                    0,
                    j as int,
                ).push(self.items@[j as int]));
                lemma_items_xml_push(self.items@.subrange(0, j as int), self.items@[j as int]);
            }
            j = j + 1;
        }
        proof {
            assert(self.items@.subrange(0, self.items@.len() as int) =~= self.items@);
        }
        out.append("</channel>");
        proof {
            assert(out@ =~= old(out)@ + self.spec_xml());
        }
        Ok(())
    }
}

/// Law (omission on absence, channel level): a channel with no optional field
/// present serializes to exactly the required elements and its items, with no
/// element for any absent field.
pub proof fn lemma_channel_omits_absent_fields(c: Channel)
    requires
        c.link is None,
        c.itunes_author is None,
        c.description is None,
        c.itunes_image is None,
    ensures
        c.spec_xml() == "<channel>"@ + spec_text_elem("title"@, c.title@) + spec_text_elem(
            "itunes:type"@,
            c.itunes_type@,
        ) + spec_items_xml(c.items@) + "</channel>"@,
{
    assert(c.spec_xml() =~= "<channel>"@ + spec_text_elem("title"@, c.title@) + spec_text_elem(
        "itunes:type"@,
        c.itunes_type@,
    ) + spec_items_xml(c.items@) + "</channel>"@);
}

/// Law (presence, channel level): a channel with every optional field present
/// serializes each of them as its own element, in the fixed field order.
pub proof fn lemma_channel_emits_present_fields(c: Channel, l: String, a: String, d: String, img: Image)
    requires
        c.link == Some(l),
        c.itunes_author == Some(a),
        c.description == Some(d),
        c.itunes_image == Some(img),
    ensures
        c.spec_xml() == "<channel>"@ + spec_text_elem("title"@, c.title@) + spec_text_elem(
            "itunes:type"@,
            c.itunes_type@,
        ) + spec_text_elem("link"@, l@) + spec_text_elem("itunes:author"@, a@) + spec_text_elem(
            "description"@,
            d@,
        ) + img.spec_xml() + spec_items_xml(c.items@) + "</channel>"@,
{
}

/// The whole feed document.
#[derive(Debug, Clone)]
pub struct Feed {
    /// The channel data (`channel`).
    pub channel: Channel,
}

impl Feed {
    /// The root element: the version attribute, the two namespace
    /// declarations (the podcast extension and the content extension),
    /// written exactly once around the channel.
    pub open spec fn spec_xml(self) -> Seq<char> {
        "<rss version=\"2.0\" xmlns:itunes=\"http://www.itunes.com/dtds/podcast-1.0.dtd\" xmlns:content=\"http://purl.org/rss/1.0/modules/content/\">"@
            + self.channel.spec_xml() + "</rss>"@
    }

    /// Serializes the feed, or fails without emitting any partial feed.
    pub fn to_xml(&self) -> (r: Result<String, Error>)
        ensures
            r is Ok <==> self.channel.spec_dates_ok(),
            r matches Ok(s) ==> s@ == self.spec_xml(),
            r matches Err(e) ==> e.kind == ErrorKind::Range,
    {
        let mut out =
            "<rss version=\"2.0\" xmlns:itunes=\"http://www.itunes.com/dtds/podcast-1.0.dtd\" xmlns:content=\"http://purl.org/rss/1.0/modules/content/\">".to_owned();
        match self.channel.write_xml(&mut out) {
            Ok(()) => {
                out.append("</rss>");
                proof {
                    assert(out@ =~= self.spec_xml());
                }
                Ok(out)
            },
            Err(e) => Err(e),
        }
    }
}

} // verus!
