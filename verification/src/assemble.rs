//! Maps the domain model (a playlist plus its ordered entries) onto the
//! output schema, one item per entry, preserving entry order exactly: items
//! are never re-sorted by date or title.

use vstd::prelude::*;

use crate::error::{Error, ErrorKind};
use crate::metadata::{Entry, Playlist};
use crate::rss::{spec_opt_view, Channel, Enclosure, Feed, Image, Item};
use crate::url::{absolute_url, spec_resolve};

verus! {

/// How one entry appears as an item, given its position and its resolved
/// enclosure URL: a 1:1 field mapping, with the episode number being the
/// 1-based position.
pub open spec fn spec_item_of_entry(e: Entry, index: int, url: Seq<char>, it: Item) -> bool {
    &&& it.title@ == e.title@
    &&& it.itunes_episode == index + 1
    &&& spec_opt_view(it.description) == spec_opt_view(e.description)
    &&& it.enclosure.length == e.size
    &&& it.enclosure.type_@ == e.type_@
    &&& it.enclosure.url@ == url
    &&& it.guid == e.uuid
    &&& it.pub_date == e.date
    &&& it.itunes_duration == e.duration
}

/// Clones an optional string.
fn clone_opt(o: &Option<String>) -> (r: Option<String>)
    ensures
        r == *o,
{
    match o {
        Some(s) => Some(s.clone()),
        None => None,
    }
}

/// Builds the feed for a playlist and its ordered entries. `entry_paths[i]`
/// is the canonical filesystem path of entry `i`'s file, and
/// `thumbnail_path` the canonical path of the playlist thumbnail where the
/// playlist has one; every path must resolve inside the webroot, or the
/// build fails with a `Security` error and no feed at all.
pub fn build_feed(
    playlist: &Playlist,
    thumbnail_path: &Option<String>,
    entries: &Vec<Entry>,
    entry_paths: &Vec<String>,
    webroot: &str,
    base_url: &str,
) -> (r: Result<Feed, Error>)
    requires
        entry_paths@.len() == entries@.len(),
        playlist.thumbnail is Some <==> thumbnail_path is Some,
    ensures
        r is Ok <==> {
            &&& (thumbnail_path matches Some(t) ==> spec_resolve(t@, webroot@, base_url@) is Some)
            &&& forall|i: int|
                0 <= i < entry_paths@.len() ==> spec_resolve(
                    (#[trigger] entry_paths@[i])@,
                    webroot@,
                    base_url@,
                ) is Some
        },
        r matches Ok(f) ==> {
            &&& f.channel.title@ == playlist.title@
            &&& f.channel.itunes_type@ == "Serial"@
            &&& spec_opt_view(f.channel.link) == spec_opt_view(playlist.url)
            &&& spec_opt_view(f.channel.itunes_author) == spec_opt_view(playlist.author)
            &&& spec_opt_view(f.channel.description) == spec_opt_view(playlist.description)
            &&& (playlist.thumbnail is None ==> f.channel.itunes_image is None)
            &&& (thumbnail_path matches Some(t) ==> f.channel.itunes_image matches Some(img)
                && Some(img.url@) == spec_resolve(t@, webroot@, base_url@))
            &&& f.channel.items@.len() == entries@.len()
            &&& forall|i: int|
                0 <= i < entries@.len() ==> spec_item_of_entry(
                    entries@[i],
                    i,
                    spec_resolve(entry_paths@[i]@, webroot@, base_url@).unwrap(),
                    #[trigger] f.channel.items@[i],
                )
        },
        r matches Err(e) ==> e.kind == ErrorKind::Security,
{
    let mut thumbnail: Option<Image> = None;
    match thumbnail_path {
        Some(p) => {
            let url = match absolute_url(p.as_str(), webroot, base_url) {
                Ok(u) => u,
                Err(e) => {
                    return Err(e);
                },
            };
            thumbnail = Some(Image { url });
        },
        None => {},
    }
    let mut items: Vec<Item> = Vec::new();
    let mut i: usize = 0;
    while i < entries.len()
        invariant
            i <= entries@.len(),
            entry_paths@.len() == entries@.len(),
            items@.len() == i,
            forall|k: int|
                0 <= k < i ==> spec_resolve(entry_paths@[k]@, webroot@, base_url@) is Some,
            forall|k: int|
                0 <= k < i ==> spec_item_of_entry(
                    entries@[k],
                    k,
                    spec_resolve(entry_paths@[k]@, webroot@, base_url@).unwrap(),
                    #[trigger] items@[k],
                ),
        decreases entries@.len() - i,
    {
        let entry = &entries[i];
        let url = match absolute_url(entry_paths[i].as_str(), webroot, base_url) {
            Ok(u) => u,
            Err(e) => {
                return Err(e);
            },
        };
        let enclosure = Enclosure { length: entry.size, type_: entry.type_.clone(), url };
        let item = Item {
            title: entry.title.clone(),
            itunes_episode: (i as u64) + 1,
            description: clone_opt(&entry.description),
            enclosure,
            guid: entry.uuid,
            pub_date: entry.date,
            itunes_duration: entry.duration,
        };
        items.push(item);
        i = i + 1;
    }
    let channel = Channel {
        title: playlist.title.clone(),
        itunes_type: "Serial".to_owned(),
        link: clone_opt(&playlist.url),
        itunes_author: clone_opt(&playlist.author),
        description: clone_opt(&playlist.description),
        itunes_image: thumbnail,
        items,
    };
    Ok(Feed { channel })
}

} // verus!
