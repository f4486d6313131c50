//! The plain HTML page that lists a directory as a bulleted list of links.

use vstd::prelude::*;
use crate::encode::{begins_with, ends_with, escape_html, percent_encode_controls, spec_escape_html, spec_percent_encode};
use crate::entries::{entry_views, is_listed, EntryKind, ListingEntry, ListingEntryView};
use crate::path::{join, spec_join};

verus! {

/// The list item of an entry; empty for an entry that is hidden or whose
/// metadata could not be read. A directory's name ends in `/`.
pub open spec fn list_item(request_path: Seq<char>, e: ListingEntryView) -> Seq<char> {
    let url = spec_percent_encode(spec_join(request_path, e.name));
    let name = spec_escape_html(e.name);
    if !e.visible {
        Seq::empty()
    } else {
        match e.kind {
            Some(EntryKind::Directory) => "<li><a href=\""@ + url + "\">"@ + name + "/</a></li>"@,
            Some(EntryKind::File { .. }) => "<li><a href=\""@ + url + "\">"@ + name + "</a></li>"@,
            None => Seq::empty(),
        }
    }
}

/// The items of all entries, in the order in which they were read.
pub open spec fn list_items(request_path: Seq<char>, entries: Seq<ListingEntryView>) -> Seq<char>
    decreases entries.len(),
{
    if entries.len() == 0 {
        Seq::empty()
    } else {
        list_items(request_path, entries.drop_last()) + list_item(request_path, entries.last())
    }
}

/// The whole page: the title and heading `Index of` the request path, then
/// the list.
pub open spec fn listing_page(request_path: Seq<char>, entries: Seq<ListingEntryView>) -> Seq<char> {
    let index_of = "Index of "@ + request_path;
    "<html><head><title>"@ + index_of + "</title></head><body><h1>"@ + index_of
        + "</h1><ul>"@ + list_items(request_path, entries) + "</ul></body>\n</html>"@
}

fn push_item(out: &mut String, request_path: &str, e: &ListingEntry)
    ensures
        final(out)@ == old(out)@ + list_item(request_path@, e@),
{
    if !e.visible || e.kind.is_none() {
        assert(old(out)@ + list_item(request_path@, e@) =~= old(out)@);
        return;
    }
    let p = join(request_path, e.name.as_str());
    let url = percent_encode_controls(p.as_str());
    let name = escape_html(e.name.as_str());
    out.append("<li><a href=\"");
    out.append(url.as_str());
    out.append("\">");
    out.append(name.as_str());
    match e.kind {
        Some(EntryKind::Directory) => {
            out.append("/</a></li>");
        },
        _ => {
            out.append("</a></li>");
        },
    }
    assert(out@ =~= old(out)@ + list_item(request_path@, e@));
}

/// The listing page of a directory: for each entry, in the order given, a
/// list item linking its percent-encoded path with its escaped name, and a
/// trailing `/` for a directory; hidden entries, and entries whose metadata
/// could not be read, are left out.
pub fn directory_listing(request_path: &str, entries: &Vec<ListingEntry>) -> (html: String)
    ensures
        html@ == listing_page(request_path@, entry_views(entries@)),
{
    let mut body = String::new();
    let mut i: usize = 0;
    while i < entries.len()
        invariant
            i <= entries@.len(),
            body@ == list_items(request_path@, entry_views(entries@).take(i as int)),
        decreases entries@.len() - i,
    {
        push_item(&mut body, request_path, &entries[i]);
        proof {
            let ev = entry_views(entries@);
            assert(ev.take(i + 1).drop_last() =~= ev.take(i as int));
            assert(ev.take(i + 1).last() == entries@[i as int]@);
        }
        i = i + 1;
    }
    assert(entry_views(entries@).take(entries@.len() as int) =~= entry_views(entries@));
    let mut index_of = String::new();
    index_of.append("Index of ");
    index_of.append(request_path);
    let mut html = String::new();
    html.append("<html><head><title>");
    html.append(index_of.as_str());
    html.append("</title></head><body><h1>");
    html.append(index_of.as_str());
    html.append("</h1><ul>");
    html.append(body.as_str());
    html.append("</ul></body>\n</html>");
    assert(html@ =~= listing_page(request_path@, entry_views(entries@)));
    html
}


/// Only the listed entries count: leaving out the hidden entries and those
/// whose metadata could not be read, and keeping the others in order, gives
/// the same rows.
pub proof fn lemma_only_listed_entries_count(request_path: Seq<char>, entries: Seq<ListingEntryView>)
    ensures
        list_items(request_path, entries) == list_items(
            request_path,
            entries.filter(|e: ListingEntryView| is_listed(e)),
        ),
    decreases entries.len(),
{
    reveal(Seq::filter);
    if entries.len() > 0 {
        lemma_only_listed_entries_count(request_path, entries.drop_last());
        let f = entries.filter(|e: ListingEntryView| is_listed(e));
        let f0 = entries.drop_last().filter(|e: ListingEntryView| is_listed(e));
        if is_listed(entries.last()) {
            assert(f == f0.push(entries.last()));
            assert(f.drop_last() =~= f0);
        } else {
            assert(f == f0);
            assert(list_item(request_path, entries.last()) =~= Seq::<char>::empty());
        }
    } else {
        assert(entries.filter(|e: ListingEntryView| is_listed(e)).len() == 0);
    }
}


/// The item of a listed entry links the request path joined with the
/// entry's name, percent-encoded, and shows the name HTML-escaped, followed by
/// `/` for a directory.
pub proof fn lemma_item_shows_entry(request_path: Seq<char>, e: ListingEntryView)
    requires
        e.visible,
        e.kind is Some,
    ensures
        ({
            let url = spec_percent_encode(spec_join(request_path, e.name));
            let item = list_item(request_path, e);
            let close = if e.kind == Some(EntryKind::Directory) {
                "/</a></li>"@
            } else {
                "</a></li>"@
            };
            &&& begins_with(item, "<li><a href=\""@ + url + "\">"@)
            &&& ends_with(item, "\">"@ + spec_escape_html(e.name) + close)
        }),
{
    let url = spec_percent_encode(spec_join(request_path, e.name));
    let esc = spec_escape_html(e.name);
    let a = "<li><a href=\""@;
    let b = "\">"@;
    let close = if e.kind == Some(EntryKind::Directory) {
        "/</a></li>"@
    } else {
        "</a></li>"@
    };
    let item = list_item(request_path, e);
    assert(item == a + url + b + esc + close);
    assert(item.take((a + url + b).len() as int) =~= a + url + b);
    let tail = b + esc + close;
    assert(item.skip(item.len() - tail.len()) =~= tail);
}

/// The items of two runs of entries read one after the other are the items
/// of the first followed by those of the second.
pub proof fn lemma_items_concat(request_path: Seq<char>, a: Seq<ListingEntryView>, b: Seq<ListingEntryView>)
    ensures
        list_items(request_path, a + b) == list_items(request_path, a) + list_items(request_path, b),
    decreases b.len(),
{
    if b.len() == 0 {
        assert(a + b =~= a);
        assert(list_items(request_path, a) + list_items(request_path, b) =~= list_items(request_path, a));
    } else {
        lemma_items_concat(request_path, a, b.drop_last());
        assert((a + b).drop_last() =~= a + b.drop_last());
        assert((a + b).last() == b.last());
        assert(list_items(request_path, a + b) =~= list_items(request_path, a) + list_items(request_path, b));
    }
}

/// The page is titled and headed `Index of` the request path, and lists
/// the items between `<ul>` and `</ul>`: two pages for the same path differ
/// only in their items.
pub proof fn lemma_page_frames_items(request_path: Seq<char>, e1: Seq<ListingEntryView>, e2: Seq<ListingEntryView>)
    ensures
        exists|pre: Seq<char>, post: Seq<char>|
            {
                &&& listing_page(request_path, e1) == pre + list_items(request_path, e1) + post
                &&& listing_page(request_path, e2) == pre + list_items(request_path, e2) + post
                &&& begins_with(pre, "<html><head><title>Index of "@ + request_path + "</title>"@)
                &&& ends_with(pre, "<h1>Index of "@ + request_path + "</h1><ul>"@)
                &&& post == "</ul></body>\n</html>"@
            },
{
    reveal_strlit("Index of ");
    reveal_strlit("<html><head><title>");
    reveal_strlit("<html><head><title>Index of ");
    reveal_strlit("</title></head><body><h1>");
    reveal_strlit("</title>");
    reveal_strlit("</head><body>");
    reveal_strlit("<h1>");
    reveal_strlit("<h1>Index of ");
    reveal_strlit("</h1><ul>");
    let idx = "Index of "@ + request_path;
    let pre = "<html><head><title>"@ + idx + "</title></head><body><h1>"@ + idx + "</h1><ul>"@;
    let post = "</ul></body>\n</html>"@;
    assert(listing_page(request_path, e1) =~= pre + list_items(request_path, e1) + post);
    assert(listing_page(request_path, e2) =~= pre + list_items(request_path, e2) + post);
    let p1 = "<html><head><title>Index of "@ + request_path + "</title>"@;
    assert("<html><head><title>"@ + "Index of "@ =~= "<html><head><title>Index of "@);
    assert("</title></head><body><h1>"@ =~= "</title>"@ + "</head><body>"@ + "<h1>"@);
    assert(pre.take(p1.len() as int) =~= p1);
    let p2 = "<h1>Index of "@ + request_path + "</h1><ul>"@;
    assert("<h1>"@ + "Index of "@ =~= "<h1>Index of "@);
    assert(pre.skip(pre.len() - p2.len()) =~= p2);
}

} // verus!
