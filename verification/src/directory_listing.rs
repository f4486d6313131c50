//! The HTML page that lists a directory, as a table with sizes and links to
//! `.tar` archives of subdirectories.

use vstd::prelude::*;
use crate::encode::{begins_with, ends_with, occurs_in, decimal, escape_html, percent_encode_controls, spec_decimal, spec_escape_html, spec_percent_encode};
use crate::entries::{entry_views, is_listed, EntryKind, ListingEntry, ListingEntryView, PackageInfo};
use crate::path::{join, spec_join, spec_trim_end_slashes, trim_end_slashes};

verus! {

/// The link to an entry: the request path joined with its name, percent-encoded.
pub open spec fn entry_url(request_path: Seq<char>, name: Seq<char>) -> Seq<char> {
    spec_percent_encode(spec_join(request_path, name))
}

/// The table row of an entry; empty for an entry that is hidden or whose
/// metadata could not be read.
pub open spec fn table_row(request_path: Seq<char>, e: ListingEntryView) -> Seq<char> {
    let url = entry_url(request_path, e.name);
    let name = spec_escape_html(e.name);
    if !e.visible {
        Seq::empty()
    } else {
        match e.kind {
            Some(EntryKind::Directory) => "<tr><td>\u{1F4C2} <a href='"@ + url + "/'>"@ + name
                + "/</a></td> <td><small>[<a href='"@ + url + ".tar'>.tar</a>]</small></td></tr>"@,
            Some(EntryKind::File { len }) => "<tr><td>\u{1F5CE} <a href='"@ + url + "'>"@ + name
                + "</a></td> <td>"@ + spec_decimal(len as nat) + "</td></tr>"@,
            None => Seq::empty(),
        }
    }
}

/// The rows of all entries, in the order in which they were read.
pub open spec fn table_rows(request_path: Seq<char>, entries: Seq<ListingEntryView>) -> Seq<char>
    decreases entries.len(),
{
    if entries.len() == 0 {
        Seq::empty()
    } else {
        table_rows(request_path, entries.drop_last()) + table_row(request_path, entries.last())
    }
}

/// The heading, with a link to the archive of the whole directory (`_.tar`
/// at the top level).
pub open spec fn page_header(index_of: Seq<char>) -> Seq<char> {
    "<h1>Index of "@ + index_of + "/</h1>\n<small>[<a href='"@ + (if index_of.len() == 0 {
        "_"@
    } else {
        index_of
    }) + ".tar'>.tar</a> of whole directory]</small>"@
}

/// The footer, linking to the package's home page.
pub open spec fn page_footer(name: Seq<char>, version: Seq<char>, homepage: Seq<char>) -> Seq<char> {
    "<footer><a href=\""@ + homepage + "\">"@ + name + " "@ + version + "</a></footer>"@
}

/// The whole page for a request path, the entries read, a style sheet and
/// the package of the footer.
pub open spec fn directory_page(
    request_path: Seq<char>,
    entries: Seq<ListingEntryView>,
    style: Seq<char>,
    name: Seq<char>,
    version: Seq<char>,
    homepage: Seq<char>,
) -> Seq<char> {
    let index_of = spec_trim_end_slashes(request_path);
    "<!DOCTYPE html>\n<html>\n<head>\n<title>Index of "@ + index_of
        + "</title>\n<style>\n"@ + style + "</style></head>\n<body>\n"@ + page_header(index_of)
        + "\n<table>\n<tr><td>\u{1F4C1} <a href='../'>../</a></td><td>Size</td></tr>\n"@
        + table_rows(request_path, entries) + "</table>\n"@ + page_footer(name, version, homepage)
        + "</body>\n</html>"@
}

fn push_row(out: &mut String, request_path: &str, e: &ListingEntry)
    ensures
        final(out)@ == old(out)@ + table_row(request_path@, e@),
{
    if !e.visible {
        assert(old(out)@ + table_row(request_path@, e@) =~= old(out)@);
        return;
    }
    match e.kind {
        Some(EntryKind::Directory) => {
            let p = join(request_path, e.name.as_str());
            let url = percent_encode_controls(p.as_str());
            let name = escape_html(e.name.as_str());
            out.append("<tr><td>\u{1F4C2} <a href='");
            out.append(url.as_str());
            out.append("/'>");
            out.append(name.as_str());
            out.append("/</a></td> <td><small>[<a href='");
            out.append(url.as_str());
            out.append(".tar'>.tar</a>]</small></td></tr>");
            assert(out@ =~= old(out)@ + table_row(request_path@, e@));
        },
        Some(EntryKind::File { len }) => {
            let p = join(request_path, e.name.as_str());
            let url = percent_encode_controls(p.as_str());
            let name = escape_html(e.name.as_str());
            let size = decimal(len);
            out.append("<tr><td>\u{1F5CE} <a href='");
            out.append(url.as_str());
            out.append("'>");
            out.append(name.as_str());
            out.append("</a></td> <td>");
            out.append(size.as_str());
            out.append("</td></tr>");
            assert(out@ =~= old(out)@ + table_row(request_path@, e@));
        },
        None => {
            assert(old(out)@ + table_row(request_path@, e@) =~= old(out)@);
        },
    }
}

/// The listing page of a directory: for each entry, in the order given, a
/// row with its percent-encoded link and its escaped name, a trailing `/`
/// and a link to its `.tar` archive for a directory, and the size for any
/// other file; hidden entries, and entries whose metadata could not be
/// read, are left out.
pub fn directory_listing(
    request_path: &str,
    entries: &Vec<ListingEntry>,
    style: &str,
    package: &PackageInfo,
) -> (html: String)
    ensures
        html@ == directory_page(
            request_path@,
            entry_views(entries@),
            style@,
            package.name@,
            package.version@,
            package.homepage@,
        ),
{
    let mut body = String::new();
    let mut i: usize = 0;
    while i < entries.len()
        invariant
            i <= entries@.len(),
            body@ == table_rows(request_path@, entry_views(entries@).take(i as int)),
        decreases entries@.len() - i,
    {
        let ghost before = body@;
        push_row(&mut body, request_path, &entries[i]);
        proof {
            let ev = entry_views(entries@);
            assert(ev.take(i + 1).drop_last() =~= ev.take(i as int));
            assert(ev.take(i + 1).last() == entries@[i as int]@);
        }
        i = i + 1;
    }
    assert(entry_views(entries@).take(entries@.len() as int) =~= entry_views(entries@));
    let index_of = trim_end_slashes(request_path);
    let mut html = String::new();
    html.append("<!DOCTYPE html>\n<html>\n<head>\n<title>Index of ");
    html.append(index_of.as_str());
    html.append("</title>\n<style>\n");
    html.append(style);
    html.append("</style></head>\n<body>\n");
    html.append("<h1>Index of ");
    html.append(index_of.as_str());
    html.append("/</h1>\n<small>[<a href='");
    if index_of.unicode_len() == 0 {
        html.append("_");
    } else {
        html.append(index_of.as_str());
    }
    html.append(".tar'>.tar</a> of whole directory]</small>");
    html.append("\n<table>\n<tr><td>\u{1F4C1} <a href='../'>../</a></td><td>Size</td></tr>\n");
    html.append(body.as_str());
    html.append("</table>\n");
    html.append("<footer><a href=\"");
    html.append(package.homepage.as_str());
    html.append("\">");
    html.append(package.name.as_str());
    html.append(" ");
    html.append(package.version.as_str());
    html.append("</a></footer>");
    html.append("</body>\n</html>");
    assert(html@ =~= directory_page(
        request_path@,
        entry_views(entries@),
        style@,
        package.name@,
        package.version@,
        package.homepage@,
    ));
    html
}


/// Only the listed entries count: leaving out the hidden entries and those
/// whose metadata could not be read, and keeping the others in order, gives
/// the same rows.
pub proof fn lemma_only_listed_entries_count(request_path: Seq<char>, entries: Seq<ListingEntryView>)
    ensures
        table_rows(request_path, entries) == table_rows(
            request_path,
            entries.filter(|e: ListingEntryView| is_listed(e)),
        ),
    decreases entries.len(),
{
    reveal(Seq::filter);
    if entries.len() > 0 {
        lemma_only_listed_entries_count(request_path, entries.drop_last());
        let f = entries.filter(|e: ListingEntryView| is_listed(e));
        let f0 = entries.drop_last().filter(|e: ListingEntryView| is_listed(e));
        if is_listed(entries.last()) {
            assert(f == f0.push(entries.last()));
            assert(f.drop_last() =~= f0);
        } else {
            assert(f == f0);
            assert(table_row(request_path, entries.last()) =~= Seq::<char>::empty());
        }
    } else {
        assert(entries.filter(|e: ListingEntryView| is_listed(e)).len() == 0);
    }
}


/// The row of a listed directory links the request path joined with the
/// directory's name, percent-encoded and followed by `/`; shows the name
/// HTML-escaped and followed by `/`; and links the same path followed by
/// `.tar` as its archive.
pub proof fn lemma_directory_row(request_path: Seq<char>, e: ListingEntryView)
    requires
        e.visible,
        e.kind == Some(EntryKind::Directory),
    ensures
        ({
            let url = spec_percent_encode(spec_join(request_path, e.name));
            let row = table_row(request_path, e);
            &&& begins_with(row, "<tr><td>\u{1F4C2} <a href='"@ + url + "/'>"@)
            &&& occurs_in(row, "/'>"@ + spec_escape_html(e.name) + "/</a>"@)
            &&& ends_with(row, "<a href='"@ + url + ".tar'>.tar</a>]</small></td></tr>"@)
        }),
{
    let url = spec_percent_encode(spec_join(request_path, e.name));
    let esc = spec_escape_html(e.name);
    let a = "<tr><td>\u{1F4C2} <a href='"@;
    let b = "/'>"@;
    let c = "/</a></td> <td><small>[<a href='"@;
    let d = ".tar'>.tar</a>]</small></td></tr>"@;
    let row = table_row(request_path, e);
    assert(row == a + url + b + esc + c + url + d);
    reveal_strlit("/</a></td> <td><small>[<a href='");
    reveal_strlit("/</a>");
    reveal_strlit("<a href='");
    let c1 = "/</a>"@;
    let c2 = "<a href='"@;
    assert(c =~= c1 + "</td> <td><small>["@ + c2) by {
        reveal_strlit("</td> <td><small>[");
    }
    assert(row.take((a + url + b).len() as int) =~= a + url + b);
    let i = (a + url).len() as int;
    let t = b + esc + c1;
    assert(row.subrange(i, i + t.len()) =~= t);
    let tail = c2 + url + d;
    assert(row.skip(row.len() - tail.len()) =~= tail);
}

/// The row of a listed file links the request path joined with the file's
/// name, percent-encoded; shows the name HTML-escaped; and ends with the
/// file's size in decimal.
pub proof fn lemma_file_row(request_path: Seq<char>, e: ListingEntryView, len: u64)
    requires
        e.visible,
        e.kind == Some(EntryKind::File { len }),
    ensures
        ({
            let url = spec_percent_encode(spec_join(request_path, e.name));
            let row = table_row(request_path, e);
            &&& begins_with(row, "<tr><td>\u{1F5CE} <a href='"@ + url + "'>"@)
            &&& occurs_in(row, "'>"@ + spec_escape_html(e.name) + "</a>"@)
            &&& ends_with(row, "<td>"@ + spec_decimal(len as nat) + "</td></tr>"@)
        }),
{
    let url = spec_percent_encode(spec_join(request_path, e.name));
    let esc = spec_escape_html(e.name);
    let a = "<tr><td>\u{1F5CE} <a href='"@;
    let b = "'>"@;
    let c = "</a></td> <td>"@;
    let d = "</td></tr>"@;
    let dec = spec_decimal(len as nat);
    let row = table_row(request_path, e);
    assert(row == a + url + b + esc + c + dec + d);
    reveal_strlit("</a></td> <td>");
    reveal_strlit("</a>");
    reveal_strlit("</td> ");
    reveal_strlit("<td>");
    let c1 = "</a>"@;
    let c2 = "<td>"@;
    assert(c =~= c1 + "</td> "@ + c2);
    assert(row.take((a + url + b).len() as int) =~= a + url + b);
    let i = (a + url).len() as int;
    let t = b + esc + c1;
    assert(row.subrange(i, i + t.len()) =~= t);
    let tail = c2 + dec + d;
    assert(row.skip(row.len() - tail.len()) =~= tail);
}

/// The rows of two runs of entries read one after the other are the rows of
/// the first followed by those of the second.
pub proof fn lemma_rows_concat(request_path: Seq<char>, a: Seq<ListingEntryView>, b: Seq<ListingEntryView>)
    ensures
        table_rows(request_path, a + b) == table_rows(request_path, a) + table_rows(request_path, b),
    decreases b.len(),
{
    if b.len() == 0 {
        assert(a + b =~= a);
        assert(table_rows(request_path, a) + table_rows(request_path, b) =~= table_rows(request_path, a));
    } else {
        lemma_rows_concat(request_path, a, b.drop_last());
        assert((a + b).drop_last() =~= a + b.drop_last());
        assert((a + b).last() == b.last());
        assert(table_rows(request_path, a + b) =~= table_rows(request_path, a) + table_rows(request_path, b));
    }
}


/// The page is titled `Index of` the request path without trailing slashes,
/// carries the style sheet, links the archive of the whole directory (`_.tar`
/// at the top level), lists the rows inside the table, and ends with the
/// footer: two pages for the same path, style sheet and package differ only
/// in their rows.
pub proof fn lemma_page_frames_rows(
    request_path: Seq<char>,
    e1: Seq<ListingEntryView>,
    e2: Seq<ListingEntryView>,
    style: Seq<char>,
    name: Seq<char>,
    version: Seq<char>,
    homepage: Seq<char>,
)
    ensures
        ({
            let idx = spec_trim_end_slashes(request_path);
            let archive = if idx.len() == 0 {
                seq!['_']
            } else {
                idx
            };
            exists|pre: Seq<char>, post: Seq<char>|
                #![trigger begins_with(pre, "<!DOCTYPE html>\n<html>\n<head>\n<title>Index of "@ + idx + "</title>"@), ends_with(post, "<footer><a href=\""@ + homepage + "\">"@ + name + " "@ + version + "</a></footer></body>\n</html>"@)]
            {
                &&& directory_page(request_path, e1, style, name, version, homepage) == pre
                    + table_rows(request_path, e1) + post
                &&& directory_page(request_path, e2, style, name, version, homepage) == pre
                    + table_rows(request_path, e2) + post
                &&& begins_with(
                    pre,
                    "<!DOCTYPE html>\n<html>\n<head>\n<title>Index of "@ + idx + "</title>"@,
                )
                &&& occurs_in(pre, "<style>\n"@ + style + "</style>"@)
                &&& occurs_in(pre, "<h1>Index of "@ + idx + "/</h1>"@)
                &&& occurs_in(pre, "<a href='"@ + archive + ".tar'>"@)
                &&& ends_with(
                    post,
                    "<footer><a href=\""@ + homepage + "\">"@ + name + " "@ + version
                        + "</a></footer></body>\n</html>"@,
                )
            }
        }),
{
    let idx = spec_trim_end_slashes(request_path);
    let archive = if idx.len() == 0 {
        seq!['_']
    } else {
        idx
    };
    reveal_strlit("_");
    let l1 = "<!DOCTYPE html>\n<html>\n<head>\n<title>Index of "@;
    let l2 = "</title>\n<style>\n"@;
    let l3 = "</style></head>\n<body>\n"@;
    let h1 = "<h1>Index of "@;
    let h2 = "/</h1>\n<small>[<a href='"@;
    let h3 = ".tar'>.tar</a> of whole directory]</small>"@;
    let l4 = "\n<table>\n<tr><td>\u{1F4C1} <a href='../'>../</a></td><td>Size</td></tr>\n"@;
    let l5 = "</table>\n"@;
    let f1 = "<footer><a href=\""@;
    let f2 = "\">"@;
    let f3 = " "@;
    let f4 = "</a></footer>"@;
    let l6 = "</body>\n</html>"@;
    let header = h1 + idx + h2 + archive + h3;
    assert(page_header(idx) == header);
    let pre = l1 + idx + l2 + style + l3 + header + l4;
    let post = l5 + (f1 + homepage + f2 + name + f3 + version + f4) + l6;
    assert(directory_page(request_path, e1, style, name, version, homepage) =~= pre + table_rows(
        request_path,
        e1,
    ) + post);
    assert(directory_page(request_path, e2, style, name, version, homepage) =~= pre + table_rows(
        request_path,
        e2,
    ) + post);
    reveal_strlit("</title>\n<style>\n");
    reveal_strlit("</title>");
    reveal_strlit("\n");
    reveal_strlit("<style>\n");
    reveal_strlit("</style></head>\n<body>\n");
    reveal_strlit("</style>");
    reveal_strlit("</head>\n<body>\n");
    reveal_strlit("/</h1>\n<small>[<a href='");
    reveal_strlit("/</h1>\n<small>[");
    reveal_strlit("<a href='");
    reveal_strlit(".tar'>.tar</a> of whole directory]</small>");
    reveal_strlit(".tar'>");
    reveal_strlit(".tar</a> of whole directory]</small>");
    reveal_strlit("</a></footer>");
    reveal_strlit("</body>\n</html>");
    reveal_strlit("</a></footer></body>\n</html>");
    assert(l2 =~= "</title>"@ + "\n"@ + "<style>\n"@);
    assert(l3 =~= "</style>"@ + "</head>\n<body>\n"@);
    assert(h2 =~= "/</h1>\n<small>["@ + "<a href='"@);
    assert(h3 =~= ".tar'>"@ + ".tar</a> of whole directory]</small>"@);
    assert(f4 + l6 =~= "</a></footer></body>\n</html>"@);
    let b = l1 + idx + "</title>"@;
    assert(pre.take(b.len() as int) =~= b);
    let t1 = "<style>\n"@ + style + "</style>"@;
    let i1 = (l1 + idx + "</title>"@ + "\n"@).len() as int;
    assert(pre.subrange(i1, i1 + t1.len()) =~= t1);
    let t2 = "<a href='"@ + archive + ".tar'>"@;
    let i2 = (l1 + idx + l2 + style + l3 + h1 + idx + "/</h1>\n<small>["@).len() as int;
    assert(pre.subrange(i2, i2 + t2.len()) =~= t2);
    let t3 = f1 + homepage + f2 + name + f3 + version + "</a></footer></body>\n</html>"@;
    assert(post.skip(post.len() - t3.len()) =~= t3);
    assert(begins_with(pre, b));
    assert(occurs_in(pre, t1));
    assert(occurs_in(pre, t2));
    reveal_strlit("/</h1>");
    reveal_strlit("\n<small>[");
    assert("/</h1>\n<small>["@ =~= "/</h1>"@ + "\n<small>["@);
    let t4 = h1 + idx + "/</h1>"@;
    let i4 = (l1 + idx + l2 + style + l3).len() as int;
    assert(pre.subrange(i4, i4 + t4.len()) =~= t4);
    assert(occurs_in(pre, t4));
    assert(ends_with(post, t3));
}

} // verus!
