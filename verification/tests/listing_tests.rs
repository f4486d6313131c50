use http_server::address::bind_address;
use http_server::directory_listing;
use http_server::encode::decimal;
use http_server::entries::{EntryKind, ListingEntry, PackageInfo};
use http_server::listing;

fn entry(name: &str, visible: bool, kind: Option<EntryKind>) -> ListingEntry {
    ListingEntry { name: name.to_string(), visible, kind }
}

fn package() -> PackageInfo {
    PackageInfo {
        name: "http-server".to_string(),
        version: "0.1.0".to_string(),
        homepage: "https://example.org/".to_string(),
    }
}

#[test]
fn decimal_numbers() {
    assert_eq!(decimal(0), "0");
    assert_eq!(decimal(7), "7");
    assert_eq!(decimal(10), "10");
    assert_eq!(decimal(4096), "4096");
    assert_eq!(decimal(u64::MAX), "18446744073709551615");
}

#[test]
fn bind_address_joins_with_colon() {
    assert_eq!(bind_address("0.0.0.0", 8000), "0.0.0.0:8000");
    assert_eq!(bind_address("::1", 0), "::1:0");
}

#[test]
fn table_page_for_a_subdirectory() {
    let entries = vec![
        entry("docs", true, Some(EntryKind::Directory)),
        entry("a b.txt", true, Some(EntryKind::File { len: 1234 })),
    ];
    let html = directory_listing::directory_listing("/files/", &entries, "body{}", &package());
    let expected = [
        "<!DOCTYPE html>\n<html>\n<head>\n<title>Index of /files</title>\n<style>\nbody{}</style></head>\n<body>\n",
        "<h1>Index of /files/</h1>\n<small>[<a href='/files.tar'>.tar</a> of whole directory]</small>",
        "\n<table>\n<tr><td>\u{1F4C1} <a href='../'>../</a></td><td>Size</td></tr>\n",
        "<tr><td>\u{1F4C2} <a href='/files/docs/'>docs/</a></td> <td><small>[<a href='/files/docs.tar'>.tar</a>]</small></td></tr>",
        "<tr><td>\u{1F5CE} <a href='/files/a b.txt'>a b.txt</a></td> <td>1234</td></tr>",
        "</table>\n",
        "<footer><a href=\"https://example.org/\">http-server 0.1.0</a></footer>",
        "</body>\n</html>",
    ]
    .concat();
    assert_eq!(html, expected);
}

#[test]
fn table_page_at_the_top_links_underscore_archive() {
    let html = directory_listing::directory_listing("/", &vec![], "", &package());
    assert!(html.contains("<title>Index of </title>"));
    assert!(html.contains("<h1>Index of /</h1>\n<small>[<a href='_.tar'>.tar</a> of whole directory]</small>"));
    assert!(html.contains("</tr>\n</table>\n<footer>"));
}

#[test]
fn names_are_escaped_and_links_percent_encoded() {
    let entries = vec![entry("<b>&\"x'/\u{e9}\u{7}", true, Some(EntryKind::File { len: 0 }))];
    let html = listing::directory_listing("/d", &entries);
    assert!(html.contains(
        "<li><a href=\"/d/<b>&\"x'/%C3%A9%07\">&lt;b&gt;&amp;&quot;x&#x27;&#x2f;\u{e9}\u{7}</a></li>"
    ));
}

#[test]
fn escaped_names_are_inert() {
    let entries = vec![entry("<script>'\"</script>", true, Some(EntryKind::Directory))];
    let html = listing::directory_listing("/", &entries);
    let start = html.find("\">").unwrap() + 2;
    let end = html.find("/</a>").unwrap();
    let shown = &html[start..end];
    assert!(!shown.contains('<') && !shown.contains('>') && !shown.contains('"') && !shown.contains('\''));
}

#[test]
fn percent_encoded_links_are_printable_ascii() {
    let entries = vec![entry("\u{1}tab\there\u{7f}\u{263a}", true, Some(EntryKind::File { len: 3 }))];
    let html = listing::directory_listing("/", &entries);
    let start = html.find("href=\"").unwrap() + 6;
    let end = start + html[start..].find('"').unwrap();
    let url = &html[start..end];
    assert_eq!(url, "/%01tab%09here%7F%E2%98%BA");
    assert!(url.chars().all(|c| (' '..='~').contains(&c)));
}

#[test]
fn list_page_layout() {
    let entries = vec![
        entry("sub", true, Some(EntryKind::Directory)),
        entry("f", true, Some(EntryKind::File { len: 9 })),
    ];
    let html = listing::directory_listing("/x/", &entries);
    assert_eq!(
        html,
        "<html><head><title>Index of /x/</title></head><body><h1>Index of /x/</h1><ul><li><a href=\"/x/sub\">sub/</a></li><li><a href=\"/x/f\">f</a></li></ul></body>\n</html>"
    );
}

#[test]
fn hidden_and_unreadable_entries_are_left_out() {
    let all = vec![
        entry("a", true, Some(EntryKind::File { len: 1 })),
        entry(".hidden", false, Some(EntryKind::File { len: 2 })),
        entry("broken", true, None),
        entry("b", true, Some(EntryKind::Directory)),
    ];
    let listed = vec![
        entry("a", true, Some(EntryKind::File { len: 1 })),
        entry("b", true, Some(EntryKind::Directory)),
    ];
    assert_eq!(listing::directory_listing("/", &all), listing::directory_listing("/", &listed));
    assert_eq!(
        directory_listing::directory_listing("/", &all, "", &package()),
        directory_listing::directory_listing("/", &listed, "", &package())
    );
    assert!(!listing::directory_listing("/", &all).contains("hidden"));
}
