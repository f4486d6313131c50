use http_server::tar_request::{TarAction, TarEvent, TarReply, TarRequest};

fn path_of(a: &TarAction) -> Option<&str> {
    match a {
        TarAction::CheckArchive(p)
        | TarAction::OpenArchive(p)
        | TarAction::Resolve(p)
        | TarAction::CheckDirectory(p)
        | TarAction::StreamDirectory(p) => Some(p.as_str()),
        _ => None,
    }
}

#[test]
fn existing_archive_is_sent() {
    let (mut req, a) = TarRequest::start("/srv", "music/");
    assert!(matches!(a, TarAction::CheckArchive(_)));
    assert_eq!(path_of(&a), Some("/srv/music.tar"));
    let a = req.step(TarEvent::ArchiveChecked(true));
    assert!(matches!(a, TarAction::OpenArchive(_)));
    assert_eq!(path_of(&a), Some("/srv/music.tar"));
    let a = req.step(TarEvent::ArchiveOpened(true));
    assert!(matches!(a, TarAction::SendArchive));
}

#[test]
fn archive_that_cannot_be_opened_gives_500() {
    let (mut req, _) = TarRequest::start("/srv", "music");
    req.step(TarEvent::ArchiveChecked(true));
    match req.step(TarEvent::ArchiveOpened(false)) {
        TarAction::Reply(r) => {
            assert!(r == TarReply::InternalError);
            assert_eq!(r.status(), 500);
            assert_eq!(r.body(), "Failed to open tar\n");
        }
        _ => panic!("expected a reply"),
    }
}

#[test]
fn directory_under_root_is_streamed() {
    let (mut req, _) = TarRequest::start("/srv", "music");
    let a = req.step(TarEvent::ArchiveChecked(false));
    assert!(matches!(a, TarAction::Resolve(_)));
    assert_eq!(path_of(&a), Some("/srv/music"));
    let a = req.step(TarEvent::Resolved(Some("/srv/media/music".to_string())));
    assert!(matches!(a, TarAction::CheckDirectory(_)));
    assert!(req.accepts(&TarEvent::DirectoryChecked(true)));
    assert!(!req.accepts(&TarEvent::ArchiveChecked(true)));
    let a = req.step(TarEvent::DirectoryChecked(true));
    assert!(matches!(a, TarAction::StreamDirectory(_)));
    assert_eq!(path_of(&a), Some("/srv/media/music"));
    assert!(!req.accepts(&TarEvent::DirectoryChecked(true)));
}

#[test]
fn unresolvable_path_gives_404() {
    let (mut req, _) = TarRequest::start("/srv", "nothing");
    req.step(TarEvent::ArchiveChecked(false));
    match req.step(TarEvent::Resolved(None)) {
        TarAction::Reply(r) => {
            assert_eq!(r.status(), 404);
            assert_eq!(r.body(), "Directory not found\n");
        }
        _ => panic!("expected a reply"),
    }
}

#[test]
fn path_escaping_root_gives_403() {
    for escaped in ["/etc", "/srvx/data", "/"] {
        let (mut req, _) = TarRequest::start("/srv", "../etc");
        let a = req.step(TarEvent::ArchiveChecked(false));
        assert_eq!(path_of(&a), Some("/srv/../etc"));
        match req.step(TarEvent::Resolved(Some(escaped.to_string()))) {
            TarAction::Reply(r) => {
                assert!(r == TarReply::Forbidden);
                assert_eq!(r.status(), 403);
                assert_eq!(r.body(), "Forbidden\n");
            }
            _ => panic!("expected a reply"),
        }
    }
}

#[test]
fn root_itself_may_be_streamed() {
    let (mut req, a) = TarRequest::start("/srv", "");
    assert_eq!(path_of(&a), Some("/srv/.tar"));
    let a = req.step(TarEvent::ArchiveChecked(false));
    assert_eq!(path_of(&a), Some("/srv/"));
    req.step(TarEvent::Resolved(Some("/srv".to_string())));
    let a = req.step(TarEvent::DirectoryChecked(true));
    assert_eq!(path_of(&a), Some("/srv"));
}

#[test]
fn non_directory_gives_404() {
    let (mut req, _) = TarRequest::start("/srv", "file.txt");
    req.step(TarEvent::ArchiveChecked(false));
    req.step(TarEvent::Resolved(Some("/srv/file.txt".to_string())));
    match req.step(TarEvent::DirectoryChecked(false)) {
        TarAction::Reply(r) => assert_eq!(r.status(), 404),
        _ => panic!("expected a reply"),
    }
}

#[test]
fn absolute_tail_replaces_root() {
    let (_, a) = TarRequest::start("/srv", "/etc/");
    assert_eq!(path_of(&a), Some("/etc.tar"));
}

#[test]
fn top_level_archive_streams_the_root() {
    let (mut req, a) = TarRequest::start("/srv", "_");
    assert_eq!(path_of(&a), Some("/srv/_.tar"));
    let a = req.step(TarEvent::ArchiveChecked(false));
    assert_eq!(path_of(&a), Some("/srv/_"));
    let a = req.step(TarEvent::Resolved(None));
    assert!(matches!(a, TarAction::Resolve(_)));
    assert_eq!(path_of(&a), Some("/srv"));
    let a = req.step(TarEvent::Resolved(Some("/srv".to_string())));
    assert!(matches!(a, TarAction::CheckDirectory(_)));
    let a = req.step(TarEvent::DirectoryChecked(true));
    assert!(matches!(a, TarAction::StreamDirectory(_)));
    assert_eq!(path_of(&a), Some("/srv"));
}

#[test]
fn entry_named_underscore_comes_first() {
    let (mut req, _) = TarRequest::start("/srv", "_/");
    req.step(TarEvent::ArchiveChecked(false));
    let a = req.step(TarEvent::Resolved(Some("/srv/_".to_string())));
    assert_eq!(path_of(&a), Some("/srv/_"));
    let a = req.step(TarEvent::DirectoryChecked(true));
    assert_eq!(path_of(&a), Some("/srv/_"));
}

#[test]
fn unresolvable_root_fallback_gives_404() {
    let (mut req, _) = TarRequest::start("/srv", "_");
    req.step(TarEvent::ArchiveChecked(false));
    req.step(TarEvent::Resolved(None));
    assert!(!req.accepts(&TarEvent::DirectoryChecked(true)));
    match req.step(TarEvent::Resolved(None)) {
        TarAction::Reply(r) => assert_eq!(r.status(), 404),
        _ => panic!("expected a reply"),
    }
}

#[test]
fn other_missing_names_do_not_fall_back() {
    let (mut req, _) = TarRequest::start("/srv", "sub/_");
    req.step(TarEvent::ArchiveChecked(false));
    match req.step(TarEvent::Resolved(None)) {
        TarAction::Reply(r) => assert_eq!(r.status(), 404),
        _ => panic!("expected a reply"),
    }
}
