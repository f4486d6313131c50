//! The decisions taken when `<path>.tar` is requested: serve an existing
//! archive file of that name, or else stream a tar archive of the directory,
//! but only of one that lies under the served root.
//!
//! The file system is asked through actions; the caller performs each action
//! and hands the outcome back as an event.

use vstd::prelude::*;
use crate::path::{
    has_root, join, lemma_starts_with_reflexive, spec_join, spec_starts_with, spec_trim_end_slashes,
    starts_with, trim_end_slashes,
};

verus! {

/// The error answers to a request.
#[derive(Clone, Copy, PartialEq, Eq, Structural)]
pub enum TarReply {
    /// The archive file exists but could not be opened.
    InternalError,
    /// Neither an archive file nor a directory of that name exists.
    NotFound,
    /// The directory lies outside the served root.
    Forbidden,
}

pub open spec fn spec_status(r: TarReply) -> u16 {
    match r {
        TarReply::InternalError => 500,
        TarReply::NotFound => 404,
        TarReply::Forbidden => 403,
    }
}

pub open spec fn spec_reply_body(r: TarReply) -> Seq<char> {
    match r {
        TarReply::InternalError => "Failed to open tar\n"@,
        TarReply::NotFound => "Directory not found\n"@,
        TarReply::Forbidden => "Forbidden\n"@,
    }
}

impl TarReply {
    /// The HTTP status code of the answer.
    pub fn status(&self) -> (s: u16)
        ensures
            s == spec_status(*self),
    {
        match self {
            TarReply::InternalError => 500,
            TarReply::NotFound => 404,
            TarReply::Forbidden => 403,
        }
    }

    /// The text body of the answer.
    pub fn body(&self) -> (b: &'static str)
        ensures
            b@ == spec_reply_body(*self),
    {
        match self {
            TarReply::InternalError => "Failed to open tar\n",
            TarReply::NotFound => "Directory not found\n",
            TarReply::Forbidden => "Forbidden\n",
        }
    }
}

/// What the caller is to do next.
pub enum TarAction {
    /// Find out whether this path is an existing file.
    CheckArchive(String),
    /// Open this file.
    OpenArchive(String),
    /// Answer with the file just opened.
    SendArchive,
    /// Resolve this path to a canonical one.
    Resolve(String),
    /// Find out whether this path is a directory.
    CheckDirectory(String),
    /// Answer with a tar archive of this directory, streamed.
    StreamDirectory(String),
    /// Answer with this error.
    Reply(TarReply),
}

pub enum TarActionView {
    CheckArchive(Seq<char>),
    OpenArchive(Seq<char>),
    SendArchive,
    Resolve(Seq<char>),
    CheckDirectory(Seq<char>),
    StreamDirectory(Seq<char>),
    Reply(TarReply),
}

impl View for TarAction {
    type V = TarActionView;

    open spec fn view(&self) -> TarActionView {
        match self {
            TarAction::CheckArchive(p) => TarActionView::CheckArchive(p@),
            TarAction::OpenArchive(p) => TarActionView::OpenArchive(p@),
            TarAction::SendArchive => TarActionView::SendArchive,
            TarAction::Resolve(p) => TarActionView::Resolve(p@),
            TarAction::CheckDirectory(p) => TarActionView::CheckDirectory(p@),
            TarAction::StreamDirectory(p) => TarActionView::StreamDirectory(p@),
            TarAction::Reply(r) => TarActionView::Reply(*r),
        }
    }
}

/// An action that answers the request, after which no event is expected.
pub open spec fn is_final(a: TarActionView) -> bool {
    a is SendArchive || a is StreamDirectory || a is Reply
}

/// The outcome of an action, handed back by the caller.
pub enum TarEvent {
    /// Whether the archive path is an existing file.
    ArchiveChecked(bool),
    /// Whether the archive file could be opened.
    ArchiveOpened(bool),
    /// The canonical path, or `None` where it could not be resolved.
    Resolved(Option<String>),
    /// Whether the resolved path is a directory.
    DirectoryChecked(bool),
}

pub enum TarEventView {
    ArchiveChecked(bool),
    ArchiveOpened(bool),
    Resolved(Option<Seq<char>>),
    DirectoryChecked(bool),
}

impl View for TarEvent {
    type V = TarEventView;

    open spec fn view(&self) -> TarEventView {
        match self {
            TarEvent::ArchiveChecked(b) => TarEventView::ArchiveChecked(*b),
            TarEvent::ArchiveOpened(b) => TarEventView::ArchiveOpened(*b),
            TarEvent::Resolved(p) => TarEventView::Resolved(
                match p {
                    Some(s) => Some(s@),
                    None => None,
                },
            ),
            TarEvent::DirectoryChecked(b) => TarEventView::DirectoryChecked(*b),
        }
    }
}

/// Which outcome a request waits for.
enum TarStage {
    CheckingArchive,
    OpeningArchive,
    Resolving,
    ResolvingRoot,
    CheckingDirectory(String),
    Done,
}

pub enum TarStageView {
    CheckingArchive,
    OpeningArchive,
    Resolving,
    ResolvingRoot,
    CheckingDirectory(Seq<char>),
    Done,
}

/// A request for a `.tar` archive under way: the served root, the requested
/// path without its trailing slashes, and the stage reached.
pub struct TarRequest {
    root: String,
    rel: String,
    stage: TarStage,
}

pub struct TarRequestView {
    pub root: Seq<char>,
    pub rel: Seq<char>,
    pub stage: TarStageView,
}

impl TarRequestView {
    /// The only directory ever checked lies under the root.
    pub open spec fn wf(self) -> bool {
        self.stage matches TarStageView::CheckingDirectory(p) ==> spec_starts_with(p, self.root)
    }
}

impl View for TarRequest {
    type V = TarRequestView;

    closed spec fn view(&self) -> TarRequestView {
        TarRequestView {
            root: self.root@,
            rel: self.rel@,
            stage: match self.stage {
                TarStage::CheckingArchive => TarStageView::CheckingArchive,
                TarStage::OpeningArchive => TarStageView::OpeningArchive,
                TarStage::Resolving => TarStageView::Resolving,
                TarStage::ResolvingRoot => TarStageView::ResolvingRoot,
                TarStage::CheckingDirectory(p) => TarStageView::CheckingDirectory(p@),
                TarStage::Done => TarStageView::Done,
            },
        }
    }
}

/// The archive file that may stand for the request: `<rel>.tar` under the root.
pub open spec fn archive_path(root: Seq<char>, rel: Seq<char>) -> Seq<char> {
    spec_join(root, rel + ".tar"@)
}

/// The name under which a listing of the top level links the archive of the
/// whole served directory.
pub open spec fn is_top_level(rel: Seq<char>) -> bool {
    rel == seq!['_']
}

/// A request for `tail` under `root`, and its first action.
pub open spec fn spec_start(root: Seq<char>, tail: Seq<char>) -> (TarRequestView, TarActionView) {
    let rel = spec_trim_end_slashes(tail);
    (
        TarRequestView { root, rel, stage: TarStageView::CheckingArchive },
        TarActionView::CheckArchive(archive_path(root, rel)),
    )
}

/// Whether `ev` is the outcome that `stage` waits for.
pub open spec fn spec_accepts(stage: TarStageView, ev: TarEventView) -> bool {
    match ev {
        TarEventView::ArchiveChecked(_) => stage is CheckingArchive,
        TarEventView::ArchiveOpened(_) => stage is OpeningArchive,
        TarEventView::Resolved(_) => stage is Resolving || stage is ResolvingRoot,
        TarEventView::DirectoryChecked(_) => stage is CheckingDirectory,
    }
}

/// The next state and action once `ev` has come.
pub open spec fn spec_step(req: TarRequestView, ev: TarEventView) -> (TarRequestView, TarActionView) {
    let done = TarRequestView { stage: TarStageView::Done, ..req };
    match ev {
        TarEventView::ArchiveChecked(true) => (
            TarRequestView { stage: TarStageView::OpeningArchive, ..req },
            TarActionView::OpenArchive(archive_path(req.root, req.rel)),
        ),
        TarEventView::ArchiveChecked(false) => (
            TarRequestView { stage: TarStageView::Resolving, ..req },
            TarActionView::Resolve(spec_join(req.root, req.rel)),
        ),
        TarEventView::ArchiveOpened(true) => (done, TarActionView::SendArchive),
        TarEventView::ArchiveOpened(false) => (done, TarActionView::Reply(TarReply::InternalError)),
        TarEventView::Resolved(None) => if req.stage is Resolving && is_top_level(req.rel) {
            (
                TarRequestView { stage: TarStageView::ResolvingRoot, ..req },
                TarActionView::Resolve(req.root),
            )
        } else {
            (done, TarActionView::Reply(TarReply::NotFound))
        },
        TarEventView::Resolved(Some(p)) => if spec_starts_with(p, req.root) {
            (
                TarRequestView { stage: TarStageView::CheckingDirectory(p), ..req },
                TarActionView::CheckDirectory(p),
            )
        } else {
            (done, TarActionView::Reply(TarReply::Forbidden))
        },
        TarEventView::DirectoryChecked(true) => (
            done,
            TarActionView::StreamDirectory(req.stage->CheckingDirectory_0),
        ),
        TarEventView::DirectoryChecked(false) => (done, TarActionView::Reply(TarReply::NotFound)),
    }
}

impl TarRequest {
    #[verifier::type_invariant]
    spec fn inv(self) -> bool {
        self@.wf()
    }

    /// Starts a request for `tail` (the requested path before `.tar`) under
    /// `root`: trailing slashes are dropped from `tail`, and the first action
    /// checks for an archive file `<tail>.tar` under the root.
    pub fn start(root: &str, tail: &str) -> (r: (TarRequest, TarAction))
        ensures
            (r.0@, r.1@) == spec_start(root@, tail@),
    {
        let rel = trim_end_slashes(tail);
        let mut name = rel.clone();
        name.append(".tar");
        let archive = join(root, name.as_str());
        let req = TarRequest { root: root.to_owned(), rel, stage: TarStage::CheckingArchive };
        (req, TarAction::CheckArchive(archive))
    }

    /// Whether `ev` is the outcome that the request waits for.
    pub fn accepts(&self, ev: &TarEvent) -> (b: bool)
        ensures
            b == spec_accepts(self@.stage, ev@),
    {
        match ev {
            TarEvent::ArchiveChecked(_) => matches!(self.stage, TarStage::CheckingArchive),
            TarEvent::ArchiveOpened(_) => matches!(self.stage, TarStage::OpeningArchive),
            TarEvent::Resolved(_) => matches!(self.stage, TarStage::Resolving | TarStage::ResolvingRoot),
            TarEvent::DirectoryChecked(_) => matches!(self.stage, TarStage::CheckingDirectory(_)),
        }
    }

    /// Takes the outcome of the last action and gives the next one: an
    /// existing archive file is opened and sent, or a 500 answer given where
    /// it cannot be opened; otherwise the requested path is resolved, a 404
    /// answer given where that fails (except that `_`, which the top-level
    /// listing links as the archive of the whole directory, falls back to
    /// the root itself when no entry `_` resolves), a 403 answer where the
    /// resolved path
    /// does not lie under the root, a 404 answer where it is not a
    /// directory, and a tar archive of it is streamed where it is one.
    pub fn step(&mut self, ev: TarEvent) -> (a: TarAction)
        requires
            spec_accepts(old(self)@.stage, ev@),
        ensures
            (final(self)@, a@) == spec_step(old(self)@, ev@),
            a@ matches TarActionView::StreamDirectory(p) ==> spec_starts_with(p, old(self)@.root),
    {
        proof {
            use_type_invariant(&*self);
        }
        match ev {
            TarEvent::ArchiveChecked(true) => {
                let mut name = self.rel.clone();
                name.append(".tar");
                let archive = join(self.root.as_str(), name.as_str());
                self.stage = TarStage::OpeningArchive;
                TarAction::OpenArchive(archive)
            },
            TarEvent::ArchiveChecked(false) => {
                let dir = join(self.root.as_str(), self.rel.as_str());
                self.stage = TarStage::Resolving;
                TarAction::Resolve(dir)
            },
            TarEvent::ArchiveOpened(true) => {
                self.stage = TarStage::Done;
                TarAction::SendArchive
            },
            TarEvent::ArchiveOpened(false) => {
                self.stage = TarStage::Done;
                TarAction::Reply(TarReply::InternalError)
            },
            TarEvent::Resolved(None) => {
                let resolving = matches!(self.stage, TarStage::Resolving);
                let top = self.rel.unicode_len() == 1 && self.rel.as_str().get_char(0) == '_';
                proof {
                    if self.rel@.len() == 1 {
                        if top {
                            assert(self.rel@ =~= seq!['_']);
                        }
                        if is_top_level(self.rel@) {
                            assert(self.rel@[0] == '_');
                        }
                    }
                }
                if resolving && top {
                    self.stage = TarStage::ResolvingRoot;
                    TarAction::Resolve(self.root.clone())
                } else {
                    self.stage = TarStage::Done;
                    TarAction::Reply(TarReply::NotFound)
                }
            },
            TarEvent::Resolved(Some(p)) => {
                if starts_with(p.as_str(), self.root.as_str()) {
                    self.stage = TarStage::CheckingDirectory(p.clone());
                    TarAction::CheckDirectory(p)
                } else {
                    self.stage = TarStage::Done;
                    TarAction::Reply(TarReply::Forbidden)
                }
            },
            TarEvent::DirectoryChecked(true) => {
                let dir = match &self.stage {
                    TarStage::CheckingDirectory(p) => p.clone(),
                    _ => {
                        assert(false);
                        String::new()
                    },
                };
                self.stage = TarStage::Done;
                TarAction::StreamDirectory(dir)
            },
            TarEvent::DirectoryChecked(false) => {
                self.stage = TarStage::Done;
                TarAction::Reply(TarReply::NotFound)
            },
        }
    }
}


/// A request starts well formed, waiting for the archive check.
pub proof fn lemma_start_is_well_formed(root: Seq<char>, tail: Seq<char>)
    ensures
        spec_start(root, tail).0.wf(),
        spec_start(root, tail).0.root == root,
        spec_start(root, tail).0.stage is CheckingArchive,
        !is_final(spec_start(root, tail).1),
{
}

/// Every step keeps the request well formed and its root and path as they
/// were; and a tar archive is streamed only of a directory whose resolved
/// path lies under the root, component by component.
pub proof fn lemma_stream_only_under_root(req: TarRequestView, ev: TarEventView)
    requires
        req.wf(),
        spec_accepts(req.stage, ev),
    ensures
        spec_step(req, ev).0.wf(),
        spec_step(req, ev).0.root == req.root,
        spec_step(req, ev).0.rel == req.rel,
        spec_step(req, ev).1 matches TarActionView::StreamDirectory(p) ==> spec_starts_with(
            p,
            req.root,
        ),
{
}

/// A request answers exactly when it is done, and once done it accepts no
/// further outcome.
pub proof fn lemma_answer_ends_request(req: TarRequestView, ev: TarEventView)
    requires
        spec_accepts(req.stage, ev),
    ensures
        is_final(spec_step(req, ev).1) <==> spec_step(req, ev).0.stage is Done,
        forall|e: TarEventView| !spec_accepts(TarStageView::Done, e),
{
}

/// The order in which the stages are visited.
pub open spec fn stage_rank(s: TarStageView) -> int {
    match s {
        TarStageView::CheckingArchive => 0,
        TarStageView::OpeningArchive => 1,
        TarStageView::Resolving => 1,
        TarStageView::ResolvingRoot => 2,
        TarStageView::CheckingDirectory(_) => 3,
        TarStageView::Done => 4,
    }
}

/// Every step moves the request strictly forward, so that a request is
/// answered after at most five outcomes.
pub proof fn lemma_step_moves_forward(req: TarRequestView, ev: TarEventView)
    requires
        spec_accepts(req.stage, ev),
    ensures
        stage_rank(spec_step(req, ev).0.stage) > stage_rank(req.stage),
{
}


/// The archive `_.tar` that the top-level listing links, where neither a file
/// `_.tar` nor an entry `_` exists under the root, is a stream of the whole
/// served directory: the request resolves the root and, once the root
/// resolves to a directory at itself, streams it.
pub proof fn lemma_top_level_archive_streams_root(root: Seq<char>, tail: Seq<char>)
    requires
        spec_trim_end_slashes(tail) == seq!['_'],
    ensures
        ({
            let (r0, a0) = spec_start(root, tail);
            let (r1, a1) = spec_step(r0, TarEventView::ArchiveChecked(false));
            let (r2, a2) = spec_step(r1, TarEventView::Resolved(None));
            let (r3, a3) = spec_step(r2, TarEventView::Resolved(Some(root)));
            let (r4, a4) = spec_step(r3, TarEventView::DirectoryChecked(true));
            &&& a0 == TarActionView::CheckArchive(archive_path(root, seq!['_']))
            &&& a1 == TarActionView::Resolve(spec_join(root, seq!['_']))
            &&& a2 == TarActionView::Resolve(root)
            &&& a3 == TarActionView::CheckDirectory(root)
            &&& a4 == TarActionView::StreamDirectory(root)
            &&& spec_accepts(r0.stage, TarEventView::ArchiveChecked(false))
            &&& spec_accepts(r1.stage, TarEventView::Resolved(None))
            &&& spec_accepts(r2.stage, TarEventView::Resolved(Some(root)))
            &&& spec_accepts(r3.stage, TarEventView::DirectoryChecked(true))
        }),
{
    lemma_starts_with_reflexive(root);
}


/// The outcome that answers an action: an archive check is answered by
/// whether the file exists, an open by whether it opened, a resolution by the
/// resolved path, a directory check by whether it is a directory; an answer
/// to the request is answered by nothing.
pub open spec fn answers(a: TarActionView, ev: TarEventView) -> bool {
    match a {
        TarActionView::CheckArchive(_) => ev is ArchiveChecked,
        TarActionView::OpenArchive(_) => ev is ArchiveOpened,
        TarActionView::Resolve(_) => ev is Resolved,
        TarActionView::CheckDirectory(_) => ev is DirectoryChecked,
        _ => false,
    }
}

/// A request accepts exactly the outcomes of the action it has just asked
/// for: at the start, and after every accepted outcome.
pub proof fn lemma_accepts_what_was_asked(root: Seq<char>, tail: Seq<char>, req: TarRequestView, ev: TarEventView)
    requires
        spec_accepts(req.stage, ev),
    ensures
        forall|e: TarEventView|
            spec_accepts(spec_start(root, tail).0.stage, e) <==> answers(spec_start(root, tail).1, e),
        forall|e: TarEventView|
            spec_accepts(spec_step(req, ev).0.stage, e) <==> answers(spec_step(req, ev).1, e),
{
}

/// A path that cannot be resolved is answered with 404, unless it is `_`,
/// the top-level link, whose fallback is the root itself; the fallback to the
/// root fails with 404 as well.
pub proof fn lemma_unresolvable_path_is_not_found(req: TarRequestView)
    requires
        req.stage is Resolving || req.stage is ResolvingRoot,
    ensures
        (req.stage is ResolvingRoot || req.rel != seq!['_']) ==> spec_step(
            req,
            TarEventView::Resolved(None),
        ).1 == TarActionView::Reply(TarReply::NotFound),
        (req.stage is Resolving && req.rel == seq!['_']) ==> spec_step(
            req,
            TarEventView::Resolved(None),
        ).1 == TarActionView::Resolve(req.root),
{
}

/// A resolution is asked either of the root joined with the requested path,
/// right after no archive file was found, or of the root itself, and then
/// only for `_` whose own path did not resolve.
pub proof fn lemma_what_is_resolved(req: TarRequestView, ev: TarEventView, p: Seq<char>)
    requires
        spec_accepts(req.stage, ev),
        spec_step(req, ev).1 == TarActionView::Resolve(p),
    ensures
        (req.stage is CheckingArchive && ev == TarEventView::ArchiveChecked(false) && p == spec_join(
            req.root,
            req.rel,
        )) || (req.stage is Resolving && ev == TarEventView::Resolved(None) && req.rel == seq!['_']
            && p == req.root),
{
}

/// The archive file looked for is the path that is resolved otherwise,
/// followed by `.tar`; and the file opened is the file looked for.
pub proof fn lemma_archive_is_path_dot_tar(root: Seq<char>, tail: Seq<char>)
    ensures
        ({
            let (r0, a0) = spec_start(root, tail);
            let rel = spec_trim_end_slashes(tail);
            &&& a0 == TarActionView::CheckArchive(spec_join(root, rel) + ".tar"@)
            &&& spec_step(r0, TarEventView::ArchiveChecked(false)).1 == TarActionView::Resolve(
                spec_join(root, rel),
            )
            &&& spec_step(r0, TarEventView::ArchiveChecked(true)).1 == TarActionView::OpenArchive(
                spec_join(root, rel) + ".tar"@,
            )
        }),
{
    reveal_strlit(".tar");
    let rel = spec_trim_end_slashes(tail);
    let t = ".tar"@;
    assert(t[0] == '.');
    if rel.len() > 0 {
        assert((rel + t)[0] == rel[0]);
    } else {
        assert(rel + t =~= t);
    }
    assert(has_root(rel + t) == has_root(rel));
    if has_root(rel) {
    } else if root.len() > 0 && root.last() != '/' {
        assert(spec_join(root, rel + t) =~= spec_join(root, rel) + t);
    } else {
        assert(spec_join(root, rel + t) =~= spec_join(root, rel) + t);
    }
}


/// How a request is answered: a file that opened is sent, one that did not
/// gives 500; a resolved path outside the root gives 403, one under it is
/// checked as a directory; a directory is streamed, anything else gives 404,
/// as does a path that cannot be resolved (but for the fallback of `_`).
pub proof fn lemma_how_requests_are_answered(req: TarRequestView, ev: TarEventView)
    requires
        spec_accepts(req.stage, ev),
    ensures
        (spec_step(req, ev).1 == TarActionView::SendArchive) <==> ev == TarEventView::ArchiveOpened(
            true,
        ),
        (spec_step(req, ev).1 == TarActionView::Reply(TarReply::InternalError)) <==> ev
            == TarEventView::ArchiveOpened(false),
        (spec_step(req, ev).1 == TarActionView::Reply(TarReply::Forbidden)) <==> (exists|p: Seq<char>|
            ev == TarEventView::Resolved(Some(p)) && !spec_starts_with(p, req.root)),
        forall|p: Seq<char>|
            (spec_step(req, ev).1 == TarActionView::CheckDirectory(p)) <==> (ev
                == TarEventView::Resolved(Some(p)) && spec_starts_with(p, req.root)),
        (spec_step(req, ev).1 is StreamDirectory) <==> ev == TarEventView::DirectoryChecked(true),
        (spec_step(req, ev).1 == TarActionView::Reply(TarReply::NotFound)) <==> (ev
            == TarEventView::DirectoryChecked(false) || (ev == TarEventView::Resolved(None) && (
        req.stage is ResolvingRoot || req.rel != seq!['_']))),
{
    if let TarEventView::Resolved(Some(p)) = ev {
        if !spec_starts_with(p, req.root) {
            assert(ev == TarEventView::Resolved(Some(p)) && !spec_starts_with(p, req.root));
        }
    }
}

/// The status and text of each error answer.
pub proof fn lemma_reply_codes()
    ensures
        spec_status(TarReply::InternalError) == 500,
        spec_status(TarReply::NotFound) == 404,
        spec_status(TarReply::Forbidden) == 403,
        spec_reply_body(TarReply::InternalError) == "Failed to open tar\n"@,
        spec_reply_body(TarReply::NotFound) == "Directory not found\n"@,
        spec_reply_body(TarReply::Forbidden) == "Forbidden\n"@,
{
}

} // verus!
