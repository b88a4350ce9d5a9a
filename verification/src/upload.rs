//! Files that are attached to a session.
use crate::api::{ApiError, Refusal, Status};
use crate::hash;
use crate::payload;
use crate::text;
use vstd::prelude::*;
use vstd::string::*;

verus! {

/// What the files of a session belong to.
#[derive(Clone, Copy, Debug, PartialEq, Eq, Structural)]
pub enum SessionScope {
    Project,
    NoProject,
}

/// Whether a session belongs to a project, or to none.
pub open spec fn in_scope(
    scope: SessionScope,
    project_root: Seq<char>,
    project: Option<Seq<char>>,
) -> bool {
    match (scope, project) {
        (SessionScope::NoProject, None) => true,
        (SessionScope::Project, Some(p)) => project_root == p,
        _ => false,
    }
}

/// Whether a session belongs to a project, or to none.
pub fn matches_scope(scope: SessionScope, project_root: &str, project: Option<&str>) -> (r: bool)
    ensures
        r == in_scope(scope, project_root@, payload::str_view(project)),
{
    match (scope, project) {
        (SessionScope::NoProject, None) => true,
        (SessionScope::Project, Some(p)) => text::same(project_root, p),
        _ => false,
    }
}

/// An open session.
#[derive(Debug)]
pub struct OpenSession {
    pub id: u128,
    pub scope: SessionScope,
    pub project_root: String,
}

/// How a request to attach a file is refused, where it is.
pub open spec fn attaching_refusal(
    open: Option<OpenSession>,
    project: Option<Seq<char>>,
    session_id: u128,
) -> Option<Refusal> {
    match open {
        None => Some(
            Refusal {
                status: Status::Conflict,
                error: "resume the target session before attaching files"@,
            },
        ),
        Some(s) => if s.id != session_id || !in_scope(s.scope, s.project_root@, project) {
            Some(
                Refusal {
                    status: Status::Conflict,
                    error: "attachment project and session do not match"@,
                },
            )
        } else {
            None
        },
    }
}

/// Where the files of the session are that a request is about: in its project, or in none.
pub fn attachment_conversation(
    open: Option<OpenSession>,
    project: Option<&str>,
    session_id: u128,
) -> (r: Result<Option<String>, ApiError>)
    ensures
        match attaching_refusal(open, payload::str_view(project), session_id) {
            Some(f) => r matches Err(e) && e@ == f,
            None => r == Ok::<Option<String>, ApiError>(
                match open->0.scope {
                    SessionScope::Project => Some(open->0.project_root),
                    SessionScope::NoProject => None,
                },
            ),
        },
{
    match open {
        None => Err(
            ApiError::message(Status::Conflict, "resume the target session before attaching files"),
        ),
        Some(s) => {
            if s.id != session_id || !matches_scope(s.scope, &s.project_root, project) {
                return Err(
                    ApiError::message(
                        Status::Conflict,
                        "attachment project and session do not match",
                    ),
                );
            }
            match s.scope {
                SessionScope::Project => Ok(Some(s.project_root)),
                SessionScope::NoProject => Ok(None),
            }
        },
    }
}

/// Refuses to look for a file that is not attached.
pub fn check_stored(stored: bool) -> (r: Result<(), ApiError>)
    ensures
        stored ==> r is Ok,
        !stored ==> (r matches Err(e) && e@ == (Refusal {
            status: Status::NotFound,
            error: "attachment hash is not stored"@,
        })),
{
    if stored {
        Ok(())
    } else {
        Err(ApiError::message(Status::NotFound, "attachment hash is not stored"))
    }
}

// ---------------------------------------------------------------------------
// Uploads

/// Why a file cannot be attached.
#[derive(Debug)]
pub enum UploadError {
    /// It has more bytes than it may.
    TooLarge(u64),
    /// It has none.
    Empty,
    /// It is not the file that was meant.
    Mismatch,
}

impl UploadError {
    /// What a person is told.
    pub open spec fn text(self) -> Seq<char> {
        match self {
            UploadError::TooLarge(limit) => "attachment exceeds the "@ + text::decimal(
                (limit / 1024 / 1024) as nat,
            ) + " MiB limit"@,
            UploadError::Empty => "attachment is empty"@,
            UploadError::Mismatch => "attachment SHA-256 does not match the uploaded bytes"@,
        }
    }

    /// What a person is told.
    pub fn message(&self) -> (s: String)
        ensures
            s@ == self.text(),
    {
        match self {
            UploadError::TooLarge(limit) => text::cat3(
                "attachment exceeds the ",
                &text::to_decimal(*limit / 1024 / 1024),
                " MiB limit",
            ),
            UploadError::Empty => "attachment is empty".to_owned(),
            UploadError::Mismatch =>
                "attachment SHA-256 does not match the uploaded bytes".to_owned(),
        }
    }
}

/// A file that comes in.
#[derive(Debug)]
pub struct Upload {
    bytes: Vec<u8>,
    limit: u64,
}

/// What has come of a file, with one more piece; `None` where that is too much.
pub open spec fn taken(bytes: Seq<u8>, piece: Seq<u8>, limit: u64) -> Option<Seq<u8>> {
    if bytes.len() + piece.len() > limit {
        None
    } else {
        Some(bytes + piece)
    }
}

impl Upload {
    /// What has come of the file.
    pub closed spec fn content(self) -> Seq<u8> {
        self.bytes@
    }

    /// How many bytes it may have.
    pub closed spec fn most(self) -> u64 {
        self.limit
    }

    /// A file of which nothing has come yet.
    pub fn begin(limit: u64) -> (u: Upload)
        ensures
            u.content() == Seq::<u8>::empty(),
            u.most() == limit,
    {
        Upload { bytes: Vec::new(), limit }
    }

    /// Takes a piece of the file, unless it would then have too many bytes.
    pub fn push(&mut self, piece: &Vec<u8>) -> (r: Result<(), UploadError>)
        ensures
            final(self).most() == old(self).most(),
            match taken(old(self).content(), piece@, old(self).most()) {
                Some(bytes) => r is Ok && final(self).content() == bytes,
                None => r == Err::<(), UploadError>(UploadError::TooLarge(old(self).most()))
                    && final(self).content() == old(self).content(),
            },
    {
        let fits = match (self.bytes.len() as u64).checked_add(piece.len() as u64) {
            Some(size) => size <= self.limit,
            None => false,
        };
        if !fits {
            return Err(UploadError::TooLarge(self.limit));
        }
        hash::append(&mut self.bytes, piece);
        Ok(())
    }

    /// Whether the file that has come is the one that was meant.
    pub fn finish(&self, sha256: &str) -> (r: Result<(), UploadError>)
        ensures
            r == upload_result(self.content(), sha256@),
    {
        if self.bytes.len() == 0 {
            return Err(UploadError::Empty);
        }
        if !text::same_ignoring_ascii_case(&hash::digest_hex(&self.bytes), sha256) {
            return Err(UploadError::Mismatch);
        }
        Ok(())
    }
}

/// Whether a file is the one that was meant.
pub open spec fn upload_result(bytes: Seq<u8>, sha256: Seq<char>) -> Result<(), UploadError> {
    if bytes.len() == 0 {
        Err(UploadError::Empty)
    } else if text::ascii_lower(hash::sha256_hex(bytes)) != text::ascii_lower(sha256) {
        Err(UploadError::Mismatch)
    } else {
        Ok(())
    }
}

/// How an upload that went wrong is refused.
pub open spec fn upload_refusal_of(error: Seq<char>) -> Refusal {
    Refusal {
        status: if text::contains_text(error, "limit"@) {
            Status::PayloadTooLarge
        } else {
            Status::BadRequest
        },
        error,
    }
}

/// How an upload that went wrong is refused.
pub fn upload_refusal(error: String) -> (e: ApiError)
    ensures
        e@ == upload_refusal_of(error@),
{
    let status = if text::contains(&error, "limit") {
        Status::PayloadTooLarge
    } else {
        Status::BadRequest
    };
    ApiError { status, error }
}

// ---------------------------------------------------------------------------
// Laws

/// What has come of a file in pieces; `None` where it had too many bytes at some time.
pub open spec fn all_taken(pieces: Seq<Seq<u8>>, limit: u64) -> Option<Seq<u8>>
    decreases pieces.len(),
{
    if pieces.len() == 0 {
        Some(Seq::empty())
    } else {
        match all_taken(pieces.drop_last(), limit) {
            Some(bytes) => taken(bytes, pieces.last(), limit),
            None => None,
        }
    }
}

/// The pieces of a file, one behind the other.
pub open spec fn whole(pieces: Seq<Seq<u8>>) -> Seq<u8>
    decreases pieces.len(),
{
    if pieces.len() == 0 {
        Seq::empty()
    } else {
        whole(pieces.drop_last()) + pieces.last()
    }
}

/// It does not matter in what pieces a file comes: it is taken as a whole if it has no more bytes than
/// it may.
pub proof fn pieces_do_not_matter(pieces: Seq<Seq<u8>>, limit: u64)
    ensures
        all_taken(pieces, limit) == (if whole(pieces).len() <= limit {
            Some(whole(pieces))
        } else {
            None
        }),
    decreases pieces.len(),
{
    if pieces.len() > 0 {
        pieces_do_not_matter(pieces.drop_last(), limit);
    }
}

/// A file that is too large is refused as such.
pub proof fn a_large_file_is_too_large(limit: u64)
    ensures
        upload_refusal_of(UploadError::TooLarge(limit).text()).status == Status::PayloadTooLarge,
{
    let s = UploadError::TooLarge(limit).text();
    let head = "attachment exceeds the "@ + text::decimal((limit / 1024 / 1024) as nat);
    reveal_strlit(" MiB limit");
    reveal_strlit("limit");
    assert(text::occurs_at(s, "limit"@, (head.len() + 5) as int)) by {
        assert(s.subrange((head.len() + 5) as int, (head.len() + 10) as int) =~= "limit"@);
    }
}

/// A session belongs to a project exactly where its root is that project, and to none exactly where it
/// has none.
pub proof fn a_session_belongs_to_one_project(root: Seq<char>, project: Seq<char>)
    ensures
        in_scope(SessionScope::Project, root, Some(project)) <==> root == project,
        in_scope(SessionScope::NoProject, root, None),
        !in_scope(SessionScope::Project, root, None),
        !in_scope(SessionScope::NoProject, root, Some(project)),
{
}

/// A file is attached exactly to the open session that is named, in its own project.
pub proof fn files_are_attached_to_the_open_session(
    open: Option<OpenSession>,
    project: Option<Seq<char>>,
    id: u128,
)
    ensures
        attaching_refusal(open, project, id) is None <==> (open matches Some(s) && s.id == id && (
        match project {
            Some(p) => s.scope == SessionScope::Project && s.project_root@ == p,
            None => s.scope == SessionScope::NoProject,
        })),
        attaching_refusal(open, project, id) matches Some(f) ==> f.status == Status::Conflict,
{
}

/// A file is the one that was meant exactly where it is not empty and has the hash that was named,
/// in whatever case of letters.
pub proof fn a_file_is_known_by_its_hash(bytes: Seq<u8>, named: Seq<char>)
    ensures
        upload_result(bytes, named) is Ok <==> bytes.len() > 0 && text::ascii_lower(
            hash::sha256_hex(bytes),
        ) == text::ascii_lower(named),
        bytes.len() > 0 ==> upload_result(bytes, hash::sha256_hex(bytes)) is Ok,
        bytes.len() == 0 ==> upload_result(bytes, named) == Err::<(), UploadError>(
            UploadError::Empty,
        ),
{
}

/// A refused upload says what went wrong, and is too large only where that speaks of a limit.
pub proof fn a_refused_upload_says_why(error: Seq<char>)
    ensures
        upload_refusal_of(error).error == error,
        upload_refusal_of(error).status == Status::PayloadTooLarge <==> text::contains_text(
            error,
            "limit"@,
        ),
        upload_refusal_of(error).status != Status::PayloadTooLarge ==> upload_refusal_of(error).status
            == Status::BadRequest,
{
}

/// A piece of a file stands behind what came before it, unless it would be too much.
pub proof fn a_piece_stands_behind_the_others(
    u: &mut Upload,
    piece: &Vec<u8>,
    r: Result<(), UploadError>,
)
    requires
        call_ensures(Upload::push, (u, piece), r),
    ensures
        r is Ok <==> old(u).content().len() + piece@.len() <= old(u).most(),
        r is Ok ==> final(u).content() == old(u).content() + piece@,
        r is Err ==> final(u).content() == old(u).content(),
{
}

} // verus!
