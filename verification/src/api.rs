//! The rules of the HTTP API: which request paths are served, where uploads
//! go, what a download is labelled with, and what the folder list shows.
use vstd::prelude::*;
use crate::folders::SharedFolder;
use crate::paths::{
    acceptable_relative, file_name_of, is_absolute, join_path, joined, path_file_name,
    path_has_prefix, path_starts_with, relative_is_acceptable, opt_str, plain_name, law_file_name_is_plain,
    law_plain_name_is_its_file_name,
};
use crate::text::{char_at, char_len};

verus! {

/// Why a request is refused; each maps to one HTTP status.
#[derive(Debug, Clone, Copy, PartialEq, Eq, Structural)]
pub enum ApiError {
    BadRequest,
    Forbidden,
    NotFound,
    Internal,
}

impl ApiError {
    /// The HTTP status code of the refusal.
    pub fn status_code(&self) -> (code: u16)
        ensures
            code == match self {
                ApiError::BadRequest => 400u16,
                ApiError::Forbidden => 403u16,
                ApiError::NotFound => 404u16,
                ApiError::Internal => 500u16,
            },
    {
        match self {
            ApiError::BadRequest => 400,
            ApiError::Forbidden => 403,
            ApiError::NotFound => 404,
            ApiError::Internal => 500,
        }
    }
}

/// A shared folder as the folder list shows it.
pub struct FolderDto {
    pub id: String,
    pub name: String,
}

/// Query of a directory listing: the folder's id and a path inside it.
pub struct BrowseQuery {
    pub root: String,
    pub path: String,
}

/// Query of a download: the folder's id and the file's path inside it.
pub struct FileQuery {
    pub root: String,
    pub path: String,
}

/// Query of an upload: the folder's id and the directory inside it.
pub struct UploadQuery {
    pub root: String,
    pub path: String,
}

/// The folder list: id and name of each shared folder, in order.
pub fn folder_dtos(folders: &Vec<SharedFolder>) -> (r: Vec<FolderDto>)
    ensures
        r@.len() == folders@.len(),
        forall|i: int|
            0 <= i < r@.len() ==> #[trigger] r@[i].id@ == folders@[i].id@ && r@[i].name@
                == folders@[i].name@,
{
    let mut r: Vec<FolderDto> = Vec::new();
    let mut i: usize = 0;
    while i < folders.len()
        invariant
            i <= folders.len(),
            r@.len() == i,
            forall|k: int|
                0 <= k < i ==> #[trigger] r@[k].id@ == folders@[k].id@ && r@[k].name@
                    == folders@[k].name@,
        decreases folders.len() - i,
    {
        r.push(FolderDto { id: folders[i].id.clone(), name: folders[i].name.clone() });
        i = i + 1;
    }
    r
}

/// A request must name a shared folder that exists: otherwise it is not found.
pub fn require_root(root: Option<SharedFolder>) -> (r: Result<SharedFolder, ApiError>)
    ensures
        match root {
            Some(f) => r matches Ok(g) && g@ == f@,
            None => r == Err::<SharedFolder, ApiError>(ApiError::NotFound),
        },
{
    match root {
        Some(f) => Ok(f),
        None => Err(ApiError::NotFound),
    }
}

/// Listings and uploads need a directory: anything else is a bad request.
pub fn require_directory(is_dir: bool) -> (r: Result<(), ApiError>)
    ensures
        r is Ok <==> is_dir,
        !is_dir ==> r == Err::<(), ApiError>(ApiError::BadRequest),
{
    if is_dir {
        Ok(())
    } else {
        Err(ApiError::BadRequest)
    }
}

/// Downloads need a regular file: anything else is not found.
pub fn require_file(is_file: bool) -> (r: Result<(), ApiError>)
    ensures
        r is Ok <==> is_file,
        !is_file ==> r == Err::<(), ApiError>(ApiError::NotFound),
{
    if is_file {
        Ok(())
    } else {
        Err(ApiError::NotFound)
    }
}

/// Refuses a relative path that holds `..` or is absolute.
pub fn check_relative(rel: &str) -> (r: Result<(), ApiError>)
    ensures
        r is Ok <==> acceptable_relative(rel@),
        r is Err ==> r == Err::<(), ApiError>(ApiError::BadRequest),
{
    if relative_is_acceptable(rel) {
        Ok(())
    } else {
        Err(ApiError::BadRequest)
    }
}

/// The path that a relative path names inside the folder `root`.
pub open spec fn candidate_of(root: Seq<char>, rel: Seq<char>) -> Seq<char> {
    if rel.len() == 0 {
        root
    } else {
        joined(root, rel)
    }
}

/// The path that `rel` names inside the folder `root` (the folder itself when `rel` is empty).
pub fn candidate_path(root: &str, rel: &str) -> (r: String)
    ensures
        r@ == candidate_of(root@, rel@),
{
    if rel.is_empty() {
        String::from_str(root)
    } else {
        join_path(root, rel)
    }
}

/// Keeps a resolved path only if it lies inside the resolved folder.
pub fn confine(root: &str, resolved: &str) -> (r: Result<String, ApiError>)
    ensures
        match r {
            Ok(p) => p@ == resolved@ && path_starts_with(resolved@, root@),
            Err(e) => e == ApiError::Forbidden && !path_starts_with(resolved@, root@),
        },
{
    if path_has_prefix(resolved, root) {
        Ok(String::from_str(resolved))
    } else {
        Err(ApiError::Forbidden)
    }
}

/// Where a request for `rel` inside a shared folder leads, given what the file
/// system resolved: `root_canon` is the folder's canonical path and
/// `cand_canon` that of `candidate_of(root_canon, rel)` (`None` where
/// resolving failed). A refused `rel` is a bad request, whatever was resolved;
/// a path that did not resolve is not found; a resolved path outside the folder
/// is forbidden.
pub open spec fn resolution(
    rel: Seq<char>,
    root_canon: Option<Seq<char>>,
    cand_canon: Option<Seq<char>>,
) -> Result<Seq<char>, ApiError> {
    if !acceptable_relative(rel) {
        Err(ApiError::BadRequest)
    } else {
        match root_canon {
            None => Err(ApiError::NotFound),
            Some(root) => match cand_canon {
                None => Err(ApiError::NotFound),
                Some(c) => if path_starts_with(c, root) {
                    Ok(c)
                } else {
                    Err(ApiError::Forbidden)
                },
            },
        }
    }
}

/// Decides where a request for `rel` leads, from what the file system
/// resolved for the folder and for the candidate path.
pub fn resolve_request(rel: &str, root_canon: Option<&str>, cand_canon: Option<&str>) -> (r:
    Result<String, ApiError>)
    ensures
        match (r, resolution(rel@, opt_str(root_canon), opt_str(cand_canon))) {
            (Ok(p), Ok(q)) => p@ == q,
            (Err(e), Err(f)) => e == f,
            _ => false,
        },
{
    if let Err(e) = check_relative(rel) {
        return Err(e);
    }
    let root = match root_canon {
        None => return Err(ApiError::NotFound),
        Some(root) => root,
    };
    match cand_canon {
        None => Err(ApiError::NotFound),
        Some(c) => confine(root, c),
    }
}

/// The name an uploaded file is stored under: the last component of the name
/// the client sent, unless that is missing, empty, `.` or `..`; then `file`.
pub open spec fn sanitized_name(name: Seq<char>) -> Seq<char> {
    match path_file_name(name) {
        Some(n) => if n.len() > 0 && n != seq!['.'] && n != seq!['.', '.'] {
            n
        } else {
            seq!['f', 'i', 'l', 'e']
        },
        None => seq!['f', 'i', 'l', 'e'],
    }
}

fn file_literal() -> (r: String)
    ensures
        r@ == seq!['f', 'i', 'l', 'e'],
{
    let r = String::from_str("file");
    proof {
        reveal_strlit("file");
    }
    assert(r@ =~= seq!['f', 'i', 'l', 'e']);
    r
}

/// Whether `n` is empty, `.` or `..`.
fn is_dot_name(n: &str) -> (r: bool)
    ensures
        r == (n@.len() == 0 || n@ == seq!['.'] || n@ == seq!['.', '.']),
{
    let k = char_len(n);
    if k == 0 {
        return true;
    }
    if k > 2 {
        assert(n@ != seq!['.'] && n@ != seq!['.', '.']);
        return false;
    }
    if char_at(n, 0) != '.' {
        assert(n@ != seq!['.'] && n@ != seq!['.', '.']);
        return false;
    }
    if k == 1 {
        assert(n@ =~= seq!['.']);
        return true;
    }
    let second = char_at(n, 1);
    if second == '.' {
        assert(n@ =~= seq!['.', '.']);
    } else {
        assert(n@ != seq!['.', '.']);
    }
    second == '.'
}

/// The name under which an uploaded file called `name` is stored.
pub fn sanitize_filename(name: &str) -> (r: String)
    ensures
        r@ == sanitized_name(name@),
{
    match file_name_of(name) {
        Some(n) => {
            if is_dot_name(n.as_str()) {
                file_literal()
            } else {
                n
            }
        },
        None => file_literal(),
    }
}

/// Where an uploaded file called `name` is written inside the directory `dir`.
pub fn upload_destination(dir: &str, name: &str) -> (r: String)
    ensures
        r@ == joined(dir@, sanitized_name(name@)),
{
    let safe = sanitize_filename(name);
    join_path(dir, safe.as_str())
}

/// Where a field of an upload is written inside the directory `dir`: a field
/// without a file name is passed over.
pub fn field_destination(dir: &str, file_name: Option<&str>) -> (r: Option<String>)
    ensures
        match file_name {
            None => r is None,
            Some(n) => r matches Some(d) && d@ == joined(dir@, sanitized_name(n@)),
        },
{
    match file_name {
        None => None,
        Some(n) => Some(upload_destination(dir, n)),
    }
}

/// What can go wrong while an upload is received.
#[derive(Debug, Clone, Copy, PartialEq, Eq, Structural)]
pub enum UploadFault {
    /// The next field of the multipart body could not be read.
    Multipart,
    /// The data of a field could not be read.
    FieldData,
    /// The file could not be written.
    Write,
}

impl UploadFault {
    /// The refusal an upload fault is answered with: a body that cannot be read
    /// is the client's fault, a file that cannot be written the server's.
    pub fn error(&self) -> (r: ApiError)
        ensures
            r == match self {
                UploadFault::Multipart => ApiError::BadRequest,
                UploadFault::FieldData => ApiError::BadRequest,
                UploadFault::Write => ApiError::Internal,
            },
    {
        match self {
            UploadFault::Multipart => ApiError::BadRequest,
            UploadFault::FieldData => ApiError::BadRequest,
            UploadFault::Write => ApiError::Internal,
        }
    }
}

/// What `mime_guess::from_path(p).first_or_octet_stream()` renders as.
pub uninterp spec fn guessed_mime(p: Seq<char>) -> Seq<char>;

/// Calls `mime_guess::from_path(p).first_or_octet_stream()` and renders the
/// media type as text. The guess looks only at the extension, never at the
/// disk; a path without any `.` has no extension, and mime_guess documents
/// `application/octet-stream` for it. Other results are left to the name
/// `guessed_mime`.
#[verifier::external_body]
fn content_type_of(p: &str) -> (r: String)
    ensures
        r@ == guessed_mime(p@),
        !p@.contains('.') ==> r@ == "application/octet-stream"@,
{
    mime_guess::from_path(p).first_or_octet_stream().to_string()
}

/// The file name a download is offered under.
pub open spec fn download_name(p: Seq<char>) -> Seq<char> {
    match path_file_name(p) {
        Some(n) => n,
        None => seq!['f', 'i', 'l', 'e'],
    }
}

/// The `Content-Disposition` value of a download named `name`.
pub open spec fn disposition_for(name: Seq<char>) -> Seq<char> {
    "attachment; filename=\""@ + name + "\""@
}

/// Headers of a download of the file at `p`: its media type, and an
/// attachment disposition carrying its file name.
pub struct DownloadHeaders {
    pub content_type: String,
    pub disposition: String,
}

/// The headers for downloading the file at `p`.
pub fn download_headers(p: &str) -> (r: DownloadHeaders)
    ensures
        r.content_type@ == guessed_mime(p@),
        r.disposition@ == disposition_for(download_name(p@)),
{
    let name = match file_name_of(p) {
        Some(n) => n,
        None => file_literal(),
    };
    let mut disposition = String::from_str("attachment; filename=\"");
    disposition.append(name.as_str());
    disposition.append("\"");
    DownloadHeaders { content_type: content_type_of(p), disposition }
}

/// A request path with `..` in it is refused, whatever else it holds.
pub proof fn law_double_dot_is_refused(rel: Seq<char>, i: int)
    requires
        0 <= i && i + 1 < rel.len(),
        rel[i] == '.' && rel[i + 1] == '.',
    ensures
        !acceptable_relative(rel),
{
}

/// An accepted request path, joined to a folder, stays below the folder's text.
pub proof fn law_accepted_candidate_extends_root(root: Seq<char>, rel: Seq<char>)
    requires
        acceptable_relative(rel),
    ensures
        candidate_of(root, rel).len() >= root.len(),
        candidate_of(root, rel).subrange(0, root.len() as int) == root,
{
    let c = candidate_of(root, rel);
    if rel.len() > 0 {
        assert(!is_absolute(rel));
        if root.len() == 0 || root.last() == '/' {
            assert((root + rel).subrange(0, root.len() as int) =~= root);
        } else {
            assert((root + seq!['/'] + rel).subrange(0, root.len() as int) =~= root);
        }
    } else {
        assert(root.subrange(0, root.len() as int) =~= root);
    }
}

/// An uploaded file's stored name is never empty, `.` or `..`.
pub proof fn law_sanitized_name_is_plain(name: Seq<char>)
    ensures
        sanitized_name(name).len() > 0,
        sanitized_name(name) != seq!['.'],
        sanitized_name(name) != seq!['.', '.'],
{
    assert(seq!['f', 'i', 'l', 'e'] != seq!['.']) by {
        assert(seq!['f', 'i', 'l', 'e'].len() != seq!['.'].len());
    }
    assert(seq!['f', 'i', 'l', 'e'] != seq!['.', '.']) by {
        assert(seq!['f', 'i', 'l', 'e'].len() != seq!['.', '.'].len());
    }
}

/// The stored name of an upload is a plain name: one non-empty component,
/// without `/`, and neither `.` nor `..`.
pub proof fn law_sanitized_name_is_one_component(name: Seq<char>)
    ensures
        plain_name(sanitized_name(name)),
{
    law_file_name_is_plain(name);
    law_sanitized_name_is_plain(name);
    assert(!seq!['f', 'i', 'l', 'e'].contains('/')) by {
        let f = seq!['f', 'i', 'l', 'e'];
        assert forall|i: int| 0 <= i < f.len() implies f[i] != '/' by {}
    }
}

/// A plain file name is stored under its own name.
pub proof fn law_plain_name_is_kept(name: Seq<char>)
    requires
        plain_name(name),
    ensures
        sanitized_name(name) == name,
{
    law_plain_name_is_its_file_name(name);
}

/// Sanitizing a stored name again changes nothing.
pub proof fn law_sanitize_is_idempotent(name: Seq<char>)
    ensures
        sanitized_name(sanitized_name(name)) == sanitized_name(name),
{
    law_sanitized_name_is_one_component(name);
    law_plain_name_is_kept(sanitized_name(name));
}

/// An upload lands directly inside its directory: the destination is the
/// directory's text, a `/` unless the directory is empty or already ends in
/// one, and then one plain name.
pub proof fn law_upload_stays_in_directory(dir: Seq<char>, name: Seq<char>)
    ensures
        plain_name(sanitized_name(name)),
        joined(dir, sanitized_name(name)) == if dir.len() == 0 || dir.last() == '/' {
            dir + sanitized_name(name)
        } else {
            dir + seq!['/'] + sanitized_name(name)
        },
{
    law_sanitized_name_is_one_component(name);
    let n = sanitized_name(name);
    assert(!is_absolute(n)) by {
        if n.len() > 0 && n[0] == '/' {
            assert(n.contains('/'));
        }
    }
}

/// How a request resolves: a bad request exactly when the relative path is
/// refused; for an accepted path, not found when the folder or the candidate
/// did not resolve, forbidden when the resolved candidate lies outside the
/// resolved folder, and otherwise the resolved candidate itself. The empty
/// path is accepted, so the folder itself can be browsed and uploaded into.
pub proof fn law_resolution_outcomes(
    rel: Seq<char>,
    root_canon: Option<Seq<char>>,
    cand_canon: Option<Seq<char>>,
)
    ensures
        acceptable_relative(Seq::<char>::empty()),
        (resolution(rel, root_canon, cand_canon) == Err::<Seq<char>, ApiError>(ApiError::BadRequest))
            <==> !acceptable_relative(rel),
        acceptable_relative(rel) && root_canon is None ==> resolution(rel, root_canon, cand_canon)
            == Err::<Seq<char>, ApiError>(ApiError::NotFound),
        acceptable_relative(rel) && root_canon is Some && cand_canon is None ==> resolution(
            rel,
            root_canon,
            cand_canon,
        ) == Err::<Seq<char>, ApiError>(ApiError::NotFound),
        forall|root: Seq<char>, c: Seq<char>|
            acceptable_relative(rel) && root_canon == Some(root) && cand_canon == Some(c) ==> (
            #[trigger] path_starts_with(c, root) <==> resolution(rel, root_canon, cand_canon) == Ok::<
                Seq<char>,
                ApiError,
            >(c)),
        forall|root: Seq<char>, c: Seq<char>|
            acceptable_relative(rel) && root_canon == Some(root) && cand_canon == Some(c)
                && !#[trigger] path_starts_with(c, root) ==> resolution(rel, root_canon, cand_canon)
                == Err::<Seq<char>, ApiError>(ApiError::Forbidden),
{
    assert(!crate::text::has_double_dot(Seq::<char>::empty()));
}

} // verus!
