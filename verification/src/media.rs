//! Uploaded media: the size limit and the content-addressed name a file is
//! stored under, so that peers holding the same bytes share one file.
use vstd::prelude::*;
use crate::crypto::{hex_lower, sha256, sha256_hash};
use crate::models::concat;

verus! {

/// Largest upload, in bytes.
pub const MAX_UPLOAD_BYTES: usize = 10_000_000;

/// Why an upload is refused.
#[derive(Clone, Copy, Debug, PartialEq, Eq, Structural)]
pub enum UploadRejection {
    TooLarge,
}

impl UploadRejection {
    /// The message a client is told.
    pub fn message(&self) -> (m: &'static str)
        ensures
            m@ == "File too large (max 10MB)"@,
    {
        "File too large (max 10MB)"
    }
}

/// The extension of a file name as `std::path::Path::extension` reads it on
/// a platform whose main path separator is `separator` (a slash on Unix,
/// a backslash on Windows, where drive prefixes are read too).
pub uninterp spec fn path_extension(file_name: Seq<char>, separator: char) -> Option<Seq<char>>;

/// The extension of `file_name` (`std::path::Path::extension`, as text),
/// with the platform's main separator (`std::path::MAIN_SEPARATOR`) that
/// decides how the name is read.
#[verifier::external_body]
fn extension_of(file_name: &str) -> (r: (Option<String>, char))
    ensures
        match r.0 {
            Some(e) => path_extension(file_name@, r.1) == Some(e@),
            None => path_extension(file_name@, r.1) is None,
        },
{
    let ext = std::path::Path::new(file_name).extension().and_then(|e| e.to_str()).map(|e| e.to_string());
    (ext, std::path::MAIN_SEPARATOR)
}

/// The extension a stored file gets: its own, else `bin`.
pub open spec fn stored_extension(ext: Option<Seq<char>>) -> Seq<char> {
    match ext {
        Some(e) => e,
        None => "bin"@,
    }
}

/// The name a file with `data` and extension `ext` is stored under: the hex
/// SHA-256 of its bytes, a dot, and the extension.
pub open spec fn stored_name(data: Seq<u8>, ext: Option<Seq<char>>) -> Seq<char> {
    hex_lower(sha256(data)) + "."@ + stored_extension(ext)
}

/// The URL a stored file is served at.
pub open spec fn upload_url(name: Seq<char>) -> Seq<char> {
    "/static/uploads/"@ + name
}

/// Where an upload of `data` whose name has the extension `ext` is stored,
/// as `(name, url)`; refused when it is larger than `MAX_UPLOAD_BYTES`.
pub fn upload_plan(data: &[u8], ext: Option<String>) -> (r: Result<(String, String), UploadRejection>)
    ensures
        data@.len() > MAX_UPLOAD_BYTES ==> r == Err::<(String, String), UploadRejection>(
            UploadRejection::TooLarge,
        ),
        data@.len() <= MAX_UPLOAD_BYTES ==> (r matches Ok((name, url)) && name@ == stored_name(
            data@,
            match ext {
                Some(e) => Some(e@),
                None => None,
            },
        ) && url@ == upload_url(name@)),
{
    if data.len() > MAX_UPLOAD_BYTES {
        return Err(UploadRejection::TooLarge);
    }
    let hash = sha256_hash(data);
    let ext = match ext {
        Some(e) => e,
        None => "bin".to_owned(),
    };
    let with_dot = concat(hash.as_str(), ".");
    let name = concat(with_dot.as_str(), ext.as_str());
    let url = concat("/static/uploads/", name.as_str());
    proof {
        reveal_strlit("bin");
        reveal_strlit(".");
        reveal_strlit("/static/uploads/");
    }
    Ok((name, url))
}

/// Where an upload of `data` named `file_name` is stored, as `(name, url)`:
/// the extension is read from the name as this platform's paths are.
pub fn plan_upload(data: &[u8], file_name: &str) -> (r: Result<(String, String), UploadRejection>)
    ensures
        data@.len() > MAX_UPLOAD_BYTES ==> r == Err::<(String, String), UploadRejection>(
            UploadRejection::TooLarge,
        ),
        data@.len() <= MAX_UPLOAD_BYTES ==> (r matches Ok((name, url)) && (exists|separator: char|
            name@ == stored_name(data@, #[trigger] path_extension(file_name@, separator))) && url@
            == upload_url(name@)),
{
    let (ext, separator) = extension_of(file_name);
    let r = upload_plan(data, ext);
    proof {
        if data@.len() <= MAX_UPLOAD_BYTES {
            assert(path_extension(file_name@, separator) == match ext {
                Some(e) => Some(e@),
                None => None::<Seq<char>>,
            });
        }
    }
    r
}

} // verus!
