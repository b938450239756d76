//! Decisions taken when content is uploaded: its id, the name of its blob,
//! its media type, and the record handed to the state machine.
use vstd::prelude::*;
use vstd::string::StringExecFns;
use crate::ids::{is_id_text, hex_number, parse_id};
use crate::model::{Content, DataPayload};
use crate::state::{has_content, Command, State, StateModel};

verus! {

pub enum UploadError {
    InvalidId,
    ContentExists,
    MultipleFiles,
    NoFile,
    InvalidMime,
}

/// The media type `mime_guess` gives first for a file extension, or
/// `application/octet-stream` when it knows none.
pub uninterp spec fn guessed_mime(ext: Seq<char>) -> Seq<char>;

/// The media type `mime` reads from a text, rendered back as text, or
/// `None` when the text is not a media type.
pub uninterp spec fn parsed_mime(s: Seq<char>) -> Option<Seq<char>>;

/// Relies on `mime_guess::from_ext` and `MimeGuess::first_or_octet_stream`:
/// the first known type for the extension, `application/octet-stream` for
/// an empty extension.
#[verifier::external_body]
fn guess_mime(ext: &str) -> (r: String)
    ensures
        r@ == guessed_mime(ext@),
        ext@.len() == 0 ==> r@ == "application/octet-stream"@,
{
    mime_guess::from_ext(ext).first_or_octet_stream().to_string()
}

/// Relies on `<mime::Mime as FromStr>::from_str`, and on `Display` for
/// `Mime`, which writes the parsed text.
#[verifier::external_body]
fn parse_mime(s: &str) -> (r: Option<String>)
    ensures
        match r {
            Some(m) => parsed_mime(s@) == Some(m@),
            None => parsed_mime(s@) is None,
        },
{
    match s.parse::<mime::Mime>() {
        Ok(m) => Some(m.to_string()),
        Err(_) => None,
    }
}

/// Characters of the URL-safe alphabet that random names are drawn from.
pub open spec fn is_name_char(c: char) -> bool {
    ('a' <= c && c <= 'z') || ('A' <= c && c <= 'Z') || ('0' <= c && c <= '9') || c == '_' || c
        == '-'
}

/// Relies on `nanoid::format` with `nanoid::rngs::default` and
/// `nanoid::alphabet::SAFE`: it returns as soon as it holds 16 characters,
/// each drawn from that alphabet.
#[verifier::external_body]
fn random_name() -> (r: String)
    ensures
        r@.len() == 16,
        forall|i: int| 0 <= i < r@.len() ==> is_name_char(#[trigger] r@[i]),
{
    nanoid::format(nanoid::rngs::default, &nanoid::alphabet::SAFE, 16)
}

/// The blob name for a random stem and a file extension: `stem.ext`, or
/// the stem alone when there is no extension.
pub open spec fn blob_name_of(stem: Seq<char>, ext: Seq<char>) -> Seq<char> {
    if ext.len() == 0 {
        stem
    } else {
        stem + "."@ + ext
    }
}

pub fn blob_file_name(stem: &str, ext: &str) -> (r: String)
    ensures
        r@ == blob_name_of(stem@, ext@),
{
    let s = String::from_str(stem);
    if ext.unicode_len() == 0 {
        s
    } else {
        s.concat(".").concat(ext)
    }
}

/// A fresh blob name for a file with extension `ext`.
pub fn new_blob_file_name(ext: &str) -> (r: String)
    ensures
        exists|stem: Seq<char>|
            #![trigger blob_name_of(stem, ext@)]
            stem.len() == 16 && (forall|i: int| 0 <= i < 16 ==> is_name_char(#[trigger] stem[i]))
                && r@ == blob_name_of(stem, ext@),
{
    let stem = random_name();
    blob_file_name(stem.as_str(), ext)
}

/// The media type of an upload from the label given with it, if any, and
/// otherwise from the guess for its extension.
pub fn pick_mime(label: Option<Option<String>>, guessed: String) -> (r: Result<String, UploadError>)
    ensures
        match label {
            Some(Some(m)) => r == Ok::<String, UploadError>(m),
            Some(None) => r is Err && r->Err_0 is InvalidMime,
            None => r == Ok::<String, UploadError>(guessed),
        },
{
    match label {
        Some(Some(m)) => Ok(m),
        Some(None) => Err(UploadError::InvalidMime),
        None => Ok(guessed),
    }
}

/// The media type of an upload: the `mime_type` label when one was given,
/// which must parse; otherwise the guess for the extension.
pub fn content_mime(label: Option<&str>, ext: &str) -> (r: Result<String, UploadError>)
    ensures
        match mime_result(opt_text(label), ext@) {
            Ok(m) => r matches Ok(v) && v@ == m,
            Err(e) => r == Err::<String, UploadError>(e),
        },
        match label {
            Some(l) => match parsed_mime(l@) {
                Some(m) => r matches Ok(v) && v@ == m,
                None => r is Err && r->Err_0 is InvalidMime,
            },
            None => r matches Ok(v) && v@ == guessed_mime(ext@),
        },
{
    let guessed = guess_mime(ext);
    let parsed = match label {
        Some(l) => Some(parse_mime(l)),
        None => None,
    };
    pick_mime(parsed, guessed)
}

/// The id of a new upload: the one requested, which must be a valid id not
/// yet used, or else `fresh`.
pub fn upload_id(state: &State, requested: Option<&str>, fresh: u64) -> (r: Result<u64, UploadError>)
    ensures
        r == id_result(state@, opt_text(requested), fresh),
        match requested {
            None => if has_content(state@.contents, fresh) {
                r is Err && r->Err_0 is ContentExists
            } else {
                r == Ok::<u64, UploadError>(fresh)
            },
            Some(t) => if !is_id_text(t@) {
                r is Err && r->Err_0 is InvalidId
            } else if has_content(state@.contents, hex_number(t@) as u64) {
                r is Err && r->Err_0 is ContentExists
            } else {
                r matches Ok(v) && v as nat == hex_number(t@)
            },
        },
{
    let id = match requested {
        None => fresh,
        Some(t) => match parse_id(t) {
            None => {
                return Err(UploadError::InvalidId);
            },
            Some(v) => v,
        },
    };
    if state.has_content_id(id) {
        Err(UploadError::ContentExists)
    } else {
        Ok(id)
    }
}

/// An upload carries exactly one file.
pub fn check_file_count(files: usize) -> (r: Result<(), UploadError>)
    ensures
        files == 0 ==> r is Err && r->Err_0 is NoFile,
        files > 1 ==> r is Err && r->Err_0 is MultipleFiles,
        files == 1 ==> r is Ok,
{
    if files == 0 {
        Err(UploadError::NoFile)
    } else if files > 1 {
        Err(UploadError::MultipleFiles)
    } else {
        Ok(())
    }
}

pub open spec fn opt_text(t: Option<&str>) -> Option<Seq<char>> {
    match t {
        Some(x) => Some(x@),
        None => None,
    }
}

/// The id an upload gets: the requested one, which must be a valid id not
/// yet used, or else `fresh`, which must not be used either.
pub open spec fn id_result(s: StateModel, requested: Option<Seq<char>>, fresh: u64) -> Result<u64, UploadError> {
    match requested {
        None => if has_content(s.contents, fresh) {
            Err(UploadError::ContentExists)
        } else {
            Ok(fresh)
        },
        Some(t) => if !is_id_text(t) {
            Err(UploadError::InvalidId)
        } else if has_content(s.contents, hex_number(t) as u64) {
            Err(UploadError::ContentExists)
        } else {
            Ok(hex_number(t) as u64)
        },
    }
}

/// The media type an upload gets: the parsed label when one was given,
/// otherwise the guess for the extension.
pub open spec fn mime_result(label: Option<Seq<char>>, ext: Seq<char>) -> Result<Seq<char>, UploadError> {
    match label {
        Some(l) => match parsed_mime(l) {
            Some(m) => Ok(m),
            None => Err(UploadError::InvalidMime),
        },
        None => Ok(guessed_mime(ext)),
    }
}

/// The two commands that record an upload and run its graph on it, once
/// its id, its single file and its media type check out, in that order.
pub fn plan_upload(
    state: &State,
    namespace: String,
    graph: String,
    requested: Option<&str>,
    fresh: u64,
    files: Vec<DataPayload>,
    ext: &str,
    mime_label: Option<&str>,
    at: u64,
) -> (r: Result<(Command, Command), UploadError>)
    ensures
        match id_result(state@, opt_text(requested), fresh) {
            Err(e) => r == Err::<(Command, Command), UploadError>(e),
            Ok(id) => if files@.len() == 0 {
                r == Err::<(Command, Command), UploadError>(UploadError::NoFile)
            } else if files@.len() > 1 {
                r == Err::<(Command, Command), UploadError>(UploadError::MultipleFiles)
            } else {
                match mime_result(opt_text(mime_label), ext@) {
                    Err(e) => r == Err::<(Command, Command), UploadError>(e),
                    Ok(m) => r matches Ok((ingest, invoke)) && ingest matches Command::IngestContent {
                        content,
                    } && content.mime matches Some(mm) && mm@ == m && content == (Content {
                        id,
                        namespace,
                        compute_graph_name: graph,
                        parent_id: None,
                        root_id: None,
                        payload: files@[0],
                        mime: content.mime,
                        source_fn: None,
                        created_at: at,
                    }) && invoke == (Command::InvokeGraph {
                        namespace,
                        graph_name: graph,
                        content_id: id,
                    }),
                }
            },
        },
{
    let id = match upload_id(state, requested, fresh) {
        Err(e) => {
            return Err(e);
        },
        Ok(v) => v,
    };
    match check_file_count(files.len()) {
        Err(e) => {
            return Err(e);
        },
        Ok(()) => {},
    }
    let mime = match content_mime(mime_label, ext) {
        Err(e) => {
            return Err(e);
        },
        Ok(m) => m,
    };
    let mut files = files;
    let blob = files.remove(0);
    let invoke = Command::InvokeGraph {
        namespace: namespace.clone(),
        graph_name: graph.clone(),
        content_id: id,
    };
    let ingest = ingest_command(id, namespace, graph, blob, mime, at);
    Ok((ingest, invoke))
}

/// The command that records an uploaded item: ingested content has no
/// parent, no root and no producing function.
pub fn ingest_command(
    id: u64,
    namespace: String,
    graph: String,
    blob: DataPayload,
    mime: String,
    at: u64,
) -> (r: Command)
    ensures
        r == (Command::IngestContent {
            content: Content {
                id,
                namespace,
                compute_graph_name: graph,
                parent_id: None,
                root_id: None,
                payload: blob,
                mime: Some(mime),
                source_fn: None,
                created_at: at,
            },
        }),
{
    Command::IngestContent {
        content: Content {
            id,
            namespace,
            compute_graph_name: graph,
            parent_id: None,
            root_id: None,
            payload: blob,
            mime: Some(mime),
            source_fn: None,
            created_at: at,
        },
    }
}

} // verus!
