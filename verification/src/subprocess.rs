//! Reading the answers of the external extractor and summarizer.
//!
//! Both programs speak JSON on their standard output; a non-zero exit means
//! failure and their standard error is surfaced verbatim.

use vstd::prelude::*;

use crate::error::CoreError;
use crate::external::{
    extraction_fields_of, json_error_text, opt_text, read_extraction_fields, read_summary_field,
    summary_field_of,
};

verus! {

/// Decide what a finished subprocess means: its output on success, its
/// standard error as a failure otherwise.
pub fn interpret_subprocess_output(success: bool, stdout: Vec<u8>, stderr: String) -> (r: Result<
    Vec<u8>,
    CoreError,
>)
    ensures
        success ==> r == Ok::<Vec<u8>, CoreError>(stdout),
        !success ==> r == Err::<Vec<u8>, CoreError>(CoreError::SubprocessFailure(stderr)),
{
    if success {
        Ok(stdout)
    } else {
        Err(CoreError::SubprocessFailure(stderr))
    }
}

/// What the extractor reports about one article.
#[derive(Debug, Clone)]
pub struct Extraction {
    /// The article's title; `Untitled` when the extractor gave none.
    pub title: String,
    /// The extracted text; empty when the extractor gave none.
    pub content: String,
    /// The author, when reported.
    pub author: Option<String>,
    /// The site's name, when reported.
    pub site_name: Option<String>,
    /// A description, when reported.
    pub description: Option<String>,
    /// A featured image address, when reported.
    pub image_url: Option<String>,
}

/// Assemble an extraction from the fields found in the response: a missing
/// title becomes `Untitled`, missing content becomes empty, and the metadata
/// fields stay exactly as found.
pub fn extraction_from_fields(
    title: Option<String>,
    content: Option<String>,
    author: Option<String>,
    site_name: Option<String>,
    description: Option<String>,
    image_url: Option<String>,
) -> (e: Extraction)
    ensures
        title matches Some(t) ==> e.title == t,
        title is None ==> e.title@ == "Untitled"@,
        content matches Some(c) ==> e.content == c,
        content is None ==> e.content@ == Seq::<char>::empty(),
        e.author == author,
        e.site_name == site_name,
        e.description == description,
        e.image_url == image_url,
{
    Extraction {
        title: match title {
            Some(t) => t,
            None => String::from_str("Untitled"),
        },
        content: match content {
            Some(c) => c,
            None => String::new(),
        },
        author,
        site_name,
        description,
        image_url,
    }
}

/// Read the extractor's response: a JSON object with `title`, `content` and
/// an optional `metadata` object.  The result carries exactly the fields the
/// bytes hold, with the defaults `Untitled` and the empty text for a missing
/// title or content; bytes that are not JSON are a subprocess failure
/// carrying the decoder's message.
pub fn parse_extraction_response(stdout: &Vec<u8>) -> (r: Result<Extraction, CoreError>)
    ensures
        extraction_fields_of(stdout@) matches Some(f) ==> (r matches Ok(e) && {
            &&& (f.0 matches Some(t) ==> e.title@ == t)
            &&& (f.0 is None ==> e.title@ == "Untitled"@)
            &&& (f.1 matches Some(c) ==> e.content@ == c)
            &&& (f.1 is None ==> e.content@ == Seq::<char>::empty())
            &&& opt_text(e.author) == f.2
            &&& opt_text(e.site_name) == f.3
            &&& opt_text(e.description) == f.4
            &&& opt_text(e.image_url) == f.5
        }),
        extraction_fields_of(stdout@) is None ==> (r matches Err(e) && e is SubprocessFailure),
{
    match read_extraction_fields(stdout) {
        Err(e) => Err(CoreError::SubprocessFailure(json_error_text(&e))),
        Ok((title, content, author, site_name, description, image_url)) => Ok(
            extraction_from_fields(title, content, author, site_name, description, image_url),
        ),
    }
}

/// Read the summarizer's response: a JSON object with `summary`.  The result
/// is exactly the summary the bytes hold, with a missing or non-string
/// `summary` reading as empty; bytes that are not JSON are a subprocess
/// failure carrying the decoder's message.
pub fn parse_summary_response(stdout: &Vec<u8>) -> (r: Result<String, CoreError>)
    ensures
        summary_field_of(stdout@) matches Some(f) ==> (r matches Ok(s) && (f matches Some(t) ==> s@
            == t) && (f is None ==> s@ == Seq::<char>::empty())),
        summary_field_of(stdout@) is None ==> (r matches Err(e) && e is SubprocessFailure),
{
    match read_summary_field(stdout) {
        Err(e) => Err(CoreError::SubprocessFailure(json_error_text(&e))),
        Ok(Some(s)) => Ok(s),
        Ok(None) => Ok(String::new()),
    }
}

} // verus!
