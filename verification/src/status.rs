use vstd::prelude::*;
use crate::submission::SubmitError;

verus! {

/// A short status line shown after a form is submitted.
#[derive(Debug)]
pub struct Status {
    /// Whether the request succeeded.
    pub success: bool,
    /// The text shown.
    pub text: String,
}

/// A failure of the JSON API, answered with an HTTP status.
#[derive(Debug)]
pub enum ApiFailure {
    /// Listing the stored videos failed.
    Listing,
    /// Fetching the video failed.
    Fetch,
    /// Storing the video or its tags failed.
    Store,
    /// Updating the tags of a video failed.
    TagUpdate,
}

impl ApiFailure {
    /// The HTTP status code that answers this failure.
    pub fn status_code(&self) -> (res: u16)
        ensures
            res == match self {
                ApiFailure::Store => 400u16,
                _ => 500u16,
            },
    {
        match self {
            ApiFailure::Store => 400,
            _ => 500,
        }
    }
}

/// The status line of an error: `Error: ` followed by its description.
pub fn error_status(description: &str) -> (res: Status)
    ensures
        !res.success,
        res.text@ == "Error: "@ + description@,
{
    let mut text = String::from_str("Error: ");
    text.append(description);
    Status { success: false, text }
}

/// The status line of a refused submission.
pub fn refused_status(e: &SubmitError) -> (res: Status)
    ensures
        !res.success,
        res.text@ == "Please enter a URL."@,
{
    Status { success: false, text: String::from_str(e.message()) }
}

/// The status line after storing a fetched video; `stored` holds the store's error, if any.
pub fn added_status(stored: Result<(), String>) -> (res: Status)
    ensures
        res.success == stored is Ok,
        match stored {
            Ok(_) => res.text@ == "Video added successfully!"@,
            Err(e) => res.text@ == "Error: "@ + e@,
        },
{
    match stored {
        Ok(_) => Status { success: true, text: String::from_str("Video added successfully!") },
        Err(e) => error_status(e.as_str()),
    }
}

/// The status line after saving the tags of a video; `saved` holds the store's error, if any.
pub fn tags_saved_status(saved: Result<(), String>) -> (res: Status)
    ensures
        res.success == saved is Ok,
        match saved {
            Ok(_) => res.text@ == "Tags saved!"@,
            Err(e) => res.text@ == "Error: "@ + e@,
        },
{
    match saved {
        Ok(_) => Status { success: true, text: String::from_str("Tags saved!") },
        Err(e) => error_status(e.as_str()),
    }
}

} // verus!
