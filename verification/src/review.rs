//! The admission envelope: the review with its request or its response.

use crate::pod::{Pod, PodView};
use vstd::prelude::*;

verus! {

/// What is asked: the object under review, and the identifier under which the
/// answer is expected.
#[derive(Debug)]
pub struct Request {
    pub uid: String,
    pub object: Pod,
}

/// What is answered: whether the object is admitted, and the patch to apply to
/// it, if any. `patch` is base64 text of a JSON Patch document, and
/// `patch_type` names that format wherever there is a patch.
#[derive(Debug)]
pub struct Response {
    pub uid: String,
    pub allowed: bool,
    pub patch_type: Option<String>,
    pub patch: Option<String>,
}

/// The envelope that carries a request to the webhook and a response back.
#[derive(Debug)]
pub struct AdmissionReview {
    pub api_version: String,
    pub kind: String,
    pub request: Option<Request>,
    pub response: Option<Response>,
}

/// Mathematical model of a [`Request`].
pub struct RequestView {
    pub uid: Seq<char>,
    pub object: PodView,
}

/// Mathematical model of a [`Response`].
pub struct ResponseView {
    pub uid: Seq<char>,
    pub allowed: bool,
    pub patch_type: Option<Seq<char>>,
    pub patch: Option<Seq<char>>,
}

/// Mathematical model of an [`AdmissionReview`].
pub struct AdmissionReviewView {
    pub api_version: Seq<char>,
    pub kind: Seq<char>,
    pub request: Option<RequestView>,
    pub response: Option<ResponseView>,
}

/// The text in an optional place.
pub open spec fn text_of(text: Option<String>) -> Option<Seq<char>> {
    match text {
        Some(t) => Some(t@),
        None => None,
    }
}

impl View for Request {
    type V = RequestView;

    open spec fn view(&self) -> RequestView {
        RequestView { uid: self.uid@, object: self.object@ }
    }
}

impl View for Response {
    type V = ResponseView;

    open spec fn view(&self) -> ResponseView {
        ResponseView {
            uid: self.uid@,
            allowed: self.allowed,
            patch_type: text_of(self.patch_type),
            patch: text_of(self.patch),
        }
    }
}

impl View for AdmissionReview {
    type V = AdmissionReviewView;

    open spec fn view(&self) -> AdmissionReviewView {
        AdmissionReviewView {
            api_version: self.api_version@,
            kind: self.kind@,
            request: match self.request {
                Some(request) => Some(request@),
                None => None,
            },
            response: match self.response {
                Some(response) => Some(response@),
                None => None,
            },
        }
    }
}

/// The name of the patch format.
pub open spec fn json_patch_type() -> Seq<char> {
    "JSONPatch"@
}

/// The answer to a request: an envelope without a request and with a
/// response that admits the object and carries the patch, if there is one.
/// `api_version` and `kind` are those of the request's envelope, `uid` that of
/// the request.
pub open spec fn answer(
    api_version: Seq<char>,
    kind: Seq<char>,
    uid: Seq<char>,
    patch: Option<Seq<char>>,
) -> AdmissionReviewView {
    AdmissionReviewView {
        api_version,
        kind,
        request: None,
        response: Some(
            ResponseView {
                uid,
                allowed: true,
                patch_type: match patch {
                    Some(_) => Some(json_patch_type()),
                    None => None,
                },
                patch,
            },
        ),
    }
}

/// The answer to the request of a review.
pub open spec fn answer_to(review: AdmissionReviewView, patch: Option<Seq<char>>) -> AdmissionReviewView
    recommends
        review.request is Some,
{
    answer(review.api_version, review.kind, review.request->0.uid, patch)
}

} // verus!
