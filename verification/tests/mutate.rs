use base64::prelude::BASE64_STANDARD;
use base64::Engine;
use gravivol::controller::{reply_to, reply_with_patch, Controller};
use gravivol::error::MutateError;
use gravivol::json::Json;
use gravivol::patch::create_patch;
use gravivol::pod::{Metadata, PersistentVolumeClaim, Pod, Spec, Volume};
use gravivol::review::{AdmissionReview, Request, Response};

fn claim(name: &str) -> Volume {
    Volume {
        persistent_volume_claim: Some(PersistentVolumeClaim { claim_name: name.to_owned() }),
    }
}

fn object(kind: &str, volumes: Option<Vec<Volume>>, affinity: Option<Json>) -> Pod {
    Pod {
        kind: kind.to_owned(),
        api_version: "v1".to_owned(),
        metadata: Metadata { namespace: "default".to_owned(), labels: None },
        spec: Spec { volumes, affinity },
    }
}

fn review(object: Pod) -> AdmissionReview {
    AdmissionReview {
        api_version: "admission.k8s.io/v1".to_owned(),
        kind: "AdmissionReview".to_owned(),
        request: Some(Request { uid: "uid-1".to_owned(), object }),
        response: None,
    }
}

fn passed(review: &AdmissionReview) -> bool {
    let response = review.response.as_ref().unwrap();
    review.request.is_none()
        && review.api_version == "admission.k8s.io/v1"
        && review.kind == "AdmissionReview"
        && response.uid == "uid-1"
        && response.allowed
        && response.patch.is_none()
        && response.patch_type.is_none()
}

#[test]
fn review_without_request_is_a_protocol_error() {
    let controller = Controller::new("");
    let review = AdmissionReview {
        api_version: "admission.k8s.io/v1".to_owned(),
        kind: "AdmissionReview".to_owned(),
        request: None,
        response: None,
    };
    assert_eq!(controller.mutate(review).unwrap_err(), MutateError::Protocol);
}

#[test]
fn review_without_request_fails_even_with_a_response() {
    let controller = Controller::new("");
    let review = AdmissionReview {
        api_version: "admission.k8s.io/v1".to_owned(),
        kind: "AdmissionReview".to_owned(),
        request: None,
        response: Some(Response {
            uid: "uid-1".to_owned(),
            allowed: true,
            patch_type: None,
            patch: None,
        }),
    };
    assert_eq!(controller.mutate(review).unwrap_err(), MutateError::Protocol);
}

#[test]
fn other_kinds_are_admitted_without_patch() {
    let controller = Controller::new("");
    let deployment = object("Deployment", Some(vec![claim("myvol1")]), None);
    assert!(passed(&controller.mutate(review(deployment)).unwrap()));
    let lower = object("pod", Some(vec![claim("myvol1")]), None);
    assert!(passed(&controller.mutate(review(lower)).unwrap()));
}

#[test]
fn other_kinds_are_admitted_whatever_their_affinity() {
    let controller = Controller::new("");
    let odd = object("Job", Some(vec![claim("myvol1")]), Some(Json::Bool(true)));
    assert!(passed(&controller.mutate(review(odd)).unwrap()));
}

#[test]
fn pod_without_claims_is_admitted_without_patch() {
    let controller = Controller::new("");
    assert!(passed(&controller.mutate(review(object("Pod", None, None))).unwrap()));
    assert!(passed(&controller.mutate(review(object("Pod", Some(vec![]), None))).unwrap()));
    let no_claim = vec![Volume { persistent_volume_claim: None }];
    assert!(passed(&controller.mutate(review(object("Pod", Some(no_claim), None))).unwrap()));
}

#[test]
fn pod_with_claims_out_of_scope_is_admitted_without_patch() {
    let controller = Controller::new("foo/myvol1,default/other");
    let pod = object("Pod", Some(vec![claim("myvol1")]), None);
    assert!(passed(&controller.mutate(review(pod)).unwrap()));
}

#[test]
fn patch_is_the_base64_text_of_the_patch_document() {
    let controller = Controller::new("default/myvol2");
    let volumes = || Some(vec![claim("myvol1"), claim("myvol2")]);
    let document = create_patch(&object("Pod", volumes(), None), vec!["myvol2".to_owned()])
        .unwrap();
    let reply = controller.mutate(review(object("Pod", volumes(), None))).unwrap();
    assert!(reply.request.is_none());
    assert_eq!(reply.api_version, "admission.k8s.io/v1");
    assert_eq!(reply.kind, "AdmissionReview");
    let response = reply.response.unwrap();
    assert_eq!(response.uid, "uid-1");
    assert!(response.allowed);
    assert_eq!(response.patch_type, Some("JSONPatch".to_owned()));
    let patch = response.patch.unwrap();
    assert_ne!(patch, document);
    assert_eq!(patch, BASE64_STANDARD.encode(document.as_bytes()));
    assert_eq!(BASE64_STANDARD.decode(patch).unwrap(), document.as_bytes());
}

#[test]
fn pod_with_affinity_without_room_is_a_serialization_error() {
    let controller = Controller::new("");
    let pod = object("Pod", Some(vec![claim("myvol1")]), Some(Json::String("x".to_owned())));
    assert_eq!(controller.mutate(review(pod)).unwrap_err(), MutateError::Serialization);
}

#[test]
fn pod_without_claims_is_admitted_whatever_its_affinity() {
    let controller = Controller::new("");
    let pod = object("Pod", None, Some(Json::String("x".to_owned())));
    assert!(passed(&controller.mutate(review(pod)).unwrap()));
}

#[test]
fn claims_in_scope_come_in_the_order_of_the_volumes() {
    let controller = Controller::new("default/b,default/a,foo/c");
    let volumes = vec![
        claim("a"),
        Volume { persistent_volume_claim: None },
        claim("c"),
        claim("b"),
        claim("a"),
    ];
    let pod = object("Pod", Some(volumes), None);
    assert_eq!(controller.claims_of(&pod), vec!["a", "b", "a"]);
    assert!(controller.claims_of(&object("Pod", None, None)).is_empty());
}

#[test]
fn replies_admit_and_name_the_patch_format() {
    let plain = reply_to("v".to_owned(), "k".to_owned(), "u".to_owned(), None);
    assert_eq!(plain.api_version, "v");
    assert_eq!(plain.kind, "k");
    assert!(plain.request.is_none());
    let response = plain.response.unwrap();
    assert_eq!(response.uid, "u");
    assert!(response.allowed);
    assert_eq!(response.patch_type, None);
    assert_eq!(response.patch, None);
    let patched =
        reply_with_patch("v".to_owned(), "k".to_owned(), "u".to_owned(), "[]".to_owned())
            .unwrap();
    let response = patched.response.unwrap();
    assert!(response.allowed);
    assert_eq!(response.patch_type, Some("JSONPatch".to_owned()));
    assert_eq!(response.patch, Some("W10=".to_owned()));
}

#[test]
fn base64_text_is_exact() {
    let encoded = |text: &str| {
        reply_with_patch(String::new(), String::new(), String::new(), text.to_owned())
            .unwrap()
            .response
            .unwrap()
            .patch
            .unwrap()
    };
    assert_eq!(encoded(""), "");
    assert_eq!(encoded("f"), "Zg==");
    assert_eq!(encoded("fo"), "Zm8=");
    assert_eq!(encoded("foo"), "Zm9v");
    assert_eq!(encoded("foobar"), "Zm9vYmFy");
    assert_eq!(encoded("ü?>"), "w7w/Pg==");
}

#[test]
fn errors_have_their_messages() {
    assert_eq!(MutateError::Protocol.message(), "No request in AdmissionReview found!");
    assert_eq!(MutateError::Serialization.message(), "Cannot serialize patch");
}
