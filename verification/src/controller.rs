//! The controller: the allow-list of claims, read once from the
//! configuration, and the handling of one admission review.

use crate::config::{configured, configured_before, in_scope, lemma_entry_step, named_by};
use crate::error::MutateError;
use crate::patch::{accepts_term, augmented, create_patch, diff_text, names, or_null};
use crate::pod::{pod_tree, volume_views, Pod, PodView, VolumeView};
use crate::pvc::{splits_at, Pvc, PvcView};
use crate::review::{answer, answer_to, text_of, AdmissionReview, Request, Response};
use vstd::prelude::*;
use vstd::string::StrSliceExecFns;

verus! {

/// The models of a list of claims, in order.
pub open spec fn pvc_views(pvcs: Seq<Pvc>) -> Seq<PvcView> {
    pvcs.map_values(|pvc: Pvc| pvc@)
}

/// Whether a volume refers to a claim that is in scope, for a Pod of
/// `namespace`.
pub open spec fn volume_in_scope(allowed: Set<PvcView>, namespace: Seq<char>, volume: VolumeView) -> bool {
    volume.claim is Some && in_scope(allowed, PvcView { namespace, claim_name: volume.claim->0 })
}

/// The names of the claims of a Pod that are in scope, in the order of its
/// volumes.
pub open spec fn claims_in_scope(pod: PodView, allowed: Set<PvcView>) -> Seq<Seq<char>> {
    match pod.spec.volumes {
        Some(volumes) => volumes.filter(
            |v: VolumeView| volume_in_scope(allowed, pod.metadata.namespace, v),
        ).map_values(|v: VolumeView| v.claim->0),
        None => Seq::empty(),
    }
}

/// Whether no volume of the Pod refers to a claim.
pub open spec fn mounts_no_claim(pod: PodView) -> bool {
    pod.spec.volumes matches Some(volumes) ==> forall|i: int|
        0 <= i < volumes.len() ==> (#[trigger] volumes[i]).claim is None
}

/// The kind of the objects that the webhook works on.
pub open spec fn pod_kind() -> Seq<char> {
    "Pod"@
}

/// Whether the webhook changes the object: a Pod with claims in scope.
pub open spec fn wants_patch(pod: PodView, allowed: Set<PvcView>) -> bool {
    pod.kind == pod_kind() && claims_in_scope(pod, allowed).len() > 0
}

/// The patch document for a Pod, in bytes: the JSON Patch from the Pod's
/// document to the document of the augmented Pod, as UTF-8 text.
pub open spec fn patch_bytes(pod: PodView, allowed: Set<PvcView>) -> Seq<u8> {
    vstd::utf8::encode_utf8(
        diff_text(pod_tree(pod), pod_tree(augmented(pod, claims_in_scope(pod, allowed)))),
    )
}

/// The patch that the response carries for a Pod: the patch document as
/// base64 text.
pub open spec fn patch_for(pod: PodView, allowed: Set<PvcView>) -> Seq<char> {
    base64_standard(patch_bytes(pod, allowed))
}

/// Whether the webhook can make the patch for a Pod: the affinity tree has
/// room for the term, and the patch document is short enough to be written
/// as base64 text.
pub open spec fn can_patch(pod: PodView, allowed: Set<PvcView>) -> bool {
    accepts_term(or_null(pod.spec.affinity)) && encodable(patch_bytes(pod, allowed))
}

/// Whether the bytes are few enough to be written as base64 text.
pub open spec fn encodable(bytes: Seq<u8>) -> bool {
    bytes.len() / 3 * 4 + 4 <= usize::MAX
}

/// A Pod that mounts no claim has no claim in scope.
pub proof fn lemma_no_claim_no_scope(pod: PodView, allowed: Set<PvcView>)
    requires
        mounts_no_claim(pod),
    ensures
        claims_in_scope(pod, allowed).len() == 0,
{
    match pod.spec.volumes {
        Some(volumes) => {
            let wanted = |v: VolumeView| volume_in_scope(allowed, pod.metadata.namespace, v);
            volumes.lemma_all_neg_filter_empty(wanted);
        },
        None => {},
    }
}

/// Whether the list holds the claim `claim_name` of `namespace`.
fn holds(pvcs: &Vec<Pvc>, namespace: &str, claim_name: &str) -> (found: bool)
    ensures
        found == pvc_views(pvcs@).contains(PvcView { namespace: namespace@, claim_name: claim_name@ }),
{
    let wanted_namespace = namespace.to_owned();
    let wanted_name = claim_name.to_owned();
    let ghost wanted = PvcView { namespace: namespace@, claim_name: claim_name@ };
    let mut i: usize = 0;
    while i < pvcs.len()
        invariant
            i <= pvcs.len(),
            wanted_namespace@ == namespace@,
            wanted_name@ == claim_name@,
            wanted == (PvcView { namespace: namespace@, claim_name: claim_name@ }),
            forall|k: int| 0 <= k < i ==> pvc_views(pvcs@)[k] != wanted,
        decreases pvcs.len() - i,
    {
        if pvcs[i].namespace == wanted_namespace && pvcs[i].claim_name == wanted_name {
            assert(pvc_views(pvcs@)[i as int] == wanted);
            return true;
        }
        i += 1;
    }
    false
}

/// Adds the claim that `entry` names to the list, unless the entry names none
/// or the list holds the claim already.
fn add_entry(pvcs: &mut Vec<Pvc>, entry: &str)
    requires
        pvc_views(old(pvcs)@).no_duplicates(),
    ensures
        pvc_views(final(pvcs)@).no_duplicates(),
        pvc_views(final(pvcs)@).to_set() =~= pvc_views(old(pvcs)@).to_set().union(named_by(entry@)),
{
    let ghost before = pvc_views(pvcs@);
    if !entry.is_empty() {
        match Pvc::from_config_entry(entry) {
            Some(pvc) => {
                if !holds(pvcs, pvc.namespace.as_str(), pvc.claim_name.as_str()) {
                    proof {
                        assert(pvc_views(pvcs@.push(pvc)) =~= before.push(pvc@));
                        assert(before.push(pvc@).to_set() =~= before.to_set().insert(pvc@)) by {
                            assert forall|x: PvcView|
                                before.push(pvc@).to_set().contains(x) <==> before.to_set().insert(
                                    pvc@,
                                ).contains(x) by {
                                if before.push(pvc@).contains(x) {
                                    let i = choose|i: int|
                                        0 <= i < before.push(pvc@).len() && before.push(pvc@)[i]
                                            == x;
                                    if i < before.len() {
                                        assert(before[i] == x);
                                    }
                                }
                                if before.contains(x) {
                                    let i = choose|i: int| 0 <= i < before.len() && before[i] == x;
                                    assert(before.push(pvc@)[i] == x);
                                }
                                assert(before.push(pvc@)[before.len() as int] == pvc@);
                            }
                        }
                    }
                    pvcs.push(pvc);
                } else {
                    proof {
                        assert(before.to_set().contains(pvc@));
                    }
                }
            },
            None => {},
        }
    } else {
        proof {
            assert forall|at: int| !splits_at(entry@, at) by {}
        }
    }
}

/// The webhook's controller. It holds the allow-list, which never changes
/// once the controller is made. The list is kept as a list without
/// repetition, so that membership follows from the equality of strings alone,
/// and not from what a hasher does.
pub struct Controller {
    pvcs_to_handle: Vec<Pvc>,
}

impl View for Controller {
    type V = Set<PvcView>;

    closed spec fn view(&self) -> Set<PvcView> {
        pvc_views(self.pvcs_to_handle@).to_set()
    }
}

impl Controller {
    /// No claim stands twice in the list.
    #[verifier::type_invariant]
    spec fn distinct(self) -> bool {
        pvc_views(self.pvcs_to_handle@).no_duplicates()
    }

    /// Reads the configuration: a comma-separated list of entries
    /// `<namespace>/<claim name>`. An entry of another form is passed over.
    /// An empty allow-list lets every claim in.
    pub fn new(config: &str) -> (controller: Controller)
        ensures
            controller@ == configured(config@),
    {
        let len = config.unicode_len();
        let mut pvcs: Vec<Pvc> = Vec::new();
        let mut start: usize = 0;
        let mut i: usize = 0;
        proof {
            assert(pvc_views(pvcs@).to_set() =~= configured_before(config@, 0));
        }
        while i < len
            invariant
                start <= i <= len,
                len == config@.len(),
                start == 0 || config@[start - 1] == ',',
                forall|k: int| start <= k < i ==> config@[k] != ',',
                pvc_views(pvcs@).no_duplicates(),
                pvc_views(pvcs@).to_set() =~= configured_before(config@, start as int),
            decreases len - i,
        {
            if config.get_char(i) == ',' {
                proof {
                    lemma_entry_step(config@, start as int, i as int);
                }
                add_entry(&mut pvcs, config.substring_char(start, i));
                start = i + 1;
            }
            i += 1;
        }
        proof {
            lemma_entry_step(config@, start as int, len as int);
        }
        add_entry(&mut pvcs, config.substring_char(start, len));
        Controller { pvcs_to_handle: pvcs }
    }

    /// Whether the claim `claim_name` of `namespace` is in scope.
    pub fn pvc_needs_handling(&self, namespace: &str, claim_name: &str) -> (needed: bool)
        ensures
            needed == in_scope(self@, PvcView { namespace: namespace@, claim_name: claim_name@ }),
    {
        if self.pvcs_to_handle.len() == 0 {
            proof {
                assert(self@ =~= Set::empty());
            }
            true
        } else {
            proof {
                assert(self@.contains(pvc_views(self.pvcs_to_handle@)[0]));
            }
            holds(&self.pvcs_to_handle, namespace, claim_name)
        }
    }

    /// The names of the claims of a Pod that are in scope, in the order of
    /// its volumes.
    pub fn claims_of(&self, pod: &Pod) -> (claims: Vec<String>)
        ensures
            names(claims@) == claims_in_scope(pod@, self@),
    {
        let mut claims: Vec<String> = Vec::new();
        match &pod.spec.volumes {
            Some(volumes) => {
                let ghost wanted = |v: VolumeView|
                    volume_in_scope(self@, pod.metadata.namespace@, v);
                let ghost name = |v: VolumeView| v.claim->0;
                let ghost all = volume_views(volumes@);
                let mut i: usize = 0;
                while i < volumes.len()
                    invariant
                        i <= volumes.len(),
                        all == volume_views(volumes@),
                        wanted == |v: VolumeView|
                            volume_in_scope(self@, pod.metadata.namespace@, v),
                        name == |v: VolumeView| v.claim->0,
                        names(claims@) == all.take(i as int).filter(wanted).map_values(name),
                    decreases volumes.len() - i,
                {
                    proof {
                        assert(all.take(i + 1) == all.take(i as int).push(all[i as int]));
                        Seq::lemma_filter_push(all.take(i as int), all[i as int], wanted);
                    }
                    match &volumes[i].persistent_volume_claim {
                        Some(claim) => {
                            if self.pvc_needs_handling(
                                pod.metadata.namespace.as_str(),
                                claim.claim_name.as_str(),
                            ) {
                                let found = claim.claim_name.clone();
                                proof {
                                    assert(names(claims@.push(found)) =~= names(claims@).push(
                                        found@,
                                    ));
                                    assert(all.take(i as int).filter(wanted).push(
                                        all[i as int],
                                    ).map_values(name) =~= all.take(i as int).filter(
                                        wanted,
                                    ).map_values(name).push(found@));
                                }
                                claims.push(found);
                            }
                        },
                        None => {},
                    }
                    i += 1;
                }
                proof {
                    assert(all.take(i as int) == all);
                }
            },
            None => {},
        }
        claims
    }

    /// Handles one admission review. A review without a request is a protocol
    /// error. Any object is admitted; a Pod with claims in scope is admitted
    /// with a patch that adds the label of each such claim and a required
    /// pod-affinity term selecting those labels. For such a Pod the call
    /// fails, with `Serialization`, exactly where the patch cannot be made:
    /// where the affinity tree has no room for the term, or the patch
    /// document is too long for base64 text.
    pub fn mutate(&self, review: AdmissionReview) -> (out: Result<AdmissionReview, MutateError>)
        ensures
            review@.request is None ==> out == Err::<AdmissionReview, MutateError>(
                MutateError::Protocol,
            ),
            out is Err && out->Err_0 == MutateError::Protocol ==> review@.request is None,
            out is Ok <==> review@.request is Some && (wants_patch(
                review@.request->0.object,
                self@,
            ) ==> can_patch(review@.request->0.object, self@)),
            out is Ok ==> out->Ok_0@.request is None && out->Ok_0@.response is Some
                && out->Ok_0@.response->0.allowed,
            review@.request is Some && !wants_patch(review@.request->0.object, self@) ==> out is Ok
                && out->Ok_0@ == answer_to(review@, None),
            review@.request is Some && mounts_no_claim(review@.request->0.object) ==> out is Ok
                && out->Ok_0@.response->0.patch is None,
            review@.request is Some && wants_patch(review@.request->0.object, self@) ==> match out {
                Ok(reply) => reply@ == answer_to(
                    review@,
                    Some(patch_for(review@.request->0.object, self@)),
                ),
                Err(error) => error == MutateError::Serialization,
            },
    {
        let AdmissionReview { api_version, kind, request, response: _ } = review;
        match request {
            None => Err(MutateError::Protocol),
            Some(request) => {
                let Request { uid, object } = request;
                let wanted = "Pod".to_owned();
                let claims = if object.kind == wanted {
                    self.claims_of(&object)
                } else {
                    Vec::new()
                };
                proof {
                    lemma_no_claim_no_scope_opt(object@, self@);
                }
                if claims.len() == 0 {
                    Ok(reply_to(api_version, kind, uid, None))
                } else {
                    match create_patch(&object, claims) {
                        Ok(text) => reply_with_patch(api_version, kind, uid, text),
                        Err(error) => Err(error),
                    }
                }
            },
        }
    }
}

/// A Pod that mounts no claim has no claim in scope; stated as an
/// implication, for every Pod.
proof fn lemma_no_claim_no_scope_opt(pod: PodView, allowed: Set<PvcView>)
    ensures
        mounts_no_claim(pod) ==> claims_in_scope(pod, allowed).len() == 0,
{
    if mounts_no_claim(pod) {
        lemma_no_claim_no_scope(pod, allowed);
    }
}

/// Makes the review that answers a request: the object is admitted, and
/// `patch`, where there is one, is to be applied to it.
pub fn reply_to(api_version: String, kind: String, uid: String, patch: Option<String>) -> (out:
    AdmissionReview)
    ensures
        out@ == answer(api_version@, kind@, uid@, text_of(patch)),
{
    let patch_type = match &patch {
        Some(_) => Some("JSONPatch".to_owned()),
        None => None,
    };
    AdmissionReview {
        api_version,
        kind,
        request: None,
        response: Some(Response { uid, allowed: true, patch_type, patch }),
    }
}

/// The base64 text, in the standard alphabet with padding, of a sequence of
/// bytes.
pub uninterp spec fn base64_standard(bytes: Seq<u8>) -> Seq<char>;

/// `base64::Engine::encode` of `base64::prelude::BASE64_STANDARD`: the
/// standard base64 text of the bytes. It panics where the length of the text
/// does not fit the machine's integers.
#[verifier::external_body]
fn encode_base64(bytes: &[u8]) -> (text: String)
    requires
        encodable(bytes@),
    ensures
        text@ == base64_standard(bytes@),
{
    base64::Engine::encode(&base64::prelude::BASE64_STANDARD, bytes)
}

/// Makes the review that answers a request with a patch: the patch document
/// `text` goes into the response as base64 text. The error is
/// `Serialization` where the document is too long to be encoded.
pub fn reply_with_patch(api_version: String, kind: String, uid: String, text: String) -> (out:
    Result<AdmissionReview, MutateError>)
    ensures
        match out {
            Ok(review) => encodable(vstd::utf8::encode_utf8(text@)) && review@ == answer(
                api_version@,
                kind@,
                uid@,
                Some(base64_standard(vstd::utf8::encode_utf8(text@))),
            ),
            Err(error) => !encodable(vstd::utf8::encode_utf8(text@)) && error
                == MutateError::Serialization,
        },
{
    let bytes = text.as_str().as_bytes();
    if bytes.len() / 3 <= (usize::MAX - 4) / 4 {
        let encoded = encode_base64(bytes);
        Ok(reply_to(api_version, kind, uid, Some(encoded)))
    } else {
        Err(MutateError::Serialization)
    }
}

} // verus!
