//! The patch synthesizer: the Pod as it shall be, with a label for each claim
//! and one more required pod-affinity term, and the JSON Patch that leads from
//! the Pod as it is to that one.

use crate::error::MutateError;
use crate::json::{
    assoc, items_of, lemma_items_push, member, members, put, set_member, takes_members, to_value,
    tree_or_null, value_tree, with_member, Json, JsonView,
};
use crate::pod::{
    label_pairs, labels_to_json, labels_tree, pod_tree, Metadata, MetadataView, Pod, PodView,
    Spec, SpecView,
};
use crate::pvc::{label_key, label_value, Label, Pvc};
use vstd::prelude::*;

verus! {

#[verifier::external_type_specification]
#[verifier::external_body]
pub struct ExPatch(json_patch::Patch);

#[verifier::external_type_specification]
#[verifier::external_body]
pub struct ExPatchOperation(json_patch::PatchOperation);

#[verifier::external_type_specification]
#[verifier::external_body]
pub struct ExJsonError(serde_json::Error);

/// Member of the affinity tree that holds the pod-affinity rules.
pub open spec fn pod_affinity_key() -> Seq<char> {
    "podAffinity"@
}

/// Member of the pod-affinity rules that holds the required terms.
pub open spec fn required_key() -> Seq<char> {
    "requiredDuringSchedulingIgnoredDuringExecution"@
}

/// The node label by which "the same place" is told: the host name.
pub open spec fn topology_key() -> Seq<char> {
    "kubernetes.io/hostname"@
}

/// The texts of a list of strings, in order.
pub open spec fn names(strings: Seq<String>) -> Seq<Seq<char>> {
    strings.map_values(|s: String| s@)
}

/// The labels derived for the claims `claims` of a Pod in `namespace`, in the
/// order of the claims.
pub open spec fn derived_labels(namespace: Seq<char>, claims: Seq<Seq<char>>) -> Seq<
    (Seq<char>, Seq<char>),
> {
    claims.map_values(|claim: Seq<char>| (label_key(namespace, claim), label_value()))
}

/// `base` after the entries were inserted one by one, in order.
pub open spec fn extend<V>(base: Map<Seq<char>, V>, entries: Seq<(Seq<char>, V)>) -> Map<
    Seq<char>,
    V,
>
    decreases entries.len(),
{
    if entries.len() == 0 {
        base
    } else {
        extend(base, entries.drop_last()).insert(entries.last().0, entries.last().1)
    }
}

/// The affinity term that selects the Pods carrying all of `labels` on one
/// host.
pub open spec fn selector_term(labels: Seq<(Seq<char>, Seq<char>)>) -> JsonView {
    JsonView::Object(
        Map::empty().insert(
            "labelSelector"@,
            JsonView::Object(Map::empty().insert("matchLabels"@, labels_tree(assoc(labels)))),
        ).insert("topologyKey"@, JsonView::String(topology_key())),
    )
}

/// What the affinity tree holds in the place of the required pod-affinity
/// terms: null where there is no such place.
pub open spec fn required_terms(affinity: JsonView) -> JsonView {
    member(member(affinity, pod_affinity_key()), required_key())
}

/// Whether the synthesizer can work on this affinity tree: where the tree has
/// nothing in the place of the required terms, the place can be made, so the
/// tree and its pod-affinity rules are each an object or null.
pub open spec fn accepts_term(affinity: JsonView) -> bool {
    required_terms(affinity) is Null ==> takes_members(affinity) && takes_members(
        member(affinity, pod_affinity_key()),
    )
}

/// The items of an array; of any other tree, none.
pub open spec fn terms_of(tree: JsonView) -> Seq<JsonView> {
    match tree {
        JsonView::Array(items) => items,
        _ => Seq::empty(),
    }
}

/// The affinity tree with `term` appended to the required pod-affinity terms.
/// A tree that holds something other than a list in their place is left as it
/// is.
pub open spec fn with_term(affinity: JsonView, term: JsonView) -> JsonView {
    let rules = member(affinity, pod_affinity_key());
    let required = required_terms(affinity);
    if required is Null || required is Array {
        with_member(
            affinity,
            pod_affinity_key(),
            with_member(rules, required_key(), JsonView::Array(terms_of(required).push(term))),
        )
    } else {
        affinity
    }
}

/// The tree in an optional place: null where the place is empty.
pub open spec fn or_null(tree: Option<JsonView>) -> JsonView {
    match tree {
        Some(t) => t,
        None => JsonView::Null,
    }
}

/// The labels in an optional place: none where the place is empty.
pub open spec fn or_no_labels(labels: Option<Map<Seq<char>, Seq<char>>>) -> Map<
    Seq<char>,
    Seq<char>,
> {
    match labels {
        Some(l) => l,
        None => Map::empty(),
    }
}

/// The Pod as the webhook wants it: with the label of each claim, and with one
/// more required pod-affinity term, which selects those labels.
pub open spec fn augmented(pod: PodView, claims: Seq<Seq<char>>) -> PodView {
    let labels = derived_labels(pod.metadata.namespace, claims);
    PodView {
        kind: pod.kind,
        api_version: pod.api_version,
        metadata: MetadataView {
            namespace: pod.metadata.namespace,
            labels: Some(extend(or_no_labels(pod.metadata.labels), labels)),
        },
        spec: SpecView {
            volumes: pod.spec.volumes,
            affinity: Some(with_term(or_null(pod.spec.affinity), selector_term(labels))),
        },
    }
}

/// The entries of two lists, one after the other, give the map of the first
/// extended by the second.
pub proof fn lemma_assoc_extend<V>(first: Seq<(Seq<char>, V)>, second: Seq<(Seq<char>, V)>)
    ensures
        assoc(first + second) == extend(assoc(first), second),
    decreases second.len(),
{
    if second.len() == 0 {
        assert(first + second == first);
    } else {
        lemma_assoc_extend(first, second.drop_last());
        assert((first + second).drop_last() == first + second.drop_last());
        assert((first + second).last() == second.last());
    }
}

/// Derives the label of each claim of a Pod in `namespace`.
pub fn derive_labels(namespace: &str, claims: &Vec<String>) -> (labels: Vec<Label>)
    ensures
        label_pairs(labels@) == derived_labels(namespace@, names(claims@)),
{
    let mut labels: Vec<Label> = Vec::new();
    let mut i: usize = 0;
    while i < claims.len()
        invariant
            i <= claims.len(),
            label_pairs(labels@) == derived_labels(namespace@, names(claims@.take(i as int))),
        decreases claims.len() - i,
    {
        let pvc = Pvc { namespace: namespace.to_owned(), claim_name: claims[i].clone() };
        let label = Label::from_pvc(&pvc);
        proof {
            assert(label_pairs(labels@.push(label)) =~= label_pairs(labels@).push(
                (label.key@, label.value@),
            ));
            assert(derived_labels(namespace@, names(claims@.take(i + 1))) =~= derived_labels(
                namespace@,
                names(claims@.take(i as int)),
            ).push((label_key(namespace@, claims[i as int]@), label_value())));
        }
        labels.push(label);
        i += 1;
    }
    proof {
        assert(claims@.take(i as int) == claims@);
    }
    labels
}

/// Builds the affinity term that selects the Pods carrying all of `labels` on
/// one host.
pub fn build_selector_term(labels: &Vec<Label>) -> (term: Json)
    ensures
        term@ == selector_term(label_pairs(labels@)),
{
    let mut selector: Vec<(String, Json)> = Vec::new();
    put(&mut selector, "matchLabels", labels_to_json(labels));
    let mut term: Vec<(String, Json)> = Vec::new();
    put(&mut term, "labelSelector", Json::Object(selector));
    put(&mut term, "topologyKey", Json::String("kubernetes.io/hostname".to_owned()));
    Json::Object(term)
}

/// Copies of the items of a list, in order.
pub fn copy_items(items: &Vec<Json>) -> (copies: Vec<Json>)
    ensures
        items_of(copies@) == items_of(items@),
{
    let mut copies: Vec<Json> = Vec::new();
    let mut i: usize = 0;
    while i < items.len()
        invariant
            i <= items.len(),
            items_of(copies@) == items_of(items@.take(i as int)),
        decreases items.len() - i,
    {
        let copy = items[i].duplicate();
        proof {
            lemma_items_push(copies@, copy);
            lemma_items_push(items@.take(i as int), items[i as int]);
            assert(items@.take(i + 1) == items@.take(i as int).push(items[i as int]));
        }
        copies.push(copy);
        i += 1;
    }
    proof {
        assert(items@.take(i as int) == items@);
    }
    copies
}

/// Appends `term` to the required pod-affinity terms of an affinity tree, in a
/// copy of the tree; an absent tree counts as null. The places that lead to
/// the terms are made where they are missing. `None` where they cannot be
/// made.
pub fn add_required_term(affinity: Option<&Json>, term: Json) -> (out: Option<Json>)
    ensures
        out is Some <==> accepts_term(tree_or_null(affinity)),
        out matches Some(j) ==> j@ == with_term(tree_or_null(affinity), term@),
{
    let rules: Option<&Json> = match affinity {
        Some(tree) => tree.member("podAffinity"),
        None => None,
    };
    let required: Option<&Json> = match rules {
        Some(tree) => tree.member("requiredDuringSchedulingIgnoredDuringExecution"),
        None => None,
    };
    let terms: Vec<Json> = match required {
        None => Vec::new(),
        Some(Json::Null) => Vec::new(),
        Some(Json::Array(items)) => copy_items(items),
        Some(_) => {
            return match affinity {
                Some(tree) => Some(tree.duplicate()),
                None => None,
            };
        },
    };
    let mut terms = terms;
    proof {
        lemma_items_push(terms@, term);
    }
    terms.push(term);
    match set_member(rules, "requiredDuringSchedulingIgnoredDuringExecution", Json::Array(terms)) {
        Some(new_rules) => set_member(affinity, "podAffinity", new_rules),
        None => None,
    }
}

/// The Pod as the webhook wants it, built as a copy: the labels of `claims`
/// are added to the Pod's labels, and one term selecting them is appended to
/// its required pod-affinity terms. `None` where the affinity tree has no
/// place for the term.
pub fn augment(pod: &Pod, claims: &Vec<String>) -> (out: Option<Pod>)
    ensures
        out is Some <==> accepts_term(or_null(pod@.spec.affinity)),
        out matches Some(p) ==> p@ == augmented(pod@, names(claims@)),
{
    let mut derived = derive_labels(pod.metadata.namespace.as_str(), claims);
    let term = build_selector_term(&derived);
    let Pod { kind, api_version, metadata, spec } = pod.duplicate();
    let affinity = match &spec.affinity {
        Some(tree) => add_required_term(Some(tree), term),
        None => add_required_term(None, term),
    };
    match affinity {
        None => None,
        Some(tree) => {
            let mut labels = match metadata.labels {
                Some(present) => present,
                None => Vec::new(),
            };
            proof {
                lemma_assoc_extend(label_pairs(labels@), label_pairs(derived@));
                assert(label_pairs(labels@ + derived@) == label_pairs(labels@) + label_pairs(
                    derived@,
                ));
            }
            labels.append(&mut derived);
            Some(
                Pod {
                    kind,
                    api_version,
                    metadata: Metadata { namespace: metadata.namespace, labels: Some(labels) },
                    spec: Spec { volumes: spec.volumes, affinity: Some(tree) },
                },
            )
        },
    }
}

/// The JSON text of a patch: the array of its operations, as
/// `serde_json::to_string` writes it.
pub uninterp spec fn patch_text(patch: json_patch::Patch) -> Seq<char>;

/// The JSON text of the patch that `json_patch::diff` makes of two trees.
pub uninterp spec fn diff_text(from: JsonView, to: JsonView) -> Seq<char>;

/// `json_patch::diff`: the patch that leads from the document `from` to the
/// document `to`. It depends on the two trees alone.
#[verifier::external_body]
fn diff(from: &serde_json::Value, to: &serde_json::Value) -> (patch: json_patch::Patch)
    ensures
        patch_text(patch) == diff_text(value_tree(*from), value_tree(*to)),
{
    json_patch::diff(from, to)
}

/// `serde_json::to_string` on a patch: the JSON text of the patch. It
/// succeeds on every patch: the text goes into a byte vector, which takes
/// every write; a patch is written as a list of operations, each an object
/// with the keys `op`, `path`, `from` and `value`, a path as a string and a
/// value as the JSON value it is; and in a JSON value every object key is a
/// string.
#[verifier::external_body]
fn patch_to_string(patch: &json_patch::Patch) -> (out: Result<String, serde_json::Error>)
    ensures
        out is Ok,
        out matches Ok(text) ==> text@ == patch_text(*patch),
{
    serde_json::to_string(patch)
}

/// What the synthesizer returns for what came of writing the patch as text:
/// the text, or the serialization error.
pub fn patch_document(written: Result<String, serde_json::Error>) -> (out: Result<
    String,
    MutateError,
>)
    ensures
        match written {
            Ok(text) => out matches Ok(document) && document@ == text@,
            Err(_) => out == Err::<String, MutateError>(MutateError::Serialization),
        },
{
    match written {
        Ok(text) => Ok(text),
        Err(_) => Err(MutateError::Serialization),
    }
}

/// Synthesizes the patch for a Pod and the claims of it that are in scope:
/// the JSON Patch that leads from the Pod's document to the document of the
/// augmented Pod, as text. It fails, with `Serialization`, exactly where the
/// affinity tree has no place for the term.
pub fn create_patch(pod: &Pod, pvcs: Vec<String>) -> (out: Result<String, MutateError>)
    requires
        pvcs.len() > 0,
    ensures
        out is Ok <==> accepts_term(or_null(pod@.spec.affinity)),
        out matches Ok(text) ==> text@ == diff_text(
            pod_tree(pod@),
            pod_tree(augmented(pod@, names(pvcs@))),
        ),
        out matches Err(e) ==> e == MutateError::Serialization,
{
    match augment(pod, &pvcs) {
        None => Err(MutateError::Serialization),
        Some(new_pod) => {
            let before = to_value(&pod.to_json());
            let after = to_value(&new_pod.to_json());
            let patch = diff(&before, &after);
            patch_document(patch_to_string(&patch))
        },
    }
}

/// Whether one of the entries has the key `key`.
pub open spec fn has_key<V>(entries: Seq<(Seq<char>, V)>, key: Seq<char>) -> bool {
    exists|i: int| 0 <= i < entries.len() && (#[trigger] entries[i]).0 == key
}

/// What inserting entries does to a map: the keys of the entries come in, each
/// with the value of one of its entries, and the rest stays.
pub proof fn lemma_extend<V>(base: Map<Seq<char>, V>, entries: Seq<(Seq<char>, V)>)
    ensures
        forall|key: Seq<char>|
            #[trigger] extend(base, entries).contains_key(key) <==> base.contains_key(key)
                || has_key(entries, key),
        forall|key: Seq<char>|
            base.contains_key(key) && !has_key(entries, key) ==> #[trigger] extend(
                base,
                entries,
            )[key] == base[key],
        forall|key: Seq<char>|
            has_key(entries, key) ==> exists|i: int|
                0 <= i < entries.len() && (#[trigger] entries[i]).0 == key && extend(
                    base,
                    entries,
                )[key] == entries[i].1,
    decreases entries.len(),
{
    if entries.len() == 0 {
        assert forall|key: Seq<char>| !has_key(entries, key) by {}
    } else {
        let front = entries.drop_last();
        let last = entries.last();
        let whole = extend(base, entries);
        lemma_extend(base, front);
        assert(whole == extend(base, front).insert(last.0, last.1));
        assert(entries[entries.len() - 1] == last);
        assert forall|key: Seq<char>| has_key(entries, key) <==> has_key(front, key) || key
            == last.0 by {
            if has_key(entries, key) {
                let i = choose|i: int| 0 <= i < entries.len() && (#[trigger] entries[i]).0 == key;
                if i < front.len() {
                    assert(front[i].0 == key);
                }
            }
            if has_key(front, key) {
                let i = choose|i: int| 0 <= i < front.len() && (#[trigger] front[i]).0 == key;
                assert(entries[i] == front[i]);
            }
        }
        assert forall|key: Seq<char>| #[trigger]
            whole.contains_key(key) <==> base.contains_key(key) || has_key(entries, key) by {
            assert(extend(base, front).contains_key(key) <==> base.contains_key(key) || has_key(
                front,
                key,
            ));
        }
        assert forall|key: Seq<char>|
            base.contains_key(key) && !has_key(entries, key) implies #[trigger] whole[key]
            == base[key] by {
            assert(extend(base, front)[key] == base[key]);
        }
        assert forall|key: Seq<char>| has_key(entries, key) implies exists|i: int|
            0 <= i < entries.len() && (#[trigger] entries[i]).0 == key && whole[key]
                == entries[i].1 by {
            if key != last.0 {
                let i = choose|i: int|
                    0 <= i < front.len() && (#[trigger] front[i]).0 == key && extend(
                        base,
                        front,
                    )[key] == front[i].1;
                assert(entries[i] == front[i]);
            }
        }
    }
}

/// The keys of the affinity tree and of the selector term differ from one
/// another.
pub proof fn lemma_term_keys_differ()
    ensures
        "labelSelector"@ != "topologyKey"@,
{
    reveal_strlit("labelSelector");
    reveal_strlit("topologyKey");
    assert("labelSelector"@.len() == 13);
    assert("topologyKey"@.len() == 11);
}

/// What the augmented Pod is, for a Pod whose affinity tree holds a list, or
/// nothing, in the place of the required pod-affinity terms and has room for
/// that place:
/// the label of each claim is there with the value `true`; every other label
/// is as it was, and no further label has come; the required terms are those
/// that were, in their order, and after them one term, which selects exactly
/// the labels of the claims on one host; everything else in the affinity tree
/// and in the Pod is as it was.
pub proof fn lemma_augmented_pod(pod: PodView, claims: Seq<Seq<char>>)
    requires
        accepts_term(or_null(pod.spec.affinity)),
        required_terms(or_null(pod.spec.affinity)) is Null || required_terms(
            or_null(pod.spec.affinity),
        ) is Array,
    ensures
        ({
            let namespace = pod.metadata.namespace;
            let labels = derived_labels(namespace, claims);
            let after = augmented(pod, claims);
            let old_labels = or_no_labels(pod.metadata.labels);
            let new_labels = or_no_labels(after.metadata.labels);
            let old_affinity = or_null(pod.spec.affinity);
            let new_affinity = or_null(after.spec.affinity);
            let term = selector_term(labels);
            let selected = members(
                member(member(term, "labelSelector"@), "matchLabels"@),
            );
            &&& after.kind == pod.kind
            &&& after.api_version == pod.api_version
            &&& after.metadata.namespace == namespace
            &&& after.spec.volumes == pod.spec.volumes
            &&& after.metadata.labels is Some
            &&& after.spec.affinity is Some
            &&& forall|i: int|
                0 <= i < claims.len() ==> new_labels.contains_key(
                    #[trigger] label_key(namespace, claims[i]),
                ) && new_labels[label_key(namespace, claims[i])] == label_value()
            &&& forall|key: Seq<char>| #[trigger]
                old_labels.contains_key(key) ==> new_labels.contains_key(key)
            &&& forall|key: Seq<char>|
                old_labels.contains_key(key) && !has_key(labels, key) ==> #[trigger] new_labels[key]
                    == old_labels[key]
            &&& forall|key: Seq<char>| #[trigger]
                new_labels.contains_key(key) ==> old_labels.contains_key(key) || has_key(
                    labels,
                    key,
                )
            &&& required_terms(new_affinity) == JsonView::Array(
                terms_of(required_terms(old_affinity)).push(term),
            )
            &&& member(term, "topologyKey"@) == JsonView::String(topology_key())
            &&& forall|key: Seq<char>| #[trigger] selected.contains_key(key) <==> has_key(labels, key)
            &&& forall|key: Seq<char>|
                has_key(labels, key) ==> #[trigger] selected[key] == JsonView::String(label_value())
            &&& forall|key: Seq<char>|
                key != pod_affinity_key() ==> #[trigger] member(new_affinity, key) == member(
                    old_affinity,
                    key,
                )
            &&& forall|key: Seq<char>|
                key != required_key() ==> #[trigger] member(
                    member(new_affinity, pod_affinity_key()),
                    key,
                ) == member(member(old_affinity, pod_affinity_key()), key)
        }),
{
    let namespace = pod.metadata.namespace;
    let labels = derived_labels(namespace, claims);
    let old_labels = or_no_labels(pod.metadata.labels);
    let after = augmented(pod, claims);
    let new_labels = or_no_labels(after.metadata.labels);
    let term = selector_term(labels);
    lemma_extend(old_labels, labels);
    lemma_extend(Map::<Seq<char>, Seq<char>>::empty(), labels);
    lemma_assoc_extend(Seq::<(Seq<char>, Seq<char>)>::empty(), labels);
    assert(Seq::<(Seq<char>, Seq<char>)>::empty() + labels =~= labels);
    lemma_term_keys_differ();
    assert forall|i: int| 0 <= i < claims.len() implies new_labels.contains_key(
        #[trigger] label_key(namespace, claims[i]),
    ) && new_labels[label_key(namespace, claims[i])] == label_value() by {
        assert(labels[i].0 == label_key(namespace, claims[i]));
        assert(has_key(labels, label_key(namespace, claims[i])));
    }
    let selected = members(member(member(term, "labelSelector"@), "matchLabels"@));
    assert(selected == assoc(labels).map_values(|v: Seq<char>| JsonView::String(v)));
    assert forall|key: Seq<char>| has_key(labels, key) implies #[trigger] selected[key]
        == JsonView::String(label_value()) by {
        let i = choose|i: int|
            0 <= i < labels.len() && (#[trigger] labels[i]).0 == key && extend(
                Map::<Seq<char>, Seq<char>>::empty(),
                labels,
            )[key] == labels[i].1;
        assert(labels[i].1 == label_value());
    }
}

} // verus!
