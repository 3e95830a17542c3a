//! The part of a Pod that the webhook reads and writes, and the JSON document
//! that stands for it.

use crate::json::{
    assoc, entries_of, items_of, lemma_assoc_push, lemma_items_push, put, Json, JsonView,
};
use crate::pvc::Label;
use vstd::prelude::*;

verus! {

/// Pod metadata: the namespace and the labels. Where a label key occurs more
/// than once in the list, its last label counts. The labels are kept as a
/// list, so that what a key leads to follows from the equality of strings
/// alone, and not from what a hasher does.
#[derive(Debug)]
pub struct Metadata {
    pub namespace: String,
    pub labels: Option<Vec<Label>>,
}

/// Reference of a volume to a PersistentVolumeClaim of the Pod's namespace.
#[derive(Debug)]
pub struct PersistentVolumeClaim {
    pub claim_name: String,
}

/// A volume of a Pod; only a claim reference is kept of it.
#[derive(Debug)]
pub struct Volume {
    pub persistent_volume_claim: Option<PersistentVolumeClaim>,
}

/// Pod spec: the volumes, in order, and the affinity tree.
#[derive(Debug)]
pub struct Spec {
    pub volumes: Option<Vec<Volume>>,
    pub affinity: Option<Json>,
}

/// A Pod, or another object under review, as far as the webhook looks at it.
#[derive(Debug)]
pub struct Pod {
    pub kind: String,
    pub api_version: String,
    pub metadata: Metadata,
    pub spec: Spec,
}

/// Mathematical model of [`Metadata`].
pub struct MetadataView {
    pub namespace: Seq<char>,
    pub labels: Option<Map<Seq<char>, Seq<char>>>,
}

/// Mathematical model of a [`Volume`]: the name of the claim it refers to, if
/// it refers to one.
pub struct VolumeView {
    pub claim: Option<Seq<char>>,
}

/// Mathematical model of a [`Spec`].
pub struct SpecView {
    pub volumes: Option<Seq<VolumeView>>,
    pub affinity: Option<JsonView>,
}

/// Mathematical model of a [`Pod`].
pub struct PodView {
    pub kind: Seq<char>,
    pub api_version: Seq<char>,
    pub metadata: MetadataView,
    pub spec: SpecView,
}

/// Keys and values of a list of labels, in order.
pub open spec fn label_pairs(labels: Seq<Label>) -> Seq<(Seq<char>, Seq<char>)> {
    labels.map_values(|l: Label| (l.key@, l.value@))
}

/// The models of a list of volumes, in order.
pub open spec fn volume_views(volumes: Seq<Volume>) -> Seq<VolumeView> {
    volumes.map_values(|v: Volume| v@)
}

impl View for Metadata {
    type V = MetadataView;

    open spec fn view(&self) -> MetadataView {
        MetadataView {
            namespace: self.namespace@,
            labels: match self.labels {
                Some(labels) => Some(assoc(label_pairs(labels@))),
                None => None,
            },
        }
    }
}

impl View for Volume {
    type V = VolumeView;

    open spec fn view(&self) -> VolumeView {
        VolumeView {
            claim: match self.persistent_volume_claim {
                Some(claim) => Some(claim.claim_name@),
                None => None,
            },
        }
    }
}

impl View for Spec {
    type V = SpecView;

    open spec fn view(&self) -> SpecView {
        SpecView {
            volumes: match self.volumes {
                Some(volumes) => Some(volume_views(volumes@)),
                None => None,
            },
            affinity: match self.affinity {
                Some(tree) => Some(tree@),
                None => None,
            },
        }
    }
}

impl View for Pod {
    type V = PodView;

    open spec fn view(&self) -> PodView {
        PodView {
            kind: self.kind@,
            api_version: self.api_version@,
            metadata: self.metadata@,
            spec: self.spec@,
        }
    }
}

/// The JSON object of a set of labels: each key leads to its value as a
/// string.
pub open spec fn labels_tree(labels: Map<Seq<char>, Seq<char>>) -> JsonView {
    JsonView::Object(labels.map_values(|v: Seq<char>| JsonView::String(v)))
}

/// The JSON object of Pod metadata: `namespace`, and `labels` where there are
/// labels, be it none.
pub open spec fn metadata_tree(metadata: MetadataView) -> JsonView {
    let namespace = Map::empty().insert("namespace"@, JsonView::String(metadata.namespace));
    JsonView::Object(
        match metadata.labels {
            Some(labels) => namespace.insert("labels"@, labels_tree(labels)),
            None => namespace,
        },
    )
}

/// The JSON object of a volume: `persistentVolumeClaim` with its `claimName`
/// where the volume refers to a claim, else an object without members.
pub open spec fn volume_tree(volume: VolumeView) -> JsonView {
    JsonView::Object(
        match volume.claim {
            Some(name) => Map::empty().insert(
                "persistentVolumeClaim"@,
                JsonView::Object(Map::empty().insert("claimName"@, JsonView::String(name))),
            ),
            None => Map::empty(),
        },
    )
}

/// The JSON object of a Pod spec: `volumes` and `affinity`, each where
/// present.
pub open spec fn spec_tree(spec: SpecView) -> JsonView {
    let volumes = match spec.volumes {
        Some(volumes) => Map::empty().insert(
            "volumes"@,
            JsonView::Array(volumes.map_values(|v: VolumeView| volume_tree(v))),
        ),
        None => Map::empty(),
    };
    JsonView::Object(
        match spec.affinity {
            Some(tree) => volumes.insert("affinity"@, tree),
            None => volumes,
        },
    )
}

/// The JSON document of a Pod: `kind`, `apiVersion`, `metadata` and `spec`.
pub open spec fn pod_tree(pod: PodView) -> JsonView {
    JsonView::Object(
        Map::empty().insert("kind"@, JsonView::String(pod.kind)).insert(
            "apiVersion"@,
            JsonView::String(pod.api_version),
        ).insert("metadata"@, metadata_tree(pod.metadata)).insert("spec"@, spec_tree(pod.spec)),
    )
}

/// A copy of a list of labels.
pub fn copy_labels(labels: &Vec<Label>) -> (copy: Vec<Label>)
    ensures
        label_pairs(copy@) == label_pairs(labels@),
{
    let mut copy: Vec<Label> = Vec::new();
    let mut i: usize = 0;
    while i < labels.len()
        invariant
            i <= labels.len(),
            label_pairs(copy@) == label_pairs(labels@.take(i as int)),
        decreases labels.len() - i,
    {
        let entry = Label { key: labels[i].key.clone(), value: labels[i].value.clone() };
        proof {
            assert(label_pairs(copy@.push(entry)) =~= label_pairs(copy@).push(
                (entry.key@, entry.value@),
            ));
            assert(label_pairs(labels@.take(i + 1)) =~= label_pairs(labels@.take(i as int)).push(
                (entry.key@, entry.value@),
            ));
        }
        copy.push(entry);
        i += 1;
    }
    proof {
        assert(labels@.take(i as int) == labels@);
    }
    copy
}

/// The JSON object of a list of labels.
pub fn labels_to_json(labels: &Vec<Label>) -> (tree: Json)
    ensures
        tree@ == labels_tree(assoc(label_pairs(labels@))),
{
    let mut entries: Vec<(String, Json)> = Vec::new();
    let mut i: usize = 0;
    while i < labels.len()
        invariant
            i <= labels.len(),
            assoc(entries_of(entries@)) =~= assoc(label_pairs(labels@.take(i as int))).map_values(
                |v: Seq<char>| JsonView::String(v),
            ),
        decreases labels.len() - i,
    {
        proof {
            let before = label_pairs(labels@.take(i as int));
            assert(label_pairs(labels@.take(i + 1)) =~= before.push(
                (labels[i as int].key@, labels[i as int].value@),
            ));
            lemma_assoc_push(before, labels[i as int].key@, labels[i as int].value@);
        }
        put(&mut entries, labels[i].key.as_str(), Json::String(labels[i].value.clone()));
        i += 1;
    }
    proof {
        assert(labels@.take(i as int) == labels@);
    }
    Json::Object(entries)
}

impl Volume {
    /// A copy of the volume.
    pub fn duplicate(&self) -> (copy: Volume)
        ensures
            copy@ == self@,
    {
        Volume {
            persistent_volume_claim: match &self.persistent_volume_claim {
                Some(claim) => Some(PersistentVolumeClaim { claim_name: claim.claim_name.clone() }),
                None => None,
            },
        }
    }

    /// The JSON object of the volume.
    pub fn to_json(&self) -> (tree: Json)
        ensures
            tree@ == volume_tree(self@),
    {
        let mut entries: Vec<(String, Json)> = Vec::new();
        match &self.persistent_volume_claim {
            Some(claim) => {
                let mut inner: Vec<(String, Json)> = Vec::new();
                put(&mut inner, "claimName", Json::String(claim.claim_name.clone()));
                put(&mut entries, "persistentVolumeClaim", Json::Object(inner));
            },
            None => {},
        }
        Json::Object(entries)
    }
}

/// A copy of a list of volumes.
pub fn copy_volumes(volumes: &Vec<Volume>) -> (copy: Vec<Volume>)
    ensures
        volume_views(copy@) == volume_views(volumes@),
{
    let mut copy: Vec<Volume> = Vec::new();
    let mut i: usize = 0;
    while i < volumes.len()
        invariant
            i <= volumes.len(),
            volume_views(copy@) == volume_views(volumes@.take(i as int)),
        decreases volumes.len() - i,
    {
        let volume = volumes[i].duplicate();
        proof {
            assert(volume_views(copy@.push(volume)) =~= volume_views(copy@).push(volume@));
            assert(volume_views(volumes@.take(i + 1)) =~= volume_views(
                volumes@.take(i as int),
            ).push(volume@));
        }
        copy.push(volume);
        i += 1;
    }
    proof {
        assert(volumes@.take(i as int) == volumes@);
    }
    copy
}

/// The JSON array of a list of volumes.
pub fn volumes_to_json(volumes: &Vec<Volume>) -> (tree: Json)
    ensures
        tree@ == JsonView::Array(volume_views(volumes@).map_values(|v: VolumeView| volume_tree(v))),
{
    let mut items: Vec<Json> = Vec::new();
    let mut i: usize = 0;
    while i < volumes.len()
        invariant
            i <= volumes.len(),
            items_of(items@) == volume_views(volumes@.take(i as int)).map_values(
                |v: VolumeView| volume_tree(v),
            ),
        decreases volumes.len() - i,
    {
        let item = volumes[i].to_json();
        proof {
            lemma_items_push(items@, item);
            assert(volume_views(volumes@.take(i + 1)).map_values(|v: VolumeView| volume_tree(v))
                =~= volume_views(volumes@.take(i as int)).map_values(
                |v: VolumeView| volume_tree(v),
            ).push(volume_tree(volumes[i as int]@)));
        }
        items.push(item);
        i += 1;
    }
    proof {
        assert(volumes@.take(i as int) == volumes@);
    }
    Json::Array(items)
}

impl Metadata {
    /// A copy of the metadata.
    pub fn duplicate(&self) -> (copy: Metadata)
        ensures
            copy@ == self@,
    {
        Metadata {
            namespace: self.namespace.clone(),
            labels: match &self.labels {
                Some(labels) => Some(copy_labels(labels)),
                None => None,
            },
        }
    }

    /// The JSON object of the metadata.
    pub fn to_json(&self) -> (tree: Json)
        ensures
            tree@ == metadata_tree(self@),
    {
        let mut entries: Vec<(String, Json)> = Vec::new();
        put(&mut entries, "namespace", Json::String(self.namespace.clone()));
        match &self.labels {
            Some(labels) => {
                put(&mut entries, "labels", labels_to_json(labels));
            },
            None => {},
        }
        Json::Object(entries)
    }
}

impl Spec {
    /// A copy of the spec.
    pub fn duplicate(&self) -> (copy: Spec)
        ensures
            copy@ == self@,
    {
        Spec {
            volumes: match &self.volumes {
                Some(volumes) => Some(copy_volumes(volumes)),
                None => None,
            },
            affinity: match &self.affinity {
                Some(tree) => Some(tree.duplicate()),
                None => None,
            },
        }
    }

    /// The JSON object of the spec.
    pub fn to_json(&self) -> (tree: Json)
        ensures
            tree@ == spec_tree(self@),
    {
        let mut entries: Vec<(String, Json)> = Vec::new();
        match &self.volumes {
            Some(volumes) => {
                put(&mut entries, "volumes", volumes_to_json(volumes));
            },
            None => {},
        }
        match &self.affinity {
            Some(tree) => {
                put(&mut entries, "affinity", tree.duplicate());
            },
            None => {},
        }
        Json::Object(entries)
    }
}

impl Pod {
    /// A copy of the Pod.
    pub fn duplicate(&self) -> (copy: Pod)
        ensures
            copy@ == self@,
    {
        Pod {
            kind: self.kind.clone(),
            api_version: self.api_version.clone(),
            metadata: self.metadata.duplicate(),
            spec: self.spec.duplicate(),
        }
    }

    /// The JSON document of the Pod.
    pub fn to_json(&self) -> (tree: Json)
        ensures
            tree@ == pod_tree(self@),
    {
        let mut entries: Vec<(String, Json)> = Vec::new();
        put(&mut entries, "kind", Json::String(self.kind.clone()));
        put(&mut entries, "apiVersion", Json::String(self.api_version.clone()));
        put(&mut entries, "metadata", self.metadata.to_json());
        put(&mut entries, "spec", self.spec.to_json());
        Json::Object(entries)
    }
}

} // verus!
