//! Claim identities and the labels derived from them.

use vstd::prelude::*;
use vstd::string::{StrSliceExecFns, StringExecFns};

verus! {

/// Identity of a PersistentVolumeClaim: its namespace and its name.
#[derive(Debug)]
pub struct Pvc {
    pub namespace: String,
    pub claim_name: String,
}

/// Mathematical model of a [`Pvc`].
pub struct PvcView {
    pub namespace: Seq<char>,
    pub claim_name: Seq<char>,
}

impl View for Pvc {
    type V = PvcView;

    open spec fn view(&self) -> PvcView {
        PvcView { namespace: self.namespace@, claim_name: self.claim_name@ }
    }
}

/// A Pod label: key and value.
#[derive(Debug)]
pub struct Label {
    pub key: String,
    pub value: String,
}

/// Mathematical model of a [`Label`].
pub struct LabelView {
    pub key: Seq<char>,
    pub value: Seq<char>,
}

impl View for Label {
    type V = LabelView;

    open spec fn view(&self) -> LabelView {
        LabelView { key: self.key@, value: self.value@ }
    }
}

/// What stands between namespace and claim name in a label key.
pub open spec fn label_domain() -> Seq<char> {
    ".gravivol.fonona.net/"@
}

/// The value every derived label carries.
pub open spec fn label_value() -> Seq<char> {
    "true"@
}

/// Key of the label that marks the Pods using claim `claim_name` of `namespace`.
pub open spec fn label_key(namespace: Seq<char>, claim_name: Seq<char>) -> Seq<char> {
    namespace + label_domain() + claim_name
}

/// The label derived from a claim.
pub open spec fn label_of(pvc: PvcView) -> LabelView {
    LabelView { key: label_key(pvc.namespace, pvc.claim_name), value: label_value() }
}

/// Whether `at` is the place of the one `/` of `entry`.
pub open spec fn splits_at(entry: Seq<char>, at: int) -> bool {
    &&& 0 <= at < entry.len()
    &&& entry[at] == '/'
    &&& forall|k: int| 0 <= k < entry.len() && k != at ==> entry[k] != '/'
}

/// The claim that a configuration entry names: an entry with exactly one `/`
/// names the claim whose namespace stands before it and whose name stands
/// after it; any other entry names none.
pub open spec fn parse_entry(entry: Seq<char>) -> Option<PvcView> {
    if exists|at: int| splits_at(entry, at) {
        let at = choose|at: int| splits_at(entry, at);
        Some(PvcView { namespace: entry.take(at), claim_name: entry.skip(at + 1) })
    } else {
        None
    }
}

impl Pvc {
    /// Reads a configuration entry of the form `<namespace>/<claim name>`.
    /// `None` for an entry that does not hold exactly one `/`.
    pub fn from_config_entry(entry: &str) -> (out: Option<Pvc>)
        ensures
            match out {
                Some(pvc) => parse_entry(entry@) == Some(pvc@),
                None => parse_entry(entry@) is None,
            },
    {
        let len = entry.unicode_len();
        let mut slash: Option<usize> = None;
        let mut i: usize = 0;
        while i < len
            invariant
                i <= len,
                len == entry@.len(),
                match slash {
                    Some(at) => at < i && entry@[at as int] == '/' && forall|k: int|
                        0 <= k < i && k != at ==> entry@[k] != '/',
                    None => forall|k: int| 0 <= k < i ==> entry@[k] != '/',
                },
            decreases len - i,
        {
            if entry.get_char(i) == '/' {
                match slash {
                    Some(at) => {
                        assert forall|other: int| !splits_at(entry@, other) by {
                            if other == at as int {
                                assert(entry@[i as int] == '/');
                            } else {
                                assert(entry@[at as int] == '/');
                            }
                        }
                        return None;
                    },
                    None => {
                        slash = Some(i);
                    },
                }
            }
            i += 1;
        }
        match slash {
            Some(at) => {
                proof {
                    assert(splits_at(entry@, at as int));
                    let chosen = choose|c: int| splits_at(entry@, c);
                    assert(chosen == at as int);
                }
                let namespace = entry.substring_char(0, at).to_owned();
                let claim_name = entry.substring_char(at + 1, len).to_owned();
                proof {
                    assert(namespace@ == entry@.take(at as int));
                    assert(claim_name@ == entry@.skip(at + 1));
                }
                Some(Pvc { namespace, claim_name })
            },
            None => {
                assert forall|other: int| !splits_at(entry@, other) by {}
                None
            },
        }
    }
}

impl Label {
    /// Derives the label of a claim: `<namespace>.gravivol.fonona.net/<claim name>`
    /// with the value `true`.
    pub fn from_pvc(pvc: &Pvc) -> (label: Label)
        ensures
            label@ == label_of(pvc@),
    {
        let mut key = pvc.namespace.clone();
        key.append(".gravivol.fonona.net/");
        key.append(pvc.claim_name.as_str());
        Label { key, value: "true".to_owned() }
    }
}

/// Whether the key of `a` can be read as the key of `b` too: the namespace of
/// `b` is that of `a`, the domain and some more text, and the claim name of `a`
/// is that text, the domain and the claim name of `b`.
pub open spec fn shadows(a: PvcView, b: PvcView) -> bool {
    let more = b.namespace.skip((a.namespace.len() + label_domain().len()) as int);
    &&& b.namespace.len() >= a.namespace.len() + label_domain().len()
    &&& b.namespace == a.namespace + label_domain() + more
    &&& a.claim_name == more + label_domain() + b.claim_name
}

/// The domain ends in its only `/`.
pub proof fn lemma_domain_shape()
    ensures
        label_domain().len() == 21,
        label_domain()[20] == '/',
        forall|i: int| 0 <= i < 20 ==> label_domain()[i] != '/',
{
    reveal_strlit(".gravivol.fonona.net/");
}

/// Two claims of which one shadows the other differ and have one label key.
pub proof fn lemma_shadowed_keys_collide(a: PvcView, b: PvcView)
    requires
        shadows(a, b),
    ensures
        a != b,
        label_of(a).key == label_of(b).key,
{
    lemma_domain_shape();
    assert(label_key(a.namespace, a.claim_name) =~= label_key(b.namespace, b.claim_name));
}

/// Distinct claims never have one label key, but for the pairs of which one
/// shadows the other.
pub proof fn lemma_label_key_injective(a: PvcView, b: PvcView)
    requires
        !shadows(a, b),
        !shadows(b, a),
        label_of(a).key == label_of(b).key,
    ensures
        a == b,
{
    lemma_domain_shape();
    if a.namespace.len() < b.namespace.len() {
        lemma_longer_namespace_shadows(a, b);
    } else if b.namespace.len() < a.namespace.len() {
        lemma_longer_namespace_shadows(b, a);
    } else {
        lemma_same_length_same_claim(a, b);
    }
}

/// Claims whose namespaces hold no `/` never share a label key.
pub proof fn lemma_label_key_injective_plain(a: PvcView, b: PvcView)
    requires
        !a.namespace.contains('/'),
        !b.namespace.contains('/'),
        label_of(a).key == label_of(b).key,
    ensures
        a == b,
{
    lemma_domain_shape();
    if shadows(a, b) {
        let at = (a.namespace.len() + 20) as int;
        assert(b.namespace[at] == (a.namespace + label_domain())[at]);
        assert(b.namespace[at] == '/');
    }
    if shadows(b, a) {
        let at = (b.namespace.len() + 20) as int;
        assert(a.namespace[at] == (b.namespace + label_domain())[at]);
        assert(a.namespace[at] == '/');
    }
    lemma_label_key_injective(a, b);
}

/// With namespaces of one length, one key means one claim.
proof fn lemma_same_length_same_claim(a: PvcView, b: PvcView)
    requires
        a.namespace.len() == b.namespace.len(),
        label_of(a).key == label_of(b).key,
    ensures
        a == b,
{
    let key_a = label_key(a.namespace, a.claim_name);
    let key_b = label_key(b.namespace, b.claim_name);
    let split = (a.namespace.len() + label_domain().len()) as int;
    assert(a.namespace =~= key_a.take(a.namespace.len() as int));
    assert(b.namespace =~= key_b.take(a.namespace.len() as int));
    assert(a.claim_name =~= key_a.skip(split));
    assert(b.claim_name =~= key_b.skip(split));
}

/// With one key and a shorter namespace in `a`, `a` shadows `b`.
proof fn lemma_longer_namespace_shadows(a: PvcView, b: PvcView)
    requires
        a.namespace.len() < b.namespace.len(),
        label_of(a).key == label_of(b).key,
    ensures
        shadows(a, b),
{
    lemma_domain_shape();
    let domain = label_domain();
    let key_a = label_key(a.namespace, a.claim_name);
    let key_b = label_key(b.namespace, b.claim_name);
    let short = a.namespace.len() as int;
    let long = b.namespace.len() as int;
    assert(key_a[short + 20] == domain[20]);
    if long - short <= 20 {
        assert(key_b[short + 20] == domain[short + 20 - long]);
        assert(false);
    }
    let more = b.namespace.skip(short + 21);
    assert forall|i: int| 0 <= i < long implies b.namespace[i] == (a.namespace + domain + more)[i] by {
        assert(b.namespace[i] == key_b[i]);
        assert(key_a[i] == key_b[i]);
    }
    assert(b.namespace =~= a.namespace + domain + more);
    assert(a.claim_name =~= key_a.skip(short + 21));
    assert(key_b.skip(short + 21) =~= more + domain + b.claim_name);
}

} // verus!
