use base64::prelude::BASE64_STANDARD;
use base64::Engine;
use gravivol::controller::Controller;
use gravivol::json::Json;
use gravivol::patch::create_patch;
use gravivol::pod::{Metadata, PersistentVolumeClaim, Pod, Spec, Volume};
use gravivol::pvc::Label;
use gravivol::review::{AdmissionReview, Request};
use json_patch::{patch, Patch};
use serde_json::Value;

fn parse(text: &str) -> Value {
    serde_json::from_str(text).expect("Failed to parse JSON")
}

fn tree(value: &Value) -> Json {
    match value {
        Value::Null => Json::Null,
        Value::Bool(b) => Json::Bool(*b),
        Value::Number(n) => Json::Number(n.clone()),
        Value::String(s) => Json::String(s.clone()),
        Value::Array(items) => Json::Array(items.iter().map(tree).collect()),
        Value::Object(entries) => {
            Json::Object(entries.iter().map(|(k, v)| (k.clone(), tree(v))).collect())
        }
    }
}

fn text(value: &Value) -> String {
    value.as_str().expect("Expected a string").to_owned()
}

fn present(value: Option<&Value>) -> Option<&Value> {
    value.filter(|v| !v.is_null())
}

fn pod(value: &Value) -> Pod {
    let metadata = &value["metadata"];
    let spec = &value["spec"];
    Pod {
        kind: text(&value["kind"]),
        api_version: text(&value["apiVersion"]),
        metadata: Metadata {
            namespace: text(&metadata["namespace"]),
            labels: present(metadata.get("labels")).map(|labels| {
                labels
                    .as_object()
                    .expect("Expected an object")
                    .iter()
                    .map(|(key, value)| Label { key: key.clone(), value: text(value) })
                    .collect()
            }),
        },
        spec: Spec {
            volumes: present(spec.get("volumes")).map(|volumes| {
                volumes
                    .as_array()
                    .expect("Expected an array")
                    .iter()
                    .map(|volume| Volume {
                        persistent_volume_claim: present(volume.get("persistentVolumeClaim"))
                            .map(|claim| PersistentVolumeClaim {
                                claim_name: text(&claim["claimName"]),
                            }),
                    })
                    .collect()
            }),
            affinity: present(spec.get("affinity")).map(tree),
        },
    }
}

fn review(value: &Value) -> AdmissionReview {
    AdmissionReview {
        api_version: text(&value["apiVersion"]),
        kind: text(&value["kind"]),
        request: present(value.get("request")).map(|request| Request {
            uid: text(&request["uid"]),
            object: pod(&request["object"]),
        }),
        response: None,
    }
}

fn review_of(object: &Value) -> Value {
    let mut data = parse(
        r#"{
            "apiVersion": "admission.k8s.io/v1",
            "kind": "AdmissionReview",
            "request": {
                "uid": "26973DA1-B488-4F59-B062-461C6BDCAD83"
            }
        }"#,
    );
    data["request"]["object"] = object.clone();
    data
}

#[test]
fn test_pod_no_volumes() {
    let data = parse(
        r#"{
            "apiVersion": "admission.k8s.io/v1",
            "kind": "AdmissionReview",
            "request": {
                "uid": "26973DA1-B488-4F59-B062-461C6BDCAD83",
                "object": {
                    "kind": "Pod",
                    "apiVersion": "v1",
                    "metadata": {
                        "generateName": "bla-6b47d48686-",
                        "namespace": "default",
                        "creationTimestamp": null,
                        "labels": {
                            "app.kubernetes.io/instance": "bla",
                            "app.kubernetes.io/managed-by": "Helm",
                            "app.kubernetes.io/name": "bla",
                            "app.kubernetes.io/version": "1.16.0"
                        }
                    },
                    "spec": {}
                }
            }
        }"#,
    );
    let review = review(&data);
    let controller = Controller::new("");
    let response = controller.mutate(review).unwrap();

    assert_eq!(response.api_version, "admission.k8s.io/v1");
    assert_eq!(response.kind, "AdmissionReview");
    match response.response {
        Some(res) => {
            assert_eq!(res.uid, "26973DA1-B488-4F59-B062-461C6BDCAD83");
            assert!(res.allowed);
            assert_eq!(res.patch, None);
            assert_eq!(res.patch_type, None);
        }
        None => panic!("Expected Some(response)"),
    }
}

#[test]
fn test_pod_with_matching_and_non_matching_pvc() {
    let config = "default/myvol1,foo/myvol2";

    let mut pod = parse(
        r#"{
            "kind": "Pod",
            "apiVersion": "v1",
            "metadata": {
                "generateName": "bla-6b47d48686-",
                "namespace": "default",
                "creationTimestamp": null,
                "labels": {
                    "app.kubernetes.io/instance": "bla",
                    "app.kubernetes.io/managed-by": "Helm",
                    "app.kubernetes.io/name": "bla",
                    "app.kubernetes.io/version": "1.16.0"
                }
            },
            "spec": {
                "volumes": [
                    {
                        "name": "somename",
                        "persistentVolumeClaim": {
                            "claimName": "myvol1"
                        }
                    },
                    {
                        "name": "othername",
                        "persistentVolumeClaim": {
                            "claimName": "myvol2"
                        }
                    }
                ]
            }
        }"#,
    );

    let expected_patched_pod = parse(
        r#"{
            "kind": "Pod",
            "apiVersion": "v1",
            "metadata": {
                "generateName": "bla-6b47d48686-",
                "namespace": "default",
                "creationTimestamp": null,
                "labels": {
                    "app.kubernetes.io/instance": "bla",
                    "app.kubernetes.io/managed-by": "Helm",
                    "app.kubernetes.io/name": "bla",
                    "app.kubernetes.io/version": "1.16.0",
                    "default.gravivol.fonona.net/myvol1": "true"
                }
            },
            "spec": {
                "volumes": [
                    {
                        "name": "somename",
                        "persistentVolumeClaim": {
                            "claimName": "myvol1"
                        }
                    },
                    {
                        "name": "othername",
                        "persistentVolumeClaim": {
                            "claimName": "myvol2"
                        }
                    }
                ],
                "affinity": {
                    "podAffinity": {
                        "requiredDuringSchedulingIgnoredDuringExecution": [
                        {
                            "labelSelector": {
                                "matchLabels": {
                                    "default.gravivol.fonona.net/myvol1": "true"
                                }
                            },
                            "topologyKey": "kubernetes.io/hostname"
                        }]
                    }
                }
            }
        }"#,
    );

    let data = review_of(&pod);
    let review = review(&data);
    let controller = Controller::new(config);
    let response = controller.mutate(review).unwrap();

    assert_eq!(response.api_version, "admission.k8s.io/v1");
    assert_eq!(response.kind, "AdmissionReview");
    match response.response {
        Some(res) => {
            assert_eq!(res.uid, "26973DA1-B488-4F59-B062-461C6BDCAD83");
            assert_eq!(res.patch_type, Some("JSONPatch".to_owned()));
            let patch_string = String::from_utf8(
                BASE64_STANDARD
                    .decode(res.patch.expect("No patch in response"))
                    .expect("Cannot decode base64"),
            )
            .expect("Invalid UTF-8");
            let patch_json: Patch =
                serde_json::from_str(&patch_string).expect("Cannot parse JSON patch");
            patch(&mut pod, &patch_json).expect("Patch failed");
            assert_eq!(pod, expected_patched_pod);
        }
        None => panic!("Expected Some(response)"),
    }
}

#[test]
fn test_empty_config() {
    let config = "";

    let mut pod = parse(
        r#"{
            "kind": "Pod",
            "apiVersion": "v1",
            "metadata": {
                "generateName": "bla-6b47d48686-",
                "namespace": "default",
                "creationTimestamp": null,
                "labels": {
                    "app.kubernetes.io/instance": "bla",
                    "app.kubernetes.io/managed-by": "Helm",
                    "app.kubernetes.io/name": "bla",
                    "app.kubernetes.io/version": "1.16.0"
                }
            },
            "spec": {
                "volumes": [
                    {
                        "name": "somename",
                        "persistentVolumeClaim": {
                            "claimName": "myvol1"
                        }
                    }
                ]
            }
        }"#,
    );

    let expected_patched_pod = parse(
        r#"{
            "kind": "Pod",
            "apiVersion": "v1",
            "metadata": {
                "generateName": "bla-6b47d48686-",
                "namespace": "default",
                "creationTimestamp": null,
                "labels": {
                    "app.kubernetes.io/instance": "bla",
                    "app.kubernetes.io/managed-by": "Helm",
                    "app.kubernetes.io/name": "bla",
                    "app.kubernetes.io/version": "1.16.0",
                    "default.gravivol.fonona.net/myvol1": "true"
                }
            },
            "spec": {
                "volumes": [
                    {
                        "name": "somename",
                        "persistentVolumeClaim": {
                            "claimName": "myvol1"
                        }
                    }
                ],
                "affinity": {
                    "podAffinity": {
                        "requiredDuringSchedulingIgnoredDuringExecution": [
                        {
                            "labelSelector": {
                                "matchLabels": {
                                    "default.gravivol.fonona.net/myvol1": "true"
                                }
                            },
                            "topologyKey": "kubernetes.io/hostname"
                        }]
                    }
                }
            }
        }"#,
    );

    let data = review_of(&pod);
    let review = review(&data);
    let controller = Controller::new(config);
    let response = controller.mutate(review).unwrap();

    assert_eq!(response.api_version, "admission.k8s.io/v1");
    assert_eq!(response.kind, "AdmissionReview");
    match response.response {
        Some(res) => {
            assert_eq!(res.uid, "26973DA1-B488-4F59-B062-461C6BDCAD83");
            assert_eq!(res.patch_type, Some("JSONPatch".to_owned()));
            let patch_string = String::from_utf8(
                BASE64_STANDARD
                    .decode(res.patch.expect("No patch in response"))
                    .expect("Cannot decode base64"),
            )
            .expect("Invalid UTF-8");
            let patch_json: Patch =
                serde_json::from_str(&patch_string).expect("Cannot parse JSON patch");
            patch(&mut pod, &patch_json).expect("Patch failed");
            assert_eq!(pod, expected_patched_pod);
        }
        None => panic!("Expected Some(response)"),
    }
}

#[test]
fn test_create_patch_pure_pod() {
    let pod_before = parse(
        r#"{
            "apiVersion": "v1",
            "kind": "Pod",
            "metadata": {
                "namespace": "foo"
            },
            "spec": {
                "containers": [
                    {
                        "name": "my-container",
                        "image": "nginx"
                    }
                ]
            }
        }"#,
    );

    let pvcs = vec!["myvol1".to_owned(), "myvol2".to_owned()];

    let mut pod_after = pod_before.to_owned();

    pod_after["metadata"]["labels"] = parse(
        r#"{
            "foo.gravivol.fonona.net/myvol1": "true",
            "foo.gravivol.fonona.net/myvol2": "true"
        }"#,
    );

    pod_after["spec"]["affinity"] = parse(
        r#"{
            "podAffinity": {
                "requiredDuringSchedulingIgnoredDuringExecution": [
                {
                    "labelSelector": {
                        "matchLabels": {
                            "foo.gravivol.fonona.net/myvol1": "true",
                            "foo.gravivol.fonona.net/myvol2": "true"
                        }
                    },
                    "topologyKey": "kubernetes.io/hostname"
                }]
            }
        }"#,
    );

    let pod: Pod = pod(&pod_before);
    let created_patch: Patch = serde_json::from_str(&create_patch(&pod, pvcs).unwrap()).unwrap();

    let mut pod_patched = pod_before.to_owned();
    patch(&mut pod_patched, &created_patch).unwrap();

    assert_eq!(pod_patched, pod_after);
}

#[test]
fn test_create_patch_existing_labels_and_affinity() {
    let pod_before = parse(
        r#"{
            "apiVersion": "v1",
            "kind": "Pod",
            "metadata": {
                "namespace": "my-namespace",
                "labels": {
                    "mylabel1": "myvalue1"
                }
            },
            "spec": {
                "containers": [
                    {
                        "name": "my-container",
                        "image": "nginx"
                    }
                ],
                "affinity": {
                    "podAffinity": {
                        "requiredDuringSchedulingIgnoredDuringExecution": [
                        {
                            "labelSelector": {
                                "matchLabels": {
                                    "somelabel": "somevalue"
                                }
                            },
                            "topologyKey": "somekey"
                        }]
                    }
                }
            }
        }"#,
    );

    let pvcs = vec!["myvol1".to_owned(), "myvol2".to_owned()];

    let mut pod_after = pod_before.to_owned();

    pod_after["metadata"]["labels"]["my-namespace.gravivol.fonona.net/myvol1"] =
        Value::String("true".to_owned());
    pod_after["metadata"]["labels"]["my-namespace.gravivol.fonona.net/myvol2"] =
        Value::String("true".to_owned());

    if let Value::Array(the_array) = &mut pod_after["spec"]["affinity"]["podAffinity"]
        ["requiredDuringSchedulingIgnoredDuringExecution"]
    {
        the_array.push(parse(
            r#"{
                "labelSelector": {
                    "matchLabels": {
                        "my-namespace.gravivol.fonona.net/myvol1": "true",
                        "my-namespace.gravivol.fonona.net/myvol2": "true"
                    }
                },
                "topologyKey": "kubernetes.io/hostname"
            }"#,
        ));
    }

    let pod: Pod = pod(&pod_before);
    let created_patch: Patch = serde_json::from_str(&create_patch(&pod, pvcs).unwrap()).unwrap();

    let mut pod_patched = pod_before.to_owned();
    patch(&mut pod_patched, &created_patch).unwrap();

    assert_eq!(pod_patched, pod_after);
}
