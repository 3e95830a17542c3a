//! Decision core of a mutating admission webhook that keeps the Pods sharing a
//! PersistentVolumeClaim on one node: it labels each Pod after the claims it
//! mounts and appends a required pod-affinity term selecting those labels.

pub mod config;
pub mod controller;
pub mod error;
pub mod json;
pub mod patch;
pub mod pod;
pub mod pvc;
pub mod review;
