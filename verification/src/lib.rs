//! Artifact-resolution core of a build tool.
//!
//! A build step's dependencies are declared as [`group::ArtifactGroup`]
//! descriptors: a concrete artifact handle, a projection of a shared
//! transitive output-set DAG, or a promised output of an anonymous target.
//! This crate models the data and the decision logic of resolving such
//! descriptors: the acyclic transitive-set store with memoized projection
//! evaluation, and the single-assignment promise registry.

pub mod artifact;
pub mod group;
pub mod manifold;
pub mod promise;
pub mod transitive_set;
