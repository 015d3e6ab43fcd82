//! Keeps the `generate_for` lists of a Flutter project's `build.yaml` in step
//! with the annotations found in its Dart sources.

pub mod text;
pub mod registry;
pub mod paths;
pub mod generator;
pub mod document;
pub mod normalize;
pub mod run;
