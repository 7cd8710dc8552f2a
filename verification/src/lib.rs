//! Functional building blocks with machine-checked contracts: a persistent
//! stack, a parser algebra, monoids, accumulating validation, staged
//! asynchronous composition, a bounded record pipeline with chunk-independent
//! framing, scripted readers, writers and stages, state threading,
//! unfolds, report planning, distinct sorting, generated-input properties,
//! and small utilities for lookup, parsing, framing, validated sizes and
//! secrets.
pub mod batch;
pub mod budget;
pub mod composition;
pub mod counter;
pub mod counts;
pub mod digits;
pub mod frame;
pub mod frame_io;
pub mod framing;
pub mod generator;
pub mod kleisli;
pub mod limits;
pub mod lookup;
pub mod monoid;
pub mod nonzero;
pub mod parser;
pub mod persistent_stack;
pub mod pipeline_io;
pub mod records;
pub mod report;
pub mod sorting;
pub mod staged;
pub mod state;
pub mod text;
pub mod token;
pub mod unfold;
pub mod unique;
pub mod validation;
