//! Lens projection of digital product passports.
//!
//! A passport is an append-only event log; a lens is a registered profile
//! with the bindings that say where its data points stand, what is derived
//! from them, and how they are presented. This crate projects a passport
//! under a lens at an instant: one passport, many lenses, none overriding
//! another. The projection is deterministic — the same passport, lens and
//! instant always give the same view — and honest: whatever could not be
//! seen is reported in the view, never dropped.
//!
//! - [`twin`]: the fold of an event log as-of an instant into facts, each
//!   with the origin of the event that last wrote it;
//! - [`lens`]: the lens manifest and when it is well formed;
//! - [`project`]: selection through the capability, presence and trust
//!   gates, the transforms, and the view with its coverage report;
//! - [`primmel`]: rule packages, their expressions over exact decimals, and
//!   their evaluation;
//! - [`aggregate`]: roll-ups over the children of a subject;
//! - [`codelist`]: registered code-list correspondences;
//! - [`units`]: exact unit conversion;
//! - [`render`] and [`html`]: the consumer presentation of the same
//!   selection, as a document, a page and speakable text;
//! - [`registry`]: what a registry is asked and what its answers mean;
//! - [`http`]: URLs, percent-encoding, requests and answers as texts;
//! - [`api`]: what a request asks for, what serves it, and what it is
//!   refused with;
//! - [`fixtures`]: the built-in demonstration corpus;
//! - [`model`]: passports, events and profiles as plain values;
//! - [`decimal`], [`time`], [`json`], [`record`], [`strmap`], [`text`],
//!   [`query`]: exact decimals, instants, documents, records read from them,
//!   ordered maps, texts and parameters.
//!
//! The crate holds no I/O: the service around it reads and sends, and hands
//! in what came back.
pub mod aggregate;
pub mod api;
pub mod codelist;
pub mod decimal;
pub mod fixtures;
pub mod html;
pub mod http;
pub mod json;
pub mod lens;
pub mod model;
pub mod primmel;
pub mod project;
pub mod query;
pub mod record;
pub mod registry;
pub mod render;
pub mod strmap;
pub mod text;
pub mod time;
pub mod twin;
pub mod units;

pub use aggregate::{AggregationOperation, ChildDocuments};
pub use api::Config;
pub use codelist::{CodeListMapping, MappingEntry, MappingSet};
pub use lens::{
    ClassBand, DataPointBinding, FormattingRules, LensManifest, PresentationBinding,
    PresentationSection, TransformBinding, UnitPosition,
};
pub use primmel::{PackageSet, PrimmelPackage, PrimmelRule};
pub use project::{project, MissingReason, ProfileSource, RegisteredUnit, ViewError};
pub use registry::{FetchOutcome, RegistryClient};
pub use render::render;
pub use twin::{FactOrigin, SourcedFact, TwinState};
