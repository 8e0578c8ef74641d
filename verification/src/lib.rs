//! Symbol resolution and certificate reconciliation for tracked code artifacts.
//!
//! The crate maps positions in analysed source files to canonical symbol
//! identifiers, enriches tracked records with what the analyser knows about
//! each symbol, and plans the certificate files to create or delete so that the
//! on-disk certificate store agrees with the current verification status.
//!
//! The modules, by what they are for:
//!
//! - names and texts: [`text`], [`name_set`], [`name_map`], [`scan`], [`lines`];
//! - the atom store and the structure: [`atoms`], [`structure`], [`tracking`],
//!   [`links`], [`frontmatter`];
//! - resolution and enrichment: [`line_index`], [`resolver`], [`enrich`],
//!   [`atomize`];
//! - certificates: [`certs`], [`reconcile`], [`verify`], [`specify`], [`menu`];
//! - blueprints: [`blueprint`], [`dep_graph`], [`html`], [`statements`].

pub mod atomize;
pub mod atoms;
pub mod blueprint;
pub mod certs;
pub mod dep_graph;
pub mod enrich;
pub mod frontmatter;
pub mod html;
pub mod line_index;
pub mod lines;
pub mod links;
pub mod menu;
pub mod name_map;
pub mod name_set;
pub mod reconcile;
pub mod resolver;
pub mod scan;
pub mod specify;
pub mod statements;
pub mod structure;
pub mod text;
pub mod tracking;
pub mod verify;
