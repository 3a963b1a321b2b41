//! The core of a resume generator.
//!
//! A resume is assembled from a record of a person. This library holds the
//! parts of that work that can be stated and proved:
//!
//! - the interpreter of the project directives ([`directive`]), which asks
//!   for fetches, keeps what was fetched in a merge store ([`store`]) and
//!   puts the final list in order ([`policy`], [`sorting`]);
//! - the citations ([`citation`]): how a source is resolved and what display
//!   text and year it gives, with the title scan of a web page ([`page`]) and
//!   the reading of BibTeX text ([`bibtex`]);
//! - the footnote usage table of a render pass and the reference list that
//!   it selects and orders ([`footnote`]);
//! - smaller parts of the resume: date ranges ([`dates`]), the language bar
//!   ([`languages`]), contacts and degrees ([`resume`]), and the project
//!   records made from repositories ([`github`]).
//!
//! Network and file I/O, the stored form of the record and floating point
//! stay with the caller, who hands in plain values.

pub mod bibtex;
pub mod citation;
pub mod dates;
pub mod directive;
pub mod footnote;
pub mod github;
pub mod languages;
pub mod page;
pub mod policy;
pub mod project;
pub mod resume;
pub mod sorting;
pub mod store;
pub mod text;
