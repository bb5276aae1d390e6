//! A finder of imaging studies: it reads the identifying attributes of decoded files,
//! keeps a deduplicated index of patients, studies, series and files, derives where a
//! rewritten copy of a file goes, and rewrites a fixed set of identifying attributes.
//!
//! - `work_dcm`: the record of one file, its extraction from a decoded object, and the
//!   rewrite policy with its application.
//! - `codec`: what is taken on trust of the codec's decoded objects.
//! - `work_db`: the hierarchical index and the report that is read back from it.
//! - `index_model`: the tables of the index as mathematical values, with its invariant.
//! - `index_laws`, `report_laws`: what holds of every index and of every report.
//! - `dir_scan`: which directory entries a scan skips, and the paths of the copies.
//! - `text`, `counting`: trimming, decimal digits and path joining; counting lemmas.

pub mod codec;
pub mod counting;
pub mod dir_scan;
pub mod index_laws;
pub mod index_model;
pub mod report_laws;
pub mod text;
pub mod work_db;
pub mod work_dcm;
