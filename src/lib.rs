//! ATA S.M.A.R.T. retrieval over the SCSI-generic pass-through interface,
//! together with the text parsers of the statistics sampler.
pub mod ffi;
pub mod le;
pub mod models;
pub mod smart;
pub mod sysinfo;
pub mod text;
