//! Decisions and values of the peripheral drivers: register fields,
//! transfer outcomes, bring-up stages. The register accesses themselves are
//! made around the library.

pub mod axons;
pub mod pdm;
pub mod spim;
pub mod usbhs;
