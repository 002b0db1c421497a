//! Contact records with partial birth dates, their JSON and vCard encodings, and the
//! birthday projections built from them.

pub mod args;
pub mod birthday;
pub mod contact;
pub mod date;
pub mod json;
pub mod phone;
pub mod text;
pub mod vcard;
