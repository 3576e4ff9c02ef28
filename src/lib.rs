//! Catalogue logic of a signage shop back office. The pricing core picks an
//! order's volume discount tier and fixation mounting condition and counts the
//! mounting points it is charged for; around it stand the pictogram tag
//! search, the folder tree of a catalogue category and the naming of uploads.

pub mod discount;
pub mod fixation;
pub mod fixation_condition;
pub mod folder;
pub mod order;
pub mod picto;
pub mod shape;
pub mod template;
pub mod upload;
