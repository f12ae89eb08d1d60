//! Event normalization, recurrence expansion and timeline classification
//! for calendar data served by a desktop calendar service.

pub mod classify;
pub mod component;
pub mod datetime;
pub mod event;
pub mod order;
pub mod ical;
pub mod recurrence;
pub mod source;
pub mod timeline;
pub mod window;
pub mod zone;
