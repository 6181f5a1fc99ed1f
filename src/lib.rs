//! A clock that shows UTC, local time and the mean solar time of a longitude.
pub mod longitude;
pub mod clock;
pub mod snapshot;
pub mod session;
pub mod layout;
