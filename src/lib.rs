//! Gathers statistics of video channels, keeps those that are popular enough,
//! groups them by category and ranks categories and channels by subscribers.
pub mod aggregate;
pub mod count;
pub mod model;
pub mod pipeline;
pub mod rank;
pub mod render;
pub mod youtube;
