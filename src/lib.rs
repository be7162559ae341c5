//! Building blocks of a status report assembled from completed tasks and the
//! GitHub issues and pull requests that their text links to.

pub mod decimal;
pub mod links;
pub mod resolve;
pub mod fetch;
pub mod report;
