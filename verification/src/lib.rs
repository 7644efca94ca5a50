pub mod branch;
pub mod checkouts;
pub mod contributors;
pub mod exchange;
pub mod files;
pub mod history;
pub mod identity;
pub mod local;
pub mod model;
pub mod order;
pub mod paths;
pub mod remote;
pub mod snapshot;
pub mod status_text;
pub mod sync;
pub mod text;
