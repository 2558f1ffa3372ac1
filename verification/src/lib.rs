pub mod export;
pub mod geometry;
pub mod items;
pub mod model;
pub mod nearby;
pub mod order;
pub mod page;
pub mod party;
pub mod pattern;
pub mod remark;
pub mod rows;
pub mod scan;
pub mod stats;
pub mod text;
pub mod totals;
pub mod words;
