pub mod text;
pub mod order;
pub mod pattern;
pub mod hostlist;
pub mod hostlist_roundtrip;
pub mod states;
pub mod tres_map;
pub mod tres;
pub mod nodes;
pub mod filter;
pub mod jobs;
pub mod accounts;
pub mod tree;
pub mod tree_table;
pub mod preempt;
pub mod detail;
pub mod detail_table;
pub mod summary;
pub mod assoc;
pub mod db;
pub mod limits;
pub mod prometheus;
pub mod tui;
pub mod charts;
pub mod interface;
pub mod blocks;
pub mod compound;
pub mod screens;
