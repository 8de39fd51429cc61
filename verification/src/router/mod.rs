pub mod rule;
