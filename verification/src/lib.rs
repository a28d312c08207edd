pub mod text;
pub mod diffmodel;
pub mod parse_laws;
pub mod style;
pub mod highlight;
pub mod app;
pub mod project;
pub mod watch;
pub mod git;
pub mod ui;
pub mod args;
