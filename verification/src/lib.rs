//! Usage-history core of a taskbar widget that shows Anthropic, Codex and ZCode
//! usage: it orders and thins usage samples, decides which of them are fresh
//! enough to show, reads the usage records that the three clients leave behind
//! (as JSON trees), and writes the widget's own sample stores.

pub mod float_bits;
pub mod samples;
pub mod metric;
pub mod json;
pub mod persist;
pub mod codex;
pub mod zcode;
pub mod claude;
pub mod text;
pub mod clock;
pub mod files;
