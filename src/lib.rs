//! A blog document parser with a Markdown-to-HTML renderer.
pub mod event;
mod pulldown;
pub mod text;
pub mod tokenize;
pub mod html;
pub mod date;
pub mod blog;
