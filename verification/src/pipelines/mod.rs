mod line_loader;
pub use line_loader::gather;
pub use line_loader::line_texts;
pub use line_loader::picked;
pub use line_loader::reads_any;
pub use line_loader::span;
pub use line_loader::RandomLoader;
