/// Keyed entries kept in a list, and the mapping they stand for.
pub mod entries;
/// Expectations on a request, their reports, and ordered sets of them.
pub mod matchers;
/// The order in which keys are kept and written.
pub mod order;
/// The request model: its parser, its builders and its one-line rendering.
pub mod request;
/// Character-level helpers: splitting, and the std string functions relied on.
pub mod text;
