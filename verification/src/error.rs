use vstd::prelude::*;

verus! {

/// The failure modes of saving and restoring sessions.
///
/// The `String` payloads carry the offending input, so that the caller can
/// report which line or field was rejected.
#[derive(Debug)]
pub enum TmuxError {
    /// The external multiplexer command exited with a non-zero status.
    Failed,
    /// A saved line did not hold exactly three tab-separated fields.
    WindowParsing(String),
    /// A geometry descriptor was not exactly four characters long.
    LayoutParsing(String),
    /// A pane descriptor did not hold exactly two delimiter-separated fields.
    PaneParsing(String),
    /// The save file could not be opened.
    OpenFile(String),
    /// The save file could not be written.
    WriteFile(String),
    /// The multiplexer's output was not valid UTF-8.
    Parsing,
    /// A numeric field of an older save-format variant could not be parsed.
    IntParsing,
}

} // verus!
