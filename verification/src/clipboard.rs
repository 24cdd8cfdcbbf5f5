//! Limits and small value types shared by the clipboard history pipeline.
use vstd::prelude::*;

verus! {

/// Most items the history keeps by default.
pub const CLIPBOARD_HISTORY_CAPACITY: u32 = 100;
/// Largest integer a JavaScript number holds exactly.
pub const JS_MAX_SAFE_INTEGER: u64 = 9_007_199_254_740_991;
/// Largest text item, in UTF-8 bytes.
pub const MAX_TEXT_BYTES: usize = 4_194_304;
/// Longest source application name, in characters.
pub const MAX_SOURCE_APPLICATION_CHARS: usize = 256;
/// Longest source process name, in characters.
pub const MAX_SOURCE_PROCESS_CHARS: usize = 512;
/// Longest history search, in characters.
pub const MAX_SEARCH_CHARS: usize = 256;

/// The kind of content a history item holds.
#[derive(Debug, Clone, Copy, PartialEq, Eq, Structural)]
pub enum ClipboardContentKind {
    Text,
    Image,
    Files,
}

/// The stored name of each content kind.
pub open spec fn content_kind_name(kind: ClipboardContentKind) -> Seq<char> {
    match kind {
        ClipboardContentKind::Text => seq!['t', 'e', 'x', 't'],
        ClipboardContentKind::Image => seq!['i', 'm', 'a', 'g', 'e'],
        ClipboardContentKind::Files => seq!['f', 'i', 'l', 'e', 's'],
    }
}

impl ClipboardContentKind {
    /// The stored name of this kind.
    pub fn as_str(self) -> (name: &'static str)
        ensures
            name@ == content_kind_name(self),
    {
        match self {
            ClipboardContentKind::Text => {
                let name = "text";
                proof {
                    reveal_strlit("text");
                }
                name
            },
            ClipboardContentKind::Image => {
                let name = "image";
                proof {
                    reveal_strlit("image");
                }
                name
            },
            ClipboardContentKind::Files => {
                let name = "files";
                proof {
                    reveal_strlit("files");
                }
                name
            },
        }
    }
}

/// Content the writer puts on the system clipboard.
#[derive(Debug, Clone, PartialEq, Eq)]
pub enum ClipboardWriteContent {
    Text(String),
    Image { width: u32, height: u32, rgba: Vec<u8> },
    Files { paths: Vec<Vec<u16>> },
}

} // verus!
