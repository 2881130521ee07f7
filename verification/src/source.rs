//! What the outside world hands in: the contents of files and the output of
//! commands.

use vstd::prelude::*;
use vstd::utf8::{decode_utf8, valid_utf8};

verus! {

/// What came of reading a file: its text, or why it could not be read.
pub type FileText = Result<String, String>;

/// The characters of a text or of an error.
pub open spec fn text_view(f: FileText) -> Result<Seq<char>, Seq<char>> {
    match f {
        Ok(t) => Ok(t@),
        Err(e) => Err(e@),
    }
}

/// What a command left behind when it ended.
pub struct CommandOutput {
    pub success: bool,
    /// The exit status in words.
    pub status: String,
    pub stdout: Vec<u8>,
    pub stderr: Vec<u8>,
}

/// The text that bytes are read as, each ill-formed part standing as a
/// replacement character.
pub uninterp spec fn lossy_text(bytes: Seq<u8>) -> Seq<char>;

/// Reads bytes as text.
///
/// Claims of `String::from_utf8_lossy` that its result is a function of the
/// bytes, and that bytes which are UTF-8 are read as the text they encode. How
/// ill-formed bytes are replaced is left unsaid.
#[verifier::external_body]
fn read_lossy(bytes: &[u8]) -> (r: String)
    ensures
        r@ == lossy_text(bytes@),
        valid_utf8(bytes@) ==> r@ == decode_utf8(bytes@),
{
    String::from_utf8_lossy(bytes).into_owned()
}

/// The text of some bytes: what they encode where they are UTF-8, else what they
/// are read as.
pub open spec fn decoded(bytes: Seq<u8>) -> Seq<char> {
    if valid_utf8(bytes) {
        decode_utf8(bytes)
    } else {
        lossy_text(bytes)
    }
}

/// Reads bytes as text.
pub fn decode(bytes: &[u8]) -> (r: String)
    ensures
        r@ == decoded(bytes@),
{
    read_lossy(bytes)
}

}
