//! Clipboards: the interface the program copies and pastes through, one
//! that is never available, and one that keeps text in memory.

use vstd::prelude::*;

use crate::errors::ClipboardError;
use crate::text::owned;

verus! {

/// Something text can be copied to and pasted from.
pub trait ClipboardBackend: Send {
    fn get_text(&mut self) -> Result<String, ClipboardError>;

    fn set_text(&mut self, text: &str) -> Result<(), ClipboardError>;
}

/// A clipboard that is never available.
#[derive(Debug)]
pub struct UnavailableClipboard;

impl Default for UnavailableClipboard {
    fn default() -> (c: UnavailableClipboard) {
        UnavailableClipboard
    }
}

impl ClipboardBackend for UnavailableClipboard {
    fn get_text(&mut self) -> (r: Result<String, ClipboardError>)
        ensures
            r == Err::<String, ClipboardError>(ClipboardError::Unavailable),
    {
        Err(ClipboardError::Unavailable)
    }

    fn set_text(&mut self, text: &str) -> (r: Result<(), ClipboardError>)
        ensures
            r == Err::<(), ClipboardError>(ClipboardError::Unavailable),
    {
        Err(ClipboardError::Unavailable)
    }
}

/// A clipboard that keeps the last text written to it.
#[derive(Debug)]
pub struct MemoryClipboard {
    text: String,
}

impl View for MemoryClipboard {
    type V = Seq<char>;

    closed spec fn view(&self) -> Seq<char> {
        self.text@
    }
}

impl MemoryClipboard {
    /// An empty clipboard.
    pub fn new() -> (c: MemoryClipboard)
        ensures
            c@ == Seq::<char>::empty(),
    {
        MemoryClipboard { text: String::new() }
    }
}

impl Default for MemoryClipboard {
    fn default() -> (c: MemoryClipboard)
        ensures
            c@ == Seq::<char>::empty(),
    {
        MemoryClipboard::new()
    }
}

impl ClipboardBackend for MemoryClipboard {
    /// The text last written, or nothing.
    fn get_text(&mut self) -> (r: Result<String, ClipboardError>)
        ensures
            r matches Ok(s) && s@ == old(self)@,
            final(self)@ == old(self)@,
    {
        Ok(owned(self.text.as_str()))
    }

    /// Keeps `text`, in place of what was there.
    fn set_text(&mut self, text: &str) -> (r: Result<(), ClipboardError>)
        ensures
            r is Ok,
            final(self)@ == text@,
    {
        self.text = owned(text);
        Ok(())
    }
}

/// Reading a memory clipboard gives back the text written last, whatever
/// was written before: `states` are the clipboard before and after each of
/// the writes of `texts`, as `set_text` states them.
pub proof fn law_clipboard_gives_back_last_write(states: Seq<MemoryClipboard>, texts: Seq<Seq<char>>)
    requires
        texts.len() >= 1,
        states.len() == texts.len() + 1,
        forall|k: int| 0 <= k < texts.len() ==> (#[trigger] states[k + 1])@ == texts[k],
    ensures
        states.last()@ == texts.last(),
{
    let k = texts.len() - 1;
    assert((states[k + 1])@ == texts[k]);
}

} // verus!
