use vstd::prelude::*;

verus! {

/// The LSP query whose results a picker shows.
#[derive(Clone, Copy, Debug, PartialEq, Eq, Structural)]
pub enum LspPickerKind {
    References,
}

impl LspPickerKind {
    /// The characters that the empty query field shows for this kind.
    pub open spec fn placeholder_chars(self) -> Seq<char> {
        match self {
            LspPickerKind::References => "Filter references…"@,
        }
    }

    /// What the empty query field shows for this kind.
    pub fn placeholder(self) -> (text: &'static str)
        ensures
            text@ == self.placeholder_chars(),
    {
        match self {
            LspPickerKind::References => "Filter references…",
        }
    }
}

} // verus!
