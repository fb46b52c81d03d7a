//! What can be selected in the lists of the graphical player, and the
//! selection requests a developer can give it at start-up.

use vstd::prelude::*;
use vstd::string::*;

use crate::text::{chars_of, push_char, str_eq};

verus! {

/// Something selected in one of the lists.
#[derive(Debug, Clone, PartialEq, Eq)]
pub enum Selection {
    Nothing,
    Sample(String),
    Pattern(String),
}

/// The tabs of the list container.
#[derive(Debug, Clone, Copy, PartialEq, Eq, Structural)]
pub enum ListTab {
    Metadata,
    Samples,
    Patterns,
}

impl Default for Selection {
    fn default() -> (r: Selection)
        ensures
            r == Selection::Nothing,
    {
        Selection::Nothing
    }
}

impl Default for ListTab {
    fn default() -> (r: ListTab)
        ensures
            r == ListTab::Metadata,
    {
        ListTab::Metadata
    }
}

/// A selection as plain values.
pub enum SelectionSpec {
    Nothing,
    Sample(Seq<char>),
    Pattern(Seq<char>),
}

impl View for Selection {
    type V = SelectionSpec;

    open spec fn view(&self) -> SelectionSpec {
        match self {
            Selection::Nothing => SelectionSpec::Nothing,
            Selection::Sample(id) => SelectionSpec::Sample(id@),
            Selection::Pattern(id) => SelectionSpec::Pattern(id@),
        }
    }
}

/// Index of the first `:` of `s` at or after `i` (`s.len()` if none).
pub open spec fn colon_from(s: Seq<char>, i: int) -> int
    decreases s.len() - i,
{
    if i < 0 || i >= s.len() {
        s.len() as int
    } else if s[i] == ':' {
        i
    } else {
        colon_from(s, i + 1)
    }
}

/// What a request `kind:id` selects: `sample:<id>` and `pattern:<id>`
/// select that element in its tab; `tab:metadata`, `tab:samples` and
/// `tab:patterns` open a tab with nothing selected. The text is split at
/// its first `:`.
pub open spec fn selection_request(s: Seq<char>) -> Option<(SelectionSpec, ListTab)> {
    let c = colon_from(s, 0);
    if c >= s.len() {
        None
    } else {
        let kind = s.take(c);
        let id = s.skip(c + 1);
        if kind == "sample"@ {
            Some((SelectionSpec::Sample(id), ListTab::Samples))
        } else if kind == "pattern"@ {
            Some((SelectionSpec::Pattern(id), ListTab::Patterns))
        } else if kind == "tab"@ {
            if id == "metadata"@ {
                Some((SelectionSpec::Nothing, ListTab::Metadata))
            } else if id == "samples"@ {
                Some((SelectionSpec::Nothing, ListTab::Samples))
            } else if id == "patterns"@ {
                Some((SelectionSpec::Nothing, ListTab::Patterns))
            } else {
                None
            }
        } else {
            None
        }
    }
}

/// The characters `from..to` of `chars` as a string.
fn collect(chars: &Vec<char>, from: usize, to: usize) -> (r: String)
    requires
        from <= to <= chars@.len(),
    ensures
        r@ == chars@.subrange(from as int, to as int),
{
    let mut out = String::new();
    let mut i = from;
    while i < to
        invariant
            from <= i <= to <= chars@.len(),
            out@ == chars@.subrange(from as int, i as int),
        decreases to - i,
    {
        push_char(&mut out, chars[i]);
        assert(chars@.subrange(from as int, i + 1) =~= chars@.subrange(from as int, i as int).push(
            chars@[i as int],
        ));
        i = i + 1;
    }
    out
}

/// Reads a selection request (`sample:<id>`, `pattern:<id>`, `tab:<name>`).
pub fn parse_selection(text: &str) -> (r: Option<(Selection, ListTab)>)
    ensures
        match r {
            Some((sel, tab)) => selection_request(text@) == Some((sel@, tab)),
            None => selection_request(text@) is None,
        },
{
    let chars = chars_of(text);
    let n = chars.len();
    let mut c: usize = 0;
    while c < n && chars[c] != ':'
        invariant
            n == chars@.len(),
            c <= n,
            colon_from(chars@, 0) == colon_from(chars@, c as int),
        decreases n - c,
    {
        c = c + 1;
    }
    if c >= n {
        return None;
    }
    let kind = collect(&chars, 0, c);
    let id = collect(&chars, c + 1, n);
    assert(kind@ =~= text@.take(c as int));
    assert(id@ =~= text@.skip(c + 1));
    if str_eq(kind.as_str(), "sample") {
        Some((Selection::Sample(id), ListTab::Samples))
    } else if str_eq(kind.as_str(), "pattern") {
        Some((Selection::Pattern(id), ListTab::Patterns))
    } else if str_eq(kind.as_str(), "tab") {
        if str_eq(id.as_str(), "metadata") {
            Some((Selection::Nothing, ListTab::Metadata))
        } else if str_eq(id.as_str(), "samples") {
            Some((Selection::Nothing, ListTab::Samples))
        } else if str_eq(id.as_str(), "patterns") {
            Some((Selection::Nothing, ListTab::Patterns))
        } else {
            None
        }
    } else {
        None
    }
}


/// What is selected in the lists: one sample in the Samples tab, one
/// pattern in the Patterns tab, and which tab is open.
#[derive(Debug, Clone, PartialEq, Eq)]
pub struct ListSelection {
    /// The sample selected in the Samples tab.
    pub selected_sample: Option<String>,
    /// The pattern selected in the Patterns tab.
    pub selected_pattern: Option<String>,
    pub tab: ListTab,
}

pub open spec fn opt_text(o: Option<String>) -> Option<Seq<char>> {
    match o {
        Some(s) => Some(s@),
        None => None,
    }
}

impl ListSelection {
    /// Nothing selected, the first tab open.
    pub fn new() -> (r: ListSelection)
        ensures
            r.selected_sample is None,
            r.selected_pattern is None,
            r.tab == ListTab::Metadata,
    {
        ListSelection { selected_sample: None, selected_pattern: None, tab: ListTab::Metadata }
    }

    /// Selects `selection` in its own tab and opens that tab; `Nothing`
    /// clears both selections. Each tab keeps its own selection.
    pub fn select(&mut self, selection: Selection)
        ensures
            match selection@ {
                SelectionSpec::Nothing => {
                    &&& final(self).selected_sample is None
                    &&& final(self).selected_pattern is None
                    &&& final(self).tab == old(self).tab
                },
                SelectionSpec::Sample(id) => {
                    &&& opt_text(final(self).selected_sample) == Some(id)
                    &&& final(self).selected_pattern == old(self).selected_pattern
                    &&& final(self).tab == ListTab::Samples
                },
                SelectionSpec::Pattern(id) => {
                    &&& opt_text(final(self).selected_pattern) == Some(id)
                    &&& final(self).selected_sample == old(self).selected_sample
                    &&& final(self).tab == ListTab::Patterns
                },
            },
    {
        match selection {
            Selection::Nothing => {
                self.selected_sample = None;
                self.selected_pattern = None;
            },
            Selection::Sample(id) => {
                self.selected_sample = Some(id);
                self.tab = ListTab::Samples;
            },
            Selection::Pattern(id) => {
                self.selected_pattern = Some(id);
                self.tab = ListTab::Patterns;
            },
        }
    }
}

} // verus!
