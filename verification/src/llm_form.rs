//! The form for the LLM settings: four rows, one of them being edited.

use crate::config::{LlmConfig, LlmView};
use crate::draft::{Draft, DraftView};
use vstd::prelude::*;
use vstd::string::*;

verus! {

/// The labels of the rows: provider, model, API key, base URL.
pub const LLM_FIELD_LABELS: [&'static str; 4] = [
    "Provider (openai|openrouter|ollama|anthropic|gemini|custom)",
    "Model",
    "API key (empty = use env var)",
    "Base URL (optional, custom only)",
];

/// What the rows hold while they are not edited, and the row that is. The text
/// of that row is in the draft.
#[derive(Debug)]
pub struct LlmForm {
    pub provider: (String, usize),
    pub model: (String, usize),
    pub api_key: (String, usize),
    pub base_url: (String, usize),
    pub selected: usize,
}

/// What a [`LlmForm`] holds: the text and the cursor of each row.
#[verifier::ext_equal]
pub struct FormView {
    pub rows: Seq<(Seq<char>, nat)>,
    pub selected: nat,
}

impl View for LlmForm {
    type V = FormView;

    open spec fn view(&self) -> FormView {
        FormView {
            rows: seq![
                (self.provider.0@, self.provider.1 as nat),
                (self.model.0@, self.model.1 as nat),
                (self.api_key.0@, self.api_key.1 as nat),
                (self.base_url.0@, self.base_url.1 as nat),
            ],
            selected: self.selected as nat,
        }
    }
}

impl FormView {
    /// Four empty rows.
    pub open spec fn empty() -> FormView {
        let row = (Seq::<char>::empty(), 0nat);
        FormView { rows: seq![row, row, row, row], selected: 0 }
    }

    /// The row being edited.
    pub open spec fn row(self) -> nat {
        if self.selected <= 3 {
            self.selected
        } else {
            3
        }
    }

    /// The form filled with settings; the first row is edited.
    pub open spec fn filled(llm: LlmView) -> FormView {
        FormView {
            rows: seq![
                (llm.provider, llm.provider.len()),
                (llm.model, 0nat),
                (llm.api_key, 0nat),
                (
                    match llm.base_url {
                        Some(url) => url,
                        None => Seq::empty(),
                    },
                    0nat,
                ),
            ],
            selected: 0,
        }
    }

    /// What was typed put into the row being edited.
    pub open spec fn kept(self, draft: DraftView) -> FormView {
        FormView { rows: self.rows.update(self.row() as int, (draft.text, draft.at())), ..self }
    }

    /// What was typed kept, and the next or the previous row edited.
    pub open spec fn moved(self, draft: DraftView, down: bool) -> FormView {
        FormView {
            selected: if down {
                if self.row() < 3 {
                    self.row() + 1
                } else {
                    3
                }
            } else {
                if self.row() > 0 {
                    (self.row() - 1) as nat
                } else {
                    0
                }
            },
            ..self.kept(draft)
        }
    }

    /// The draft that edits a row.
    pub open spec fn draft_of(self, i: nat, draft: DraftView) -> DraftView {
        let (text, cursor) = self.rows[i as int];
        DraftView {
            text,
            cursor: if cursor <= text.len() {
                cursor
            } else {
                text.len()
            },
            ..draft
        }
    }

    /// What a row shows: the draft in the row being edited.
    pub open spec fn value(self, i: nat, draft: DraftView) -> Seq<char> {
        if i == self.row() {
            draft.text
        } else if i < 4 {
            self.rows[i as int].0
        } else {
            Seq::empty()
        }
    }
}

impl LlmForm {
    /// Four empty rows.
    pub fn new() -> (form: LlmForm)
        ensures
            form@ == FormView::empty(),
    {
        let form = LlmForm {
            provider: (String::new(), 0),
            model: (String::new(), 0),
            api_key: (String::new(), 0),
            base_url: (String::new(), 0),
            selected: 0,
        };
        assert(form@ =~~= FormView::empty());
        form
    }

    /// The form filled with settings.
    pub fn filled(llm: &LlmConfig) -> (form: LlmForm)
        ensures
            form@ == FormView::filled(llm@),
    {
        let url = match &llm.base_url {
            Some(url) => url.clone(),
            None => String::new(),
        };
        let form = LlmForm {
            provider: (llm.provider.clone(), llm.provider.as_str().unicode_len()),
            model: (llm.model.clone(), 0),
            api_key: (llm.api_key.clone(), 0),
            base_url: (url, 0),
            selected: 0,
        };
        assert(form@ =~~= FormView::filled(llm@));
        form
    }

    /// The row being edited.
    pub fn row(&self) -> (i: usize)
        ensures
            i == self@.row(),
            i <= 3,
    {
        if self.selected <= 3 {
            self.selected
        } else {
            3
        }
    }

    /// The text and the cursor of a row.
    pub fn get(&self, i: usize) -> (row: &(String, usize))
        requires
            i < 4,
        ensures
            (row.0@, row.1 as nat) == self@.rows[i as int],
    {
        if i == 0 {
            &self.provider
        } else if i == 1 {
            &self.model
        } else if i == 2 {
            &self.api_key
        } else {
            &self.base_url
        }
    }

    /// Puts what was typed into the row being edited.
    pub fn keep(&mut self, draft: &Draft)
        ensures
            final(self)@ == old(self)@.kept(draft@),
    {
        let i = self.row();
        let row = (draft.text.clone(), draft.at());
        if i == 0 {
            self.provider = row;
        } else if i == 1 {
            self.model = row;
        } else if i == 2 {
            self.api_key = row;
        } else {
            self.base_url = row;
        }
        assert(self@ =~~= old(self)@.kept(draft@));
    }

    /// Keeps what was typed and edits the next or the previous row.
    pub fn move_selection(&mut self, draft: &mut Draft, down: bool)
        ensures
            final(self)@ == old(self)@.moved(old(draft)@, down),
            final(draft)@ == final(self)@.draft_of(final(self)@.selected, old(draft)@),
    {
        self.keep(draft);
        let row = self.row();
        self.selected = if down {
            if row < 3 {
                row + 1
            } else {
                3
            }
        } else {
            if row > 0 {
                row - 1
            } else {
                0
            }
        };
        assert(self@ =~~= old(self)@.moved(old(draft)@, down));
        let (text, cursor) = self.get(self.selected);
        let n = text.as_str().unicode_len();
        draft.cursor = if *cursor <= n {
            *cursor
        } else {
            n
        };
        draft.text = text.clone();
    }

    /// What a row shows.
    pub fn value<'a>(&'a self, i: usize, draft: &'a Draft) -> (text: String)
        ensures
            text@ == self@.value(i as nat, draft@),
    {
        if i == self.row() {
            draft.text.clone()
        } else if i < 4 {
            self.get(i).0.clone()
        } else {
            String::new()
        }
    }
}

/// Going on to another row and back leaves what was typed as it was.
pub proof fn law_rows_are_kept(form: FormView, draft: DraftView)
    requires
        form.rows.len() == 4,
        form.selected < 3,
        draft.cursor <= draft.text.len(),
    ensures
        ({
            let down = form.moved(draft, true);
            let there = down.draft_of(down.selected, draft);
            let up = down.moved(there, false);
            up.selected == form.selected && up.draft_of(up.selected, there) == draft
        }),
{
}

} // verus!
