use vstd::prelude::*;
use std::rc::Rc;

verus! {

/// What a dialog shows: the log of a container, reached through the agent at
/// `url` of environment `env`.
pub enum DialogType {
    ShowLogs { env: Rc<String>, url: String, container_id: String },
}

/// Whether a dialog is open, and if so its header and what it shows.
pub enum DialogState {
    Hidden,
    Shown { header: String, dialog_type: DialogType },
}

impl DialogState {
    /// Opens the dialog with `header`, showing `dialog_type`, in place of
    /// whatever was shown.
    pub fn show_dialog(&mut self, header: String, dialog_type: DialogType)
        ensures
            *final(self) == (DialogState::Shown { header, dialog_type }),
    {
        *self = DialogState::Shown { header, dialog_type };
    }

    /// Closes the dialog.
    pub fn hide_dialog(&mut self)
        ensures
            *final(self) == DialogState::Hidden,
    {
        *self = DialogState::Hidden;
    }

    /// The state itself.
    pub fn as_ref(&self) -> (r: &Self)
        ensures
            *r == *self,
    {
        self
    }
}

} // verus!
